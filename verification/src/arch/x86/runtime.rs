//! Memory routines: fill, copy, move and compare bytes.
use vstd::prelude::*;

verus! {

/// Sets `s[from..from + count]` to `c`.
fn fill(s: &mut [u8], from: usize, count: usize, c: u8)
    requires
        from + count <= old(s)@.len(),
    ensures
        final(s)@.len() == old(s)@.len(),
        forall|i: int|
            0 <= i < final(s)@.len() ==> #[trigger] final(s)@[i] == if from <= i < from + count {
                c
            } else {
                old(s)@[i]
            },
{
    let len: usize = s.len();
    let mut i: usize = 0;
    while i < count
        invariant
            i <= count,
            s@.len() == len,
            from + count <= s@.len(),
            s@.len() == old(s)@.len(),
            forall|k: int|
                0 <= k < s@.len() ==> #[trigger] s@[k] == if from <= k < from + i {
                    c
                } else {
                    old(s)@[k]
                },
        decreases count - i,
    {
        s[from + i] = c;
        i = i + 1;
    }
}

/// Sets the first `n` bytes of `s` to `c`: single bytes until the count is
/// a multiple of four, then whole words.
fn memset_nonzero(s: &mut [u8], c: u8, n: usize)
    requires
        n <= old(s)@.len(),
    ensures
        final(s)@.len() == old(s)@.len(),
        forall|i: int|
            0 <= i < final(s)@.len() ==> #[trigger] final(s)@[i] == if i < n {
                c
            } else {
                old(s)@[i]
            },
{
    if n == 0 {
        return ;
    }
    if n == 1 {
        s[0] = c;
        return ;
    }
    let mut at: usize = 0;
    let mut left: usize = n;
    while left > 0
        invariant
            at + left == n,
            n <= s@.len(),
            s@.len() == old(s)@.len(),
            forall|k: int|
                0 <= k < s@.len() ==> #[trigger] s@[k] == if k < at {
                    c
                } else {
                    old(s)@[k]
                },
        decreases left,
    {
        if left % 4 == 0 {
            fill(s, at, left, c);
            at = at + left;
            left = 0;
        } else {
            let q = left % 4;
            fill(s, at, q, c);
            at = at + q;
            left = left - q;
        }
    }
}

/// Sets the first `n` bytes of `s` to the low byte of `c`.
pub fn memset(s: &mut [u8], c: i32, n: usize)
    requires
        n <= old(s)@.len(),
    ensures
        final(s)@.len() == old(s)@.len(),
        forall|i: int|
            0 <= i < final(s)@.len() ==> #[trigger] final(s)@[i] == if i < n {
                (c & 0xFF) as u8
            } else {
                old(s)@[i]
            },
{
    memset_nonzero(s, (c & 0xFF) as u8, n);
}

/// Stores `n` copies of the 16-bit value `c`, low byte first, from the
/// start of `dest`.
pub fn wmemset(dest: &mut [u8], c: u16, n: usize)
    requires
        2 * n <= old(dest)@.len(),
    ensures
        final(dest)@.len() == old(dest)@.len(),
        forall|i: int|
            0 <= i < final(dest)@.len() ==> #[trigger] final(dest)@[i] == if i < 2 * n {
                if i % 2 == 0 { (c % 256) as u8 } else { (c / 256) as u8 }
            } else {
                old(dest)@[i]
            },
{
    let lo = (c & 0xFF) as u8;
    let hi = (c >> 8) as u8;
    proof {
        assert(c & 0xFF == c % 256 && c >> 8 == c / 256) by (bit_vector);
    }
    let len: usize = dest.len();
    let mut i: usize = 0;
    while i < n
        invariant
            i <= n,
            dest@.len() == len,
            2 * n <= dest@.len(),
            dest@.len() == old(dest)@.len(),
            lo == c % 256,
            hi == c / 256,
            forall|k: int|
                0 <= k < dest@.len() ==> #[trigger] dest@[k] == if k < 2 * i {
                    if k % 2 == 0 { lo } else { hi }
                } else {
                    old(dest)@[k]
                },
        decreases n - i,
    {
        dest[2 * i] = lo;
        dest[2 * i + 1] = hi;
        i = i + 1;
    }
}

/// Stores `n` copies of the 32-bit value `c`, low byte first, from the
/// start of `s`.
pub fn dmemset(s: &mut [u8], c: u32, n: usize)
    requires
        4 * n <= old(s)@.len(),
    ensures
        final(s)@.len() == old(s)@.len(),
        forall|i: int|
            0 <= i < final(s)@.len() ==> #[trigger] final(s)@[i] == if i < 4 * n {
                ((c as nat / pow256(i % 4)) % 256) as u8
            } else {
                old(s)@[i]
            },
{
    let b0 = (c & 0xFF) as u8;
    let b1 = ((c >> 8) & 0xFF) as u8;
    let b2 = ((c >> 16) & 0xFF) as u8;
    let b3 = (c >> 24) as u8;
    proof {
        assert(c & 0xFF == c % 256 && (c >> 8) & 0xFF == (c / 0x100) % 256 && (c >> 16) & 0xFF == (c
            / 0x10000) % 256 && c >> 24 == (c / 0x100_0000) % 256) by (bit_vector);
    }
    let len: usize = s.len();
    let mut i: usize = 0;
    while i < n
        invariant
            i <= n,
            s@.len() == len,
            4 * n <= s@.len(),
            s@.len() == old(s)@.len(),
            b0 == (c as nat / pow256(0)) % 256,
            b1 == (c as nat / pow256(1)) % 256,
            b2 == (c as nat / pow256(2)) % 256,
            b3 == (c as nat / pow256(3)) % 256,
            forall|k: int|
                0 <= k < s@.len() ==> #[trigger] s@[k] == if k < 4 * i {
                    ((c as nat / pow256(k % 4)) % 256) as u8
                } else {
                    old(s)@[k]
                },
        decreases n - i,
    {
        s[4 * i] = b0;
        s[4 * i + 1] = b1;
        s[4 * i + 2] = b2;
        s[4 * i + 3] = b3;
        i = i + 1;
    }
}

/// `256^k` for `k` below 4.
pub open spec fn pow256(k: int) -> nat {
    if k == 0 {
        1
    } else if k == 1 {
        0x100
    } else if k == 2 {
        0x10000
    } else {
        0x100_0000
    }
}

/// Copies the first `n` bytes of `src` to the start of `dest`.
pub fn memcpy(dest: &mut [u8], src: &[u8], n: usize)
    requires
        n <= old(dest)@.len(),
        n <= src@.len(),
    ensures
        final(dest)@.len() == old(dest)@.len(),
        forall|i: int|
            0 <= i < final(dest)@.len() ==> #[trigger] final(dest)@[i] == if i < n {
                src@[i]
            } else {
                old(dest)@[i]
            },
{
    let mut i: usize = 0;
    while i < n
        invariant
            i <= n,
            n <= dest@.len(),
            n <= src@.len(),
            dest@.len() == old(dest)@.len(),
            forall|k: int|
                0 <= k < dest@.len() ==> #[trigger] dest@[k] == if k < i {
                    src@[k]
                } else {
                    old(dest)@[k]
                },
        decreases n - i,
    {
        dest[i] = src[i];
        i = i + 1;
    }
}

/// Copies `n` bytes of `buf` from `src` to `dest` as if through a
/// temporary: the two ranges may overlap, and the target ends up holding
/// what the source held.
pub fn copy_memory(buf: &mut [u8], dest: usize, src: usize, n: usize)
    requires
        dest + n <= old(buf)@.len(),
        src + n <= old(buf)@.len(),
    ensures
        final(buf)@.len() == old(buf)@.len(),
        forall|i: int|
            0 <= i < final(buf)@.len() ==> #[trigger] final(buf)@[i] == if dest <= i < dest + n {
                old(buf)@[src + (i - dest)]
            } else {
                old(buf)@[i]
            },
{
    let len: usize = buf.len();
    if src < dest {
        let mut i: usize = n;
        while i > 0
            invariant
                i <= n,
                src < dest,
                buf@.len() == len,
                dest + n <= buf@.len(),
                src + n <= buf@.len(),
                buf@.len() == old(buf)@.len(),
                forall|k: int|
                    0 <= k < buf@.len() ==> #[trigger] buf@[k] == if dest + i <= k < dest + n {
                        old(buf)@[src + (k - dest)]
                    } else {
                        old(buf)@[k]
                    },
            decreases i,
        {
            let b = buf[src + i - 1];
            buf[dest + i - 1] = b;
            i = i - 1;
        }
    } else {
        let mut i: usize = 0;
        while i < n
            invariant
                i <= n,
                src >= dest,
                buf@.len() == len,
                dest + n <= buf@.len(),
                src + n <= buf@.len(),
                buf@.len() == old(buf)@.len(),
                forall|k: int|
                    0 <= k < buf@.len() ==> #[trigger] buf@[k] == if dest <= k < dest + i {
                        old(buf)@[src + (k - dest)]
                    } else {
                        old(buf)@[k]
                    },
            decreases n - i,
        {
            let b = buf[src + i];
            buf[dest + i] = b;
            i = i + 1;
        }
    }
}

/// `m` after `k` single-byte moves with the direction flag set: byte `s`
/// to `d`, then `s - 1` to `d - 1`, and so on downwards.
pub open spec fn bytes_back(m: Seq<u8>, d: int, s: int, k: nat) -> Seq<u8>
    decreases k,
{
    if k == 0 {
        m
    } else {
        bytes_back(m.update(d, m[s]), d - 1, s - 1, (k - 1) as nat)
    }
}

/// `m` with the four bytes from `s` stored at `d`.
pub open spec fn copy4(m: Seq<u8>, d: int, s: int) -> Seq<u8> {
    Seq::new(m.len(), |i: int| if d <= i < d + 4 { m[s + (i - d)] } else { m[i] })
}

/// `m` after `k` four-byte moves with the direction flag set: the word at
/// `s` to `d`, then the word at `s - 4` to `d - 4`, and so on downwards.
pub open spec fn dwords_back(m: Seq<u8>, d: int, s: int, k: nat) -> Seq<u8>
    decreases k,
{
    if k == 0 {
        m
    } else {
        dwords_back(copy4(m, d, s), d - 4, s - 4, (k - 1) as nat)
    }
}

/// Bytes to move one at a time before the word moves of a copy of `n`
/// bytes ending at address `d`: enough to bring `d` to a multiple of four.
pub open spec fn head_bytes(d: int) -> int {
    (4 - d % 4) % 4
}

/// The memory `memmove` leaves when the source lies below the target: the
/// copy routine runs with the direction flag set, from `dest + n` and
/// `src + n` downwards. Fewer than 12 bytes move one at a time; otherwise
/// `head_bytes` of them do, then whole words, then the rest one at a time.
pub open spec fn memmove_back(m: Seq<u8>, dest: int, src: int, n: int) -> Seq<u8> {
    let d = dest + n;
    let s = src + n;
    if n <= 0 {
        m
    } else if n < 12 {
        bytes_back(m, d, s, n as nat)
    } else {
        let h = head_bytes(d);
        let w = (n - h) / 4;
        let r = (n - h) % 4;
        let m1 = bytes_back(m, d, s, h as nat);
        let m2 = dwords_back(m1, d - h, s - h, w as nat);
        bytes_back(m2, d - h - 4 * w, s - h - 4 * w, r as nat)
    }
}

fn move_bytes_back(buf: &mut [u8], d: usize, s: usize, k: usize)
    requires
        k > 0 ==> d < old(buf)@.len() && s < old(buf)@.len() && k <= d + 1 && k <= s + 1,
    ensures
        final(buf)@ == bytes_back(old(buf)@, d as int, s as int, k as nat),
        final(buf)@.len() == old(buf)@.len(),
{
    let len = buf.len();
    let mut i: usize = 0;
    while i < k
        invariant
            i <= k,
            buf@.len() == len,
            k > 0 ==> d < len && s < len && k <= d + 1 && k <= s + 1,
            bytes_back(buf@, d - i, s - i, (k - i) as nat) == bytes_back(
                old(buf)@,
                d as int,
                s as int,
                k as nat,
            ),
        decreases k - i,
    {
        let b = buf[s - i];
        buf[d - i] = b;
        i = i + 1;
    }
}

fn move_words_back(buf: &mut [u8], d: usize, s: usize, k: usize)
    requires
        k > 0 ==> d + 4 <= old(buf)@.len() && s + 4 <= old(buf)@.len() && 4 * (k - 1) <= d && 4 * (
        k - 1) <= s,
    ensures
        final(buf)@ == dwords_back(old(buf)@, d as int, s as int, k as nat),
        final(buf)@.len() == old(buf)@.len(),
{
    let len = buf.len();
    let mut i: usize = 0;
    while i < k
        invariant
            i <= k,
            buf@.len() == len,
            k > 0 ==> d + 4 <= len && s + 4 <= len && 4 * (k - 1) <= d && 4 * (k - 1) <= s,
            dwords_back(buf@, d - 4 * i, s - 4 * i, (k - i) as nat) == dwords_back(
                old(buf)@,
                d as int,
                s as int,
                k as nat,
            ),
        decreases k - i,
    {
        let at = d - 4 * i;
        let from = s - 4 * i;
        let b0 = buf[from];
        let b1 = buf[from + 1];
        let b2 = buf[from + 2];
        let b3 = buf[from + 3];
        let ghost before = buf@;
        buf[at] = b0;
        buf[at + 1] = b1;
        buf[at + 2] = b2;
        buf[at + 3] = b3;
        assert(buf@ =~= copy4(before, at as int, from as int));
        i = i + 1;
    }
}

/// `memmove` on `buf`, the memory from address 0 on, so that indices are
/// addresses. When the source lies at or above the target, the `n` bytes
/// from `src` are copied to `dest` front to back, which moves them exactly.
/// When it lies below, the copy runs backwards from `dest + n` and
/// `src + n` as `memmove_back` states: bytes `1..=n` (and, for 12 bytes or
/// more, some past them) are written, byte `dest` is left alone, and the
/// words it moves depend on the alignment of `dest + n`.
pub fn memmove(buf: &mut [u8], dest: usize, src: usize, n: usize)
    requires
        src >= dest ==> dest + n <= old(buf)@.len() && src + n <= old(buf)@.len(),
        src < dest && n > 0 ==> dest + n < old(buf)@.len() && src + n < old(buf)@.len(),
        src < dest && n >= 12 ==> dest + n - head_bytes(dest + n) + 4 <= old(buf)@.len() && src
            + n - head_bytes(dest + n) + 4 <= old(buf)@.len(),
    ensures
        final(buf)@.len() == old(buf)@.len(),
        src >= dest ==> forall|i: int|
            0 <= i < final(buf)@.len() ==> #[trigger] final(buf)@[i] == if dest <= i < dest + n {
                old(buf)@[src + (i - dest)]
            } else {
                old(buf)@[i]
            },
        src < dest ==> final(buf)@ == memmove_back(old(buf)@, dest as int, src as int, n as int),
{
    if src >= dest {
        copy_memory(buf, dest, src, n);
        return;
    }
    let len = buf.len();
    if n == 0 {
        return;
    }
    let d = dest + n;
    let s = src + n;
    if n < 12 {
        move_bytes_back(buf, d, s, n);
        return;
    }
    let h = (4 - d % 4) % 4;
    let rest = n - h;
    let w = rest / 4;
    let r = rest % 4;
    move_bytes_back(buf, d, s, h);
    move_words_back(buf, d - h, s - h, w);
    move_bytes_back(buf, d - h - 4 * w, s - h - 4 * w, r);
}

/// `a - b` modulo 256.
pub open spec fn byte_diff(a: u8, b: u8) -> i32 {
    if a >= b { (a - b) as i32 } else { (a + 256 - b) as i32 }
}

/// The difference `a - b` taken modulo 256.
fn wrapped_difference(a: u8, b: u8) -> (r: i32)
    ensures
        r == byte_diff(a, b),
{
    let d = a.wrapping_sub(b);
    d as i32
}

/// Compares the first `n` bytes: 0 when they agree, else the difference
/// (modulo 256) of the first pair of bytes that differ.
pub fn memcmp(s1: &[u8], s2: &[u8], n: usize) -> (r: i32)
    requires
        n <= s1@.len(),
        n <= s2@.len(),
    ensures
        (forall|i: int| 0 <= i < n ==> s1@[i] == s2@[i]) ==> r == 0,
        forall|k: int|
            0 <= k < n && s1@[k] != s2@[k] && (forall|j: int| 0 <= j < k ==> s1@[j] == s2@[j])
                ==> r == byte_diff(#[trigger] s1@[k], s2@[k]),
{
    let mut i: usize = 0;
    while i < n
        invariant
            i <= n,
            n <= s1@.len(),
            n <= s2@.len(),
            forall|j: int| 0 <= j < i ==> s1@[j] == s2@[j],
        decreases n - i,
    {
        let a = s1[i];
        let b = s2[i];
        if a != b {
            return wrapped_difference(a, b);
        }
        i = i + 1;
    }
    0
}

} // verus!
