//! ELF executables: little-endian fields read from bytes.
use vstd::prelude::*;

pub mod elf32;
pub mod elf64;

use crate::kernel::elf::elf32::Elf32_Ehdr;
use crate::kernel::elf::elf64::Elf64_Ehdr;

verus! {

/// The little-endian number held by the bytes `s`.
pub open spec fn le(s: Seq<u8>) -> nat
    decreases s.len(),
{
    if s.len() == 0 {
        0
    } else {
        (s[0] + 256 * le(s.drop_first())) as nat
    }
}

/// Four bytes read as a little-endian number.
pub fn le_u32(b: &[u8; 4]) -> (v: u32)
    ensures
        v == le(b@),
{
    proof {
        reveal_with_fuel(le, 5);
        assert(b@.drop_first().drop_first().drop_first().drop_first() =~= Seq::<u8>::empty());
    }
    b[0] as u32 + 256 * (b[1] as u32 + 256 * (b[2] as u32 + 256 * (b[3] as u32)))
}

/// Eight bytes read as a little-endian number.
pub fn le_u64(b: &[u8; 8]) -> (v: u64)
    ensures
        v == le(b@),
{
    proof {
        reveal_with_fuel(le, 9);
        assert(b@.drop_first().drop_first().drop_first().drop_first().drop_first().drop_first().drop_first().drop_first() =~= Seq::<u8>::empty());
    }
    b[0] as u64 + 256 * (b[1] as u64 + 256 * (b[2] as u64 + 256 * (b[3] as u64 + 256 * (
    b[4] as u64 + 256 * (b[5] as u64 + 256 * (b[6] as u64 + 256 * (b[7] as u64)))))))
}



/// A loadable segment: `filesz` bytes of the file from `offset` go to
/// virtual address `vaddr`, and the segment takes `memsz` bytes in memory.
pub struct Segment {
    pub vaddr: u64,
    pub offset: u64,
    pub filesz: u64,
    pub memsz: u64,
}

impl Segment {
    /// Loads the segment into `mem`, the memory from address `base` on: the
    /// `filesz` bytes of `file` from `offset` go to `vaddr`, and the
    /// `memsz - filesz` bytes the segment takes beyond them are zeroed from
    /// `offset + filesz` bytes past `vaddr` on. The segment takes at least
    /// as many bytes in memory as in the file.
    pub fn load(&self, file: &[u8], mem: &mut [u8], base: u64)
        requires
            self.memsz >= self.filesz,
            base <= self.vaddr,
            self.offset + self.filesz <= file@.len(),
            self.vaddr - base + self.filesz <= old(mem)@.len(),
            self.memsz > self.filesz ==> self.vaddr - base + self.offset + self.memsz <= old(
                mem,
            )@.len(),
        ensures
            final(mem)@.len() == old(mem)@.len(),
            forall|i: int|
                0 <= i < final(mem)@.len() ==> #[trigger] final(mem)@[i] == ({
                    let d = self.vaddr - base;
                    if d <= i < d + self.filesz {
                        file@[self.offset + (i - d)]
                    } else if d + self.offset + self.filesz <= i < d + self.offset + self.memsz {
                        0u8
                    } else {
                        old(mem)@[i]
                    }
                }),
    {
        let len: usize = mem.len();
        let flen: usize = file.len();
        let d: usize = (self.vaddr - base) as usize;
        let off: usize = self.offset as usize;
        let fsz: usize = self.filesz as usize;
        let mut i: usize = 0;
        while i < fsz
            invariant
                i <= fsz,
                mem@.len() == len,
                len == old(mem)@.len(),
                file@.len() == flen,
                d == self.vaddr - base,
                off == self.offset,
                fsz == self.filesz,
                d + fsz <= len,
                off + fsz <= flen,
                forall|k: int|
                    0 <= k < len ==> #[trigger] mem@[k] == if d <= k < d + i {
                        file@[off + (k - d)]
                    } else {
                        old(mem)@[k]
                    },
            decreases fsz - i,
        {
            mem[d + i] = file[off + i];
            i = i + 1;
        }
        if self.memsz > self.filesz {
            let start: usize = d + off + fsz;
            let count: usize = (self.memsz - self.filesz) as usize;
            let ghost copied = mem@;
            let mut j: usize = 0;
            while j < count
                invariant
                    j <= count,
                    mem@.len() == len,
                    start == d + off + fsz,
                    start + count <= len,
                    forall|k: int|
                        0 <= k < len ==> #[trigger] mem@[k] == if start <= k < start + j {
                            0u8
                        } else {
                            copied[k]
                        },
                decreases count - j,
            {
                mem[start + j] = 0;
                j = j + 1;
            }
        }
    }
}

/// What loading an executable does: the segments to load, in order, and
/// the entry address.
pub struct Image {
    pub entry: u64,
    pub segments: Vec<Segment>,
}

/// The little-endian field of `n` bytes at `at`.
pub open spec fn field(b: Seq<u8>, at: nat, n: nat) -> nat {
    le(b.subrange(at as int, (at + n) as int))
}

proof fn lemma_le_bound(s: Seq<u8>)
    ensures
        s.len() <= 8 ==> le(s) < vstd::arithmetic::power2::pow2(8 * s.len()),
    decreases s.len(),
{
    if s.len() > 0 && s.len() <= 8 {
        lemma_le_bound(s.drop_first());
        vstd::arithmetic::power2::lemma_pow2_adds(8, 8 * (s.len() - 1) as nat);
        vstd::arithmetic::power2::lemma2_to64();
        assert(8 + 8 * (s.len() - 1) == 8 * s.len());
    } else if s.len() == 0 {
        vstd::arithmetic::power2::lemma2_to64();
    }
}

/// Reads the little-endian field of `n` (at most 8) bytes at `at`.
pub fn read_le(buf: &[u8], at: usize, n: usize) -> (v: u64)
    requires
        at + n <= buf@.len(),
        n <= 8,
    ensures
        v == field(buf@, at as nat, n as nat),
{
    let mut v: u64 = 0;
    let mut i: usize = n;
    let len = buf.len();
    while i > 0
        invariant
            len == buf@.len(),
            i <= n <= 8,
            at + n <= buf@.len(),
            v == le(buf@.subrange(at + i, at + n)),
        decreases i,
    {
        let ghost rest = buf@.subrange(at + i, at + n);
        let ghost next = buf@.subrange(at + i - 1, at + n);
        proof {
            assert(next.drop_first() =~= rest);
            lemma_le_bound(next);
            lemma_le_bound(rest);
            vstd::arithmetic::power2::lemma2_to64();
            vstd::arithmetic::power2::lemma2_to64_rest();
            assert(8 * rest.len() <= 56);
            if 8 * rest.len() < 56 {
                vstd::arithmetic::power2::lemma_pow2_strictly_increases(8 * rest.len(), 56);
            }
            assert(v < 0x100_0000_0000_0000);
        }
        v = v * 256 + buf[at + i - 1] as u64;
        i = i - 1;
    }
    v
}

/// The segment described by the 32-bit program header at `ph`.
pub open spec fn segment32(b: Seq<u8>, ph: nat) -> Segment {
    Segment {
        vaddr: field(b, ph + 8, 4) as u64,
        offset: field(b, ph + 4, 4) as u64,
        filesz: field(b, ph + 16, 4) as u64,
        memsz: field(b, ph + 20, 4) as u64,
    }
}

/// The segment described by the 64-bit program header at `ph`.
pub open spec fn segment64(b: Seq<u8>, ph: nat) -> Segment {
    Segment {
        vaddr: field(b, ph + 16, 8) as u64,
        offset: field(b, ph + 8, 8) as u64,
        filesz: field(b, ph + 32, 8) as u64,
        memsz: field(b, ph + 40, 8) as u64,
    }
}

/// The bytes of `b` hold every field that loading reads: the class byte,
/// the whole header of that class and, when it counts any program header,
/// the first one.
pub open spec fn readable(b: Seq<u8>) -> bool {
    &&& b.len() >= 5
    &&& b[4] == 1 ==> b.len() >= 52 && (field(b, 44, 2) > 0 ==> field(b, 28, 4) + 32 <= b.len())
    &&& b[4] == 2 ==> b.len() >= 64 && (field(b, 56, 2) > 0 ==> field(b, 32, 8) + 56 <= b.len())
}

/// The load plan of an executable: the entry address, and the program
/// header found at the header table's offset, once per header counted in
/// `e_phnum`, whatever its type. `None` when the class is neither 32-bit
/// (1) nor 64-bit (2).
pub open spec fn load_spec(b: Seq<u8>) -> Option<(u64, Seq<Segment>)> {
    if b[4] == 1 {
        Some(load32_spec(b))
    } else if b[4] == 2 {
        Some(load64_spec(b))
    } else {
        None
    }
}

/// `load_spec` for a file with a 32-bit header.
pub open spec fn load32_spec(b: Seq<u8>) -> (u64, Seq<Segment>) {
    let entry = field(b, 24, 4);
    let phoff = field(b, 28, 4);
    let phnum = field(b, 44, 2);
    if phnum == 0 {
        (entry as u64, Seq::empty())
    } else {
        (entry as u64, Seq::new(phnum, |i: int| segment32(b, phoff)))
    }
}

/// `load_spec` for a file with a 64-bit header.
pub open spec fn load64_spec(b: Seq<u8>) -> (u64, Seq<Segment>) {
    let entry = field(b, 24, 8);
    let phoff = field(b, 32, 8);
    let phnum = field(b, 56, 2);
    if phnum == 0 {
        (entry as u64, Seq::empty())
    } else {
        (entry as u64, Seq::new(phnum, |i: int| segment64(b, phoff)))
    }
}

/// `n` copies of segment `s`.
fn repeat(s: &Segment, n: u64) -> (v: Vec<Segment>)
    ensures
        v@ == Seq::new(n as nat, |i: int| *s),
{
    let mut v: Vec<Segment> = Vec::new();
    let mut i: u64 = 0;
    while i < n
        invariant
            i <= n,
            v@ == Seq::new(i as nat, |j: int| *s),
        decreases n - i,
    {
        v.push(Segment { vaddr: s.vaddr, offset: s.offset, filesz: s.filesz, memsz: s.memsz });
        proof {
            assert(v@ =~= Seq::new((i + 1) as nat, |j: int| *s));
        }
        i = i + 1;
    }
    v
}

/// The identification bytes at the start of an ELF file.
pub struct ELFIdent {
    pub ei_mag: [u8; 4],
    pub ei_class: u8,
    pub ei_data: u8,
    pub ei_version: u8,
    pub ei_osabi: u8,
    pub ei_abiversion: u8,
    pub ei_pad: [u8; 7],
}

impl Elf32_Ehdr {
    /// Reads the load plan of the 32-bit executable in `buffer`, whose
    /// header it starts with; see `load32_spec`. The buffer holds the header
    /// and, when one is counted, the first program header.
    pub fn load(buffer: &[u8]) -> (img: Image)
        requires
            buffer@.len() >= 52,
            field(buffer@, 44, 2) > 0 ==> field(buffer@, 28, 4) + 32 <= buffer@.len(),
        ensures
            load32_spec(buffer@) == (img.entry, img.segments@),
    {
        let entry = read_le(buffer, 24, 4);
        let phoff = read_le(buffer, 28, 4);
        let phnum = read_le(buffer, 44, 2);
        if phnum == 0 {
            let segments: Vec<Segment> = Vec::new();
            proof {
                assert(segments@ =~= Seq::<Segment>::empty());
            }
            return Image { entry, segments };
        }
        let blen: usize = buffer.len();
        assert(phoff + 32 <= blen);
        let ph = phoff as usize;
        let s = Segment {
            vaddr: read_le(buffer, ph + 8, 4),
            offset: read_le(buffer, ph + 4, 4),
            filesz: read_le(buffer, ph + 16, 4),
            memsz: read_le(buffer, ph + 20, 4),
        };
        let segments = repeat(&s, phnum);
        Image { entry, segments }
    }
}

impl Elf64_Ehdr {
    /// Reads the load plan of the 64-bit executable in `buffer`, whose
    /// header it starts with; see `load64_spec`. The buffer holds the header
    /// and, when one is counted, the first program header.
    pub fn load(buffer: &[u8]) -> (img: Image)
        requires
            buffer@.len() >= 64,
            field(buffer@, 56, 2) > 0 ==> field(buffer@, 32, 8) + 56 <= buffer@.len(),
        ensures
            load64_spec(buffer@) == (img.entry, img.segments@),
    {
        let entry = read_le(buffer, 24, 8);
        let phoff = read_le(buffer, 32, 8);
        let phnum = read_le(buffer, 56, 2);
        if phnum == 0 {
            let segments: Vec<Segment> = Vec::new();
            proof {
                assert(segments@ =~= Seq::<Segment>::empty());
            }
            return Image { entry, segments };
        }
        let blen: usize = buffer.len();
        assert(phoff + 56 <= blen);
        let ph = phoff as usize;
        let s = Segment {
            vaddr: read_le(buffer, ph + 16, 8),
            offset: read_le(buffer, ph + 8, 8),
            filesz: read_le(buffer, ph + 32, 8),
            memsz: read_le(buffer, ph + 40, 8),
        };
        let segments = repeat(&s, phnum);
        Image { entry, segments }
    }
}

impl ELFIdent {
    /// Reads the executable in `buffer` by its class; see `load_spec`.
    /// (The file's magic number, version and byte order are not checked.)
    /// The buffer holds every field that is read.
    pub fn load(buffer: &[u8]) -> (r: Option<Image>)
        requires
            readable(buffer@),
        ensures
            match r {
                Some(img) => load_spec(buffer@) == Some((img.entry, img.segments@)),
                None => load_spec(buffer@) is None,
            },
    {
        if buffer[4] == 1 {
            Some(Elf32_Ehdr::load(buffer))
        } else if buffer[4] == 2 {
            Some(Elf64_Ehdr::load(buffer))
        } else {
            None
        }
    }
}

} // verus!
