//! Integer helpers: counting loops and digit strings.
use vstd::prelude::*;

verus! {

/// Calls `it` on each of `lo`, `lo + 1`, ..., `hi - 1`, in order.
pub fn range<F: Fn(usize)>(lo: usize, hi: usize, it: F)
    requires
        forall|i: usize| lo <= i < hi ==> #[trigger] it.requires((i,)),
{
    let mut iter = lo;
    while iter < hi
        invariant
            lo <= iter,
            forall|i: usize| lo <= i < hi ==> #[trigger] it.requires((i,)),
        decreases hi - iter,
    {
        it(iter);
        iter = iter + 1;
    }
}

/// The character of digit `d`: `0`-`9`, then `a`-`z`.
pub open spec fn digit_char(d: nat) -> u8 {
    if d <= 9 {
        (48 + d) as u8
    } else {
        (97 + d - 10) as u8
    }
}

/// The characters that the digit loop of `to_str_bytes` produces, least
/// significant first, once the quotient it carries is `q`: it divides `q`
/// by `radix` again and stops at zero, or else takes the remainder of the
/// new quotient as the next digit.
pub open spec fn later_digits(q: nat, radix: nat) -> Seq<u8>
    decreases q,
{
    if radix < 2 || q / radix == 0 {
        Seq::empty()
    } else {
        proof {
            assert(q / radix < q) by (nonlinear_arith)
                requires
                    q / radix != 0,
                    radix >= 2,
            ;
        }
        seq![digit_char((q / radix) % radix)] + later_digits(q / radix, radix)
    }
}

/// The magnitude of `num`.
pub open spec fn magnitude(num: i64) -> nat {
    if num < 0 {
        (-num) as nat
    } else {
        num as nat
    }
}

/// The text that `to_str_bytes` gives for `num` in base `radix`: a `-` for
/// a negative number, then, most significant first, the digit of the
/// magnitude's remainder and the digits that `later_digits` takes from its
/// quotient. The quotient is divided once more before each later digit is
/// taken, so the second-lowest digit is skipped: 123 gives `13`, 42 gives
/// `2`, and numbers below the radix their one digit.
pub open spec fn number_text(num: i64, radix: nat) -> Seq<u8> {
    let m = magnitude(num);
    let low = seq![digit_char(m % radix)] + later_digits(m / radix, radix);
    if num < 0 {
        seq![45u8] + backwards(low)
    } else {
        backwards(low)
    }
}

/// `s` in reverse order.
pub open spec fn backwards(s: Seq<u8>) -> Seq<u8> {
    Seq::new(s.len(), |j: int| s[s.len() - 1 - j])
}

/// The characters of `num` written in base `radix` (2 to 36) by the
/// kernel's digit loop; see `number_text`.
pub fn to_str_bytes(num: i64, radix: u32) -> (text: Vec<u8>)
    requires
        2 <= radix <= 36,
    ensures
        text@ == number_text(num, radix as nat),
{
    let neg = num < 0;
    let m: u64 = if neg {
        ((-(num + 1)) as u64) + 1
    } else {
        num as u64
    };
    let r = radix as u64;
    let ghost low = seq![digit_char((m % r) as nat)] + later_digits((m / r) as nat, r as nat);
    // digits, least significant first
    let mut buf: Vec<u8> = Vec::new();
    let mut deccum: u64 = m / r;
    let mut digit: u64 = m % r;
    loop
        invariant_except_break
            low == buf@ + seq![digit_char(digit as nat)] + later_digits(deccum as nat, r as nat),
            digit < r,
        invariant
            2 <= r <= 36,
            r == radix,
        ensures
            low == buf@,
        decreases deccum,
    {
        let d = digit as u8;
        let c = if d <= 9 {
            48u8 + d
        } else {
            97u8 + (d - 10)
        };
        let ghost before = buf@;
        buf.push(c);
        proof {
            assert(c == digit_char(digit as nat));
            assert(buf@ == before + seq![c]);
        }
        let next = deccum / r;
        if next == 0 {
            proof {
                assert(later_digits(deccum as nat, r as nat) =~= Seq::<u8>::empty());
                assert(low =~= buf@);
            }
            break;
        }
        proof {
            assert(next < deccum) by (nonlinear_arith)
                requires
                    next == deccum / r,
                    next != 0,
                    r >= 2,
            ;
            assert(later_digits(deccum as nat, r as nat) == seq![digit_char((next % r) as nat)]
                + later_digits(next as nat, r as nat));
            assert(low =~= buf@ + seq![digit_char((next % r) as nat)] + later_digits(next as nat, r as nat));
        }
        deccum = next;
        digit = next % r;
    }
    let mut text: Vec<u8> = Vec::new();
    if neg {
        text.push(45u8);
    }
    let ghost prefix = text@;
    let mut cur = buf.len();
    while cur > 0
        invariant
            cur <= buf@.len(),
            text@ == prefix + backwards(buf@).take(buf@.len() - cur),
        decreases cur,
    {
        cur = cur - 1;
        text.push(buf[cur]);
        proof {
            assert(backwards(buf@).take(buf@.len() - cur) =~= backwards(buf@).take(
                buf@.len() - cur - 1,
            ).push(buf@[cur as int]));
        }
    }
    proof {
        assert(backwards(buf@).take(buf@.len() as int) =~= backwards(buf@));
        assert(m == magnitude(num));
    }
    text
}

} // verus!
