//! Decimal rendering and parsing of unsigned 64-bit integers, used for the
//! textual fields of a session token (subject identifier, issued-at and
//! expires-at epoch seconds).
use vstd::prelude::*;

verus! {

/// The decimal digits of `n`, most significant first, as ASCII bytes.
pub open spec fn dec_digits(n: nat) -> Seq<u8>
    decreases n,
{
    if n < 10 {
        seq![(0x30 + n) as u8]
    } else {
        dec_digits(n / 10) + seq![(0x30 + n % 10) as u8]
    }
}

/// True when `b` is an ASCII decimal digit.
pub open spec fn is_digit(b: u8) -> bool {
    0x30 <= b <= 0x39
}

/// True when `s` is a non-empty run of ASCII decimal digits.
pub open spec fn is_digit_run(s: Seq<u8>) -> bool {
    s.len() > 0 && forall|i: int| 0 <= i < s.len() ==> is_digit(#[trigger] s[i])
}

/// The value read from a digit run, left to right: `None` when the run is
/// empty, holds a non-digit, or exceeds `u64::MAX`.
pub open spec fn spec_parse_u64(s: Seq<u8>) -> Option<u64>
    decreases s.len(),
{
    if s.len() == 0 {
        None
    } else if s.len() == 1 {
        if is_digit(s[0]) {
            Some((s[0] - 0x30) as u64)
        } else {
            None
        }
    } else {
        match spec_parse_u64(s.drop_last()) {
            None => None,
            Some(high) => {
                if !is_digit(s.last()) {
                    None
                } else if high > u64::MAX / 10 {
                    None
                } else if high == u64::MAX / 10 && (s.last() - 0x30) as u64 > u64::MAX % 10 {
                    None
                } else {
                    Some((high * 10 + (s.last() - 0x30)) as u64)
                }
            },
        }
    }
}

pub proof fn lemma_dec_digits_are_digits(n: nat)
    ensures
        is_digit_run(dec_digits(n)),
    decreases n,
{
    if n >= 10 {
        lemma_dec_digits_are_digits(n / 10);
    }
}

/// Rendering a value and reading the digits back yields the value.
pub proof fn lemma_parse_dec_digits(n: u64)
    ensures
        spec_parse_u64(dec_digits(n as nat)) == Some(n),
    decreases n,
{
    if n >= 10 {
        lemma_parse_dec_digits(n / 10);
        let s = dec_digits(n as nat);
        assert(s.drop_last() =~= dec_digits((n / 10) as nat));
        assert(n / 10 <= u64::MAX / 10) by (nonlinear_arith);
        assert(n / 10 == u64::MAX / 10 ==> n % 10 <= u64::MAX % 10) by (nonlinear_arith);
        assert((n / 10) * 10 + n % 10 == n) by (nonlinear_arith);
    }
}

/// A non-digit byte anywhere makes the run unreadable.
proof fn lemma_parse_nondigit(s: Seq<u8>, i: int)
    requires
        0 <= i < s.len(),
        !is_digit(s[i]),
    ensures
        spec_parse_u64(s) is None,
    decreases s.len(),
{
    if s.len() > 1 && i < s.len() - 1 {
        lemma_parse_nondigit(s.drop_last(), i);
    }
}

/// A failed parse of a non-empty prefix dooms every extension of it.
proof fn lemma_parse_none_extends(s: Seq<u8>, j: int)
    requires
        0 < j <= s.len(),
        spec_parse_u64(s.subrange(0, j)) is None,
    ensures
        spec_parse_u64(s) is None,
    decreases s.len() - j,
{
    if j == s.len() {
        assert(s.subrange(0, j) =~= s);
    } else {
        assert(s.subrange(0, j + 1).drop_last() =~= s.subrange(0, j));
        lemma_parse_none_extends(s, j + 1);
    }
}

/// Renders `n` in decimal, most significant digit first.
pub fn u64_to_digits(n: u64) -> (r: Vec<u8>)
    ensures
        r@ == dec_digits(n as nat),
{
    let mut out: Vec<u8> = Vec::new();
    let mut m: u64 = n;
    // collect the digits least significant first
    loop
        invariant_except_break
            dec_digits(n as nat) =~= dec_digits(m as nat) + out@.reverse(),
        ensures
            dec_digits(n as nat) =~= out@.reverse(),
        decreases m,
    {
        let ghost prev_out = out@;
        let d: u8 = (m % 10) as u8;
        out.push(0x30 + d);
        proof {
            assert(out@.reverse() =~= seq![(0x30 + m % 10) as u8] + prev_out.reverse());
        }
        if m < 10 {
            break;
        }
        m = m / 10;
    }
    // reverse into most significant first
    let mut r: Vec<u8> = Vec::new();
    let mut i: usize = out.len();
    while i > 0
        invariant
            i <= out.len(),
            r@ =~= out@.subrange(i as int, out@.len() as int).reverse(),
        decreases i,
    {
        i = i - 1;
        r.push(out[i]);
        proof {
            assert(r@ =~= out@.subrange(i as int, out@.len() as int).reverse());
        }
    }
    proof {
        assert(out@.subrange(0, out@.len() as int) =~= out@);
        assert(r@ =~= dec_digits(n as nat));
    }
    r
}

/// Reads an unsigned decimal value from `s`, rejecting empty input, any
/// non-digit byte, and values over `u64::MAX`.
pub fn parse_u64_digits(s: &[u8]) -> (r: Option<u64>)
    ensures
        r == spec_parse_u64(s@),
{
    if s.len() == 0 {
        return None;
    }
    let mut acc: u64 = 0;
    let mut i: usize = 0;
    while i < s.len()
        invariant
            0 < s@.len(),
            i <= s@.len(),
            i > 0 ==> spec_parse_u64(s@.subrange(0, i as int)) == Some(acc),
            i == 0 ==> acc == 0,
        decreases s@.len() - i,
    {
        let b = s[i];
        if b < 0x30 || b > 0x39 {
            proof {
                lemma_parse_nondigit(s@, i as int);
            }
            return None;
        }
        let d: u64 = (b - 0x30) as u64;
        if acc > u64::MAX / 10 || (acc == u64::MAX / 10 && d > u64::MAX % 10) {
            proof {
                // i > 0 here: at i == 0 the accumulator is still 0
                assert(s@.subrange(0, i + 1).drop_last() =~= s@.subrange(0, i as int));
                assert(spec_parse_u64(s@.subrange(0, i + 1)) is None);
                lemma_parse_none_extends(s@, i + 1);
            }
            return None;
        }
        let ghost prev = acc;
        acc = acc * 10 + d;
        i = i + 1;
        proof {
            assert(s@.subrange(0, i as int).drop_last() =~= s@.subrange(0, i - 1));
            assert(s@.subrange(0, i as int).last() == b);
            if i == 1 {
                assert(s@.subrange(0, 1)[0] == b);
            }
        }
    }
    proof {
        assert(s@.subrange(0, s@.len() as int) =~= s@);
    }
    Some(acc)
}

} // verus!
