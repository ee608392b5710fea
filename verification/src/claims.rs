//! The claims document carried by a session token: a single JSON object with
//! a `sub` field (the subject, an account identifier written in decimal), an
//! `iat` field (issued-at) and an `exp` field (expires-at), both in epoch
//! seconds. The writer produces exactly one shape; the reader accepts it and
//! nothing else.
use vstd::prelude::*;

use crate::digits::{dec_digits, is_digit, is_digit_run, spec_parse_u64, parse_u64_digits,
    u64_to_digits};

verus! {

/// `{"sub":"`
pub open spec fn claims_open() -> Seq<u8> {
    seq![0x7b, 0x22, 0x73, 0x75, 0x62, 0x22, 0x3a, 0x22]
}

/// `","iat":`
pub open spec fn claims_mid_iat() -> Seq<u8> {
    seq![0x22, 0x2c, 0x22, 0x69, 0x61, 0x74, 0x22, 0x3a]
}

/// `,"exp":`
pub open spec fn claims_mid_exp() -> Seq<u8> {
    seq![0x2c, 0x22, 0x65, 0x78, 0x70, 0x22, 0x3a]
}

/// The claims document for a subject written as `sub` (a run of decimal
/// digits) issued at `iat` and expiring at `exp`.
pub open spec fn claims_json(sub: Seq<u8>, iat: u64, exp: u64) -> Seq<u8> {
    claims_open() + sub + claims_mid_iat() + dec_digits(iat as nat) + claims_mid_exp()
        + dec_digits(exp as nat) + seq![0x7d]
}

/// True when `p` occurs in `s` at position `at`.
pub open spec fn has_seq_at(s: Seq<u8>, at: int, p: Seq<u8>) -> bool {
    0 <= at && at + p.len() <= s.len() && s.subrange(at, at + p.len()) == p
}

/// The first position at or after `from` holding byte `b`, or -1.
pub open spec fn find_byte(s: Seq<u8>, b: u8, from: int) -> int
    decreases s.len() - from,
{
    if from < 0 || from >= s.len() {
        -1
    } else if s[from] == b {
        from
    } else {
        find_byte(s, b, from + 1)
    }
}

/// The claims read from a document: `None` unless the document has exactly
/// the written shape.
pub open spec fn spec_parse_claims(s: Seq<u8>) -> Option<(Seq<u8>, u64, u64)> {
    if !has_seq_at(s, 0, claims_open()) {
        None
    } else {
        let q = find_byte(s, 0x22, 8);
        if q < 0 {
            None
        } else {
            let sub = s.subrange(8, q);
            if !is_digit_run(sub) || !has_seq_at(s, q, claims_mid_iat()) {
                None
            } else {
                let c = find_byte(s, 0x2c, q + 8);
                if c < 0 {
                    None
                } else {
                    match spec_parse_u64(s.subrange(q + 8, c)) {
                        None => None,
                        Some(iat) => {
                            if !has_seq_at(s, c, claims_mid_exp()) {
                                None
                            } else if s.len() < c + 9 || s[s.len() - 1] != 0x7d {
                                None
                            } else {
                                match spec_parse_u64(s.subrange(c + 7, s.len() - 1)) {
                                    None => None,
                                    Some(exp) => Some((sub, iat, exp)),
                                }
                            }
                        },
                    }
                }
            }
        }
    }
}

/// When no byte in `[from, k)` is `b` and `s[k]` is, the scan stops at `k`.
pub proof fn lemma_find_byte_at(s: Seq<u8>, b: u8, from: int, k: int)
    requires
        0 <= from <= k < s.len(),
        s[k] == b,
        forall|j: int| from <= j < k ==> s[j] != b,
    ensures
        find_byte(s, b, from) == k,
    decreases k - from,
{
    if from < k {
        lemma_find_byte_at(s, b, from + 1, k);
    }
}

/// Reading back a written claims document yields the written claims.
pub proof fn lemma_parse_claims_json(sub: Seq<u8>, iat: u64, exp: u64)
    requires
        is_digit_run(sub),
    ensures
        spec_parse_claims(claims_json(sub, iat, exp)) == Some((sub, iat, exp)),
{
    crate::digits::lemma_dec_digits_are_digits(iat as nat);
    crate::digits::lemma_dec_digits_are_digits(exp as nat);
    crate::digits::lemma_parse_dec_digits(iat);
    crate::digits::lemma_parse_dec_digits(exp);
    let s = claims_json(sub, iat, exp);
    let di = dec_digits(iat as nat);
    let de = dec_digits(exp as nat);
    let q = 8 + sub.len() as int;
    let c = q + 8 + di.len() as int;
    assert(s.subrange(0, 8) =~= claims_open());
    assert(s.subrange(8, q) =~= sub);
    assert(s.subrange(q, q + 8) =~= claims_mid_iat());
    assert(s.subrange(q + 8, c) =~= di);
    assert(s.subrange(c, c + 7) =~= claims_mid_exp());
    assert(s.subrange(c + 7, s.len() - 1) =~= de);
    assert(s[s.len() - 1] == 0x7d);
    lemma_find_byte_at(s, 0x22, 8, q);
    lemma_find_byte_at(s, 0x2c, q + 8, c);
    assert(spec_parse_claims(s) == Some((sub, iat, exp)));
}

/// True when `p` occurs in `s` at position `at`, checked byte by byte.
pub fn has_bytes_at(s: &[u8], at: usize, p: &[u8]) -> (r: bool)
    requires
        at <= s@.len(),
    ensures
        r == has_seq_at(s@, at as int, p@),
{
    if s.len() - at < p.len() {
        return false;
    }
    let mut i: usize = 0;
    while i < p.len()
        invariant
            at + p@.len() <= s@.len(),
            s@.len() <= usize::MAX,
            i <= p@.len(),
            forall|j: int| 0 <= j < i ==> s@[at + j] == p@[j],
        decreases p@.len() - i,
    {
        if s[at + i] != p[i] {
            proof {
                assert(s@.subrange(at as int, at + p@.len())[i as int] != p@[i as int]);
            }
            return false;
        }
        i = i + 1;
    }
    proof {
        assert(s@.subrange(at as int, at + p@.len()) =~= p@);
    }
    true
}

/// The first position at or after `from` holding byte `b`.
pub fn find_byte_from(s: &[u8], b: u8, from: usize) -> (r: Option<usize>)
    ensures
        match r {
            Some(k) => find_byte(s@, b, from as int) == k as int && from <= k < s@.len(),
            None => find_byte(s@, b, from as int) == -1,
        },
{
    let mut i: usize = from;
    if i >= s.len() {
        return None;
    }
    while i < s.len()
        invariant
            from <= i,
            find_byte(s@, b, from as int) == find_byte(s@, b, i as int),
        decreases s@.len() - i,
    {
        if s[i] == b {
            return Some(i);
        }
        i = i + 1;
    }
    None
}

/// Writes the claims document for `sub`, `iat` and `exp`.
pub fn claims_to_json(sub: &[u8], iat: u64, exp: u64) -> (r: Vec<u8>)
    ensures
        r@ == claims_json(sub@, iat, exp),
{
    let mut out: Vec<u8> = Vec::new();
    out.push(0x7b);
    out.push(0x22);
    out.push(0x73);
    out.push(0x75);
    out.push(0x62);
    out.push(0x22);
    out.push(0x3a);
    out.push(0x22);
    proof {
        assert(out@ =~= claims_open());
    }
    out.extend_from_slice(sub);
    let mut mid: Vec<u8> = Vec::new();
    mid.push(0x22);
    mid.push(0x2c);
    mid.push(0x22);
    mid.push(0x69);
    mid.push(0x61);
    mid.push(0x74);
    mid.push(0x22);
    mid.push(0x3a);
    proof {
        assert(mid@ =~= claims_mid_iat());
    }
    out.extend_from_slice(mid.as_slice());
    let di = u64_to_digits(iat);
    out.extend_from_slice(di.as_slice());
    let mut mide: Vec<u8> = Vec::new();
    mide.push(0x2c);
    mide.push(0x22);
    mide.push(0x65);
    mide.push(0x78);
    mide.push(0x70);
    mide.push(0x22);
    mide.push(0x3a);
    proof {
        assert(mide@ =~= claims_mid_exp());
    }
    out.extend_from_slice(mide.as_slice());
    let de = u64_to_digits(exp);
    out.extend_from_slice(de.as_slice());
    out.push(0x7d);
    proof {
        assert(out@ =~= claims_json(sub@, iat, exp));
    }
    out
}

/// Reads a claims document, accepting exactly the written shape.
pub fn parse_claims(s: &[u8]) -> (r: Option<(Vec<u8>, u64, u64)>)
    ensures
        match r {
            Some(t) => spec_parse_claims(s@) == Some((t.0@, t.1, t.2)),
            None => spec_parse_claims(s@) is None,
        },
{
    let mut open_lit: Vec<u8> = Vec::new();
    open_lit.push(0x7b);
    open_lit.push(0x22);
    open_lit.push(0x73);
    open_lit.push(0x75);
    open_lit.push(0x62);
    open_lit.push(0x22);
    open_lit.push(0x3a);
    open_lit.push(0x22);
    proof {
        assert(open_lit@ =~= claims_open());
    }
    if !has_bytes_at(s, 0, open_lit.as_slice()) {
        return None;
    }
    let q = match find_byte_from(s, 0x22, 8) {
        Some(k) => k,
        None => {
            return None;
        },
    };
    let mut sub: Vec<u8> = Vec::new();
    let mut i: usize = 8;
    while i < q
        invariant
            8 <= i <= q < s@.len(),
            has_seq_at(s@, 0, claims_open()),
            find_byte(s@, 0x22, 8) == q as int,
            sub@ =~= s@.subrange(8, i as int),
            forall|j: int| 0 <= j < sub@.len() ==> is_digit(#[trigger] sub@[j]),
        decreases q - i,
    {
        let b = s[i];
        if b < 0x30 || b > 0x39 {
            proof {
                assert(s@.subrange(8, q as int)[i - 8] == b);
                assert(!is_digit_run(s@.subrange(8, q as int)));
            }
            return None;
        }
        sub.push(b);
        i = i + 1;
        proof {
            assert(sub@ =~= s@.subrange(8, i as int));
        }
    }
    proof {
        assert(sub@ =~= s@.subrange(8, q as int));
    }
    if sub.len() == 0 {
        proof {
            assert(!is_digit_run(s@.subrange(8, q as int)));
        }
        return None;
    }
    proof {
        assert(forall|j: int| 0 <= j < sub@.len() ==> is_digit(#[trigger] sub@[j]));
        assert(is_digit_run(s@.subrange(8, q as int)));
    }
    let mut mid_lit: Vec<u8> = Vec::new();
    mid_lit.push(0x22);
    mid_lit.push(0x2c);
    mid_lit.push(0x22);
    mid_lit.push(0x69);
    mid_lit.push(0x61);
    mid_lit.push(0x74);
    mid_lit.push(0x22);
    mid_lit.push(0x3a);
    proof {
        assert(mid_lit@ =~= claims_mid_iat());
    }
    if !has_bytes_at(s, q, mid_lit.as_slice()) {
        return None;
    }
    if s.len() - 1 - q < 8 {
        proof {
            assert(find_byte(s@, 0x2c, q + 8) == -1);
        }
        return None;
    }
    let c = match find_byte_from(s, 0x2c, q + 8) {
        Some(k) => k,
        None => {
            return None;
        },
    };
    let iat_slice = &s[q + 8..c];
    proof {
        assert(iat_slice@ =~= s@.subrange(q + 8, c as int));
    }
    let iat = match parse_u64_digits(iat_slice) {
        Some(v) => v,
        None => {
            return None;
        },
    };
    let mut exp_lit: Vec<u8> = Vec::new();
    exp_lit.push(0x2c);
    exp_lit.push(0x22);
    exp_lit.push(0x65);
    exp_lit.push(0x78);
    exp_lit.push(0x70);
    exp_lit.push(0x22);
    exp_lit.push(0x3a);
    proof {
        assert(exp_lit@ =~= claims_mid_exp());
    }
    if !has_bytes_at(s, c, exp_lit.as_slice()) {
        return None;
    }
    if s.len() - c < 9 || s[s.len() - 1] != 0x7d {
        return None;
    }
    let exp_slice = &s[c + 7..s.len() - 1];
    proof {
        assert(exp_slice@ =~= s@.subrange(c + 7, s@.len() - 1));
    }
    let exp = match parse_u64_digits(exp_slice) {
        Some(v) => v,
        None => {
            return None;
        },
    };
    Some((sub, iat, exp))
}

} // verus!
