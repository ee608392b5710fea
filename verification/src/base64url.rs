//! Unpadded URL-safe base64, the encoding of the three segments of a session
//! token. Encoding is canonical (no padding, zero fill bits); the decoder
//! accepts exactly what the encoder produces.
use vstd::prelude::*;

verus! {

/// The alphabet byte for a 6-bit value.
pub open spec fn b64_byte(v: int) -> u8
    recommends
        0 <= v < 64,
{
    if v < 26 {
        (0x41 + v) as u8  // 'A'..'Z'
    } else if v < 52 {
        (0x61 + (v - 26)) as u8  // 'a'..'z'
    } else if v < 62 {
        (0x30 + (v - 52)) as u8  // '0'..'9'
    } else if v == 62 {
        0x2d  // '-'
    } else {
        0x5f  // '_'
    }
}

/// The 6-bit value of an alphabet byte, or -1 for a byte outside the alphabet.
pub open spec fn b64_val(b: u8) -> int {
    if 0x41 <= b <= 0x5a {
        b - 0x41
    } else if 0x61 <= b <= 0x7a {
        b - 0x61 + 26
    } else if 0x30 <= b <= 0x39 {
        b - 0x30 + 52
    } else if b == 0x2d {
        62
    } else if b == 0x5f {
        63
    } else {
        -1
    }
}

pub open spec fn is_b64_alphabet(b: u8) -> bool {
    b64_val(b) >= 0
}

/// The canonical unpadded URL-safe base64 encoding of a byte sequence.
pub open spec fn b64_enc(s: Seq<u8>) -> Seq<u8>
    decreases s.len(),
{
    if s.len() == 0 {
        Seq::empty()
    } else if s.len() == 1 {
        seq![b64_byte(s[0] as int / 4), b64_byte((s[0] % 4) * 16)]
    } else if s.len() == 2 {
        seq![
            b64_byte(s[0] as int / 4),
            b64_byte((s[0] % 4) * 16 + s[1] as int / 16),
            b64_byte((s[1] % 16) * 4),
        ]
    } else {
        seq![
            b64_byte(s[0] as int / 4),
            b64_byte((s[0] % 4) * 16 + s[1] as int / 16),
            b64_byte((s[1] % 16) * 4 + s[2] as int / 64),
            b64_byte(s[2] as int % 64),
        ] + b64_enc(s.skip(3))
    }
}

/// Decodes an unpadded URL-safe base64 sequence; `None` for a byte outside
/// the alphabet, an impossible length, or nonzero fill bits.
pub open spec fn b64_dec(s: Seq<u8>) -> Option<Seq<u8>>
    decreases s.len(),
{
    if s.len() == 0 {
        Some(Seq::empty())
    } else if s.len() == 1 {
        None
    } else if s.len() == 2 {
        if b64_val(s[0]) >= 0 && b64_val(s[1]) >= 0 && b64_val(s[1]) % 16 == 0 {
            Some(seq![(b64_val(s[0]) * 4 + b64_val(s[1]) / 16) as u8])
        } else {
            None
        }
    } else if s.len() == 3 {
        if b64_val(s[0]) >= 0 && b64_val(s[1]) >= 0 && b64_val(s[2]) >= 0 && b64_val(s[2]) % 4
            == 0 {
            Some(
                seq![
                    (b64_val(s[0]) * 4 + b64_val(s[1]) / 16) as u8,
                    ((b64_val(s[1]) % 16) * 16 + b64_val(s[2]) / 4) as u8,
                ],
            )
        } else {
            None
        }
    } else {
        if b64_val(s[0]) >= 0 && b64_val(s[1]) >= 0 && b64_val(s[2]) >= 0 && b64_val(s[3]) >= 0 {
            match b64_dec(s.skip(4)) {
                None => None,
                Some(rest) => Some(
                    seq![
                        (b64_val(s[0]) * 4 + b64_val(s[1]) / 16) as u8,
                        ((b64_val(s[1]) % 16) * 16 + b64_val(s[2]) / 4) as u8,
                        ((b64_val(s[2]) % 4) * 64 + b64_val(s[3])) as u8,
                    ] + rest,
                ),
            }
        } else {
            None
        }
    }
}

/// Every alphabet byte is ASCII and is not a separator dot.
pub proof fn lemma_alphabet_ascii(b: u8)
    ensures
        is_b64_alphabet(b) ==> b < 0x80 && b != 0x2e,
{
}

/// The alphabet byte of a 6-bit value reads back as that value.
pub proof fn lemma_byte_val(v: int)
    requires
        0 <= v < 64,
    ensures
        b64_val(b64_byte(v)) == v,
{
}

/// The encoding of any byte sequence stays within the alphabet.
pub proof fn lemma_enc_alphabet(s: Seq<u8>)
    ensures
        forall|i: int|
            0 <= i < b64_enc(s).len() ==> is_b64_alphabet(#[trigger] b64_enc(s)[i]),
    decreases s.len(),
{
    if s.len() == 0 {
    } else if s.len() <= 2 {
    } else {
        lemma_enc_alphabet(s.skip(3));
        assert forall|i: int| 0 <= i < b64_enc(s).len() implies is_b64_alphabet(
            #[trigger] b64_enc(s)[i],
        ) by {
            if i >= 4 {
                assert(b64_enc(s)[i] == b64_enc(s.skip(3))[i - 4]);
            }
        }
    }
}

/// One three-byte block: decoding the four alphabet bytes of the block
/// returns the block.
proof fn lemma_chunk_roundtrip(a: u8, b: u8, c: u8)
    ensures
        b64_val(b64_byte(a as int / 4)) * 4 + b64_val(
            b64_byte((a % 4) * 16 + b as int / 16),
        ) / 16 == a,
        b64_val(b64_byte((a % 4) * 16 + b as int / 16)) % 16 * 16 + b64_val(
            b64_byte((b % 16) * 4 + c as int / 64),
        ) / 4 == b,
        b64_val(b64_byte((b % 16) * 4 + c as int / 64)) % 4 * 64 + b64_val(
            b64_byte(c as int % 64),
        ) == c,
{
    lemma_byte_val(a as int / 4);
    lemma_byte_val((a as int % 4) * 16 + b as int / 16);
    lemma_byte_val((b as int % 16) * 4 + c as int / 64);
    lemma_byte_val(c as int % 64);
    assert((a / 4) * 4 + ((a % 4) * 16 + b / 16) / 16 == a) by (nonlinear_arith);
    assert(((a % 4) * 16 + b / 16) % 16 * 16 + ((b % 16) * 4 + c / 64) / 4 == b)
        by (nonlinear_arith);
    assert(((b % 16) * 4 + c / 64) % 4 * 64 + c % 64 == c) by (nonlinear_arith);
}

/// Decoding an encoding returns the bytes that were encoded.
pub proof fn lemma_dec_enc(s: Seq<u8>)
    ensures
        b64_dec(b64_enc(s)) == Some(s),
    decreases s.len(),
{
    if s.len() == 0 {
        assert(b64_dec(b64_enc(s)) == Some(s));
    } else if s.len() == 1 {
        lemma_byte_val(s[0] as int / 4);
        lemma_byte_val((s[0] as int % 4) * 16);
        assert((s[0] / 4) * 4 + ((s[0] % 4) * 16) / 16 == s[0]) by (nonlinear_arith);
        assert(((s[0] % 4) * 16) % 16 == 0) by (nonlinear_arith);
        assert(b64_dec(b64_enc(s)).unwrap() =~= s);
    } else if s.len() == 2 {
        lemma_byte_val(s[0] as int / 4);
        lemma_byte_val((s[0] as int % 4) * 16 + s[1] as int / 16);
        lemma_byte_val((s[1] as int % 16) * 4);
        assert((s[0] / 4) * 4 + ((s[0] % 4) * 16 + s[1] / 16) / 16 == s[0]) by (nonlinear_arith);
        assert(((s[0] % 4) * 16 + s[1] / 16) % 16 * 16 + ((s[1] % 16) * 4) / 4 == s[1])
            by (nonlinear_arith);
        assert(((s[1] % 16) * 4) % 4 == 0) by (nonlinear_arith);
        assert(b64_dec(b64_enc(s)).unwrap() =~= s);
    } else {
        lemma_dec_enc(s.skip(3));
        lemma_chunk_roundtrip(s[0], s[1], s[2]);
        lemma_byte_val(s[0] as int / 4);
        lemma_byte_val((s[0] as int % 4) * 16 + s[1] as int / 16);
        lemma_byte_val((s[1] as int % 16) * 4 + s[2] as int / 64);
        lemma_byte_val(s[2] as int % 64);
        let e = b64_enc(s);
        assert(e.skip(4) =~= b64_enc(s.skip(3)));
        assert(e.len() >= 4);
        if s.len() == 3 {
            assert(e.len() == 4);
        }
        assert(b64_dec(e).unwrap() =~= s);
    }
}

/// The exec form of `b64_byte`.
fn b64_byte_of(v: u8) -> (r: u8)
    requires
        v < 64,
    ensures
        r == b64_byte(v as int),
{
    if v < 26 {
        0x41 + v
    } else if v < 52 {
        0x61 + (v - 26)
    } else if v < 62 {
        0x30 + (v - 52)
    } else if v == 62 {
        0x2d
    } else {
        0x5f
    }
}

/// The exec form of `b64_val`: `None` outside the alphabet.
fn b64_val_of(b: u8) -> (r: Option<u8>)
    ensures
        match r {
            Some(v) => b64_val(b) == v as int && v < 64,
            None => b64_val(b) < 0,
        },
{
    if 0x41 <= b && b <= 0x5a {
        Some(b - 0x41)
    } else if 0x61 <= b && b <= 0x7a {
        Some(b - 0x61 + 26)
    } else if 0x30 <= b && b <= 0x39 {
        Some(b - 0x30 + 52)
    } else if b == 0x2d {
        Some(62)
    } else if b == 0x5f {
        Some(63)
    } else {
        None
    }
}

/// Encodes `s` as unpadded URL-safe base64.
pub fn b64url_encode(s: &[u8]) -> (r: Vec<u8>)
    ensures
        r@ == b64_enc(s@),
{
    let mut out: Vec<u8> = Vec::new();
    let mut i: usize = 0;
    proof {
        assert(s@.skip(0) =~= s@);
    }
    while 3 <= s.len() - i
        invariant
            i <= s@.len(),
            i % 3 == 0,
            b64_enc(s@) == out@ + b64_enc(s@.skip(i as int)),
        decreases s@.len() - i,
    {
        let a = s[i];
        let b = s[i + 1];
        let c = s[i + 2];
        out.push(b64_byte_of(a / 4));
        out.push(b64_byte_of((a % 4) * 16 + b / 16));
        out.push(b64_byte_of((b % 16) * 4 + c / 64));
        out.push(b64_byte_of(c % 64));
        proof {
            let t = s@.skip(i as int);
            assert(t[0] == a && t[1] == b && t[2] == c);
            assert(t.skip(3) =~= s@.skip(i + 3));
            assert(b64_enc(s@) =~= out@ + b64_enc(s@.skip(i + 3)));
        }
        i = i + 3;
    }
    let rem = s.len() - i;
    if rem == 1 {
        let a = s[i];
        out.push(b64_byte_of(a / 4));
        out.push(b64_byte_of((a % 4) * 16));
        proof {
            let t = s@.skip(i as int);
            assert(t.len() == 1 && t[0] == a);
            assert(b64_enc(s@) =~= out@);
        }
    } else if rem == 2 {
        let a = s[i];
        let b = s[i + 1];
        out.push(b64_byte_of(a / 4));
        out.push(b64_byte_of((a % 4) * 16 + b / 16));
        out.push(b64_byte_of((b % 16) * 4));
        proof {
            let t = s@.skip(i as int);
            assert(t.len() == 2 && t[0] == a && t[1] == b);
            assert(b64_enc(s@) =~= out@);
        }
    } else {
        proof {
            let t = s@.skip(i as int);
            assert(t.len() == 0);
            assert(b64_enc(s@) =~= out@);
        }
    }
    out
}

/// Decodes unpadded URL-safe base64, accepting exactly the canonical
/// encodings.
pub fn b64url_decode(s: &[u8]) -> (r: Option<Vec<u8>>)
    ensures
        match r {
            Some(v) => b64_dec(s@) == Some(v@),
            None => b64_dec(s@) is None,
        },
{
    let mut out: Vec<u8> = Vec::new();
    let mut i: usize = 0;
    proof {
        assert(s@.skip(0) =~= s@);
    }
    while 4 <= s.len() - i
        invariant
            i <= s@.len(),
            b64_dec(s@) == (match b64_dec(s@.skip(i as int)) {
                None => None::<Seq<u8>>,
                Some(rest) => Some(out@ + rest),
            }),
        decreases s@.len() - i,
    {
        let ghost t = s@.skip(i as int);
        proof {
            assert(t[0] == s@[i as int] && t[1] == s@[i + 1] && t[2] == s@[i + 2] && t[3] == s@[i
                + 3]);
            assert(t.skip(4) =~= s@.skip(i + 4));
        }
        let v0 = match b64_val_of(s[i]) {
            Some(v) => v,
            None => {
                return None;
            },
        };
        let v1 = match b64_val_of(s[i + 1]) {
            Some(v) => v,
            None => {
                return None;
            },
        };
        let v2 = match b64_val_of(s[i + 2]) {
            Some(v) => v,
            None => {
                return None;
            },
        };
        let v3 = match b64_val_of(s[i + 3]) {
            Some(v) => v,
            None => {
                return None;
            },
        };
        out.push(v0 * 4 + v1 / 16);
        out.push((v1 % 16) * 16 + v2 / 4);
        out.push((v2 % 4) * 64 + v3);
        i = i + 4;
        proof {
            if b64_dec(s@.skip(i as int)) is Some {
                let rest = b64_dec(s@.skip(i as int)).unwrap();
                assert(b64_dec(t).unwrap() =~= out@.subrange(
                    out@.len() - 3,
                    out@.len() as int,
                ) + rest);
                assert(out@.subrange(0, out@.len() - 3) + b64_dec(t).unwrap() =~= out@ + rest);
            }
        }
    }
    let ghost t = s@.skip(i as int);
    let rem = s.len() - i;
    if rem == 0 {
        proof {
            assert(t.len() == 0);
            assert(b64_dec(s@) == Some(out@ + Seq::<u8>::empty()));
            assert(out@ + Seq::<u8>::empty() =~= out@);
        }
        Some(out)
    } else if rem == 1 {
        None
    } else if rem == 2 {
        proof {
            assert(t.len() == 2 && t[0] == s@[i as int] && t[1] == s@[i + 1]);
        }
        let v0 = match b64_val_of(s[i]) {
            Some(v) => v,
            None => {
                return None;
            },
        };
        let v1 = match b64_val_of(s[i + 1]) {
            Some(v) => v,
            None => {
                return None;
            },
        };
        if v1 % 16 != 0 {
            return None;
        }
        out.push(v0 * 4 + v1 / 16);
        proof {
            assert(b64_dec(t).unwrap() =~= seq![out@.last()]);
            assert(out@.subrange(0, out@.len() - 1) + b64_dec(t).unwrap() =~= out@);
        }
        Some(out)
    } else {
        proof {
            assert(t.len() == 3 && t[0] == s@[i as int] && t[1] == s@[i + 1] && t[2] == s@[i + 2]);
        }
        let v0 = match b64_val_of(s[i]) {
            Some(v) => v,
            None => {
                return None;
            },
        };
        let v1 = match b64_val_of(s[i + 1]) {
            Some(v) => v,
            None => {
                return None;
            },
        };
        let v2 = match b64_val_of(s[i + 2]) {
            Some(v) => v,
            None => {
                return None;
            },
        };
        if v2 % 4 != 0 {
            return None;
        }
        out.push(v0 * 4 + v1 / 16);
        out.push((v1 % 16) * 16 + v2 / 4);
        proof {
            assert(b64_dec(t).unwrap() =~= out@.subrange(out@.len() - 2, out@.len() as int));
            assert(out@.subrange(0, out@.len() - 2) + b64_dec(t).unwrap() =~= out@);
        }
        Some(out)
    }
}

} // verus!
