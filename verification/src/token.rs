//! Session tokens: a compact signed credential of three dot-separated
//! segments — the base64 header, the base64 claims document, and an
//! HMAC-SHA256 signature over the first two segments. Framing and parsing are
//! verified; the signature itself is computed and checked by the
//! `jsonwebtoken` crate behind the two trusted wrappers below.
use vstd::prelude::*;

use crate::base64url::{b64_dec, b64_enc, b64url_decode, b64url_encode, is_b64_alphabet,
    lemma_alphabet_ascii, lemma_dec_enc, lemma_enc_alphabet};
use crate::claims::{claims_json, claims_to_json, find_byte, find_byte_from, has_bytes_at,
    lemma_parse_claims_json, parse_claims, spec_parse_claims};
use crate::digits::is_digit_run;

verus! {

/// The signature text that `jsonwebtoken::crypto::sign` returns for a message
/// and a secret under HMAC-SHA256: a function of the two arguments alone.
pub uninterp spec fn sig_of(msg: Seq<u8>, key: Seq<u8>) -> Seq<u8>;

/// `{"typ":"JWT","alg":"HS256"}`
pub open spec fn header_json() -> Seq<u8> {
    seq![
        0x7b, 0x22, 0x74, 0x79, 0x70, 0x22, 0x3a, 0x22, 0x4a, 0x57, 0x54, 0x22, 0x2c, 0x22,
        0x61, 0x6c, 0x67, 0x22, 0x3a, 0x22, 0x48, 0x53, 0x32, 0x35, 0x36, 0x22, 0x7d,
    ]
}

/// The signed part of a token: base64 header, a dot, base64 claims.
pub open spec fn signing_input(sub: Seq<u8>, iat: u64, exp: u64) -> Seq<u8> {
    b64_enc(header_json()) + seq![0x2e] + b64_enc(claims_json(sub, iat, exp))
}

/// The whole token for the given claims under `key`.
pub open spec fn spec_token(sub: Seq<u8>, iat: u64, exp: u64, key: Seq<u8>) -> Seq<u8> {
    signing_input(sub, iat, exp) + seq![0x2e] + sig_of(signing_input(sub, iat, exp), key)
}

/// The claims a token yields under `key`, before any expiry check: `None`
/// unless the token has the three-segment shape, the expected header, a
/// well-formed claims document, and the signature of its first two segments.
pub open spec fn spec_verify_token(t: Seq<u8>, key: Seq<u8>) -> Option<(Seq<u8>, u64, u64)> {
    let d1 = find_byte(t, 0x2e, 0);
    if d1 < 0 {
        None
    } else {
        let d2 = find_byte(t, 0x2e, d1 + 1);
        if d2 < 0 {
            None
        } else if t.subrange(0, d1) != b64_enc(header_json()) {
            None
        } else {
            match b64_dec(t.subrange(d1 + 1, d2)) {
                None => None,
                Some(cb) => match spec_parse_claims(cb) {
                    None => None,
                    Some((sub, iat, exp)) => {
                        if t.subrange(d2 + 1, t.len() as int) == sig_of(
                            t.subrange(0, d2),
                            key,
                        ) {
                            Some((sub, iat, exp))
                        } else {
                            None
                        }
                    },
                },
            }
        }
    }
}

/// Relies on `jsonwebtoken::crypto::sign` with HMAC-SHA256 under the crate's
/// `rust_crypto` provider: the signature text is a function of the message
/// and the secret alone, and is unpadded URL-safe base64, so every byte of it
/// is in that alphabet (in particular, never a dot). This path cannot fail —
/// a secret key is always of the HMAC family, HMAC accepts a key of any
/// length, and HMAC signing is infallible — so the signature is owed.
#[verifier::external_body]
pub(crate) fn sign_bytes(msg: &[u8], key: &[u8]) -> (r: Vec<u8>)
    ensures
        r@ == sig_of(msg@, key@),
        forall|i: int| 0 <= i < r@.len() ==> is_b64_alphabet(#[trigger] r@[i]),
{
    jsonwebtoken::crypto::sign(
        msg,
        &jsonwebtoken::EncodingKey::from_secret(key),
        jsonwebtoken::Algorithm::HS256,
    )
        .expect("HMAC signing accepts every message and secret")
        .into_bytes()
}

/// Relies on `jsonwebtoken::crypto::verify` with HMAC-SHA256: it recomputes
/// the signature of `msg` under `key` and accepts exactly its canonical
/// unpadded URL-safe base64 text, which is what `jsonwebtoken::crypto::sign`
/// returns; a byte sequence that is not such text (not UTF-8, or not
/// canonical base64) is never equal to that signature text and is refused.
#[verifier::external_body]
pub(crate) fn verify_sig(sig: &[u8], msg: &[u8], key: &[u8]) -> (r: bool)
    ensures
        r == (sig@ == sig_of(msg@, key@)),
{
    match core::str::from_utf8(sig) {
        Ok(sig_str) => jsonwebtoken::crypto::verify(
            sig_str,
            msg,
            &jsonwebtoken::DecodingKey::from_secret(key),
            jsonwebtoken::Algorithm::HS256,
        ).unwrap_or(false),
        Err(_) => false,
    }
}

/// Relies on `String::from_utf8`: it returns a string of exactly the given
/// bytes when they are valid UTF-8 and an error otherwise.
#[verifier::external_body]
pub(crate) fn bytes_to_string(v: Vec<u8>) -> (r: Option<String>)
    ensures
        r matches Some(s) ==> vstd::utf8::encode_utf8(s@) == v@,
        vstd::utf8::valid_utf8(v@) ==> r is Some,
{
    String::from_utf8(v).ok()
}

/// The exec form of `header_json`.
fn header_bytes() -> (r: Vec<u8>)
    ensures
        r@ == header_json(),
{
    let mut h: Vec<u8> = Vec::new();
    h.push(0x7b);
    h.push(0x22);
    h.push(0x74);
    h.push(0x79);
    h.push(0x70);
    h.push(0x22);
    h.push(0x3a);
    h.push(0x22);
    h.push(0x4a);
    h.push(0x57);
    h.push(0x54);
    h.push(0x22);
    h.push(0x2c);
    h.push(0x22);
    h.push(0x61);
    h.push(0x6c);
    h.push(0x67);
    h.push(0x22);
    h.push(0x3a);
    h.push(0x22);
    h.push(0x48);
    h.push(0x53);
    h.push(0x32);
    h.push(0x35);
    h.push(0x36);
    h.push(0x22);
    h.push(0x7d);
    proof {
        assert(h@ =~= header_json());
    }
    h
}

/// Builds the token carrying `sub`, `iat` and `exp`, signed under `key`.
pub fn make_token_bytes(sub: &[u8], iat: u64, exp: u64, key: &[u8]) -> (t: Vec<u8>)
    ensures
        t@ == spec_token(sub@, iat, exp, key@),
        forall|i: int| 0 <= i < t@.len() ==> #[trigger] t@[i] < 0x80,
{
    let header = header_bytes();
    let h64 = b64url_encode(header.as_slice());
    let cj = claims_to_json(sub, iat, exp);
    let c64 = b64url_encode(cj.as_slice());
    let mut msg: Vec<u8> = Vec::new();
    msg.extend_from_slice(h64.as_slice());
    msg.push(0x2e);
    msg.extend_from_slice(c64.as_slice());
    proof {
        assert(msg@ =~= signing_input(sub@, iat, exp));
    }
    let sig = sign_bytes(msg.as_slice(), key);
    let mut t = msg;
    t.push(0x2e);
    t.extend_from_slice(sig.as_slice());
    proof {
        assert(t@ =~= spec_token(sub@, iat, exp, key@));
        lemma_enc_alphabet(header_json());
        lemma_enc_alphabet(claims_json(sub@, iat, exp));
        assert forall|i: int| 0 <= i < t@.len() implies #[trigger] t@[i] < 0x80 by {
            let hl = b64_enc(header_json()).len() as int;
            let cl = b64_enc(claims_json(sub@, iat, exp)).len() as int;
            if i < hl {
                lemma_alphabet_ascii(b64_enc(header_json())[i]);
            } else if i == hl {
            } else if i < hl + 1 + cl {
                lemma_alphabet_ascii(b64_enc(claims_json(sub@, iat, exp))[i - hl - 1]);
            } else if i == hl + 1 + cl {
            } else {
                lemma_alphabet_ascii(sig@[i - (hl + 1 + cl) - 1]);
            }
        }
    }
    t
}

/// Checks a token's framing, header, claims document and signature under
/// `key`, returning its claims. Expiry is the caller's check: this function
/// is a pure function of the token and the key.
pub fn verify_token_bytes(t: &[u8], key: &[u8]) -> (r: Option<(Vec<u8>, u64, u64)>)
    ensures
        match r {
            Some(c) => spec_verify_token(t@, key@) == Some((c.0@, c.1, c.2)),
            None => spec_verify_token(t@, key@) is None,
        },
{
    let n = t.len();
    let d1 = match find_byte_from(t, 0x2e, 0) {
        Some(k) => k,
        None => {
            return None;
        },
    };
    let d2 = match find_byte_from(t, 0x2e, d1 + 1) {
        Some(k) => k,
        None => {
            return None;
        },
    };
    let header = header_bytes();
    let h64 = b64url_encode(header.as_slice());
    let head_part = &t[0..d1];
    if head_part.len() != h64.len() {
        return None;
    }
    if !has_bytes_at(t, 0, h64.as_slice()) {
        return None;
    }
    proof {
        assert(t@.subrange(0, d1 as int) =~= b64_enc(header_json()));
    }
    let payload = &t[d1 + 1..d2];
    let cb = match b64url_decode(payload) {
        Some(v) => v,
        None => {
            return None;
        },
    };
    let (sub, iat, exp) = match parse_claims(cb.as_slice()) {
        Some(c) => c,
        None => {
            return None;
        },
    };
    let msg = &t[0..d2];
    let sig = &t[d2 + 1..n];
    if !verify_sig(sig, msg, key) {
        return None;
    }
    Some((sub, iat, exp))
}

/// A sequence of ASCII bytes is valid UTF-8.
pub proof fn lemma_ascii_valid_utf8(b: Seq<u8>)
    requires
        forall|i: int| 0 <= i < b.len() ==> #[trigger] b[i] < 0x80,
    ensures
        vstd::utf8::valid_utf8(b),
{
    assert forall|i: int| 0 <= i < b.len() implies vstd::utf8::is_leading_byte_width_1(
        #[trigger] b[i],
    ) by {
        vstd::utf8::utf8_byte_ranges_bitwise(b[i]);
    }
    assert(b.subrange(0, 0) =~= Seq::<u8>::empty());
    assert(vstd::utf8::partial_valid_utf8(b, 0));
    vstd::utf8::partial_valid_utf8_extend_ascii_block(b, 0, b.len() as int);
    assert(b.subrange(0, b.len() as int) =~= b);
}

/// No byte at or after `from` is `b`: the scan finds nothing.
pub proof fn lemma_find_byte_none(s: Seq<u8>, b: u8, from: int)
    requires
        0 <= from,
        forall|j: int| from <= j < s.len() ==> s[j] != b,
    ensures
        find_byte(s, b, from) == -1,
    decreases s.len() - from,
{
    if from < s.len() {
        lemma_find_byte_none(s, b, from + 1);
    }
}

/// A token built for given claims verifies back to exactly those claims.
pub proof fn lemma_verify_spec_token(sub: Seq<u8>, iat: u64, exp: u64, key: Seq<u8>)
    requires
        is_digit_run(sub),
    ensures
        spec_verify_token(spec_token(sub, iat, exp, key), key) == Some((sub, iat, exp)),
{
    let h = b64_enc(header_json());
    let p = b64_enc(claims_json(sub, iat, exp));
    let m = signing_input(sub, iat, exp);
    let sig = sig_of(m, key);
    let t = spec_token(sub, iat, exp, key);
    let hl = h.len() as int;
    let pl = p.len() as int;
    lemma_enc_alphabet(header_json());
    lemma_enc_alphabet(claims_json(sub, iat, exp));
    assert forall|j: int| 0 <= j < hl implies t[j] != 0x2e by {
        assert(t[j] == h[j]);
        lemma_alphabet_ascii(h[j]);
    }
    assert(t[hl] == 0x2e);
    crate::claims::lemma_find_byte_at(t, 0x2e, 0, hl);
    assert forall|j: int| hl + 1 <= j < hl + 1 + pl implies t[j] != 0x2e by {
        assert(t[j] == p[j - hl - 1]);
        lemma_alphabet_ascii(p[j - hl - 1]);
    }
    assert(t[hl + 1 + pl] == 0x2e);
    crate::claims::lemma_find_byte_at(t, 0x2e, hl + 1, hl + 1 + pl);
    let d1 = hl;
    let d2 = hl + 1 + pl;
    assert(t.subrange(0, d1) =~= h);
    assert(t.subrange(d1 + 1, d2) =~= p);
    assert(t.subrange(d2 + 1, t.len() as int) =~= sig);
    assert(t.subrange(0, d2) =~= m);
    lemma_dec_enc(claims_json(sub, iat, exp));
    lemma_parse_claims_json(sub, iat, exp);
}

/// Cutting a token short anywhere makes verification fail: the shape breaks,
/// or the truncated signature no longer matches.
pub proof fn lemma_verify_rejects_truncation(
    sub: Seq<u8>,
    iat: u64,
    exp: u64,
    key: Seq<u8>,
    n: int,
)
    requires
        is_digit_run(sub),
        0 <= n < spec_token(sub, iat, exp, key).len(),
    ensures
        spec_verify_token(spec_token(sub, iat, exp, key).subrange(0, n), key) is None,
{
    let h = b64_enc(header_json());
    let p = b64_enc(claims_json(sub, iat, exp));
    let m = signing_input(sub, iat, exp);
    let sig = sig_of(m, key);
    let t = spec_token(sub, iat, exp, key);
    let hl = h.len() as int;
    let pl = p.len() as int;
    let d1 = hl;
    let d2 = hl + 1 + pl;
    let tt = t.subrange(0, n);
    lemma_enc_alphabet(header_json());
    lemma_enc_alphabet(claims_json(sub, iat, exp));
    assert forall|j: int| 0 <= j < hl && j < n implies tt[j] != 0x2e by {
        assert(tt[j] == h[j]);
        lemma_alphabet_ascii(h[j]);
    }
    if n <= d1 {
        lemma_find_byte_none(tt, 0x2e, 0);
    } else {
        assert(tt[hl] == 0x2e);
        crate::claims::lemma_find_byte_at(tt, 0x2e, 0, hl);
        assert forall|j: int| hl + 1 <= j < hl + 1 + pl && j < n implies tt[j] != 0x2e by {
            assert(tt[j] == p[j - hl - 1]);
            lemma_alphabet_ascii(p[j - hl - 1]);
        }
        if n <= d2 {
            lemma_find_byte_none(tt, 0x2e, d1 + 1);
        } else {
            assert(tt[d2] == 0x2e);
            crate::claims::lemma_find_byte_at(tt, 0x2e, d1 + 1, d2);
            assert(tt.subrange(0, d1) =~= h);
            assert(tt.subrange(d1 + 1, d2) =~= p);
            assert(tt.subrange(0, d2) =~= m);
            lemma_dec_enc(claims_json(sub, iat, exp));
            lemma_parse_claims_json(sub, iat, exp);
            let cut = tt.subrange(d2 + 1, n);
            assert(cut.len() < sig.len());
            assert(cut != sig_of(tt.subrange(0, d2), key));
        }
    }
}

} // verus!
