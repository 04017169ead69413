//! The token codec: a claims document signed into a compact, URL-safe,
//! three-segment token, and the verifying decoder.  A token is
//!
//! ```text
//! base64url(header) . base64url(claims document) . base64url(HMAC-SHA256 tag)
//! ```
//!
//! where the tag covers the first two segments.  Decoding recomputes the
//! tag under the configured secret and accepts only a byte-identical
//! signature segment, then checks the embedded expiry against the
//! caller's clock.  The theorems at the end state the protocol's core
//! guarantees: encoded tokens decode to their claims before expiry,
//! expired tokens are rejected, and tampered tokens are rejected.

use vstd::prelude::*;

use crate::base64::{
    b64_decode, b64_encode, lemma_b64_encode_not_dot, lemma_b64_round_trip, spec_b64_decode,
    spec_b64_encode,
};
use crate::bytes::{ascii_of, bytes_eq, extend, lit_bytes, subvec};
use crate::json::{
    emit_claims_bytes, lemma_parse_emit_claims_full, parse_claims_bytes, spec_emit_claims,
    spec_parse_claims_full,
};
use crate::model::{JWTClaims, ScanRequestWithID, SpecClaims};

verus! {

/// Rejection of a token: malformed, badly signed, or expired.  The
/// caller is deliberately not told which, so the error carries nothing.
#[derive(Clone, Copy, Debug, PartialEq, Eq, Structural)]
pub struct InvalidTokenError;

/// The fixed token header document.
pub open spec fn spec_header_json() -> Seq<u8> {
    ascii_of("{\"typ\":\"JWT\",\"alg\":\"HS256\"}"@)
}

/// The first token segment: the encoded header.
pub open spec fn spec_header_b64() -> Seq<u8> {
    spec_b64_encode(spec_header_json())
}

/// The base64url-encoded HMAC-SHA256 tag of a message under a key.  The
/// tag is a pure function of key and message; its value is stated
/// nowhere and everything proved about tokens holds for any such
/// function.
pub uninterp spec fn hs256_tag(key: Seq<u8>, msg: Seq<u8>) -> Seq<u8>;

/// The signed part of a token for given claims: header and payload
/// segments joined by a dot.
pub open spec fn spec_signing_input(c: SpecClaims) -> Seq<u8> {
    spec_header_b64() + seq![46u8] + spec_b64_encode(spec_emit_claims(c))
}

/// The whole token for given claims under a key.
pub open spec fn spec_encode_token(c: SpecClaims, key: Seq<u8>) -> Seq<u8> {
    spec_signing_input(c) + seq![46u8] + hs256_tag(key, spec_signing_input(c))
}

/// The position of the first occurrence of a byte.
pub open spec fn find_byte(s: Seq<u8>, b: u8) -> Option<int>
    decreases s.len(),
{
    if s.len() == 0 {
        None
    } else if s[0] == b {
        Some(0)
    } else {
        match find_byte(s.skip(1), b) {
            Some(i) => Some(i + 1),
            None => None,
        }
    }
}

/// The three dot-separated segments of a token, split at the first two
/// dots; everything after the second dot is the signature segment.
pub open spec fn spec_split3(t: Seq<u8>) -> Option<(Seq<u8>, Seq<u8>, Seq<u8>)> {
    match find_byte(t, 46) {
        Some(i) => match find_byte(t.skip(i + 1), 46) {
            Some(j) => Some(
                (t.take(i), t.skip(i + 1).take(j), t.skip(i + 1).skip(j + 1)),
            ),
            None => None,
        },
        None => None,
    }
}

/// What decoding a token yields: its claims, provided the token has
/// three segments, the expected header, a signature segment equal to
/// the tag of the first two segments under the key, a payload that
/// decodes and parses as a claims document, and an expiry no earlier
/// than `now`.
pub open spec fn spec_decode_token(t: Seq<u8>, key: Seq<u8>, now: u64) -> Option<SpecClaims> {
    match spec_split3(t) {
        Some((h, p, sg)) => if h == spec_header_b64() && sg == hs256_tag(
            key,
            h + seq![46u8] + p,
        ) {
            match spec_b64_decode(p) {
                Some(doc) => match spec_parse_claims_full(doc) {
                    Some(c) => if now <= c.exp {
                        Some(c)
                    } else {
                        None
                    },
                    None => None,
                },
                None => None,
            }
        } else {
            None
        },
        None => None,
    }
}

/// Relies on `jsonwebtoken::crypto::sign` with `Algorithm::HS256`: it
/// returns the base64url (no padding) encoding of the HMAC-SHA256 tag
/// of the message under the secret, a pure function of the two
/// arguments; for the HMAC algorithms it never returns an error.
#[verifier::external_body]
fn hs256_sign(key: &Vec<u8>, msg: &Vec<u8>) -> (r: Vec<u8>)
    ensures
        r@ == hs256_tag(key@, msg@),
{
    let sig = jsonwebtoken::crypto::sign(
        msg.as_slice(),
        &jsonwebtoken::EncodingKey::from_secret(key.as_slice()),
        jsonwebtoken::Algorithm::HS256,
    ).unwrap();
    sig.into_bytes()
}

/// Relies on `chrono::Utc::now` and `DateTime::timestamp` for the
/// current wall clock in epoch seconds; the result depends on the
/// clock, so nothing is promised of it.
#[verifier::external_body]
fn now_timestamp() -> i64 {
    chrono::Utc::now().timestamp()
}

/// The current wall clock as a non-negative epoch second count; clocks
/// before the epoch read as zero.
pub fn current_time() -> (r: u64)
    ensures
        r <= i64::MAX as u64,
{
    let t = now_timestamp();
    if t < 0 {
        0
    } else {
        t as u64
    }
}

/// The fixed header document as bytes.
fn header_json() -> (r: Vec<u8>)
    ensures
        r@ == spec_header_json(),
{
    proof {
        reveal_strlit("{\"typ\":\"JWT\",\"alg\":\"HS256\"}");
    }
    lit_bytes("{\"typ\":\"JWT\",\"alg\":\"HS256\"}")
}

/// Encodes claims into a signed token under the key.
pub fn encode_token(c: &JWTClaims, key: &Vec<u8>) -> (r: Vec<u8>)
    ensures
        r@ == spec_encode_token(c@, key@),
{
    let hj = header_json();
    let hb = b64_encode(&hj);
    let doc = emit_claims_bytes(c);
    let pb = b64_encode(&doc);
    let mut signing = hb;
    signing.push(46);
    extend(&mut signing, &pb);
    proof {
        assert(signing@ =~= spec_signing_input(c@));
    }
    let sig = hs256_sign(key, &signing);
    let mut token = signing;
    token.push(46);
    extend(&mut token, &sig);
    proof {
        assert(token@ =~= spec_encode_token(c@, key@));
    }
    token
}

/// A byte occurring first at position `i` is what `find_byte` finds.
proof fn lemma_find_byte_at(s: Seq<u8>, b: u8, i: int)
    requires
        0 <= i < s.len(),
        s[i] == b,
        forall|m: int| 0 <= m < i ==> s[m] != b,
    ensures
        find_byte(s, b) == Some(i),
    decreases i,
{
    if i > 0 {
        assert(s.skip(1)[i - 1] == b);
        assert forall|m: int| 0 <= m < i - 1 implies s.skip(1)[m] != b by {
            assert(s.skip(1)[m] == s[m + 1]);
        }
        lemma_find_byte_at(s.skip(1), b, i - 1);
    }
}

/// A byte occurring nowhere is not found.
proof fn lemma_find_byte_none(s: Seq<u8>, b: u8)
    requires
        forall|m: int| 0 <= m < s.len() ==> s[m] != b,
    ensures
        find_byte(s, b) is None,
    decreases s.len(),
{
    if s.len() > 0 {
        assert forall|m: int| 0 <= m < s.skip(1).len() implies s.skip(1)[m] != b by {
            assert(s.skip(1)[m] == s[m + 1]);
        }
        lemma_find_byte_none(s.skip(1), b);
    }
}

/// The first dot at or after position `from`.
fn find_dot_from(s: &Vec<u8>, from: usize) -> (res: Option<usize>)
    requires
        from <= s@.len(),
    ensures
        match res {
            Some(j) => from <= j < s@.len() && s@[j as int] == 46 && find_byte(
                s@.skip(from as int),
                46,
            ) == Some(j - from),
            None => find_byte(s@.skip(from as int), 46) is None,
        },
{
    let mut k: usize = from;
    while k < s.len()
        invariant
            from <= k <= s@.len(),
            forall|m: int| from <= m < k ==> s@[m] != 46,
        decreases s@.len() - k,
    {
        if s[k] == 46 {
            proof {
                let t = s@.skip(from as int);
                assert(t[k - from] == 46);
                assert forall|m: int| 0 <= m < k - from implies t[m] != 46 by {
                    assert(t[m] == s@[m + from]);
                }
                lemma_find_byte_at(t, 46, k - from);
            }
            return Some(k);
        }
        k = k + 1;
    }
    proof {
        let t = s@.skip(from as int);
        assert forall|m: int| 0 <= m < t.len() implies t[m] != 46 by {
            assert(t[m] == s@[m + from]);
        }
        lemma_find_byte_none(t, 46);
    }
    None
}

/// Decodes and validates a token: signature first, then structure, then
/// expiry.  Returns exactly what `spec_decode_token` yields.
pub fn decode_token(t: &Vec<u8>, key: &Vec<u8>, now: u64) -> (res: Result<
    JWTClaims,
    InvalidTokenError,
>)
    ensures
        match res {
            Ok(c) => spec_decode_token(t@, key@, now) == Some(c@),
            Err(_) => spec_decode_token(t@, key@, now) is None,
        },
{
    let n = t.len();
    proof {
        assert(t@.len() == n);
    }
    let i = match find_dot_from(t, 0) {
        Some(i) => i,
        None => {
            proof {
                assert(t@.skip(0) =~= t@);
            }
            return Err(InvalidTokenError);
        },
    };
    proof {
        assert(t@.skip(0) =~= t@);
    }
    let j = match find_dot_from(t, i + 1) {
        Some(j) => j,
        None => {
            return Err(InvalidTokenError);
        },
    };
    let ghost gi = i as int;
    let ghost gj = (j - i - 1) as int;
    let ghost h = t@.take(gi);
    let ghost p = t@.skip(gi + 1).take(gj);
    let ghost sg = t@.skip(gi + 1).skip(gj + 1);
    proof {
        assert(spec_split3(t@) == Some((h, p, sg)));
    }
    let head = subvec(t, 0, i);
    let payload = subvec(t, i + 1, j);
    let sig = subvec(t, j + 1, t.len());
    proof {
        assert(head@ =~= h);
        assert(payload@ =~= p);
        assert(sig@ =~= sg);
    }
    let hj = header_json();
    let hb = b64_encode(&hj);
    if !bytes_eq(&head, &hb) {
        return Err(InvalidTokenError);
    }
    let signing = subvec(t, 0, j);
    proof {
        assert(signing@ =~= h + seq![46u8] + p);
    }
    let expected = hs256_sign(key, &signing);
    if !bytes_eq(&sig, &expected) {
        return Err(InvalidTokenError);
    }
    let doc = match b64_decode(&payload) {
        Some(d) => d,
        None => {
            return Err(InvalidTokenError);
        },
    };
    let claims = match parse_claims_bytes(&doc) {
        Some(c) => c,
        None => {
            return Err(InvalidTokenError);
        },
    };
    if now <= claims.exp {
        Ok(claims)
    } else {
        Err(InvalidTokenError)
    }
}

/// Creates a confirmation token for a request with its identity: the
/// embedded expiry is one day after the current clock reading.
pub fn create_scan_request_token(data: ScanRequestWithID, key: &Vec<u8>) -> (r: Vec<u8>)
    ensures
        exists|e: u64|
            r@ == spec_encode_token(
                SpecClaims { data: data@, exp: e },
                key@,
            ),
{
    let now = current_time();
    let claims = JWTClaims { data, exp: now + crate::TOKEN_TTL_SECONDS };
    encode_token(&claims, key)
}

/// Validates a confirmation token against the current clock reading.
pub fn validate_scan_request_token(token: &Vec<u8>, key: &Vec<u8>) -> (res: Result<
    JWTClaims,
    InvalidTokenError,
>)
    ensures
        match res {
            Ok(c) => exists|now: u64| spec_decode_token(token@, key@, now) == Some(c@),
            Err(_) => exists|now: u64| spec_decode_token(token@, key@, now) is None,
        },
{
    let now = current_time();
    decode_token(token, key, now)
}

/// An encoded token splits back into its three segments.
proof fn lemma_split_encode(c: SpecClaims, key: Seq<u8>)
    ensures
        spec_split3(spec_encode_token(c, key)) == Some(
            (
                spec_header_b64(),
                spec_b64_encode(spec_emit_claims(c)),
                hs256_tag(key, spec_signing_input(c)),
            ),
        ),
{
    let h = spec_header_b64();
    let p = spec_b64_encode(spec_emit_claims(c));
    let sg = hs256_tag(key, spec_signing_input(c));
    let t = spec_encode_token(c, key);
    lemma_b64_encode_not_dot(spec_header_json());
    lemma_b64_encode_not_dot(spec_emit_claims(c));
    assert(t[h.len() as int] == 46);
    assert forall|m: int| 0 <= m < h.len() implies t[m] != 46 by {
        assert(t[m] == h[m]);
    }
    lemma_find_byte_at(t, 46, h.len() as int);
    let u = t.skip(h.len() as int + 1);
    assert(u =~= p + seq![46u8] + sg);
    assert(u[p.len() as int] == 46);
    assert forall|m: int| 0 <= m < p.len() implies u[m] != 46 by {
        assert(u[m] == p[m]);
    }
    lemma_find_byte_at(u, 46, p.len() as int);
    assert(t.take(h.len() as int) =~= h);
    assert(u.take(p.len() as int) =~= p);
    assert(u.skip(p.len() as int + 1) =~= sg);
}

/// Round trip: a token encoded from any claims decodes, under the same
/// key and at any instant no later than the expiry, to those claims
/// unchanged.
pub proof fn lemma_token_round_trip(c: SpecClaims, key: Seq<u8>, now: u64)
    requires
        now <= c.exp,
    ensures
        spec_decode_token(spec_encode_token(c, key), key, now) == Some(c),
{
    lemma_split_encode(c, key);
    let h = spec_header_b64();
    let p = spec_b64_encode(spec_emit_claims(c));
    assert(h + seq![46u8] + p =~= spec_signing_input(c));
    lemma_b64_round_trip(spec_emit_claims(c));
    lemma_parse_emit_claims_full(c);
}

/// Expiry: the same token, decoded at any instant strictly after the
/// expiry, is rejected.
pub proof fn lemma_token_expired(c: SpecClaims, key: Seq<u8>, now: u64)
    requires
        now > c.exp,
    ensures
        spec_decode_token(spec_encode_token(c, key), key, now) is None,
{
    lemma_split_encode(c, key);
    let h = spec_header_b64();
    let p = spec_b64_encode(spec_emit_claims(c));
    assert(h + seq![46u8] + p =~= spec_signing_input(c));
    lemma_b64_round_trip(spec_emit_claims(c));
    lemma_parse_emit_claims_full(c);
}

/// Tamper resistance, signature side: replacing the signature segment
/// of an encoded token with anything other than the true tag of its
/// first two segments is rejected, whatever the replacement holds.
pub proof fn lemma_sig_tamper(c: SpecClaims, key: Seq<u8>, sig2: Seq<u8>, now: u64)
    requires
        sig2 != hs256_tag(key, spec_signing_input(c)),
    ensures
        spec_decode_token(spec_signing_input(c) + seq![46u8] + sig2, key, now) is None,
{
    let h = spec_header_b64();
    let p = spec_b64_encode(spec_emit_claims(c));
    let t = spec_signing_input(c) + seq![46u8] + sig2;
    lemma_b64_encode_not_dot(spec_header_json());
    lemma_b64_encode_not_dot(spec_emit_claims(c));
    assert(t[h.len() as int] == 46);
    assert forall|m: int| 0 <= m < h.len() implies t[m] != 46 by {
        assert(t[m] == h[m]);
    }
    lemma_find_byte_at(t, 46, h.len() as int);
    let u = t.skip(h.len() as int + 1);
    assert(u =~= p + seq![46u8] + sig2);
    assert(u[p.len() as int] == 46);
    assert forall|m: int| 0 <= m < p.len() implies u[m] != 46 by {
        assert(u[m] == p[m]);
    }
    lemma_find_byte_at(u, 46, p.len() as int);
    assert(t.take(h.len() as int) =~= h);
    assert(u.take(p.len() as int) =~= p);
    assert(u.skip(p.len() as int + 1) =~= sig2);
    assert(h + seq![46u8] + p =~= spec_signing_input(c));
}

/// Tamper resistance, payload side: replacing the payload segment of an
/// encoded token while keeping its signature is rejected, as long as
/// the altered signing input does not collide with the original under
/// the tag function.  An HMAC collision between the two inputs is the
/// one case this cannot exclude.
pub proof fn lemma_payload_tamper(c: SpecClaims, key: Seq<u8>, p2: Seq<u8>, now: u64)
    requires
        forall|m: int| 0 <= m < p2.len() ==> p2[m] != 46,
        hs256_tag(key, spec_header_b64() + seq![46u8] + p2) != hs256_tag(
            key,
            spec_signing_input(c),
        ),
    ensures
        spec_decode_token(
            spec_header_b64() + seq![46u8] + p2 + seq![46u8] + hs256_tag(
                key,
                spec_signing_input(c),
            ),
            key,
            now,
        ) is None,
{
    let h = spec_header_b64();
    let sg = hs256_tag(key, spec_signing_input(c));
    let t = h + seq![46u8] + p2 + seq![46u8] + sg;
    lemma_b64_encode_not_dot(spec_header_json());
    assert(t[h.len() as int] == 46);
    assert forall|m: int| 0 <= m < h.len() implies t[m] != 46 by {
        assert(t[m] == h[m]);
    }
    lemma_find_byte_at(t, 46, h.len() as int);
    let u = t.skip(h.len() as int + 1);
    assert(u =~= p2 + seq![46u8] + sg);
    assert(u[p2.len() as int] == 46);
    assert forall|m: int| 0 <= m < p2.len() implies u[m] != 46 by {
        assert(u[m] == p2[m]);
    }
    lemma_find_byte_at(u, 46, p2.len() as int);
    assert(t.take(h.len() as int) =~= h);
    assert(u.take(p2.len() as int) =~= p2);
    assert(u.skip(p2.len() as int + 1) =~= sg);
}

} // verus!
