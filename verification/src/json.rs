//! Emission and strict parsing of the claims document carried in a
//! token's payload segment, working byte for byte.  Every emitter has a
//! parser proved to invert it, which is what makes a decoded token yield
//! the payload that was encoded.

use vstd::prelude::*;

use crate::bytes::ascii_of;
use crate::model::{
    JWTClaims, RustscanConfig, ScanID, ScanRequest, ScanRequestWithID, SpecClaims, SpecScanData,
    SpecScanRequest, ZapConfig,
};

verus! {

/// A decimal digit byte.
pub open spec fn is_digit(b: u8) -> bool {
    48 <= b && b <= 57
}

/// The lowercase hexadecimal digit for a value below sixteen.
pub open spec fn hex_digit(v: int) -> u8 {
    if v < 10 {
        (48 + v) as u8
    } else {
        (87 + v) as u8
    }
}

/// The value of a hexadecimal digit byte, if it is one.
pub open spec fn hex_val(b: u8) -> Option<u8> {
    if is_digit(b) {
        Some((b - 48) as u8)
    } else if 97 <= b && b <= 102 {
        Some((b - 87) as u8)
    } else if 65 <= b && b <= 70 {
        Some((b - 55) as u8)
    } else {
        None
    }
}

/// How a single byte appears inside a quoted string: quote and backslash
/// get a backslash escape, control bytes a `\u00XX` escape, anything
/// else stands for itself.
pub open spec fn esc_byte(b: u8) -> Seq<u8> {
    if b == 34 {
        seq![92u8, 34u8]
    } else if b == 92 {
        seq![92u8, 92u8]
    } else if b < 32 {
        seq![92u8, 117u8, 48u8, 48u8, hex_digit((b as int) / 16), hex_digit((b as int) % 16)]
    } else {
        seq![b]
    }
}

/// The escaped body of a quoted string.
pub open spec fn spec_escape(s: Seq<u8>) -> Seq<u8>
    decreases s.len(),
{
    if s.len() == 0 {
        Seq::empty()
    } else {
        esc_byte(s[0]) + spec_escape(s.skip(1))
    }
}

/// A full quoted string: quote, escaped body, quote.
pub open spec fn spec_emit_string(s: Seq<u8>) -> Seq<u8> {
    seq![34u8] + spec_escape(s) + seq![34u8]
}

/// Reads a string body up to its closing quote, undoing the escapes, and
/// returns the content and what follows the quote.  Runs on the bytes
/// after the opening quote.
pub open spec fn spec_scan_string(s: Seq<u8>) -> Option<(Seq<u8>, Seq<u8>)>
    decreases s.len(),
{
    if s.len() == 0 {
        None
    } else if s[0] == 34 {
        Some((Seq::empty(), s.skip(1)))
    } else if s[0] == 92 {
        if s.len() >= 2 && (s[1] == 34 || s[1] == 92) {
            match spec_scan_string(s.skip(2)) {
                Some((t, r)) => Some((seq![s[1]] + t, r)),
                None => None,
            }
        } else if s.len() >= 6 && s[1] == 117 && s[2] == 48 && s[3] == 48 && hex_val(s[4]) is Some
            && hex_val(s[5]) is Some && (hex_val(s[4]).unwrap() as int) * 16 + hex_val(
            s[5],
        ).unwrap() < 32 {
            match spec_scan_string(s.skip(6)) {
                Some((t, r)) => Some(
                    (
                        seq![
                            (((hex_val(s[4]).unwrap() as int) * 16 + hex_val(
                                s[5],
                            ).unwrap()) as u8),
                        ] + t,
                        r,
                    ),
                ),
                None => None,
            }
        } else {
            None
        }
    } else if s[0] < 32 {
        None
    } else {
        match spec_scan_string(s.skip(1)) {
            Some((t, r)) => Some((seq![s[0]] + t, r)),
            None => None,
        }
    }
}

/// Reads a full quoted string from the front of `s`.
pub open spec fn spec_parse_string(s: Seq<u8>) -> Option<(Seq<u8>, Seq<u8>)> {
    if s.len() >= 1 && s[0] == 34 {
        spec_scan_string(s.skip(1))
    } else {
        None
    }
}

/// A hexadecimal digit reads back as its value.
proof fn lemma_hex_round_trip(v: int)
    requires
        0 <= v < 16,
    ensures
        hex_val(hex_digit(v)) == Some(v as u8),
{
}

/// Scanning inverts escaping: the escaped body, a closing quote and any
/// tail read back as the body and the tail.
pub proof fn lemma_scan_escape(s: Seq<u8>, rest: Seq<u8>)
    ensures
        spec_scan_string(spec_escape(s) + seq![34u8] + rest) == Some((s, rest)),
    decreases s.len(),
{
    let t = spec_escape(s) + seq![34u8] + rest;
    if s.len() == 0 {
        assert(t =~= seq![34u8] + rest);
        assert(t.skip(1) =~= rest);
    } else {
        let b = s[0];
        let tail = spec_escape(s.skip(1)) + seq![34u8] + rest;
        lemma_scan_escape(s.skip(1), rest);
        assert(t =~= esc_byte(b) + tail);
        if b == 34 || b == 92 {
            assert(t.skip(2) =~= tail);
            assert(seq![b] + s.skip(1) =~= s);
        } else if b < 32 {
            lemma_hex_round_trip((b as int) / 16);
            lemma_hex_round_trip((b as int) % 16);
            assert(t.skip(6) =~= tail);
            assert(t[0] == 92 && t[1] == 117 && t[2] == 48 && t[3] == 48);
            assert(hex_val(t[4]) == Some(((b as int) / 16) as u8));
            assert(hex_val(t[5]) == Some(((b as int) % 16) as u8));
            assert((((b as int) / 16) as u8 as int) * 16 + (((b as int) % 16) as u8 as int)
                == b as int);
            assert(seq![b] + s.skip(1) =~= s);
        } else {
            assert(t.skip(1) =~= tail);
            assert(seq![b] + s.skip(1) =~= s);
        }
    }
}

/// Parsing inverts emission for quoted strings.
pub proof fn lemma_parse_emit_string(s: Seq<u8>, rest: Seq<u8>)
    ensures
        spec_parse_string(spec_emit_string(s) + rest) == Some((s, rest)),
{
    let t = spec_emit_string(s) + rest;
    assert(t[0] == 34);
    assert(t.skip(1) =~= spec_escape(s) + seq![34u8] + rest);
    lemma_scan_escape(s, rest);
}

/// The decimal digits of a non-negative integer, most significant first.
pub open spec fn spec_emit_u64(n: int) -> Seq<u8>
    recommends
        n >= 0,
    decreases n,
{
    if n < 10 {
        seq![(48 + if n >= 0 { n } else { 0 }) as u8]
    } else {
        spec_emit_u64(n / 10) + seq![(48 + n % 10) as u8]
    }
}

/// The value of a digit string.
pub open spec fn digits_val(s: Seq<u8>) -> int
    decreases s.len(),
{
    if s.len() == 0 {
        0
    } else {
        digits_val(s.drop_last()) * 10 + (s.last() - 48)
    }
}

/// Every byte of the sequence is a decimal digit.
pub open spec fn all_digits(s: Seq<u8>) -> bool {
    forall|i: int| 0 <= i < s.len() ==> is_digit(s[i])
}

/// Splits off the maximal run of digits at the front.
pub open spec fn spec_scan_digits(s: Seq<u8>) -> (Seq<u8>, Seq<u8>)
    decreases s.len(),
{
    if s.len() == 0 || !is_digit(s[0]) {
        (Seq::empty(), s)
    } else {
        let (d, r) = spec_scan_digits(s.skip(1));
        (seq![s[0]] + d, r)
    }
}

/// Reads an unsigned decimal number from the front of `s`: at least one
/// digit, and a value that fits in a machine word.
pub open spec fn spec_parse_u64(s: Seq<u8>) -> Option<(u64, Seq<u8>)> {
    let (d, r) = spec_scan_digits(s);
    if d.len() == 0 {
        None
    } else if digits_val(d) > u64::MAX {
        None
    } else {
        Some((digits_val(d) as u64, r))
    }
}

/// The digit string of a number consists of digits and is never empty.
pub proof fn lemma_emit_u64_digits(n: int)
    requires
        n >= 0,
    ensures
        spec_emit_u64(n).len() >= 1,
        all_digits(spec_emit_u64(n)),
    decreases n,
{
    if n >= 10 {
        lemma_emit_u64_digits(n / 10);
        let e = spec_emit_u64(n);
        assert forall|i: int| 0 <= i < e.len() implies is_digit(e[i]) by {
            if i < spec_emit_u64(n / 10).len() {
                assert(e[i] == spec_emit_u64(n / 10)[i]);
            }
        }
    }
}

/// The digit string of a number reads back as that number.
pub proof fn lemma_digits_val_emit(n: int)
    requires
        n >= 0,
    ensures
        digits_val(spec_emit_u64(n)) == n,
    decreases n,
{
    if n < 10 {
        let e = spec_emit_u64(n);
        assert(e =~= seq![(48 + n) as u8]);
        assert(e.drop_last() =~= Seq::<u8>::empty());
        assert(digits_val(e.drop_last()) == 0);
        assert(digits_val(e) == digits_val(e.drop_last()) * 10 + (e.last() - 48));
        assert(e.last() == (48 + n) as u8);
    } else {
        lemma_digits_val_emit(n / 10);
        let e = spec_emit_u64(n);
        assert(e == spec_emit_u64(n / 10) + seq![(48 + n % 10) as u8]);
        assert(e.len() == spec_emit_u64(n / 10).len() + 1);
        assert(e.drop_last() =~= spec_emit_u64(n / 10));
        assert(e.last() == (48 + n % 10) as u8);
        assert(digits_val(e) == digits_val(e.drop_last()) * 10 + (e.last() - 48));
        assert((48 + n % 10) as u8 - 48 == n % 10);
        vstd::arithmetic::div_mod::lemma_fundamental_div_mod(n, 10);
        assert(n == 10 * (n / 10) + n % 10);
    }
}

/// A run of digits followed by a non-digit splits exactly there.
pub proof fn lemma_scan_digits_concat(d: Seq<u8>, rest: Seq<u8>)
    requires
        all_digits(d),
        rest.len() == 0 || !is_digit(rest[0]),
    ensures
        spec_scan_digits(d + rest) == (d, rest),
    decreases d.len(),
{
    if d.len() == 0 {
        assert(d + rest =~= rest);
        if rest.len() != 0 {
            assert(!is_digit((d + rest)[0]));
        }
    } else {
        assert(is_digit(d[0]));
        assert((d + rest).skip(1) =~= d.skip(1) + rest);
        lemma_scan_digits_concat(d.skip(1), rest);
        assert(seq![d[0]] + d.skip(1) =~= d);
    }
}

/// Digit strings have non-negative value.
pub proof fn lemma_digits_val_nonneg(s: Seq<u8>)
    requires
        all_digits(s),
    ensures
        digits_val(s) >= 0,
    decreases s.len(),
{
    if s.len() > 0 {
        assert(all_digits(s.drop_last()));
        lemma_digits_val_nonneg(s.drop_last());
        assert(is_digit(s.last()));
    }
}

/// A prefix of a digit string never exceeds the whole string's value.
pub proof fn lemma_digits_val_prefix(s: Seq<u8>, m: int)
    requires
        all_digits(s),
        0 <= m <= s.len(),
    ensures
        digits_val(s.take(m)) <= digits_val(s),
    decreases s.len(),
{
    if m == s.len() {
        assert(s.take(m) =~= s);
    } else {
        assert(all_digits(s.drop_last()));
        assert(s.take(m) =~= s.drop_last().take(m));
        lemma_digits_val_prefix(s.drop_last(), m);
        lemma_digits_val_nonneg(s.drop_last());
        assert(is_digit(s.last()));
        assert(digits_val(s) >= digits_val(s.drop_last()));
    }
}

/// Parsing inverts emission for numbers, whenever what follows does not
/// begin with another digit.
pub proof fn lemma_parse_emit_u64(n: u64, rest: Seq<u8>)
    requires
        rest.len() == 0 || !is_digit(rest[0]),
    ensures
        spec_parse_u64(spec_emit_u64(n as int) + rest) == Some((n, rest)),
{
    lemma_emit_u64_digits(n as int);
    lemma_scan_digits_concat(spec_emit_u64(n as int), rest);
    lemma_digits_val_emit(n as int);
}

/// The document for an optional target configuration: `null` when
/// absent, otherwise an object with the single `uri` member.
pub open spec fn spec_emit_opt(o: Option<Seq<u8>>) -> Seq<u8> {
    match o {
        None => ascii_of("null"@),
        Some(u) => ascii_of("{\"uri\":"@) + spec_emit_string(u) + ascii_of("}"@),
    }
}

/// The document for a scan request: members `email`, `rustscan`, `zap`.
pub open spec fn spec_emit_req(r: SpecScanRequest) -> Seq<u8> {
    ascii_of("{\"email\":"@) + spec_emit_string(r.email) + ascii_of(",\"rustscan\":"@)
        + spec_emit_opt(r.rustscan) + ascii_of(",\"zap\":"@) + spec_emit_opt(r.zap) + ascii_of(
        "}"@,
    )
}

/// The document for a request with its identity: members `id`, `req`.
pub open spec fn spec_emit_data(d: SpecScanData) -> Seq<u8> {
    ascii_of("{\"id\":"@) + spec_emit_string(d.id) + ascii_of(",\"req\":"@) + spec_emit_req(d.req)
        + ascii_of("}"@)
}

/// The claims document: members `data`, `exp`.
pub open spec fn spec_emit_claims(c: SpecClaims) -> Seq<u8> {
    ascii_of("{\"data\":"@) + spec_emit_data(c.data) + ascii_of(",\"exp\":"@) + spec_emit_u64(
        c.exp as int,
    ) + ascii_of("}"@)
}

/// Consumes an exact literal from the front of `s`.
pub open spec fn spec_expect(s: Seq<u8>, lit: Seq<u8>) -> Option<Seq<u8>> {
    if lit.len() <= s.len() && s.take(lit.len() as int) == lit {
        Some(s.skip(lit.len() as int))
    } else {
        None
    }
}

/// Reads an optional target configuration: `null` or a `uri` object.
pub open spec fn spec_parse_opt(s: Seq<u8>) -> Option<(Option<Seq<u8>>, Seq<u8>)> {
    if s.len() > 0 && s[0] == 110 {
        match spec_expect(s, ascii_of("null"@)) {
            Some(r) => Some((None, r)),
            None => None,
        }
    } else if s.len() > 0 && s[0] == 123 {
        match spec_expect(s, ascii_of("{\"uri\":"@)) {
            Some(r1) => match spec_parse_string(r1) {
                Some((u, r2)) => match spec_expect(r2, ascii_of("}"@)) {
                    Some(r3) => Some((Some(u), r3)),
                    None => None,
                },
                None => None,
            },
            None => None,
        }
    } else {
        None
    }
}

/// Reads a scan request document.
pub open spec fn spec_parse_req(s: Seq<u8>) -> Option<(SpecScanRequest, Seq<u8>)> {
    match spec_expect(s, ascii_of("{\"email\":"@)) {
        Some(r1) => match spec_parse_string(r1) {
            Some((email, r2)) => match spec_expect(r2, ascii_of(",\"rustscan\":"@)) {
                Some(r3) => match spec_parse_opt(r3) {
                    Some((rustscan, r4)) => match spec_expect(r4, ascii_of(",\"zap\":"@)) {
                        Some(r5) => match spec_parse_opt(r5) {
                            Some((zap, r6)) => match spec_expect(r6, ascii_of("}"@)) {
                                Some(r7) => Some(
                                    (SpecScanRequest { email, rustscan, zap }, r7),
                                ),
                                None => None,
                            },
                            None => None,
                        },
                        None => None,
                    },
                    None => None,
                },
                None => None,
            },
            None => None,
        },
        None => None,
    }
}

/// Reads a request-with-identity document.
pub open spec fn spec_parse_data(s: Seq<u8>) -> Option<(SpecScanData, Seq<u8>)> {
    match spec_expect(s, ascii_of("{\"id\":"@)) {
        Some(r1) => match spec_parse_string(r1) {
            Some((id, r2)) => match spec_expect(r2, ascii_of(",\"req\":"@)) {
                Some(r3) => match spec_parse_req(r3) {
                    Some((req, r4)) => match spec_expect(r4, ascii_of("}"@)) {
                        Some(r5) => Some((SpecScanData { id, req }, r5)),
                        None => None,
                    },
                    None => None,
                },
                None => None,
            },
            None => None,
        },
        None => None,
    }
}

/// Reads a claims document.
pub open spec fn spec_parse_claims(s: Seq<u8>) -> Option<(SpecClaims, Seq<u8>)> {
    match spec_expect(s, ascii_of("{\"data\":"@)) {
        Some(r1) => match spec_parse_data(r1) {
            Some((data, r2)) => match spec_expect(r2, ascii_of(",\"exp\":"@)) {
                Some(r3) => match spec_parse_u64(r3) {
                    Some((exp, r4)) => match spec_expect(r4, ascii_of("}"@)) {
                        Some(r5) => Some((SpecClaims { data, exp }, r5)),
                        None => None,
                    },
                    None => None,
                },
                None => None,
            },
            None => None,
        },
        None => None,
    }
}

/// A whole claims document and nothing else.
pub open spec fn spec_parse_claims_full(s: Seq<u8>) -> Option<SpecClaims> {
    match spec_parse_claims(s) {
        Some((c, r)) => if r.len() == 0 {
            Some(c)
        } else {
            None
        },
        None => None,
    }
}

/// A literal at the front of the input is consumed exactly.
pub proof fn lemma_expect(lit: Seq<u8>, rest: Seq<u8>)
    ensures
        spec_expect(lit + rest, lit) == Some(rest),
{
    assert((lit + rest).take(lit.len() as int) =~= lit);
    assert((lit + rest).skip(lit.len() as int) =~= rest);
}

/// Parsing inverts emission for optional target configurations.
pub proof fn lemma_parse_emit_opt(o: Option<Seq<u8>>, rest: Seq<u8>)
    ensures
        spec_parse_opt(spec_emit_opt(o) + rest) == Some((o, rest)),
{
    reveal_strlit("null");
    reveal_strlit("{\"uri\":");
    match o {
        None => {
            let t = spec_emit_opt(o) + rest;
            assert(t[0] == ascii_of("null"@)[0]);
            assert(t[0] == 110);
            lemma_expect(ascii_of("null"@), rest);
        },
        Some(u) => {
            let t = spec_emit_opt(o) + rest;
            let t1 = spec_emit_string(u) + (ascii_of("}"@) + rest);
            assert(t =~= ascii_of("{\"uri\":"@) + t1);
            assert(t[0] == ascii_of("{\"uri\":"@)[0]);
            assert(t[0] == 123);
            lemma_expect(ascii_of("{\"uri\":"@), t1);
            lemma_parse_emit_string(u, ascii_of("}"@) + rest);
            lemma_expect(ascii_of("}"@), rest);
        },
    }
}

/// Parsing inverts emission for scan requests.
pub proof fn lemma_parse_emit_req(r: SpecScanRequest, rest: Seq<u8>)
    ensures
        spec_parse_req(spec_emit_req(r) + rest) == Some((r, rest)),
{
    let t = spec_emit_req(r) + rest;
    let t6 = ascii_of("}"@) + rest;
    let t5 = spec_emit_opt(r.zap) + t6;
    let t4 = ascii_of(",\"zap\":"@) + t5;
    let t3 = spec_emit_opt(r.rustscan) + t4;
    let t2 = ascii_of(",\"rustscan\":"@) + t3;
    let t1 = spec_emit_string(r.email) + t2;
    assert(t =~= ascii_of("{\"email\":"@) + t1);
    lemma_expect(ascii_of("{\"email\":"@), t1);
    lemma_parse_emit_string(r.email, t2);
    lemma_expect(ascii_of(",\"rustscan\":"@), t3);
    lemma_parse_emit_opt(r.rustscan, t4);
    lemma_expect(ascii_of(",\"zap\":"@), t5);
    lemma_parse_emit_opt(r.zap, t6);
    lemma_expect(ascii_of("}"@), rest);
    assert(SpecScanRequest { email: r.email, rustscan: r.rustscan, zap: r.zap } =~= r);
}

/// Parsing inverts emission for requests with identity.
pub proof fn lemma_parse_emit_data(d: SpecScanData, rest: Seq<u8>)
    ensures
        spec_parse_data(spec_emit_data(d) + rest) == Some((d, rest)),
{
    let t = spec_emit_data(d) + rest;
    let t4 = ascii_of("}"@) + rest;
    let t3 = spec_emit_req(d.req) + t4;
    let t2 = ascii_of(",\"req\":"@) + t3;
    let t1 = spec_emit_string(d.id) + t2;
    assert(t =~= ascii_of("{\"id\":"@) + t1);
    lemma_expect(ascii_of("{\"id\":"@), t1);
    lemma_parse_emit_string(d.id, t2);
    lemma_expect(ascii_of(",\"req\":"@), t3);
    lemma_parse_emit_req(d.req, t4);
    lemma_expect(ascii_of("}"@), rest);
    assert(SpecScanData { id: d.id, req: d.req } =~= d);
}

/// Parsing inverts emission for claims documents.
pub proof fn lemma_parse_emit_claims(c: SpecClaims, rest: Seq<u8>)
    ensures
        spec_parse_claims(spec_emit_claims(c) + rest) == Some((c, rest)),
{
    let t = spec_emit_claims(c) + rest;
    let t4 = ascii_of("}"@) + rest;
    let t3 = spec_emit_u64(c.exp as int) + t4;
    let t2 = ascii_of(",\"exp\":"@) + t3;
    let t1 = spec_emit_data(c.data) + t2;
    assert(t =~= ascii_of("{\"data\":"@) + t1);
    lemma_expect(ascii_of("{\"data\":"@), t1);
    lemma_parse_emit_data(c.data, t2);
    lemma_expect(ascii_of(",\"exp\":"@), t3);
    reveal_strlit("}");
    assert(t4[0] == ascii_of("}"@)[0]);
    assert(t4[0] == 125);
    assert(!is_digit(t4[0]));
    lemma_parse_emit_u64(c.exp, t4);
    lemma_expect(ascii_of("}"@), rest);
    assert(SpecClaims { data: c.data, exp: c.exp } =~= c);
}

/// A whole emitted claims document parses back to its claims.
pub proof fn lemma_parse_emit_claims_full(c: SpecClaims)
    ensures
        spec_parse_claims_full(spec_emit_claims(c)) == Some(c),
{
    lemma_parse_emit_claims(c, Seq::empty());
    assert(spec_emit_claims(c) + Seq::<u8>::empty() =~= spec_emit_claims(c));
}

/// The lowercase hexadecimal digit of a value below sixteen.
fn hex_digit_exec(v: u8) -> (r: u8)
    requires
        v < 16,
    ensures
        r == hex_digit(v as int),
{
    if v < 10 {
        48 + v
    } else {
        87 + v
    }
}

/// The value of a hexadecimal digit byte.
fn hex_val_exec(b: u8) -> (r: Option<u8>)
    ensures
        r == hex_val(b),
{
    if 48 <= b && b <= 57 {
        Some(b - 48)
    } else if 97 <= b && b <= 102 {
        Some(b - 87)
    } else if 65 <= b && b <= 70 {
        Some(b - 55)
    } else {
        None
    }
}

/// Appends the bytes of an ASCII literal.
fn emit_lit_into(out: &mut Vec<u8>, lit: &str)
    requires
        lit.is_ascii(),
    ensures
        final(out)@ == old(out)@ + ascii_of(lit@),
{
    let v = crate::bytes::lit_bytes(lit);
    crate::bytes::extend(out, &v);
}

/// Appends the escaped body of a string.
fn emit_escape_into(out: &mut Vec<u8>, s: &Vec<u8>)
    ensures
        final(out)@ == old(out)@ + spec_escape(s@),
{
    let mut i: usize = 0;
    proof {
        assert(s@.skip(0) =~= s@);
    }
    while i < s.len()
        invariant
            i <= s@.len(),
            out@ + spec_escape(s@.skip(i as int)) == old(out)@ + spec_escape(s@),
        decreases s@.len() - i,
    {
        let ghost out0 = out@;
        let b = s[i];
        if b == 34 {
            out.push(92);
            out.push(34);
        } else if b == 92 {
            out.push(92);
            out.push(92);
        } else if b < 32 {
            out.push(92);
            out.push(117);
            out.push(48);
            out.push(48);
            out.push(hex_digit_exec(b / 16));
            out.push(hex_digit_exec(b % 16));
        } else {
            out.push(b);
        }
        proof {
            let tail = s@.skip(i as int);
            assert(tail[0] == s@[i as int]);
            assert(tail.skip(1) =~= s@.skip(i as int + 1));
            assert(spec_escape(tail) == esc_byte(s@[i as int]) + spec_escape(
                s@.skip(i as int + 1),
            ));
            assert(out@ =~= out0 + esc_byte(s@[i as int]));
            assert(out@ + spec_escape(s@.skip(i as int + 1)) =~= out0 + spec_escape(tail));
        }
        i = i + 1;
    }
    proof {
        assert(s@.skip(i as int) =~= Seq::<u8>::empty());
        assert(out@ + Seq::<u8>::empty() =~= out@);
    }
}

/// Appends a full quoted string.
fn emit_string_into(out: &mut Vec<u8>, s: &Vec<u8>)
    ensures
        final(out)@ == old(out)@ + spec_emit_string(s@),
{
    out.push(34);
    emit_escape_into(out, s);
    out.push(34);
    proof {
        assert(final(out)@ =~= old(out)@ + spec_emit_string(s@));
    }
}

/// Appends the decimal digits of a number.
fn emit_u64_into(out: &mut Vec<u8>, n: u64)
    ensures
        final(out)@ == old(out)@ + spec_emit_u64(n as int),
    decreases n,
{
    if n < 10 {
        out.push(48 + (n as u8));
        proof {
            assert(old(out)@.push((48 + n as int) as u8) =~= old(out)@ + spec_emit_u64(n as int));
        }
    } else {
        emit_u64_into(out, n / 10);
        out.push(48 + ((n % 10) as u8));
        proof {
            assert((old(out)@ + spec_emit_u64((n / 10) as int)).push((48 + (n % 10) as int) as u8)
                =~= old(out)@ + spec_emit_u64(n as int));
        }
    }
}

/// Appends an optional target configuration document.
fn emit_opt_into(out: &mut Vec<u8>, u: Option<&Vec<u8>>)
    ensures
        final(out)@ == old(out)@ + spec_emit_opt(
            match u {
                Some(v) => Some(v@),
                None => None,
            },
        ),
{
    match u {
        None => {
            proof {
                reveal_strlit("null");
            }
            emit_lit_into(out, "null");
        },
        Some(v) => {
            let ghost o0 = out@;
            proof {
                reveal_strlit("{\"uri\":");
            }
            emit_lit_into(out, "{\"uri\":");
            emit_string_into(out, v);
            proof {
                reveal_strlit("}");
            }
            emit_lit_into(out, "}");
            proof {
                assert(out@ =~= o0 + spec_emit_opt(Some(v@)));
            }
        },
    }
}

/// Appends a scan request document.
fn emit_req_into(out: &mut Vec<u8>, r: &ScanRequest)
    ensures
        final(out)@ == old(out)@ + spec_emit_req(r@),
{
    let ghost o0 = out@;
    proof {
        reveal_strlit("{\"email\":");
    }
    emit_lit_into(out, "{\"email\":");
    emit_string_into(out, &r.email);
    proof {
        reveal_strlit(",\"rustscan\":");
    }
    emit_lit_into(out, ",\"rustscan\":");
    match &r.rustscan {
        Some(c) => emit_opt_into(out, Some(&c.uri)),
        None => emit_opt_into(out, None),
    }
    proof {
        reveal_strlit(",\"zap\":");
    }
    emit_lit_into(out, ",\"zap\":");
    match &r.zap {
        Some(c) => emit_opt_into(out, Some(&c.uri)),
        None => emit_opt_into(out, None),
    }
    proof {
        reveal_strlit("}");
    }
    emit_lit_into(out, "}");
    proof {
        assert(out@ =~= o0 + spec_emit_req(r@));
    }
}

/// Appends a request-with-identity document.
fn emit_data_into(out: &mut Vec<u8>, d: &ScanRequestWithID)
    ensures
        final(out)@ == old(out)@ + spec_emit_data(d@),
{
    let ghost o0 = out@;
    proof {
        reveal_strlit("{\"id\":");
    }
    emit_lit_into(out, "{\"id\":");
    emit_string_into(out, &d.id.0);
    proof {
        reveal_strlit(",\"req\":");
    }
    emit_lit_into(out, ",\"req\":");
    emit_req_into(out, &d.req);
    proof {
        reveal_strlit("}");
    }
    emit_lit_into(out, "}");
    proof {
        assert(out@ =~= o0 + spec_emit_data(d@));
    }
}

/// The serialized document of a request with its identity, the body
/// later posted to the downstream webhook.
pub fn emit_data_bytes(d: &ScanRequestWithID) -> (r: Vec<u8>)
    ensures
        r@ == spec_emit_data(d@),
{
    let mut out: Vec<u8> = Vec::new();
    emit_data_into(&mut out, d);
    proof {
        assert(Seq::<u8>::empty() + spec_emit_data(d@) =~= spec_emit_data(d@));
    }
    out
}

/// The serialized claims document of a token payload.
pub fn emit_claims_bytes(c: &JWTClaims) -> (r: Vec<u8>)
    ensures
        r@ == spec_emit_claims(c@),
{
    let mut out: Vec<u8> = Vec::new();
    proof {
        reveal_strlit("{\"data\":");
    }
    emit_lit_into(&mut out, "{\"data\":");
    emit_data_into(&mut out, &c.data);
    proof {
        reveal_strlit(",\"exp\":");
    }
    emit_lit_into(&mut out, ",\"exp\":");
    emit_u64_into(&mut out, c.exp);
    proof {
        reveal_strlit("}");
    }
    emit_lit_into(&mut out, "}");
    proof {
        assert(out@ =~= spec_emit_claims(c@));
    }
    out
}

/// Consumes an exact ASCII literal at position `i`.
fn expect_at(s: &Vec<u8>, i: usize, lit: &Vec<u8>) -> (res: Option<usize>)
    requires
        i <= s@.len(),
    ensures
        match res {
            Some(j) => i <= j <= s@.len() && spec_expect(s@.skip(i as int), lit@) == Some(
                s@.skip(j as int),
            ),
            None => spec_expect(s@.skip(i as int), lit@) is None,
        },
{
    if s.len() - i < lit.len() {
        return None;
    }
    let mut k: usize = 0;
    while k < lit.len()
        invariant
            k <= lit@.len(),
            i + lit@.len() <= s@.len(),
            s@.len() <= usize::MAX,
            forall|m: int| 0 <= m < k ==> s@[i + m] == lit@[m],
        decreases lit@.len() - k,
    {
        proof {
            assert(i + k < s@.len());
        }
        if s[i + k] != lit[k] {
            proof {
                let t = s@.skip(i as int);
                if t.take(lit@.len() as int) == lit@ {
                    assert(t.take(lit@.len() as int)[k as int] == lit@[k as int]);
                    assert(t[k as int] == s@[i + k]);
                }
            }
            return None;
        }
        k = k + 1;
    }
    proof {
        let t = s@.skip(i as int);
        assert(t.take(lit@.len() as int) =~= lit@);
        assert(t.skip(lit@.len() as int) =~= s@.skip(i + lit@.len()));
    }
    Some(i + lit.len())
}

/// Reads a quoted string at position `i`, undoing its escapes.
fn parse_string_at(s: &Vec<u8>, i: usize) -> (res: Option<(Vec<u8>, usize)>)
    requires
        i <= s@.len(),
    ensures
        match res {
            Some(p) => i <= p.1 <= s@.len() && spec_parse_string(s@.skip(i as int)) == Some(
                (p.0@, s@.skip(p.1 as int)),
            ),
            None => spec_parse_string(s@.skip(i as int)) is None,
        },
{
    if i >= s.len() || s[i] != 34 {
        return None;
    }
    let ghost i1 = i + 1 as int;
    proof {
        assert(s@.skip(i as int)[0] == 34);
        assert(s@.skip(i as int).skip(1) =~= s@.skip(i1));
    }
    let mut k: usize = i + 1;
    let mut out: Vec<u8> = Vec::new();
    proof {
        assert(out@ + Seq::<u8>::empty() =~= out@);
    }
    while k < s.len()
        invariant
            i + 1 <= k <= s@.len(),
            i1 == i + 1 as int,
            spec_parse_string(s@.skip(i as int)) == spec_scan_string(s@.skip(i1)),
            spec_scan_string(s@.skip(i1)) == match spec_scan_string(s@.skip(k as int)) {
                Some((t, r)) => Some((out@ + t, r)),
                None => None::<(Seq<u8>, Seq<u8>)>,
            },
        decreases s@.len() - k,
    {
        let ghost tail = s@.skip(k as int);
        let ghost out0 = out@;
        let b = s[k];
        proof {
            assert(tail[0] == b);
        }
        if b == 34 {
            proof {
                assert(spec_scan_string(tail) == Some((Seq::<u8>::empty(), tail.skip(1))));
                assert(tail.skip(1) =~= s@.skip(k + 1));
                assert(out@ + Seq::<u8>::empty() =~= out@);
            }
            return Some((out, k + 1));
        } else if b == 92 {
            if s.len() - k >= 2 && (s[k + 1] == 34 || s[k + 1] == 92) {
                out.push(s[k + 1]);
                proof {
                    assert(tail[1] == s@[k + 1]);
                    assert(tail.skip(2) =~= s@.skip(k + 2));
                    assert(spec_scan_string(tail) == match spec_scan_string(s@.skip(k + 2)) {
                        Some((t, r)) => Some((seq![tail[1]] + t, r)),
                        None => None::<(Seq<u8>, Seq<u8>)>,
                    });
                    match spec_scan_string(s@.skip(k + 2)) {
                        Some((t, r)) => {
                            assert(out0 + (seq![tail[1]] + t) =~= out@ + t);
                        },
                        None => {},
                    }
                }
                k = k + 2;
            } else if s.len() - k >= 6 && s[k + 1] == 117 && s[k + 2] == 48 && s[k + 3] == 48 {
                let h4 = hex_val_exec(s[k + 4]);
                let h5 = hex_val_exec(s[k + 5]);
                let (ok, val): (bool, u8) = match (h4, h5) {
                    (Some(v4), Some(v5)) => {
                        if v4 < 16 && v5 < 16 && v4 * 16 + v5 < 32 {
                            (true, v4 * 16 + v5)
                        } else {
                            (false, 0)
                        }
                    },
                    _ => (false, 0),
                };
                proof {
                    assert(tail[1] == s@[k + 1] && tail[2] == s@[k + 2] && tail[3] == s@[k + 3]
                        && tail[4] == s@[k + 4] && tail[5] == s@[k + 5]);
                }
                if !ok {
                    proof {
                        assert(spec_scan_string(tail) is None);
                    }
                    return None;
                }
                out.push(val);
                proof {
                    assert(tail.skip(6) =~= s@.skip(k + 6));
                    match spec_scan_string(s@.skip(k + 6)) {
                        Some((t, r)) => {
                            assert(out0 + (seq![val] + t) =~= out@ + t);
                        },
                        None => {},
                    }
                }
                k = k + 6;
            } else {
                proof {
                    assert(spec_scan_string(tail) is None);
                }
                return None;
            }
        } else if b < 32 {
            proof {
                assert(spec_scan_string(tail) is None);
            }
            return None;
        } else {
            out.push(b);
            proof {
                assert(tail.skip(1) =~= s@.skip(k + 1));
                match spec_scan_string(s@.skip(k + 1)) {
                    Some((t, r)) => {
                        assert(out0 + (seq![b] + t) =~= out@ + t);
                    },
                    None => {},
                }
            }
            k = k + 1;
        }
    }
    proof {
        assert(s@.skip(k as int) =~= Seq::<u8>::empty());
    }
    None
}

/// Reads an unsigned decimal number at position `i`.
fn parse_u64_at(s: &Vec<u8>, i: usize) -> (res: Option<(u64, usize)>)
    requires
        i <= s@.len(),
    ensures
        match res {
            Some(p) => i <= p.1 <= s@.len() && spec_parse_u64(s@.skip(i as int)) == Some(
                (p.0, s@.skip(p.1 as int)),
            ),
            None => spec_parse_u64(s@.skip(i as int)) is None,
        },
{
    let mut j: usize = i;
    while j < s.len() && 48 <= s[j] && s[j] <= 57
        invariant
            i <= j <= s@.len(),
            forall|m: int| i <= m < j ==> is_digit(s@[m]),
        decreases s@.len() - j,
    {
        j = j + 1;
    }
    let ghost d = s@.subrange(i as int, j as int);
    let ghost r = s@.skip(j as int);
    proof {
        assert(all_digits(d));
        assert(r.len() == 0 || !is_digit(r[0]));
        assert(s@.skip(i as int) =~= d + r);
        lemma_scan_digits_concat(d, r);
        assert(spec_scan_digits(s@.skip(i as int)) == (d, r));
    }
    if j == i {
        proof {
            assert(d.len() == 0);
        }
        return None;
    }
    let mut acc: u64 = 0;
    let mut k: usize = i;
    proof {
        assert(s@.subrange(i as int, i as int) =~= Seq::<u8>::empty());
    }
    while k < j
        invariant
            i <= k <= j <= s@.len(),
            forall|m: int| i <= m < j ==> is_digit(s@[m]),
            d == s@.subrange(i as int, j as int),
            r == s@.skip(j as int),
            spec_scan_digits(s@.skip(i as int)) == (d, r),
            acc == digits_val(s@.subrange(i as int, k as int)),
        decreases j - k,
    {
        let dg = s[k] - 48;
        let ghost pre = s@.subrange(i as int, k as int);
        let ghost pre1 = s@.subrange(i as int, k as int + 1);
        proof {
            assert(pre1.drop_last() =~= pre);
            assert(pre1.last() == s@[k as int]);
            assert(digits_val(pre1) == digits_val(pre) * 10 + (s@[k as int] - 48));
        }
        if acc > (u64::MAX - (dg as u64)) / 10 {
            proof {
                let m = (u64::MAX - dg) as int;
                vstd::arithmetic::div_mod::lemma_fundamental_div_mod(m, 10);
                assert((acc as int) >= m / 10 + 1);
                assert((acc as int) * 10 >= (m / 10 + 1) * 10) by (nonlinear_arith)
                    requires
                        (acc as int) >= m / 10 + 1,
                ;
                assert((m / 10 + 1) * 10 == (m / 10) * 10 + 10);
                assert((m / 10) * 10 + 10 > m);
                assert(digits_val(pre1) > u64::MAX);
                assert(pre1 =~= d.take(k + 1 - i));
                lemma_digits_val_prefix(d, k + 1 - i);
                assert(digits_val(d) > u64::MAX);
            }
            return None;
        }
        proof {
            let m = (u64::MAX - dg) as int;
            vstd::arithmetic::div_mod::lemma_fundamental_div_mod(m, 10);
            assert((acc as int) <= m / 10);
            assert((acc as int) * 10 <= (m / 10) * 10) by (nonlinear_arith)
                requires
                    (acc as int) <= m / 10,
            ;
            assert((m / 10) * 10 <= m);
            assert((acc as int) * 10 + dg <= u64::MAX);
        }
        acc = acc * 10 + (dg as u64);
        k = k + 1;
    }
    proof {
        assert(s@.subrange(i as int, k as int) =~= d);
        assert(digits_val(d) == acc as int);
        assert(digits_val(d) <= u64::MAX);
    }
    Some((acc, j))
}

/// Reads an optional target configuration at position `i`.
fn parse_opt_at(s: &Vec<u8>, i: usize) -> (res: Option<(Option<Vec<u8>>, usize)>)
    requires
        i <= s@.len(),
    ensures
        match res {
            Some(p) => i <= p.1 <= s@.len() && spec_parse_opt(s@.skip(i as int)) == Some(
                (
                    match p.0 {
                        Some(v) => Some(v@),
                        None => None,
                    },
                    s@.skip(p.1 as int),
                ),
            ),
            None => spec_parse_opt(s@.skip(i as int)) is None,
        },
{
    if i >= s.len() {
        return None;
    }
    let b = s[i];
    proof {
        assert(s@.skip(i as int)[0] == b);
    }
    if b == 110 {
        proof {
            reveal_strlit("null");
        }
        let lit = crate::bytes::lit_bytes("null");
        match expect_at(s, i, &lit) {
            Some(j) => Some((None, j)),
            None => None,
        }
    } else if b == 123 {
        proof {
            reveal_strlit("{\"uri\":");
            reveal_strlit("}");
        }
        let lit_open = crate::bytes::lit_bytes("{\"uri\":");
        let j1 = match expect_at(s, i, &lit_open) {
            Some(j) => j,
            None => {
                return None;
            },
        };
        let (uri, j2) = match parse_string_at(s, j1) {
            Some(p) => p,
            None => {
                return None;
            },
        };
        let lit_close = crate::bytes::lit_bytes("}");
        let j3 = match expect_at(s, j2, &lit_close) {
            Some(j) => j,
            None => {
                return None;
            },
        };
        Some((Some(uri), j3))
    } else {
        None
    }
}

/// Reads a scan request document at position `i`.
fn parse_req_at(s: &Vec<u8>, i: usize) -> (res: Option<(ScanRequest, usize)>)
    requires
        i <= s@.len(),
    ensures
        match res {
            Some(p) => i <= p.1 <= s@.len() && spec_parse_req(s@.skip(i as int)) == Some(
                (p.0@, s@.skip(p.1 as int)),
            ),
            None => spec_parse_req(s@.skip(i as int)) is None,
        },
{
    proof {
        reveal_strlit("{\"email\":");
        reveal_strlit(",\"rustscan\":");
        reveal_strlit(",\"zap\":");
        reveal_strlit("}");
    }
    let lit_email = crate::bytes::lit_bytes("{\"email\":");
    let j1 = match expect_at(s, i, &lit_email) {
        Some(j) => j,
        None => {
            return None;
        },
    };
    let (email, j2) = match parse_string_at(s, j1) {
        Some(p) => p,
        None => {
            return None;
        },
    };
    let lit_rs = crate::bytes::lit_bytes(",\"rustscan\":");
    let j3 = match expect_at(s, j2, &lit_rs) {
        Some(j) => j,
        None => {
            return None;
        },
    };
    let (rustscan, j4) = match parse_opt_at(s, j3) {
        Some(p) => p,
        None => {
            return None;
        },
    };
    let lit_zap = crate::bytes::lit_bytes(",\"zap\":");
    let j5 = match expect_at(s, j4, &lit_zap) {
        Some(j) => j,
        None => {
            return None;
        },
    };
    let (zap, j6) = match parse_opt_at(s, j5) {
        Some(p) => p,
        None => {
            return None;
        },
    };
    let lit_close = crate::bytes::lit_bytes("}");
    let j7 = match expect_at(s, j6, &lit_close) {
        Some(j) => j,
        None => {
            return None;
        },
    };
    let req = ScanRequest {
        email,
        rustscan: match rustscan {
            Some(u) => Some(RustscanConfig { uri: u }),
            None => None,
        },
        zap: match zap {
            Some(u) => Some(ZapConfig { uri: u }),
            None => None,
        },
    };
    proof {
        assert(spec_parse_req(s@.skip(i as int)).unwrap().0 =~= req@);
    }
    Some((req, j7))
}

/// Reads a request-with-identity document at position `i`.
fn parse_data_at(s: &Vec<u8>, i: usize) -> (res: Option<(ScanRequestWithID, usize)>)
    requires
        i <= s@.len(),
    ensures
        match res {
            Some(p) => i <= p.1 <= s@.len() && spec_parse_data(s@.skip(i as int)) == Some(
                (p.0@, s@.skip(p.1 as int)),
            ),
            None => spec_parse_data(s@.skip(i as int)) is None,
        },
{
    proof {
        reveal_strlit("{\"id\":");
        reveal_strlit(",\"req\":");
        reveal_strlit("}");
    }
    let lit_id = crate::bytes::lit_bytes("{\"id\":");
    let j1 = match expect_at(s, i, &lit_id) {
        Some(j) => j,
        None => {
            return None;
        },
    };
    let (id, j2) = match parse_string_at(s, j1) {
        Some(p) => p,
        None => {
            return None;
        },
    };
    let lit_req = crate::bytes::lit_bytes(",\"req\":");
    let j3 = match expect_at(s, j2, &lit_req) {
        Some(j) => j,
        None => {
            return None;
        },
    };
    let (req, j4) = match parse_req_at(s, j3) {
        Some(p) => p,
        None => {
            return None;
        },
    };
    let lit_close = crate::bytes::lit_bytes("}");
    let j5 = match expect_at(s, j4, &lit_close) {
        Some(j) => j,
        None => {
            return None;
        },
    };
    let data = ScanRequestWithID { id: ScanID(id), req };
    proof {
        assert(spec_parse_data(s@.skip(i as int)).unwrap().0 =~= data@);
    }
    Some((data, j5))
}

/// Reads a claims document at position `i`.
fn parse_claims_at(s: &Vec<u8>, i: usize) -> (res: Option<(JWTClaims, usize)>)
    requires
        i <= s@.len(),
    ensures
        match res {
            Some(p) => i <= p.1 <= s@.len() && spec_parse_claims(s@.skip(i as int)) == Some(
                (p.0@, s@.skip(p.1 as int)),
            ),
            None => spec_parse_claims(s@.skip(i as int)) is None,
        },
{
    proof {
        reveal_strlit("{\"data\":");
        reveal_strlit(",\"exp\":");
        reveal_strlit("}");
    }
    let lit_data = crate::bytes::lit_bytes("{\"data\":");
    let j1 = match expect_at(s, i, &lit_data) {
        Some(j) => j,
        None => {
            return None;
        },
    };
    let (data, j2) = match parse_data_at(s, j1) {
        Some(p) => p,
        None => {
            return None;
        },
    };
    let lit_exp = crate::bytes::lit_bytes(",\"exp\":");
    let j3 = match expect_at(s, j2, &lit_exp) {
        Some(j) => j,
        None => {
            return None;
        },
    };
    let (exp, j4) = match parse_u64_at(s, j3) {
        Some(p) => p,
        None => {
            return None;
        },
    };
    let lit_close = crate::bytes::lit_bytes("}");
    let j5 = match expect_at(s, j4, &lit_close) {
        Some(j) => j,
        None => {
            return None;
        },
    };
    let claims = JWTClaims { data, exp };
    proof {
        assert(spec_parse_claims(s@.skip(i as int)).unwrap().0 =~= claims@);
    }
    Some((claims, j5))
}

/// Reads a whole claims document and nothing else.
pub fn parse_claims_bytes(s: &Vec<u8>) -> (res: Option<JWTClaims>)
    ensures
        match res {
            Some(c) => spec_parse_claims_full(s@) == Some(c@),
            None => spec_parse_claims_full(s@) is None,
        },
{
    proof {
        assert(s@.skip(0) =~= s@);
    }
    match parse_claims_at(s, 0) {
        Some((c, j)) => {
            if j == s.len() {
                proof {
                    assert(s@.skip(j as int) =~= Seq::<u8>::empty());
                }
                Some(c)
            } else {
                proof {
                    assert(s@.skip(j as int).len() > 0);
                }
                None
            }
        },
        None => None,
    }
}

} // verus!
