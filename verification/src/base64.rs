//! URL-safe base64 without padding, the encoding used for the two signed
//! segments of a token.  Encoding and decoding are verified to be mutual
//! inverses, and encoded text never contains the `.` segment separator.

use vstd::prelude::*;

verus! {

/// The alphabet character standing for a six-bit value.
pub open spec fn b64_char(v: int) -> u8 {
    if v < 26 {
        (65 + v) as u8  // 'A'..='Z'
    } else if v < 52 {
        (97 + (v - 26)) as u8  // 'a'..='z'
    } else if v < 62 {
        (48 + (v - 52)) as u8  // '0'..='9'
    } else if v == 62 {
        45  // '-'
    } else {
        95  // '_'
    }
}

/// The six-bit value of an alphabet character, if it is one.
pub open spec fn b64_val(c: u8) -> Option<u8> {
    if 65 <= c && c <= 90 {
        Some((c - 65) as u8)
    } else if 97 <= c && c <= 122 {
        Some((c - 97 + 26) as u8)
    } else if 48 <= c && c <= 57 {
        Some((c - 48 + 52) as u8)
    } else if c == 45 {
        Some(62u8)
    } else if c == 95 {
        Some(63u8)
    } else {
        None
    }
}

/// Base64url encoding of a byte sequence, three bytes to four characters,
/// a two-byte tail to three and a one-byte tail to two, with no padding.
pub open spec fn spec_b64_encode(s: Seq<u8>) -> Seq<u8>
    decreases s.len(),
{
    if s.len() == 0 {
        Seq::empty()
    } else if s.len() == 1 {
        let b0 = s[0] as int;
        seq![b64_char(b0 / 4), b64_char((b0 % 4) * 16)]
    } else if s.len() == 2 {
        let b0 = s[0] as int;
        let b1 = s[1] as int;
        seq![b64_char(b0 / 4), b64_char((b0 % 4) * 16 + b1 / 16), b64_char((b1 % 16) * 4)]
    } else {
        let b0 = s[0] as int;
        let b1 = s[1] as int;
        let b2 = s[2] as int;
        seq![
            b64_char(b0 / 4),
            b64_char((b0 % 4) * 16 + b1 / 16),
            b64_char((b1 % 16) * 4 + b2 / 64),
            b64_char(b2 % 64),
        ] + spec_b64_encode(s.skip(3))
    }
}

/// Base64url decoding, the inverse reading: four characters to three
/// bytes, a three-character tail to two and a two-character tail to one.
/// A lone trailing character or a byte outside the alphabet is rejected.
pub open spec fn spec_b64_decode(s: Seq<u8>) -> Option<Seq<u8>>
    decreases s.len(),
{
    if s.len() == 0 {
        Some(Seq::empty())
    } else if s.len() == 1 {
        None
    } else if s.len() == 2 {
        match (b64_val(s[0]), b64_val(s[1])) {
            (Some(v0), Some(v1)) => Some(seq![((v0 as int) * 4 + (v1 as int) / 16) as u8]),
            _ => None,
        }
    } else if s.len() == 3 {
        match (b64_val(s[0]), b64_val(s[1]), b64_val(s[2])) {
            (Some(v0), Some(v1), Some(v2)) => Some(
                seq![
                    ((v0 as int) * 4 + (v1 as int) / 16) as u8,
                    (((v1 as int) % 16) * 16 + (v2 as int) / 4) as u8,
                ],
            ),
            _ => None,
        }
    } else {
        match (b64_val(s[0]), b64_val(s[1]), b64_val(s[2]), b64_val(s[3])) {
            (Some(v0), Some(v1), Some(v2), Some(v3)) => match spec_b64_decode(s.skip(4)) {
                Some(t) => Some(
                    seq![
                        ((v0 as int) * 4 + (v1 as int) / 16) as u8,
                        (((v1 as int) % 16) * 16 + (v2 as int) / 4) as u8,
                        (((v2 as int) % 4) * 64 + (v3 as int)) as u8,
                    ] + t,
                ),
                None => None,
            },
            _ => None,
        }
    }
}

/// Every encoded character carries a six-bit value; in particular the
/// alphabet is closed under `b64_val`.
pub proof fn lemma_b64_char_val(v: int)
    requires
        0 <= v < 64,
    ensures
        b64_val(b64_char(v)) == Some(v as u8),
{
}

/// No alphabet character is the dot that separates token segments.
pub proof fn lemma_b64_char_not_dot(v: int)
    requires
        0 <= v < 64,
    ensures
        b64_char(v) != 46,
{
}

/// Encoded text is dot-free throughout.
pub proof fn lemma_b64_encode_not_dot(s: Seq<u8>)
    ensures
        forall|i: int| 0 <= i < spec_b64_encode(s).len() ==> spec_b64_encode(s)[i] != 46,
    decreases s.len(),
{
    if s.len() == 0 {
    } else if s.len() == 1 {
        let b0 = s[0] as int;
        lemma_b64_char_not_dot(b0 / 4);
        lemma_b64_char_not_dot((b0 % 4) * 16);
    } else if s.len() == 2 {
        let b0 = s[0] as int;
        let b1 = s[1] as int;
        lemma_b64_char_not_dot(b0 / 4);
        lemma_b64_char_not_dot((b0 % 4) * 16 + b1 / 16);
        lemma_b64_char_not_dot((b1 % 16) * 4);
    } else {
        let b0 = s[0] as int;
        let b1 = s[1] as int;
        let b2 = s[2] as int;
        lemma_b64_char_not_dot(b0 / 4);
        lemma_b64_char_not_dot((b0 % 4) * 16 + b1 / 16);
        lemma_b64_char_not_dot((b1 % 16) * 4 + b2 / 64);
        lemma_b64_char_not_dot(b2 % 64);
        lemma_b64_encode_not_dot(s.skip(3));
        let e = spec_b64_encode(s);
        let g = seq![
            b64_char(b0 / 4),
            b64_char((b0 % 4) * 16 + b1 / 16),
            b64_char((b1 % 16) * 4 + b2 / 64),
            b64_char(b2 % 64),
        ];
        assert(e == g + spec_b64_encode(s.skip(3)));
        assert forall|i: int| 0 <= i < e.len() implies e[i] != 46 by {
            if i >= 4 {
                assert(e[i] == spec_b64_encode(s.skip(3))[i - 4]);
            }
        }
    }
}

/// Decoding inverts encoding on every byte sequence.
pub proof fn lemma_b64_round_trip(s: Seq<u8>)
    ensures
        spec_b64_decode(spec_b64_encode(s)) == Some(s),
    decreases s.len(),
{
    if s.len() == 0 {
        assert(spec_b64_encode(s) =~= Seq::<u8>::empty());
        assert(s =~= Seq::<u8>::empty());
    } else if s.len() == 1 {
        let b0 = s[0] as int;
        lemma_b64_char_val(b0 / 4);
        lemma_b64_char_val((b0 % 4) * 16);
        assert(spec_b64_decode(spec_b64_encode(s)).unwrap() =~= s);
    } else if s.len() == 2 {
        let b0 = s[0] as int;
        let b1 = s[1] as int;
        lemma_b64_char_val(b0 / 4);
        lemma_b64_char_val((b0 % 4) * 16 + b1 / 16);
        lemma_b64_char_val((b1 % 16) * 4);
        assert(spec_b64_decode(spec_b64_encode(s)).unwrap() =~= s);
    } else {
        let b0 = s[0] as int;
        let b1 = s[1] as int;
        let b2 = s[2] as int;
        lemma_b64_char_val(b0 / 4);
        lemma_b64_char_val((b0 % 4) * 16 + b1 / 16);
        lemma_b64_char_val((b1 % 16) * 4 + b2 / 64);
        lemma_b64_char_val(b2 % 64);
        lemma_b64_round_trip(s.skip(3));
        let e = spec_b64_encode(s);
        assert(e.skip(4) =~= spec_b64_encode(s.skip(3)));
        assert(spec_b64_decode(e).unwrap() =~= s);
    }
}

/// The alphabet character for a six-bit value.
fn enc_char(v: u8) -> (r: u8)
    requires
        v < 64,
    ensures
        r == b64_char(v as int),
{
    if v < 26 {
        65 + v
    } else if v < 52 {
        97 + (v - 26)
    } else if v < 62 {
        48 + (v - 52)
    } else if v == 62 {
        45
    } else {
        95
    }
}

/// The six-bit value of an alphabet character.
fn dec_char(c: u8) -> (r: Option<u8>)
    ensures
        r == b64_val(c),
{
    if 65 <= c && c <= 90 {
        Some(c - 65)
    } else if 97 <= c && c <= 122 {
        Some(c - 97 + 26)
    } else if 48 <= c && c <= 57 {
        Some(c - 48 + 52)
    } else if c == 45 {
        Some(62)
    } else if c == 95 {
        Some(63)
    } else {
        None
    }
}

/// Encodes a byte vector as base64url text.
pub fn b64_encode(s: &Vec<u8>) -> (r: Vec<u8>)
    ensures
        r@ == spec_b64_encode(s@),
{
    let mut out: Vec<u8> = Vec::new();
    let mut i: usize = 0;
    proof {
        assert(s@.skip(0) =~= s@);
    }
    while s.len() - i >= 3
        invariant
            i <= s.len(),
            out@ + spec_b64_encode(s@.skip(i as int)) == spec_b64_encode(s@),
        decreases s.len() - i,
    {
        let ghost out0 = out@;
        let b0 = s[i];
        let b1 = s[i + 1];
        let b2 = s[i + 2];
        out.push(enc_char(b0 / 4));
        out.push(enc_char((b0 % 4) * 16 + b1 / 16));
        out.push(enc_char((b1 % 16) * 4 + b2 / 64));
        out.push(enc_char(b2 % 64));
        proof {
            let tail = s@.skip(i as int);
            assert(tail.skip(3) =~= s@.skip(i as int + 3));
            assert(spec_b64_encode(tail) == seq![
                b64_char((b0 as int) / 4),
                b64_char(((b0 as int) % 4) * 16 + (b1 as int) / 16),
                b64_char(((b1 as int) % 16) * 4 + (b2 as int) / 64),
                b64_char((b2 as int) % 64),
            ] + spec_b64_encode(s@.skip(i as int + 3)));
            assert(out@ + spec_b64_encode(s@.skip(i as int + 3)) =~= out0 + spec_b64_encode(
                tail,
            ));
        }
        i = i + 3;
    }
    if s.len() - i == 1 {
        let b0 = s[i];
        out.push(enc_char(b0 / 4));
        out.push(enc_char((b0 % 4) * 16));
        proof {
            assert(out@ =~= spec_b64_encode(s@));
        }
    } else if s.len() - i == 2 {
        let b0 = s[i];
        let b1 = s[i + 1];
        out.push(enc_char(b0 / 4));
        out.push(enc_char((b0 % 4) * 16 + b1 / 16));
        out.push(enc_char((b1 % 16) * 4));
        proof {
            assert(out@ =~= spec_b64_encode(s@));
        }
    } else {
        proof {
            assert(s@.skip(i as int) =~= Seq::<u8>::empty());
            assert(out@ =~= spec_b64_encode(s@));
        }
    }
    out
}

/// Decodes base64url text back into bytes; rejects text outside the
/// alphabet or of impossible length.
pub fn b64_decode(s: &Vec<u8>) -> (r: Option<Vec<u8>>)
    ensures
        match r {
            Some(v) => spec_b64_decode(s@) == Some(v@),
            None => spec_b64_decode(s@) is None,
        },
{
    let mut out: Vec<u8> = Vec::new();
    let mut i: usize = 0;
    proof {
        assert(s@.skip(0) =~= s@);
    }
    while s.len() - i >= 4
        invariant
            i <= s.len(),
            spec_b64_decode(s@) == match spec_b64_decode(s@.skip(i as int)) {
                Some(t) => Some(out@ + t),
                None => None::<Seq<u8>>,
            },
        decreases s.len() - i,
    {
        let ghost out0 = out@;
        let v0 = match dec_char(s[i]) {
            Some(v) => v,
            None => {
                return None;
            },
        };
        let v1 = match dec_char(s[i + 1]) {
            Some(v) => v,
            None => {
                return None;
            },
        };
        let v2 = match dec_char(s[i + 2]) {
            Some(v) => v,
            None => {
                return None;
            },
        };
        let v3 = match dec_char(s[i + 3]) {
            Some(v) => v,
            None => {
                return None;
            },
        };
        out.push(v0 * 4 + v1 / 16);
        out.push((v1 % 16) * 16 + v2 / 4);
        out.push((v2 % 4) * 64 + v3);
        proof {
            let tail = s@.skip(i as int);
            let group = seq![
                (((v0 as int) * 4 + (v1 as int) / 16) as u8),
                ((((v1 as int) % 16) * 16 + (v2 as int) / 4) as u8),
                ((((v2 as int) % 4) * 64 + (v3 as int)) as u8),
            ];
            assert(tail.skip(4) =~= s@.skip(i as int + 4));
            assert(out@ =~= out0 + group);
            match spec_b64_decode(s@.skip(i as int + 4)) {
                Some(t) => {
                    assert(spec_b64_decode(tail) == Some(group + t));
                    assert(out0 + (group + t) =~= (out0 + group) + t);
                },
                None => {
                    assert(spec_b64_decode(tail) is None);
                },
            }
        }
        i = i + 4;
    }
    let rem = s.len() - i;
    if rem == 0 {
        proof {
            assert(s@.skip(i as int) =~= Seq::<u8>::empty());
            assert(out@ + Seq::<u8>::empty() =~= out@);
        }
        Some(out)
    } else if rem == 1 {
        None
    } else if rem == 2 {
        let ghost out0 = out@;
        let v0 = match dec_char(s[i]) {
            Some(v) => v,
            None => {
                return None;
            },
        };
        let v1 = match dec_char(s[i + 1]) {
            Some(v) => v,
            None => {
                return None;
            },
        };
        out.push(v0 * 4 + v1 / 16);
        proof {
            let tail = s@.skip(i as int);
            assert(spec_b64_decode(tail) == Some(
                seq![(((v0 as int) * 4 + (v1 as int) / 16) as u8)],
            ));
            assert(out0 + seq![(((v0 as int) * 4 + (v1 as int) / 16) as u8)] =~= out@);
        }
        Some(out)
    } else {
        let ghost out0 = out@;
        let v0 = match dec_char(s[i]) {
            Some(v) => v,
            None => {
                return None;
            },
        };
        let v1 = match dec_char(s[i + 1]) {
            Some(v) => v,
            None => {
                return None;
            },
        };
        let v2 = match dec_char(s[i + 2]) {
            Some(v) => v,
            None => {
                return None;
            },
        };
        out.push(v0 * 4 + v1 / 16);
        out.push((v1 % 16) * 16 + v2 / 4);
        proof {
            let tail = s@.skip(i as int);
            let group = seq![
                (((v0 as int) * 4 + (v1 as int) / 16) as u8),
                ((((v1 as int) % 16) * 16 + (v2 as int) / 4) as u8),
            ];
            assert(spec_b64_decode(tail) == Some(group));
            assert(out0 + group =~= out@);
        }
        Some(out)
    }
}

} // verus!
