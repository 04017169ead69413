//! Job identity generation: a short random name from a restricted
//! alphabet, fit for use in URLs and pod names.

use vstd::prelude::*;

verus! {

/// A byte allowed in a job identity: a lowercase letter or a digit.
pub open spec fn is_id_byte(b: u8) -> bool {
    (97 <= b && b <= 122) || (48 <= b && b <= 57)
}

/// Relies on `nanoid::format` with `nanoid::rngs::default`: the result
/// has exactly `size` characters, each drawn from `alphabet`.  The
/// random source decides which, so nothing more is promised.  The
/// bounds keep `format` from panicking (alphabet too long), spinning
/// (empty or multi-byte alphabet) or overflowing its step count.
#[verifier::external_body]
fn nanoid_format(alphabet: &Vec<u8>, size: usize) -> (r: Vec<u8>)
    requires
        1 <= alphabet@.len() <= 255,
        forall|i: int| 0 <= i < alphabet@.len() ==> alphabet@[i] < 128,
        1 <= size <= usize::MAX / 8,
    ensures
        r@.len() == size,
        forall|i: int| 0 <= i < r@.len() ==> alphabet@.contains(r@[i]),
{
    let chars: Vec<char> = alphabet.iter().map(|&b| b as char).collect();
    nanoid::format(nanoid::rngs::default, &chars, size).into_bytes()
}

/// Generates a fresh job identity: exactly ten characters, all in
/// `[a-z0-9]`, from a cryptographically sound random source.
pub fn generate() -> (id: Vec<u8>)
    ensures
        id@.len() == 10,
        forall|i: int| 0 <= i < id@.len() ==> is_id_byte(#[trigger] id@[i]),
{
    let mut alphabet: Vec<u8> = Vec::new();
    let mut b: u8 = 97;
    while b < 123
        invariant
            97 <= b <= 123,
            alphabet@.len() == b - 97,
            forall|i: int|
                0 <= i < alphabet@.len() ==> is_id_byte(#[trigger] alphabet@[i])
                    && alphabet@[i] < 128,
        decreases 123 - b,
    {
        alphabet.push(b);
        b = b + 1;
    }
    let mut d: u8 = 48;
    while d < 58
        invariant
            48 <= d <= 58,
            alphabet@.len() == 26 + (d - 48),
            forall|i: int|
                0 <= i < alphabet@.len() ==> is_id_byte(#[trigger] alphabet@[i])
                    && alphabet@[i] < 128,
        decreases 58 - d,
    {
        alphabet.push(d);
        d = d + 1;
    }
    let id = nanoid_format(&alphabet, 10);
    proof {
        assert forall|i: int| 0 <= i < id@.len() implies is_id_byte(#[trigger] id@[i]) by {
            assert(alphabet@.contains(id@[i]));
            let j = choose|j: int| 0 <= j < alphabet@.len() && alphabet@[j] == id@[i];
            assert(is_id_byte(alphabet@[j]));
        }
    }
    id
}

} // verus!
