//! Random filename assignment for ingestion sessions: a fixed-length token
//! drawn uniformly from the ASCII alphanumeric alphabet. No uniqueness check
//! is made against existing files; the collision risk is accepted.

use vstd::prelude::*;

verus! {

/// The length of every generated filename.
pub const FILENAME_LEN: usize = 10;

/// An ASCII digit or letter.
pub open spec fn is_alphanumeric_byte(b: u8) -> bool {
    (48 <= b <= 57) || (65 <= b <= 90) || (97 <= b <= 122)
}

/// Relies on `rand::distributions::Alphanumeric` as a `Distribution<u8>`:
/// it samples uniformly from the 62-symbol alphabet `A-Z`, `a-z`, `0-9`.
/// Nothing more is promised of a random draw.
#[verifier::external_body]
fn sample_alphanumeric() -> (b: u8)
    ensures
        is_alphanumeric_byte(b),
{
    let b: u8 = rand::Rng::sample(&mut rand::thread_rng(), rand::distributions::Alphanumeric);
    b
}

/// Draws a fresh random filename: fixed length, ASCII alphanumeric only,
/// so it never holds a slash, a dot or whitespace.
pub fn generate_random_filename() -> (name: Vec<u8>)
    ensures
        name@.len() == FILENAME_LEN,
        forall|i: int| 0 <= i < name@.len() ==> is_alphanumeric_byte(name@[i]),
{
    let mut name: Vec<u8> = Vec::new();
    let mut i: usize = 0;
    while i < FILENAME_LEN
        invariant
            i <= FILENAME_LEN,
            name@.len() == i,
            forall|k: int| 0 <= k < name@.len() ==> is_alphanumeric_byte(name@[k]),
        decreases FILENAME_LEN - i,
    {
        name.push(sample_alphanumeric());
        i += 1;
    }
    name
}

} // verus!
