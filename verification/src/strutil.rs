//! Bridges between `String`/`&str` and `Vec<char>`.
//!
//! The encoding and hashing logic of this crate works character by character
//! over `Vec<char>`; these two conversions move between the textual types and
//! that representation.

use vstd::prelude::*;

verus! {

/// Relies on `str::chars`: the iterator yields exactly the string's
/// characters, in order, so collecting them gives a vector whose view is the
/// string's view.
#[verifier::external_body]
pub fn chars_vec(s: &str) -> (r: Vec<char>)
    ensures
        r@ == s@,
{
    s.chars().collect()
}

/// Relies on `String`'s `FromIterator<char>`: collecting characters builds
/// the string made of exactly those characters, in order.
#[verifier::external_body]
pub fn string_of_chars(v: &Vec<char>) -> (r: String)
    ensures
        r@ == v@,
{
    v.iter().collect()
}

} // verus!
