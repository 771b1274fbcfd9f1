//! Conversions between `&str` / `String` and character vectors.

use vstd::prelude::*;

verus! {

/// Relies on `str::chars`: iterating a string yields exactly the
/// characters of its view, in order.
#[verifier::external_body]
pub fn chars_of(s: &str) -> (v: Vec<char>)
    ensures
        v@ == s@,
{
    s.chars().collect()
}

/// Relies on `String: FromIterator<char>`: collecting characters yields
/// the string whose view is exactly that character sequence.
#[verifier::external_body]
pub fn string_of(v: &Vec<char>) -> (s: String)
    ensures
        s@ == v@,
{
    v.iter().collect()
}

} // verus!
