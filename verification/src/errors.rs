//! The error taxonomy of the crate.

use vstd::prelude::*;

verus! {

/// Why an operation was refused.
///
/// `Config` covers structural preconditions: an invalid n-gram order,
/// zero restarts, or a key that is not a permutation of the alphabet.
/// `UnknownSymbol` marks a character outside the alphabet and not a
/// space in text handed to the codec or the search.
#[derive(Clone, Copy, Debug, PartialEq, Eq, Structural)]
pub enum CipherError {
    Config,
    UnknownSymbol,
}

impl CipherError {
    /// A short human-readable description of the error.
    pub fn describe(&self) -> (r: &'static str)
        ensures
            self is Config ==> r@ == "invalid configuration"@,
            self is UnknownSymbol ==> r@ == "unrecognized symbol"@,
    {
        match self {
            CipherError::Config => "invalid configuration",
            CipherError::UnknownSymbol => "unrecognized symbol",
        }
    }
}

} // verus!
