//! Statistical cryptanalysis of monoalphabetic substitution ciphers.
//!
//! The crate trains an n-gram language model from a reference corpus,
//! scores candidate plaintexts against it, encodes and decodes text under
//! a 26-letter permutation key, and recovers keys by stochastic
//! hill-climbing with restarts.

pub mod alphabet;
pub mod clean;
pub mod codec;
pub mod errors;
pub mod key;
pub mod logp;
pub mod model;
pub mod ngram;
pub mod scorer;
pub mod search;
pub mod text;

pub use alphabet::alphabet;
pub use codec::{build_cryptogram, build_plaintext};
pub use errors::CipherError;
pub use key::Key;
pub use model::{train, train_with_penalty, LanguageModel};
pub use scorer::score;
pub use search::{search, RestartResult, SearchState, DEFAULT_RESTARTS, DEFAULT_STALL_LIMIT};
