//! Core of a local personal-data store: a spaced-repetition scheduling
//! engine, a reversible field obfuscator (repeating-key XOR plus a
//! radix-64 text encoding), and an in-memory record store that maintains
//! the invariants tying the two together.
//!
//! Persistence, process bootstrapping and UI command dispatch live
//! outside this crate; they hand the library plain values and get plain
//! records back.

pub mod clock;
pub mod codec;
pub mod errors;
pub mod obfuscator;
pub mod records;
pub mod scheduler;
pub mod store;
pub mod validation;
