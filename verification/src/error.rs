//! The error taxonomy of the cipher core. Every failure is returned to the
//! caller; nothing is silently corrected and nothing is retried.

use vstd::prelude::*;

verus! {

/// What can go wrong while building or driving the machine.
///
/// `FileError` and `SerializationError` belong to the collaborators that
/// load and store key material; the core itself raises `SerializationError`
/// only for a rotor wiring that is not a fixed-point-free permutation of
/// the alphabet, which means the key artifact it was handed is corrupt.
#[derive(Debug)]
pub enum EnigmaError {
    /// A start-position symbol that is not in the alphabet.
    InvalidRotorPosition(char),
    /// An empty message, a start-position string that is not exactly three
    /// symbols, or an in-message symbol outside the alphabet.
    InvalidMessage(String),
    /// A malformed plugboard pair: not two symbols, a symbol outside the
    /// alphabet, or a symbol that is already mapped.
    InvalidPlugboardPair(String),
    /// A key or configuration file could not be read or written.
    FileError(String),
    /// Key material that does not decode to a valid rotor wiring.
    SerializationError(String),
}

} // verus!
