//! A rotor cipher machine: a reciprocal substitution cipher whose
//! per-character mapping changes after every character because the rotors
//! step. The crate provides the alphabet, the plugboard, the rotors, the
//! reflector, and the machine that composes them, together with proofs of
//! the cipher's structural properties (rotor reciprocity, plugboard and
//! reflector involution, and the round-trip of the composed machine).

pub mod alphabet;
pub mod error;
pub mod keygen;
pub mod machine;
pub mod plugboard;
pub mod reflector;
pub mod rotor;

pub use alphabet::index_of;
pub use alphabet::symbol_at;
pub use error::EnigmaError;
pub use keygen::generate_wirings;
pub use machine::EnigmaMachine;
pub use plugboard::Plugboard;
pub use reflector::Reflector;
pub use rotor::Rotor;
