//! Tests of the composed machine: stepping (with the double-stepping
//! anomaly), exact ciphertexts, reciprocity on a round trip, the error
//! taxonomy, and key generation.

use enigma::error::EnigmaError;
use enigma::keygen::generate_wirings;
use enigma::machine::EnigmaMachine;
use enigma::rotor::is_valid_wiring;

const ALPHABET: &str = "abcdefghijklmnopqrstuvwxyzABCDEFGHIJKLMNOPQRSTUVWXYZ ";

/// The alphabet rotated by one position: a fixed-point-free permutation.
fn shifted_wiring() -> Vec<char> {
    let symbols: Vec<char> = ALPHABET.chars().collect();
    (0..53).map(|i| symbols[(i + 1) % 53]).collect()
}

fn shifted_machine(positions: &str) -> EnigmaMachine {
    EnigmaMachine::new(shifted_wiring(), shifted_wiring(), shifted_wiring(), None, positions)
        .unwrap()
}

#[test]
fn machine_construction_sets_positions_and_notches() {
    let machine = shifted_machine("bcd");
    assert_eq!(machine.rotor1.position, 1);
    assert_eq!(machine.rotor2.position, 2);
    assert_eq!(machine.rotor3.position, 3);
    assert_eq!(machine.rotor1.notch_position, 16);
    assert_eq!(machine.rotor2.notch_position, 4);
    assert_eq!(machine.rotor3.notch_position, 21);
}

#[test]
fn encode_hello_exact_ciphertext() {
    // with every rotor a plain rotation the whole forward pass shifts by
    // three, so each output can be computed by hand
    let mut machine = shifted_machine("aaa");
    let cipher = machine.encode_message("HELLO ").unwrap();
    assert_eq!(cipher, "IDMMNa");
}

#[test]
fn round_trip_reproduces_plaintext() {
    let mut machine = shifted_machine("aaa");
    let cipher = machine.encode_message("HELLO ").unwrap();
    let mut fresh = shifted_machine("aaa");
    assert_eq!(fresh.encode_message(&cipher).unwrap(), "HELLO ");
}

#[test]
fn round_trip_with_plugboard() {
    let pairs = vec!["Ha".to_string(), "Eb".to_string()];
    let mut machine = EnigmaMachine::new(
        shifted_wiring(),
        shifted_wiring(),
        shifted_wiring(),
        Some(pairs.clone()),
        "mix",
    )
    .unwrap();
    let cipher = machine.encode_message("HELLO HELLO").unwrap();
    let mut fresh = EnigmaMachine::new(
        shifted_wiring(),
        shifted_wiring(),
        shifted_wiring(),
        Some(pairs),
        "mix",
    )
    .unwrap();
    assert_eq!(fresh.encode_message(&cipher).unwrap(), "HELLO HELLO");
}

#[test]
fn patched_reflector_positions_break_reciprocity() {
    // a character whose signal enters the reflector at one of the three
    // patched positions meets the three-way cycle instead of an involution,
    // so it does not decode back to itself — the unavoidable price of the
    // odd-size alphabet; with plain rotations the forward pass adds three,
    // so 'V' (position 47) enters the reflector at patched position 50
    let mut machine = shifted_machine("aaa");
    let cipher = machine.encode_message("V").unwrap();
    assert_eq!(cipher, "W");
    let mut fresh = shifted_machine("aaa");
    assert_eq!(fresh.encode_message(&cipher).unwrap(), "X");
}

#[test]
fn stepping_carries_into_slow_rotor() {
    // the middle rotor starts at its notch (4 = 'e') and the fast rotor one
    // step before its own (15 = 'p'): after two characters the slow rotor
    // has advanced exactly once
    let mut machine = shifted_machine("pea");
    machine.encode_message("aa").unwrap();
    assert_eq!(machine.rotor3.position, 1);
    assert_eq!(machine.rotor2.position, 6);
    assert_eq!(machine.rotor1.position, 17);
}

#[test]
fn stepping_double_steps_middle_rotor_when_both_notches_hit() {
    // both notch conditions are checked against pre-tick state, so the
    // middle rotor advances twice in one tick ('q' = 16, 'e' = 4)
    let mut machine = shifted_machine("qea");
    machine.encode_message("a").unwrap();
    assert_eq!(machine.rotor2.position, 6);
    assert_eq!(machine.rotor3.position, 1);
    assert_eq!(machine.rotor1.position, 17);
}

#[test]
fn fast_rotor_steps_every_character() {
    let mut machine = shifted_machine("aaa");
    machine.encode_message("abcde").unwrap();
    assert_eq!(machine.rotor1.position, 5);
    assert_eq!(machine.rotor2.position, 0);
    assert_eq!(machine.rotor3.position, 0);
}

#[test]
fn empty_message_rejected() {
    let mut machine = shifted_machine("aaa");
    let r = machine.encode_message("");
    assert!(matches!(r, Err(EnigmaError::InvalidMessage(_))));
}

#[test]
fn message_with_invalid_symbol_rejected() {
    let mut machine = shifted_machine("aaa");
    let r = machine.encode_message("HELLO?");
    assert!(matches!(r, Err(EnigmaError::InvalidMessage(_))));
}

#[test]
fn invalid_symbol_keeps_prior_rotor_state() {
    // the failure comes after the valid prefix has been encoded, and the
    // rotor state of that prefix stays in place
    let mut machine = shifted_machine("aaa");
    let r = machine.encode_char('?');
    assert!(matches!(r, Err(EnigmaError::InvalidMessage(_))));
    assert_eq!(machine.rotor1.position, 0);
    let _ = machine.encode_message("ab?");
    assert_eq!(machine.rotor1.position, 2);
}

#[test]
fn wrong_length_position_string_rejected() {
    for bad in ["", "ab", "abcd"] {
        let r = EnigmaMachine::new(
            shifted_wiring(),
            shifted_wiring(),
            shifted_wiring(),
            None,
            bad,
        );
        assert!(matches!(r, Err(EnigmaError::InvalidMessage(_))));
    }
}

#[test]
fn out_of_alphabet_position_symbol_rejected() {
    let r = EnigmaMachine::new(shifted_wiring(), shifted_wiring(), shifted_wiring(), None, "a?b");
    assert!(matches!(r, Err(EnigmaError::InvalidRotorPosition('?'))));
}

#[test]
fn fixed_point_wiring_rejected_at_construction() {
    let identity: Vec<char> = ALPHABET.chars().collect();
    let r = EnigmaMachine::new(identity, shifted_wiring(), shifted_wiring(), None, "aaa");
    assert!(matches!(r, Err(EnigmaError::SerializationError(_))));
}

#[test]
fn bad_plugboard_pairs_rejected_at_construction() {
    let pairs = vec!["ab".to_string(), "ab".to_string()];
    let r = EnigmaMachine::new(
        shifted_wiring(),
        shifted_wiring(),
        shifted_wiring(),
        Some(pairs),
        "aaa",
    );
    assert!(matches!(r, Err(EnigmaError::InvalidPlugboardPair(_))));
}

#[test]
fn encoding_is_history_dependent() {
    // the same symbol encodes differently once the rotors have moved on a
    // wiring whose effect depends on the offsets: a 3-cycle on positions
    // (0, 1, 52) with neighbour swaps in between is such a permutation
    let symbols: Vec<char> = ALPHABET.chars().collect();
    let w: Vec<char> = (0..53)
        .map(|i| {
            if i == 0 {
                symbols[1]
            } else if i == 1 {
                symbols[52]
            } else if i == 52 {
                symbols[0]
            } else if i % 2 == 0 {
                symbols[i + 1]
            } else {
                symbols[i - 1]
            }
        })
        .collect();
    assert!(is_valid_wiring(&w));
    let mut machine = EnigmaMachine::new(w.clone(), w.clone(), w.clone(), None, "aaa").unwrap();
    let cipher = machine.encode_message("aaaa").unwrap();
    let chars: Vec<char> = cipher.chars().collect();
    assert!(chars.iter().any(|&c| c != chars[0]));
}

#[test]
fn generated_wirings_are_valid_and_usable() {
    let ws = generate_wirings();
    assert_eq!(ws.len(), 3);
    for w in &ws {
        assert_eq!(w.len(), 53);
        assert!(is_valid_wiring(w));
        for (i, c) in ALPHABET.chars().enumerate() {
            assert_ne!(w[i], c, "wiring may not map a symbol to itself");
        }
    }
    let mut machine =
        EnigmaMachine::new(ws[0].clone(), ws[1].clone(), ws[2].clone(), None, "aaa").unwrap();
    let cipher = machine.encode_message("HELLO THERE").unwrap();
    assert_eq!(cipher.chars().count(), 11);
}
