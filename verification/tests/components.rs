//! Tests of the individual components: alphabet lookups, plugboard
//! configuration and involution, rotor validation and reciprocity, and the
//! reflector's bijection, fixed-point freedom and patched involution.

use enigma::alphabet::{index_of, symbol_at};
use enigma::error::EnigmaError;
use enigma::plugboard::Plugboard;
use enigma::reflector::Reflector;
use enigma::rotor::{is_valid_wiring, Rotor};

const ALPHABET: &str = "abcdefghijklmnopqrstuvwxyzABCDEFGHIJKLMNOPQRSTUVWXYZ ";

/// The alphabet rotated by one position: a fixed-point-free permutation.
fn shifted_wiring() -> Vec<char> {
    let symbols: Vec<char> = ALPHABET.chars().collect();
    (0..53).map(|i| symbols[(i + 1) % 53]).collect()
}

#[test]
fn alphabet_indexing() {
    assert_eq!(index_of('a'), Some(0));
    assert_eq!(index_of('z'), Some(25));
    assert_eq!(index_of('A'), Some(26));
    assert_eq!(index_of('Z'), Some(51));
    assert_eq!(index_of(' '), Some(52));
    assert_eq!(index_of('?'), None);
    assert_eq!(index_of('\u{e9}'), None);
}

#[test]
fn alphabet_roundtrip() {
    for (i, c) in ALPHABET.chars().enumerate() {
        assert_eq!(symbol_at(i), c);
        assert_eq!(index_of(c), Some(i));
    }
}

#[test]
fn plugboard_identity() {
    let board = Plugboard::new();
    for c in ALPHABET.chars() {
        assert_eq!(board.swap(c), c);
    }
    assert_eq!(board.swap('#'), '#');
}

#[test]
fn plugboard_pairs_swap_both_ways() {
    let board = Plugboard::from_pairs(vec!["ab".to_string(), "X ".to_string()]).unwrap();
    assert_eq!(board.swap('a'), 'b');
    assert_eq!(board.swap('b'), 'a');
    assert_eq!(board.swap('X'), ' ');
    assert_eq!(board.swap(' '), 'X');
    assert_eq!(board.swap('c'), 'c');
}

#[test]
fn plugboard_swap_is_involution() {
    let board = Plugboard::from_pairs(vec!["ab".to_string(), "CD".to_string(), "z ".to_string()])
        .unwrap();
    for c in ALPHABET.chars() {
        assert_eq!(board.swap(board.swap(c)), c);
    }
}

#[test]
fn plugboard_duplicate_pair_rejected() {
    let r = Plugboard::from_pairs(vec!["ab".to_string(), "ab".to_string()]);
    assert!(matches!(r, Err(EnigmaError::InvalidPlugboardPair(_))));
}

#[test]
fn plugboard_conflicting_pair_rejected() {
    let r = Plugboard::from_pairs(vec!["ab".to_string(), "ac".to_string()]);
    assert!(matches!(r, Err(EnigmaError::InvalidPlugboardPair(_))));
}

#[test]
fn plugboard_malformed_pair_rejected() {
    for bad in ["a", "abc", ""] {
        let r = Plugboard::from_pairs(vec![bad.to_string()]);
        assert!(matches!(r, Err(EnigmaError::InvalidPlugboardPair(_))));
    }
}

#[test]
fn plugboard_out_of_alphabet_pair_rejected() {
    let r = Plugboard::from_pairs(vec!["a?".to_string()]);
    assert!(matches!(r, Err(EnigmaError::InvalidPlugboardPair(_))));
}

#[test]
fn rotor_validation_accepts_shifted_alphabet() {
    assert!(is_valid_wiring(&shifted_wiring()));
    assert!(Rotor::new(shifted_wiring(), 16).is_ok());
}

#[test]
fn rotor_fixed_point_wiring_rejected() {
    // the identity wiring maps every position to itself
    let identity: Vec<char> = ALPHABET.chars().collect();
    assert!(!is_valid_wiring(&identity));
    assert!(matches!(
        Rotor::new(identity, 16),
        Err(EnigmaError::SerializationError(_))
    ));
    // one fixed point is already enough: swap two entries of a shifted
    // wiring so that one position maps to itself
    let mut w = shifted_wiring();
    w.swap(0, 52); // position 0 now holds 'a' again
    assert!(!is_valid_wiring(&w));
    assert!(matches!(
        Rotor::new(w, 16),
        Err(EnigmaError::SerializationError(_))
    ));
}

#[test]
fn rotor_duplicate_and_short_wirings_rejected() {
    let mut w = shifted_wiring();
    w[1] = w[0]; // duplicate target, no longer a permutation
    assert!(!is_valid_wiring(&w));

    let short: Vec<char> = ALPHABET.chars().take(52).collect();
    assert!(!is_valid_wiring(&short));

    let mut bad = shifted_wiring();
    bad[7] = '?'; // outside the alphabet
    assert!(!is_valid_wiring(&bad));
}

#[test]
fn rotor_set_position_and_notch() {
    let mut rotor = Rotor::new(shifted_wiring(), 4).unwrap();
    assert_eq!(rotor.position, 0);
    rotor.set_position('e').unwrap();
    assert_eq!(rotor.position, 4);
    assert!(rotor.at_notch());
    rotor.step();
    assert_eq!(rotor.position, 5);
    assert!(!rotor.at_notch());
}

#[test]
fn rotor_set_position_rejects_out_of_alphabet() {
    let mut rotor = Rotor::new(shifted_wiring(), 16).unwrap();
    let r = rotor.set_position('?');
    assert!(matches!(r, Err(EnigmaError::InvalidRotorPosition('?'))));
    assert_eq!(rotor.position, 0);
}

#[test]
fn rotor_step_wraps_around() {
    let mut rotor = Rotor::new(shifted_wiring(), 16).unwrap();
    rotor.set_position(' ').unwrap();
    assert_eq!(rotor.position, 52);
    rotor.step();
    assert_eq!(rotor.position, 0);
}

#[test]
fn rotor_forward_shifts_by_one() {
    let rotor = Rotor::new(shifted_wiring(), 16).unwrap();
    assert_eq!(rotor.encode_forward(0), 1);
    assert_eq!(rotor.encode_forward(52), 0);
    assert_eq!(rotor.encode_backward(1), 0);
}

#[test]
fn rotor_directions_are_mutual_inverses() {
    let mut rotor = Rotor::new(shifted_wiring(), 16).unwrap();
    for p in 0..53 {
        rotor.set_position(symbol_at(p)).unwrap();
        for x in 0..53 {
            assert_eq!(rotor.encode_backward(rotor.encode_forward(x)), x);
            assert_eq!(rotor.encode_forward(rotor.encode_backward(x)), x);
        }
    }
}

#[test]
fn reflector_is_fixed_point_free_bijection() {
    let reflector = Reflector::new();
    let mut seen = [false; 53];
    for p in 0..53 {
        let r = reflector.reflect(p);
        assert!(r < 53);
        assert_ne!(r, p);
        assert!(!seen[r]);
        seen[r] = true;
    }
    assert!(seen.iter().all(|&b| b));
}

#[test]
fn reflector_involutive_below_patch() {
    let reflector = Reflector::new();
    for p in 0..50 {
        assert_eq!(reflector.reflect(reflector.reflect(p)), p);
    }
}

#[test]
fn reflector_patch_is_a_three_cycle() {
    // the odd alphabet admits no fixed-point-free involution, so the three
    // highest positions form a cycle instead
    let reflector = Reflector::new();
    assert_eq!(reflector.reflect(50), 51);
    assert_eq!(reflector.reflect(51), 52);
    assert_eq!(reflector.reflect(52), 50);
    assert_ne!(reflector.reflect(reflector.reflect(50)), 50);
}
