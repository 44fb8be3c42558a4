//! The machine: one plugboard, three rotors and the reflector, driven by
//! the stepping rule. Every character first advances the rotors, then runs
//! plugboard, rotors forward, reflector, rotors backward, and plugboard
//! again. The rotor offsets carry over from character to character, so the
//! machine is strictly sequential and history-dependent.

use vstd::prelude::*;
use crate::alphabet::{in_alphabet, position_of, symbol_of, index_of, symbol_at};
use crate::alphabet::lemma_symbol_position_roundtrip;
use crate::error::EnigmaError;
use crate::plugboard::{Plugboard, identity_mapping, build_mapping, lemma_plugboard_involution};
use crate::reflector::{Reflector, reflect_map, lemma_reflect_involution};
use crate::rotor::{Rotor, valid_wiring, perm_of, rotor_fwd, rotor_bwd, lemma_rotor_reciprocity};

verus! {

/// The notch of the rightmost (fast) rotor.
pub const NOTCH_RIGHT: usize = 16;

/// The notch of the middle rotor.
pub const NOTCH_MIDDLE: usize = 4;

/// The notch of the leftmost (slow) rotor; it drives nothing further.
pub const NOTCH_LEFT: usize = 21;

/// The machine. `rotor1` is the rightmost, fastest rotor; `rotor3` the
/// leftmost, slowest.
pub struct EnigmaMachine {
    pub rotor1: Rotor,
    pub rotor2: Rotor,
    pub rotor3: Rotor,
    pub reflector: Reflector,
    pub plugboard: Plugboard,
}

/// The immutable configuration of a machine: the three rotor permutations
/// with their inverses, and the plugboard mapping. Everything of a machine
/// but the rotor offsets, which the stepping rule owns.
pub struct CoreConfig {
    pub w1: Seq<usize>,
    pub inv1: Seq<usize>,
    pub w2: Seq<usize>,
    pub inv2: Seq<usize>,
    pub w3: Seq<usize>,
    pub inv3: Seq<usize>,
    pub pb: Seq<usize>,
}

/// What the plugboard does to one character: the exchanged symbol for an
/// alphabet symbol, the input itself for anything else.
pub open spec fn pb_swap(pb: Seq<usize>, c: char) -> char {
    if in_alphabet(c) {
        symbol_of(pb[position_of(c)] as int)
    } else {
        c
    }
}

/// The signal path at offsets `(p1, p2, p3)`: three rotors forward, the
/// reflector, three rotors backward.
#[verifier::opaque]
pub open spec fn signal_at(cfg: CoreConfig, p1: int, p2: int, p3: int, x: int) -> int {
    let f1 = rotor_fwd(cfg.w1, p1, x);
    let f2 = rotor_fwd(cfg.w2, p2, f1);
    let f3 = rotor_fwd(cfg.w3, p3, f2);
    let rf = reflect_map(f3);
    let b3 = rotor_bwd(cfg.inv3, p3, rf);
    let b2 = rotor_bwd(cfg.inv2, p2, b3);
    rotor_bwd(cfg.inv1, p1, b2)
}

/// The position at which a character's signal enters the reflector, at
/// offsets `(p1, p2, p3)`.
#[verifier::opaque]
pub open spec fn reflector_entry(cfg: CoreConfig, p1: int, p2: int, p3: int, c: char) -> int {
    let x = position_of(pb_swap(cfg.pb, c));
    let f1 = rotor_fwd(cfg.w1, p1, x);
    let f2 = rotor_fwd(cfg.w2, p2, f1);
    rotor_fwd(cfg.w3, p3, f2)
}

/// What one alphabet symbol encodes to at offsets `(p1, p2, p3)`:
/// plugboard, signal path, plugboard again.
#[verifier::opaque]
pub open spec fn encode_char_at(cfg: CoreConfig, p1: int, p2: int, p3: int, c: char) -> char {
    let x = position_of(pb_swap(cfg.pb, c));
    let y = signal_at(cfg, p1, p2, p3, x);
    pb_swap(cfg.pb, symbol_of(y))
}

/// One tick of the stepping rule, on the offsets `(p1, p2, p3)` of the
/// fast, middle and slow rotor with notches `n1` and `n2`. Both notch
/// checks read the pre-tick offsets: if the middle rotor stands at its
/// notch it advances together with the slow rotor; if the fast rotor
/// stands at its notch the middle rotor advances (again — the
/// double-stepping anomaly is reproduced, not repaired); the fast rotor
/// always advances.
pub open spec fn stepped_positions(n1: int, n2: int, p1: int, p2: int, p3: int) -> (int, int, int) {
    let q2 = if p2 == n2 {
        (p2 + 1) % 53
    } else {
        p2
    };
    let q3 = if p2 == n2 {
        (p3 + 1) % 53
    } else {
        p3
    };
    let q2b = if p1 == n1 {
        (q2 + 1) % 53
    } else {
        q2
    };
    ((p1 + 1) % 53, q2b, q3)
}

/// The offsets after `k` ticks.
pub open spec fn positions_after(n1: int, n2: int, p: (int, int, int), k: nat) -> (int, int, int)
    decreases k,
{
    if k == 0 {
        p
    } else {
        let q = positions_after(n1, n2, p, (k - 1) as nat);
        stepped_positions(n1, n2, q.0, q.1, q.2)
    }
}

/// Stepping keeps every offset a position.
pub proof fn lemma_positions_after_range(n1: int, n2: int, p: (int, int, int), k: nat)
    requires
        0 <= p.0 < 53,
        0 <= p.1 < 53,
        0 <= p.2 < 53,
    ensures
        0 <= positions_after(n1, n2, p, k).0 < 53,
        0 <= positions_after(n1, n2, p, k).1 < 53,
        0 <= positions_after(n1, n2, p, k).2 < 53,
    decreases k,
{
    if k > 0 {
        lemma_positions_after_range(n1, n2, p, (k - 1) as nat);
    }
}

/// Whether every character of a message is an alphabet symbol.
pub open spec fn all_symbols_valid(s: Seq<char>) -> bool {
    forall|i: int| 0 <= i < s.len() ==> in_alphabet(#[trigger] s[i])
}

/// The plugboard mapping that a machine is configured with: the identity
/// when no pairs are given, else what the pairs build — or `None` when some
/// pair is rejected.
pub open spec fn pairs_mapping(plugboard_pairs: Option<Vec<String>>) -> Option<Seq<usize>> {
    match plugboard_pairs {
        None => Some(identity_mapping()),
        Some(ps) => build_mapping(identity_mapping(), ps.deep_view()),
    }
}

impl EnigmaMachine {
    /// The machine's internal invariant: every component well-formed.
    pub open spec fn wf(self) -> bool {
        &&& self.rotor1.wf()
        &&& self.rotor2.wf()
        &&& self.rotor3.wf()
        &&& self.reflector.wf()
        &&& self.plugboard.wf()
    }

    /// This machine's immutable configuration.
    pub open spec fn config(self) -> CoreConfig {
        CoreConfig {
            w1: self.rotor1.wiring@,
            inv1: self.rotor1.inverse@,
            w2: self.rotor2.wiring@,
            inv2: self.rotor2.inverse@,
            w3: self.rotor3.wiring@,
            inv3: self.rotor3.inverse@,
            pb: self.plugboard.mapping@,
        }
    }

    /// Two machines agree on everything but the rotor offsets.
    pub open spec fn same_config(self, other: EnigmaMachine) -> bool {
        &&& other.config() == self.config()
        &&& other.rotor1.notch_position == self.rotor1.notch_position
        &&& other.rotor2.notch_position == self.rotor2.notch_position
        &&& other.rotor3.notch_position == self.rotor3.notch_position
        &&& other.reflector.wiring@ == self.reflector.wiring@
    }

    /// The rotor offsets of this machine, fast to slow.
    pub open spec fn offsets(self) -> (int, int, int) {
        (self.rotor1.position as int, self.rotor2.position as int, self.rotor3.position as int)
    }

    /// The rotor offsets after `k` ticks from this machine's state.
    pub open spec fn positions_at(self, k: nat) -> (int, int, int) {
        positions_after(
            self.rotor1.notch_position as int,
            self.rotor2.notch_position as int,
            self.offsets(),
            k,
        )
    }

    /// What a message encodes to from this machine's state: character `i`
    /// is encoded at the offsets reached after `i + 1` ticks, since the
    /// rotors step before each character.
    pub open spec fn cipher_seq(self, s: Seq<char>) -> Seq<char> {
        Seq::new(
            s.len(),
            |i: int|
                {
                    let p = self.positions_at((i + 1) as nat);
                    encode_char_at(self.config(), p.0, p.1, p.2, s[i])
                },
        )
    }

    /// The reflector entry of character `i` of a message encoded from this
    /// machine's state.
    pub open spec fn entry_of(self, s: Seq<char>, i: int) -> int {
        let p = self.positions_at((i + 1) as nat);
        reflector_entry(self.config(), p.0, p.1, p.2, s[i])
    }

    /// A machine from loaded key material: three rotor wirings (fast to
    /// slow), optional plugboard pairs, and a three-symbol start-position
    /// string, one symbol per rotor. Every input is validated here, in this
    /// order: the wirings, the position string's length, its symbols, and
    /// the plugboard pairs.
    pub fn new(
        wiring1: Vec<char>,
        wiring2: Vec<char>,
        wiring3: Vec<char>,
        plugboard_pairs: Option<Vec<String>>,
        positions: &str,
    ) -> (r: Result<EnigmaMachine, EnigmaError>)
        ensures
            !valid_wiring(wiring1@) ==> (r matches Err(EnigmaError::SerializationError(_))),
            valid_wiring(wiring1@) && !valid_wiring(wiring2@) ==> (r matches Err(
                EnigmaError::SerializationError(_),
            )),
            valid_wiring(wiring1@) && valid_wiring(wiring2@) && !valid_wiring(wiring3@) ==> (r
                matches Err(EnigmaError::SerializationError(_))),
            valid_wiring(wiring1@) && valid_wiring(wiring2@) && valid_wiring(wiring3@)
                && positions@.len() != 3 ==> (r matches Err(EnigmaError::InvalidMessage(_))),
            valid_wiring(wiring1@) && valid_wiring(wiring2@) && valid_wiring(wiring3@)
                && positions@.len() == 3 && !in_alphabet(positions@[0]) ==> (r matches Err(
                EnigmaError::InvalidRotorPosition(c),
            ) && c == positions@[0]),
            valid_wiring(wiring1@) && valid_wiring(wiring2@) && valid_wiring(wiring3@)
                && positions@.len() == 3 && in_alphabet(positions@[0]) && !in_alphabet(
                positions@[1],
            ) ==> (r matches Err(EnigmaError::InvalidRotorPosition(c)) && c == positions@[1]),
            valid_wiring(wiring1@) && valid_wiring(wiring2@) && valid_wiring(wiring3@)
                && positions@.len() == 3 && in_alphabet(positions@[0]) && in_alphabet(positions@[1])
                && !in_alphabet(positions@[2]) ==> (r matches Err(
                EnigmaError::InvalidRotorPosition(c),
            ) && c == positions@[2]),
            valid_wiring(wiring1@) && valid_wiring(wiring2@) && valid_wiring(wiring3@)
                && positions@.len() == 3 && all_symbols_valid(positions@) && pairs_mapping(
                plugboard_pairs,
            ) is None ==> (r matches Err(EnigmaError::InvalidPlugboardPair(_))),
            valid_wiring(wiring1@) && valid_wiring(wiring2@) && valid_wiring(wiring3@)
                && positions@.len() == 3 && all_symbols_valid(positions@) ==> (pairs_mapping(
                plugboard_pairs,
            ) matches Some(m) ==> r matches Ok(e) && {
                &&& e.wf()
                &&& e.rotor1.wiring@ == perm_of(wiring1@)
                &&& e.rotor2.wiring@ == perm_of(wiring2@)
                &&& e.rotor3.wiring@ == perm_of(wiring3@)
                &&& e.rotor1.position == position_of(positions@[0])
                &&& e.rotor2.position == position_of(positions@[1])
                &&& e.rotor3.position == position_of(positions@[2])
                &&& e.rotor1.notch_position == NOTCH_RIGHT
                &&& e.rotor2.notch_position == NOTCH_MIDDLE
                &&& e.rotor3.notch_position == NOTCH_LEFT
                &&& e.plugboard.mapping@ == m
            }),
    {
        let mut rotor1 = match Rotor::new(wiring1, NOTCH_RIGHT) {
            Ok(r) => r,
            Err(e) => {
                return Err(e);
            },
        };
        let mut rotor2 = match Rotor::new(wiring2, NOTCH_MIDDLE) {
            Ok(r) => r,
            Err(e) => {
                return Err(e);
            },
        };
        let mut rotor3 = match Rotor::new(wiring3, NOTCH_LEFT) {
            Ok(r) => r,
            Err(e) => {
                return Err(e);
            },
        };
        if positions.unicode_len() != 3 {
            return Err(
                EnigmaError::InvalidMessage("Rotor positions must be 3 characters".to_owned()),
            );
        }
        match rotor1.set_position(positions.get_char(0)) {
            Ok(_) => (),
            Err(e) => {
                return Err(e);
            },
        }
        match rotor2.set_position(positions.get_char(1)) {
            Ok(_) => (),
            Err(e) => {
                return Err(e);
            },
        }
        match rotor3.set_position(positions.get_char(2)) {
            Ok(_) => (),
            Err(e) => {
                return Err(e);
            },
        }
        let plugboard = match plugboard_pairs {
            Some(pairs) => match Plugboard::from_pairs(pairs) {
                Ok(p) => p,
                Err(e) => {
                    return Err(e);
                },
            },
            None => Plugboard::new(),
        };
        Ok(EnigmaMachine { rotor1, rotor2, rotor3, reflector: Reflector::new(), plugboard })
    }

    /// Advances the rotors by one tick, before a character is encoded.
    /// Both notch conditions are evaluated against the pre-tick offsets.
    pub fn step_rotors(&mut self)
        requires
            old(self).wf(),
        ensures
            final(self).wf(),
            old(self).same_config(*final(self)),
            final(self).offsets() == stepped_positions(
                old(self).rotor1.notch_position as int,
                old(self).rotor2.notch_position as int,
                old(self).rotor1.position as int,
                old(self).rotor2.position as int,
                old(self).rotor3.position as int,
            ),
    {
        let middle_at_notch = self.rotor2.at_notch();
        let right_at_notch = self.rotor1.at_notch();
        if middle_at_notch {
            self.rotor2.step();
            self.rotor3.step();
        }
        if right_at_notch {
            self.rotor2.step();
        }
        // the fast rotor advances on every character
        self.rotor1.step();
    }

    /// Runs one signal position through the rotor stack and the reflector
    /// at the current offsets.
    fn run_signal(&self, input: usize) -> (r: usize)
        requires
            self.wf(),
            input < 53,
        ensures
            r == signal_at(
                self.config(),
                self.rotor1.position as int,
                self.rotor2.position as int,
                self.rotor3.position as int,
                input as int,
            ),
            r < 53,
    {
        proof {
            reveal(signal_at);
        }
        let s1 = self.rotor1.encode_forward(input);
        let s2 = self.rotor2.encode_forward(s1);
        let s3 = self.rotor3.encode_forward(s2);
        let rf = self.reflector.reflect(s3);
        let b3 = self.rotor3.encode_backward(rf);
        let b2 = self.rotor2.encode_backward(b3);
        self.rotor1.encode_backward(b2)
    }

    /// Encodes one character, advancing the rotors first. A character
    /// outside the alphabet is rejected before anything steps.
    pub fn encode_char(&mut self, c: char) -> (r: Result<char, EnigmaError>)
        requires
            old(self).wf(),
        ensures
            final(self).wf(),
            old(self).same_config(*final(self)),
            !in_alphabet(c) ==> (r matches Err(EnigmaError::InvalidMessage(_))
                && final(self).offsets() == old(self).offsets()),
            in_alphabet(c) ==> final(self).offsets() == stepped_positions(
                old(self).rotor1.notch_position as int,
                old(self).rotor2.notch_position as int,
                old(self).rotor1.position as int,
                old(self).rotor2.position as int,
                old(self).rotor3.position as int,
            ),
            in_alphabet(c) ==> (r matches Ok(e) && e == ({
                let q = stepped_positions(
                    old(self).rotor1.notch_position as int,
                    old(self).rotor2.notch_position as int,
                    old(self).rotor1.position as int,
                    old(self).rotor2.position as int,
                    old(self).rotor3.position as int,
                );
                encode_char_at(old(self).config(), q.0, q.1, q.2, c)
            })),
    {
        match index_of(c) {
            Some(_) => (),
            None => {
                return Err(EnigmaError::InvalidMessage("Invalid character".to_owned()));
            },
        }
        self.step_rotors();
        let swapped = self.plugboard.swap(c);
        proof {
            lemma_symbol_position_roundtrip(c, 0);
            lemma_symbol_position_roundtrip(
                swapped,
                self.plugboard.mapping@[position_of(c)] as int,
            );
        }
        let signal = match index_of(swapped) {
            Some(i) => i,
            None => {
                return Err(EnigmaError::InvalidMessage("Invalid character".to_owned()));
            },
        };
        let y = self.run_signal(signal);
        let out = symbol_at(y);
        let result = self.plugboard.swap(out);
        proof {
            reveal(encode_char_at);
        }
        Ok(result)
    }

    /// Encodes a message character by character. The empty message is
    /// rejected; a character outside the alphabet aborts the message with
    /// the rotor state of the already-encoded prefix left in place.
    pub fn encode_message(&mut self, message: &str) -> (r: Result<String, EnigmaError>)
        requires
            old(self).wf(),
        ensures
            final(self).wf(),
            old(self).same_config(*final(self)),
            message@.len() == 0 ==> (r matches Err(EnigmaError::InvalidMessage(_))
                && final(self).offsets() == old(self).offsets()),
            message@.len() > 0 && all_symbols_valid(message@) ==> (r matches Ok(t)
                && t@ == old(self).cipher_seq(message@)
                && final(self).offsets() == old(self).positions_at(message@.len() as nat)),
            message@.len() > 0 && !all_symbols_valid(message@) ==> (r matches Err(
                EnigmaError::InvalidMessage(_),
            ) && exists|k: int|
                0 <= k < message@.len() && !in_alphabet(#[trigger] message@[k]) && (forall|j: int|
                    0 <= j < k ==> in_alphabet(#[trigger] message@[j])) && final(self).offsets()
                    == old(self).positions_at(k as nat)),
    {
        let n = message.unicode_len();
        if n == 0 {
            return Err(EnigmaError::InvalidMessage("Empty message".to_owned()));
        }
        let mut out: Vec<char> = Vec::new();
        let mut i: usize = 0;
        while i < n
            invariant
                i <= n,
                n == message@.len(),
                old(self).wf(),
                self.wf(),
                old(self).same_config(*self),
                self.offsets() == old(self).positions_at(i as nat),
                forall|j: int| 0 <= j < i ==> in_alphabet(#[trigger] message@[j]),
                out@ == old(self).cipher_seq(message@.take(i as int)),
            decreases n - i,
        {
            let c = message.get_char(i);
            let ghost pre = *self;
            match self.encode_char(c) {
                Ok(e) => {
                    out.push(e);
                    proof {
                        let q = old(self).positions_at(i as nat);
                        assert(old(self).positions_at((i + 1) as nat) == stepped_positions(
                            old(self).rotor1.notch_position as int,
                            old(self).rotor2.notch_position as int,
                            q.0,
                            q.1,
                            q.2,
                        ));
                        assert(out@ =~= old(self).cipher_seq(message@.take(i as int + 1)));
                    }
                },
                Err(err) => {
                    proof {
                        assert(!in_alphabet(message@[i as int]));
                    }
                    return Err(err);
                },
            }
            i = i + 1;
        }
        proof {
            assert(message@.take(n as int) =~= message@);
        }
        Ok(chars_to_string(&out))
    }
}

/// Relies on std's `FromIterator` impl for `String`: collecting an iterator
/// of characters yields the string of exactly those characters, in order.
#[verifier::external_body]
fn chars_to_string(v: &Vec<char>) -> (s: String)
    ensures
        s@ == v@,
{
    v.iter().collect()
}

/// One character encodes involutively: encoding the encoded symbol at the
/// same offsets gives the original back — provided its signal enters the
/// reflector below the patched positions, where the reflector is an
/// involution.
pub proof fn lemma_encode_char_involutive(m: EnigmaMachine, p1: int, p2: int, p3: int, c: char)
    requires
        m.wf(),
        0 <= p1 < 53,
        0 <= p2 < 53,
        0 <= p3 < 53,
        in_alphabet(c),
        reflector_entry(m.config(), p1, p2, p3, c) < 50,
    ensures
        in_alphabet(encode_char_at(m.config(), p1, p2, p3, c)),
        encode_char_at(m.config(), p1, p2, p3, encode_char_at(m.config(), p1, p2, p3, c)) == c,
{
    reveal(encode_char_at);
    reveal(signal_at);
    reveal(reflector_entry);
    let cfg = m.config();
    lemma_symbol_position_roundtrip(c, 0);
    let sw = pb_swap(cfg.pb, c);
    let x = cfg.pb[position_of(c)] as int;
    lemma_symbol_position_roundtrip(sw, x);
    assert(in_alphabet(sw) && position_of(sw) == x);
    let f1 = rotor_fwd(cfg.w1, p1, x);
    let f2 = rotor_fwd(cfg.w2, p2, f1);
    let f3 = rotor_fwd(cfg.w3, p3, f2);
    let rf = reflect_map(f3);
    let b3 = rotor_bwd(cfg.inv3, p3, rf);
    let b2 = rotor_bwd(cfg.inv2, p2, b3);
    let y = rotor_bwd(cfg.inv1, p1, b2);
    assert(0 <= f1 < 53 && 0 <= f2 < 53 && 0 <= f3 < 53);
    assert(0 <= rf < 53);
    assert(0 <= b3 < 53 && 0 <= b2 < 53 && 0 <= y < 53);
    lemma_symbol_position_roundtrip(symbol_of(y), y);
    let e = encode_char_at(cfg, p1, p2, p3, c);
    let ye = cfg.pb[y] as int;
    lemma_symbol_position_roundtrip(e, ye);
    assert(in_alphabet(e));
    // the second encoding's plugboard undoes the first's final swap
    lemma_plugboard_involution(m.plugboard, symbol_of(y));
    assert(position_of(pb_swap(cfg.pb, e)) == y);
    // each backward rotor pass is undone by the matching forward pass
    lemma_rotor_reciprocity(cfg.w1, cfg.inv1, p1, b2);
    assert(rotor_fwd(cfg.w1, p1, y) == b2);
    lemma_rotor_reciprocity(cfg.w2, cfg.inv2, p2, b3);
    assert(rotor_fwd(cfg.w2, p2, b2) == b3);
    lemma_rotor_reciprocity(cfg.w3, cfg.inv3, p3, rf);
    assert(rotor_fwd(cfg.w3, p3, b3) == rf);
    // the reflector is involutive below the patch
    lemma_reflect_involution(f3);
    assert(reflect_map(rf) == f3);
    // and each forward pass of the first encoding is undone backward
    lemma_rotor_reciprocity(cfg.w3, cfg.inv3, p3, f2);
    assert(rotor_bwd(cfg.inv3, p3, f3) == f2);
    lemma_rotor_reciprocity(cfg.w2, cfg.inv2, p2, f1);
    assert(rotor_bwd(cfg.inv2, p2, f2) == f1);
    lemma_rotor_reciprocity(cfg.w1, cfg.inv1, p1, x);
    assert(rotor_bwd(cfg.inv1, p1, f1) == x);
    assert(signal_at(cfg, p1, p2, p3, y) == x);
    // the outermost plugboard swap returns to the original character
    lemma_plugboard_involution(m.plugboard, c);
    assert(pb_swap(cfg.pb, symbol_of(x)) == c);
}

/// Whether every character of a message, encoded from this machine's
/// state, enters the reflector below the patched positions. On such
/// messages the cipher is reciprocal.
pub open spec fn message_reciprocal(m: EnigmaMachine, s: Seq<char>) -> bool {
    forall|i: int| 0 <= i < s.len() ==> #[trigger] m.entry_of(s, i) < 50
}

/// The round-trip law: encoding a message and then encoding the result
/// with a freshly constructed identical machine — same wirings, plugboard
/// and start offsets — reproduces the message. It holds whenever every
/// character's signal enters the reflector below the three patched
/// positions; a character that enters the reflector at a patched position
/// meets the three-way cycle instead of an involution and does not return
/// to itself.
pub proof fn lemma_message_round_trip(m: EnigmaMachine, s: Seq<char>)
    requires
        m.wf(),
        all_symbols_valid(s),
        message_reciprocal(m, s),
    ensures
        all_symbols_valid(m.cipher_seq(s)),
        m.cipher_seq(m.cipher_seq(s)) == s,
{
    let t = m.cipher_seq(s);
    assert forall|i: int| 0 <= i < s.len() implies in_alphabet(#[trigger] t[i]) by {
        let p = m.positions_at((i + 1) as nat);
        lemma_positions_after_range(
            m.rotor1.notch_position as int,
            m.rotor2.notch_position as int,
            m.offsets(),
            (i + 1) as nat,
        );
        assert(m.entry_of(s, i) < 50);
        lemma_encode_char_involutive(m, p.0, p.1, p.2, s[i]);
    }
    assert forall|i: int| 0 <= i < s.len() implies #[trigger] m.cipher_seq(t)[i] == s[i] by {
        let p = m.positions_at((i + 1) as nat);
        lemma_positions_after_range(
            m.rotor1.notch_position as int,
            m.rotor2.notch_position as int,
            m.offsets(),
            (i + 1) as nat,
        );
        assert(m.entry_of(s, i) < 50);
        lemma_encode_char_involutive(m, p.0, p.1, p.2, s[i]);
    }
    assert(m.cipher_seq(t) =~= s);
}

} // verus!
