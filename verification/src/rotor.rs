//! A rotor: a wired permutation of the alphabet together with a rotating
//! offset and a fixed notch. A rotor encodes in two directions — forward on
//! the way to the reflector and backward on the way out — and the two
//! directions are mutual inverses at any fixed offset.

use vstd::prelude::*;
use crate::alphabet::{in_alphabet, position_of, index_of};
use crate::error::EnigmaError;

verus! {

/// A rotor. The wiring is stored as a permutation over alphabet positions,
/// with its inverse alongside so that the backward direction is a lookup.
pub struct Rotor {
    /// `wiring[i]` is the position that position `i` is wired to.
    pub wiring: Vec<usize>,
    /// `inverse[y]` is the position wired to `y`.
    pub inverse: Vec<usize>,
    /// The current rotational offset, `0..53`; advanced by `step`.
    pub position: usize,
    /// The offset at which this rotor makes its neighbour step; fixed.
    pub notch_position: usize,
}

/// Whether some wiring position is wired to the target position `y`.
pub open spec fn wires_to(w: Seq<char>, y: int) -> bool {
    exists|i: int| 0 <= i < 53 && position_of(#[trigger] w[i]) == y
}

/// A valid rotor wiring as loaded from key material: 53 symbols of the
/// alphabet, forming a bijection with no fixed point.
pub open spec fn valid_wiring(w: Seq<char>) -> bool {
    &&& w.len() == 53
    &&& forall|i: int| 0 <= i < 53 ==> in_alphabet(#[trigger] w[i])
    &&& forall|i: int, j: int|
        0 <= i < 53 && 0 <= j < 53 && i != j ==> position_of(#[trigger] w[i]) != position_of(
            #[trigger] w[j],
        )
    &&& forall|y: int| 0 <= y < 53 ==> #[trigger] wires_to(w, y)
    &&& forall|i: int| 0 <= i < 53 ==> position_of(#[trigger] w[i]) != i
}

/// The position permutation that a wiring denotes.
pub open spec fn perm_of(w: Seq<char>) -> Seq<usize> {
    Seq::new(53, |i: int| position_of(w[i]) as usize)
}

/// A permutation over positions and its inverse, each undoing the other.
pub open spec fn perm_pair_wf(w: Seq<usize>, inv: Seq<usize>) -> bool {
    &&& w.len() == 53
    &&& inv.len() == 53
    &&& forall|i: int| 0 <= i < 53 ==> #[trigger] w[i] < 53
    &&& forall|i: int| 0 <= i < 53 ==> #[trigger] inv[i] < 53
    &&& forall|i: int| 0 <= i < 53 ==> #[trigger] inv[w[i] as int] == i
    &&& forall|i: int| 0 <= i < 53 ==> #[trigger] w[inv[i] as int] == i
}

/// The forward direction at offset `p`: shift in, wire, shift out.
pub open spec fn rotor_fwd(w: Seq<usize>, p: int, x: int) -> int {
    (w[(x + p) % 53] + 53 - p) % 53
}

/// The backward direction at offset `p`: shift in, unwire, shift out.
pub open spec fn rotor_bwd(inv: Seq<usize>, p: int, x: int) -> int {
    (inv[(x + p) % 53] + 53 - p) % 53
}

impl Rotor {
    /// The rotor's internal invariant: wiring and inverse undo each other,
    /// the wiring has no fixed point, and the offsets are positions.
    pub open spec fn wf(self) -> bool {
        &&& perm_pair_wf(self.wiring@, self.inverse@)
        &&& forall|i: int| 0 <= i < 53 ==> #[trigger] self.wiring@[i] != i
        &&& self.position < 53
        &&& self.notch_position < 53
    }

    /// A rotor from loaded key material, at offset zero. The wiring is
    /// validated here: anything but a fixed-point-free permutation of the
    /// alphabet is rejected as corrupt key material.
    pub fn new(wiring: Vec<char>, notch_position: usize) -> (r: Result<Rotor, EnigmaError>)
        requires
            notch_position < 53,
        ensures
            valid_wiring(wiring@) ==> (r matches Ok(rt) && rt.wf() && rt.wiring@ == perm_of(
                wiring@,
            ) && rt.position == 0 && rt.notch_position == notch_position),
            !valid_wiring(wiring@) ==> (r matches Err(EnigmaError::SerializationError(_))),
    {
        match wiring_permutation(&wiring) {
            Some(pair) => {
                let (perm, inverse) = pair;
                Ok(Rotor { wiring: perm, inverse, position: 0, notch_position })
            },
            None => Err(
                EnigmaError::SerializationError(
                    "rotor wiring is not a fixed-point-free permutation of the alphabet".to_owned(),
                ),
            ),
        }
    }

    /// Turns the rotor to the offset of the given symbol; a symbol outside
    /// the alphabet is rejected and leaves the rotor untouched.
    pub fn set_position(&mut self, pos: char) -> (r: Result<(), EnigmaError>)
        ensures
            in_alphabet(pos) ==> (r is Ok && final(self).position == position_of(pos)),
            !in_alphabet(pos) ==> (r matches Err(EnigmaError::InvalidRotorPosition(c)) && c == pos
                && final(self).position == old(self).position),
            final(self).wiring@ == old(self).wiring@,
            final(self).inverse@ == old(self).inverse@,
            final(self).notch_position == old(self).notch_position,
    {
        match index_of(pos) {
            Some(i) => {
                self.position = i;
                Ok(())
            },
            None => Err(EnigmaError::InvalidRotorPosition(pos)),
        }
    }

    /// Whether the rotor stands at its notch, so that the next character
    /// will make its neighbour step.
    pub fn at_notch(&self) -> (r: bool)
        ensures
            r == (self.position == self.notch_position),
    {
        self.position == self.notch_position
    }

    /// Advances the rotor by one offset, wrapping around the alphabet.
    pub fn step(&mut self)
        requires
            old(self).position < 53,
        ensures
            final(self).position == (old(self).position + 1) % 53,
            final(self).wiring@ == old(self).wiring@,
            final(self).inverse@ == old(self).inverse@,
            final(self).notch_position == old(self).notch_position,
    {
        self.position = (self.position + 1) % 53;
    }

    /// The forward encoding of a position: the signal entering from the
    /// right, offset by the rotor's rotation, wired, and offset back.
    pub fn encode_forward(&self, input: usize) -> (r: usize)
        requires
            self.wf(),
            input < 53,
        ensures
            r == rotor_fwd(self.wiring@, self.position as int, input as int),
            r < 53,
    {
        let offset = (input + self.position) % 53;
        (self.wiring[offset] + 53 - self.position) % 53
    }

    /// The backward encoding of a position: the signal returning from the
    /// reflector, offset, unwired, and offset back.
    pub fn encode_backward(&self, input: usize) -> (r: usize)
        requires
            self.wf(),
            input < 53,
        ensures
            r == rotor_bwd(self.inverse@, self.position as int, input as int),
            r < 53,
    {
        let offset = (input + self.position) % 53;
        (self.inverse[offset] + 53 - self.position) % 53
    }
}

/// Checks a wiring and converts it to a position permutation with its
/// inverse; `None` exactly when the wiring is not a fixed-point-free
/// permutation of the whole alphabet.
fn wiring_permutation(w: &Vec<char>) -> (r: Option<(Vec<usize>, Vec<usize>)>)
    ensures
        r is Some <==> valid_wiring(w@),
        r matches Some(pair) ==> (pair.0@ == perm_of(w@) && perm_pair_wf(pair.0@, pair.1@)
            && forall|i: int| 0 <= i < 53 ==> #[trigger] pair.0@[i] != i),
{
    if w.len() != 53 {
        return None;
    }
    let mut perm: Vec<usize> = Vec::new();
    let mut seen: Vec<bool> = Vec::new();
    let mut y: usize = 0;
    while y < 53
        invariant
            y <= 53,
            seen@.len() == y,
            forall|j: int| 0 <= j < y ==> !(#[trigger] seen@[j]),
        decreases 53 - y,
    {
        seen.push(false);
        y = y + 1;
    }
    let mut i: usize = 0;
    while i < 53
        invariant
            i <= 53,
            w@.len() == 53,
            seen@.len() == 53,
            perm@.len() == i,
            forall|j: int|
                0 <= j < i ==> in_alphabet(#[trigger] w@[j]) && position_of(w@[j]) != j,
            forall|j: int| 0 <= j < i ==> #[trigger] perm@[j] == position_of(w@[j]),
            forall|j: int| 0 <= j < i ==> #[trigger] perm@[j] < 53,
            forall|j1: int, j2: int|
                0 <= j1 < j2 < i ==> #[trigger] perm@[j1] != #[trigger] perm@[j2],
            forall|v: int|
                0 <= v < 53 ==> ((#[trigger] seen@[v]) <==> exists|j: int|
                    0 <= j < i && position_of(#[trigger] w@[j]) == v),
        decreases 53 - i,
    {
        let c = w[i];
        let k = match index_of(c) {
            Some(k) => k,
            None => {
                proof {
                    assert(!in_alphabet(w@[i as int]));
                }
                return None;
            },
        };
        if k == i {
            // a fixed point
            proof {
                assert(position_of(w@[i as int]) == i as int);
            }
            return None;
        }
        if seen[k] {
            // a duplicate: two positions wired to the same target
            proof {
                let j = choose|j: int| 0 <= j < i && position_of(#[trigger] w@[j]) == k as int;
                assert(position_of(w@[j]) == position_of(w@[i as int]));
                assert(!valid_wiring(w@));
            }
            return None;
        }
        seen.set(k, true);
        perm.push(k);
        i = i + 1;
    }
    let mut y: usize = 0;
    while y < 53
        invariant
            y <= 53,
            seen@.len() == 53,
            w@.len() == 53,
            forall|v: int|
                0 <= v < 53 ==> ((#[trigger] seen@[v]) <==> exists|j: int|
                    0 <= j < 53 && position_of(#[trigger] w@[j]) == v),
            forall|v: int| 0 <= v < y ==> #[trigger] wires_to(w@, v),
        decreases 53 - y,
    {
        if !seen[y] {
            // some position is never wired to: not a full permutation
            proof {
                assert(!wires_to(w@, y as int));
            }
            return None;
        }
        y = y + 1;
    }
    let mut inverse: Vec<usize> = Vec::new();
    let mut y: usize = 0;
    while y < 53
        invariant
            y <= 53,
            inverse@.len() == y,
            forall|j: int| 0 <= j < y ==> #[trigger] inverse@[j] == 0,
        decreases 53 - y,
    {
        inverse.push(0);
        y = y + 1;
    }
    let mut i: usize = 0;
    while i < 53
        invariant
            i <= 53,
            perm@.len() == 53,
            inverse@.len() == 53,
            forall|j: int| 0 <= j < 53 ==> #[trigger] perm@[j] < 53,
            forall|j1: int, j2: int|
                0 <= j1 < j2 < 53 ==> #[trigger] perm@[j1] != #[trigger] perm@[j2],
            forall|j: int| 0 <= j < 53 ==> #[trigger] inverse@[j] < 53,
            forall|j: int| 0 <= j < i ==> #[trigger] inverse@[perm@[j] as int] == j,
        decreases 53 - i,
    {
        let target = perm[i];
        inverse.set(target, i);
        proof {
            assert forall|j: int| 0 <= j < i + 1 implies #[trigger] inverse@[perm@[j] as int]
                == j by {
                if j < i {
                    assert(perm@[j] != perm@[i as int]);
                }
            }
        }
        i = i + 1;
    }
    proof {
        assert(perm@ =~= perm_of(w@));
        assert forall|i1: int, j1: int|
            0 <= i1 < 53 && 0 <= j1 < 53 && i1 != j1 implies position_of(#[trigger] w@[i1])
            != position_of(#[trigger] w@[j1]) by {
            if i1 < j1 {
                assert(perm@[i1] != perm@[j1]);
            } else {
                assert(perm@[j1] != perm@[i1]);
            }
        }
        assert(valid_wiring(w@));
        assert forall|v: int| 0 <= v < 53 implies #[trigger] perm@[inverse@[v] as int] == v by {
            assert(wires_to(w@, v));
            let j = choose|j: int| 0 <= j < 53 && position_of(#[trigger] w@[j]) == v;
            assert(perm@[j] == v);
            assert(inverse@[v] == j);
        }
    }
    Some((perm, inverse))
}

/// Whether a wiring is acceptable key material: a fixed-point-free
/// permutation of the whole alphabet.
pub fn is_valid_wiring(w: &Vec<char>) -> (r: bool)
    ensures
        r == valid_wiring(w@),
{
    wiring_permutation(w).is_some()
}

/// The rotor law: at any fixed offset the two directions undo each other,
/// for every signal position and every offset.
pub proof fn lemma_rotor_reciprocity(w: Seq<usize>, inv: Seq<usize>, p: int, x: int)
    requires
        perm_pair_wf(w, inv),
        0 <= p < 53,
        0 <= x < 53,
    ensures
        rotor_bwd(inv, p, rotor_fwd(w, p, x)) == x,
        rotor_fwd(w, p, rotor_bwd(inv, p, x)) == x,
{
    let off = (x + p) % 53;
    assert(0 <= off < 53);
    let yf = w[off] as int;
    assert(((yf + 53 - p) % 53 + p) % 53 == yf);
    assert((((x + p) % 53 + 53 - p) % 53 + p) % 53 == (x + p) % 53);
    let yb = inv[off] as int;
    assert(((yb + 53 - p) % 53 + p) % 53 == yb);
}

} // verus!
