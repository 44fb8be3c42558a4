//! The reflector: the fixed permutation at the midpoint of the signal path.
//! Positions are paired greedily from the left, which pairs `0..52` into 26
//! neighbouring couples and leaves the last position over — the alphabet has
//! 53 symbols, an odd count, so a perfect pairing cannot exist. The last
//! position is patched in by stealing one side of the final pair, which
//! turns the three highest positions into a cycle. The result is a bijection
//! with no fixed point that is involutive everywhere except on those three
//! patched positions (no fixed-point-free involution of an odd-size set
//! exists, so some such patch is unavoidable).

use vstd::prelude::*;

verus! {

/// The reflector mapping: neighbouring couples below the patch, and the
/// three-way patch `50 -> 51 -> 52 -> 50` on top.
pub open spec fn reflect_map(i: int) -> int {
    if i < 50 {
        if i % 2 == 0 {
            i + 1
        } else {
            i - 1
        }
    } else if i == 50 {
        51
    } else if i == 51 {
        52
    } else {
        50
    }
}

/// The reflector, a fixed table over positions.
pub struct Reflector {
    /// `wiring[i]` is the position the signal at position `i` leaves at.
    pub wiring: Vec<usize>,
}

impl Reflector {
    /// The reflector's invariant: its table is exactly `reflect_map`.
    pub open spec fn wf(self) -> bool {
        &&& self.wiring@.len() == 53
        &&& forall|i: int| 0 <= i < 53 ==> #[trigger] self.wiring@[i] == reflect_map(i)
    }

    /// Builds the reflector: pair positions greedily left to right, then
    /// patch the odd position left over into the last pair.
    pub fn new() -> (r: Reflector)
        ensures
            r.wf(),
    {
        let mut wiring: Vec<usize> = Vec::new();
        let mut i: usize = 0;
        while i < 50
            invariant
                i <= 50,
                i % 2 == 0,
                wiring@.len() == i,
                forall|j: int| 0 <= j < i ==> #[trigger] wiring@[j] == reflect_map(j),
            decreases 50 - i,
        {
            wiring.push(i + 1);
            wiring.push(i);
            i = i + 2;
        }
        // the patch: position 52 steals one side of the pair (50, 51)
        wiring.push(51);
        wiring.push(52);
        wiring.push(50);
        Reflector { wiring }
    }

    /// The position the signal leaves the reflector at.
    pub fn reflect(&self, input: usize) -> (r: usize)
        requires
            self.wf(),
            input < 53,
        ensures
            r == reflect_map(input as int),
            r < 53,
    {
        self.wiring[input]
    }
}

/// The reflector never maps a position to itself.
pub proof fn lemma_reflect_no_fixed_point(p: int)
    requires
        0 <= p < 53,
    ensures
        reflect_map(p) != p,
{
}

/// The reflector is a bijection over the 53 positions: it stays inside
/// them, distinct positions go to distinct positions, and every position is
/// hit (a witness that reflects to `p` is named for each `p`).
pub proof fn lemma_reflect_bijective(p: int, q: int)
    requires
        0 <= p < 53,
        0 <= q < 53,
    ensures
        0 <= reflect_map(p) < 53,
        p != q ==> reflect_map(p) != reflect_map(q),
        exists|x: int| 0 <= x < 53 && #[trigger] reflect_map(x) == p,
{
    if p < 50 {
        assert(reflect_map(reflect_map(p)) == p);
    } else if p == 50 {
        assert(reflect_map(52) == p);
    } else if p == 51 {
        assert(reflect_map(50) == p);
    } else {
        assert(reflect_map(51) == p);
    }
}

/// The reflector law: reflecting twice gives the original position back,
/// for every position below the patch. On the three patched positions the
/// mapping is a cycle, not an involution — the price of the odd alphabet.
pub proof fn lemma_reflect_involution(p: int)
    requires
        0 <= p < 50,
    ensures
        reflect_map(reflect_map(p)) == p,
{
}

} // verus!
