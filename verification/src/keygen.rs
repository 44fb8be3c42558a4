//! Key generation: fresh rotor wirings are drawn by shuffling the alphabet
//! until the arrangement has no fixed point. The shuffle itself comes from
//! an outside source of randomness; every candidate is checked by the
//! verified validator before it is accepted, so whatever the shuffle
//! returns, the wirings handed out are valid.

use vstd::prelude::*;
use rand::seq::SliceRandom;
use crate::alphabet::{in_alphabet, position_of, symbol_of, symbol_at};
use crate::alphabet::lemma_symbol_position_roundtrip;
use crate::rotor::{valid_wiring, wires_to, is_valid_wiring};

verus! {

/// The alphabet as a vector of symbols, in order.
pub fn alphabet_symbols() -> (v: Vec<char>)
    ensures
        v@.len() == 53,
        forall|i: int| 0 <= i < 53 ==> #[trigger] v@[i] == symbol_of(i),
{
    let mut v: Vec<char> = Vec::new();
    let mut i: usize = 0;
    while i < 53
        invariant
            i <= 53,
            v@.len() == i,
            forall|j: int| 0 <= j < i ==> #[trigger] v@[j] == symbol_of(j),
        decreases 53 - i,
    {
        v.push(symbol_at(i));
        i = i + 1;
    }
    v
}

/// Relies on rand: `SliceRandom::shuffle` with `thread_rng` rearranges the
/// elements of the slice in place by swaps; which arrangement comes out is
/// random, so nothing more than the preserved contents is assumed.
#[verifier::external_body]
fn shuffle_symbols(v: &mut Vec<char>)
    ensures
        final(v)@.to_multiset() == old(v)@.to_multiset(),
        final(v)@.len() == old(v)@.len(),
{
    v.shuffle(&mut rand::thread_rng());
}

/// The alphabet rotated by one: a wiring that is always a fixed-point-free
/// permutation. It backs the draw when every redraw came out with a fixed
/// point, which keeps the generator total.
fn rotated_alphabet() -> (w: Vec<char>)
    ensures
        valid_wiring(w@),
{
    let mut w: Vec<char> = Vec::new();
    let mut i: usize = 0;
    while i < 53
        invariant
            i <= 53,
            w@.len() == i,
            forall|j: int| 0 <= j < i ==> #[trigger] w@[j] == symbol_of((j + 1) % 53),
        decreases 53 - i,
    {
        w.push(symbol_at((i + 1) % 53));
        i = i + 1;
    }
    proof {
        assert forall|j: int| 0 <= j < 53 implies in_alphabet(#[trigger] w@[j]) && position_of(
            w@[j],
        ) == (j + 1) % 53 by {
            lemma_symbol_position_roundtrip(w@[j], (j + 1) % 53);
        }
        assert forall|y: int| 0 <= y < 53 implies #[trigger] wires_to(w@, y) by {
            let j = (y + 52) % 53;
            assert(0 <= j < 53 && position_of(w@[j]) == y);
        }
    }
    w
}

/// Draws one fresh rotor wiring: a shuffled alphabet, redrawn while it has
/// a fixed point. The redraws are bounded so that the draw provably ends;
/// if every one of them came out with a fixed point — which does not happen
/// in practice — the rotated alphabet stands in.
fn generate_one_wiring() -> (w: Vec<char>)
    ensures
        valid_wiring(w@),
{
    let mut tries: usize = 0;
    while tries < 100000
        invariant
            tries <= 100000,
        decreases 100000 - tries,
    {
        let mut symbols = alphabet_symbols();
        shuffle_symbols(&mut symbols);
        if is_valid_wiring(&symbols) {
            return symbols;
        }
        tries = tries + 1;
    }
    rotated_alphabet()
}

/// Draws three fresh rotor wirings: shuffled alphabets, redrawn while they
/// have fixed points.
pub fn generate_wirings() -> (ws: Vec<Vec<char>>)
    ensures
        ws@.len() == 3,
        forall|k: int| 0 <= k < 3 ==> valid_wiring(#[trigger] ws@[k]@),
{
    let mut ws: Vec<Vec<char>> = Vec::new();
    let mut k: usize = 0;
    while k < 3
        invariant
            k <= 3,
            ws@.len() == k,
            forall|j: int| 0 <= j < k ==> valid_wiring(#[trigger] ws@[j]@),
        decreases 3 - k,
    {
        ws.push(generate_one_wiring());
        k = k + 1;
    }
    ws
}

} // verus!
