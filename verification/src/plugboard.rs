//! The plugboard: an involutive substitution over the alphabet, applied
//! before and after the rotor stack. It starts as the identity and is
//! configured from a list of two-symbol pairs, each of which swaps two
//! so-far-unmapped symbols.

use vstd::prelude::*;
use crate::alphabet::{in_alphabet, position_of, symbol_of, index_of, symbol_at};
use crate::alphabet::lemma_symbol_position_roundtrip;
use crate::error::EnigmaError;

verus! {

/// An involutive mapping over alphabet positions.
pub struct Plugboard {
    /// `mapping[i]` is the position that position `i` is exchanged with;
    /// an unplugged position maps to itself.
    pub mapping: Vec<usize>,
}

/// The identity mapping: every position maps to itself.
pub open spec fn identity_mapping() -> Seq<usize> {
    Seq::new(53, |i: int| i as usize)
}

/// A well-formed plugboard mapping: one entry per alphabet position, every
/// entry a position, and the whole an involution.
pub open spec fn mapping_wf(m: Seq<usize>) -> bool {
    &&& m.len() == 53
    &&& forall|i: int| 0 <= i < 53 ==> #[trigger] m[i] < 53
    &&& forall|i: int| 0 <= i < 53 ==> #[trigger] m[m[i] as int] == i
}

/// Whether one configured pair is acceptable against the mapping built so
/// far: exactly two symbols, both in the alphabet, and neither mapped away
/// from itself yet.
pub open spec fn pair_accepted(m: Seq<usize>, p: Seq<char>) -> bool {
    &&& p.len() == 2
    &&& in_alphabet(p[0])
    &&& in_alphabet(p[1])
    &&& m[position_of(p[0])] == position_of(p[0]) as usize
    &&& m[position_of(p[1])] == position_of(p[1]) as usize
}

/// The mapping after inserting one pair, in both directions.
pub open spec fn apply_pair(m: Seq<usize>, p: Seq<char>) -> Seq<usize> {
    m.update(position_of(p[0]), position_of(p[1]) as usize).update(
        position_of(p[1]),
        position_of(p[0]) as usize,
    )
}

/// The mapping that a list of pairs builds on top of `m`, or `None` if some
/// pair, taken in order, is rejected.
pub open spec fn build_mapping(m: Seq<usize>, ps: Seq<Seq<char>>) -> Option<Seq<usize>>
    decreases ps.len(),
{
    if ps.len() == 0 {
        Some(m)
    } else if pair_accepted(m, ps[0]) {
        build_mapping(apply_pair(m, ps[0]), ps.drop_first())
    } else {
        None
    }
}

impl Plugboard {
    /// The plugboard's internal invariant.
    pub open spec fn wf(self) -> bool {
        mapping_wf(self.mapping@)
    }

    /// What `swap` returns: the exchanged symbol for an alphabet symbol,
    /// the input itself for anything else.
    pub open spec fn spec_swap(self, c: char) -> char {
        if in_alphabet(c) {
            symbol_of(self.mapping@[position_of(c)] as int)
        } else {
            c
        }
    }

    /// The identity plugboard: every symbol maps to itself.
    pub fn new() -> (p: Plugboard)
        ensures
            p.wf(),
            p.mapping@ == identity_mapping(),
    {
        let mut mapping: Vec<usize> = Vec::new();
        let mut i: usize = 0;
        while i < 53
            invariant
                i <= 53,
                mapping@.len() == i,
                forall|j: int| 0 <= j < i ==> #[trigger] mapping@[j] == j,
            decreases 53 - i,
        {
            mapping.push(i);
            i = i + 1;
        }
        proof {
            assert(mapping@ =~= identity_mapping());
        }
        Plugboard { mapping }
    }

    /// A plugboard configured from two-symbol pairs, inserted in order; the
    /// first rejected pair fails the whole construction.
    pub fn from_pairs(pairs: Vec<String>) -> (r: Result<Plugboard, EnigmaError>)
        ensures
            build_mapping(identity_mapping(), pairs.deep_view()) matches Some(m) ==> (r
                matches Ok(p) && p.mapping@ == m && p.wf()),
            build_mapping(identity_mapping(), pairs.deep_view()) is None ==> (r matches Err(
                EnigmaError::InvalidPlugboardPair(_),
            )),
    {
        let ghost all: Seq<Seq<char>> = pairs.deep_view();
        let mut board = Plugboard::new();
        proof {
            assert(all.skip(0) =~= all);
        }
        let mut k: usize = 0;
        while k < pairs.len()
            invariant
                k <= pairs.len(),
                all == pairs.deep_view(),
                board.wf(),
                build_mapping(identity_mapping(), all) == build_mapping(
                    board.mapping@,
                    all.skip(k as int),
                ),
            decreases pairs.len() - k,
        {
            let pair = &pairs[k];
            proof {
                assert(all.skip(k as int)[0] == pair@);
                assert(all.skip(k as int).drop_first() =~= all.skip(k as int + 1));
            }
            if pair.as_str().unicode_len() != 2 {
                return Err(EnigmaError::InvalidPlugboardPair(pair.clone()));
            }
            let a = pair.as_str().get_char(0);
            let b = pair.as_str().get_char(1);
            let ia = match index_of(a) {
                Some(i) => i,
                None => {
                    return Err(EnigmaError::InvalidPlugboardPair(pair.clone()));
                },
            };
            let ib = match index_of(b) {
                Some(i) => i,
                None => {
                    return Err(EnigmaError::InvalidPlugboardPair(pair.clone()));
                },
            };
            proof {
                lemma_symbol_position_roundtrip(a, 0);
                lemma_symbol_position_roundtrip(b, 0);
            }
            if board.mapping[ia] != ia || board.mapping[ib] != ib {
                return Err(EnigmaError::InvalidPlugboardPair(pair.clone()));
            }
            let ghost before = board.mapping@;
            board.mapping.set(ia, ib);
            board.mapping.set(ib, ia);
            proof {
                assert(board.mapping@ == apply_pair(before, pair@));
                assert forall|i: int| 0 <= i < 53 implies board.mapping@[#[trigger] board.mapping@[i] as int]
                    == i by {
                    if i != ia && i != ib {
                        assert(before[i] != ia && before[i] != ib);
                    }
                }
            }
            k = k + 1;
        }
        proof {
            assert(all.skip(k as int) =~= Seq::<Seq<char>>::empty());
        }
        Ok(board)
    }

    /// The symbol this plugboard exchanges `c` with; a symbol outside the
    /// alphabet passes through unchanged.
    pub fn swap(&self, c: char) -> (r: char)
        requires
            self.wf(),
        ensures
            r == self.spec_swap(c),
    {
        match index_of(c) {
            Some(i) => symbol_at(self.mapping[i]),
            None => c,
        }
    }
}

/// The plugboard law: swapping twice gives the original symbol back, for
/// every character, plugged or not, inside the alphabet or not.
pub proof fn lemma_plugboard_involution(p: Plugboard, c: char)
    requires
        p.wf(),
    ensures
        p.spec_swap(p.spec_swap(c)) == c,
{
    if in_alphabet(c) {
        lemma_symbol_position_roundtrip(c, 0);
        let i = position_of(c);
        let j = p.mapping@[i] as int;
        lemma_symbol_position_roundtrip(symbol_of(j), j);
    }
}

} // verus!
