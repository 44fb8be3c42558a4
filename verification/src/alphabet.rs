//! The fixed ordered symbol set of the machine: the 26 lower-case letters,
//! the 26 upper-case letters, and the space, 53 symbols in all. Every
//! permutation in the crate is expressed over symbol *positions* `0..53`,
//! and this module is the bridge between symbols and positions.

use vstd::prelude::*;

verus! {

/// Number of symbols in the alphabet.
pub const ALPHABET_LEN: usize = 53;

/// Whether a character is one of the 53 symbols of the alphabet.
pub open spec fn in_alphabet(c: char) -> bool {
    ('a' <= c && c <= 'z') || ('A' <= c && c <= 'Z') || c == ' '
}

/// The alphabet position of a symbol: `a..z` take `0..26`, `A..Z` take
/// `26..52`, and the space takes `52`. Meaningful only on alphabet symbols.
pub open spec fn position_of(c: char) -> int {
    if 'a' <= c && c <= 'z' {
        c as int - 'a' as int
    } else if 'A' <= c && c <= 'Z' {
        26 + (c as int - 'A' as int)
    } else {
        52
    }
}

/// The symbol at an alphabet position. Meaningful only for `0 <= i < 53`.
pub open spec fn symbol_of(i: int) -> char {
    if 0 <= i < 26 {
        ('a' as int + i) as char
    } else if 26 <= i < 52 {
        ('A' as int + (i - 26)) as char
    } else {
        ' '
    }
}

/// Symbols and positions are in bijection: `position_of` and `symbol_of`
/// invert each other over the alphabet.
pub proof fn lemma_symbol_position_roundtrip(c: char, i: int)
    ensures
        in_alphabet(c) ==> 0 <= position_of(c) < 53,
        in_alphabet(c) ==> symbol_of(position_of(c)) == c,
        0 <= i < 53 ==> in_alphabet(symbol_of(i)),
        0 <= i < 53 ==> position_of(symbol_of(i)) == i,
{
}

/// The alphabet position of a symbol, or `None` for a character outside
/// the alphabet.
pub fn index_of(c: char) -> (r: Option<usize>)
    ensures
        in_alphabet(c) ==> r == Some(position_of(c) as usize),
        !in_alphabet(c) ==> r is None,
{
    let u = c as u32;
    if u >= 'a' as u32 && u <= 'z' as u32 {
        Some((u - 'a' as u32) as usize)
    } else if u >= 'A' as u32 && u <= 'Z' as u32 {
        Some((26 + (u - 'A' as u32)) as usize)
    } else if c == ' ' {
        Some(52)
    } else {
        None
    }
}

/// The symbol at an alphabet position.
pub fn symbol_at(i: usize) -> (c: char)
    requires
        i < 53,
    ensures
        c == symbol_of(i as int),
{
    if i < 26 {
        (('a' as u8) + (i as u8)) as char
    } else if i < 52 {
        (('A' as u8) + ((i - 26) as u8)) as char
    } else {
        ' '
    }
}

} // verus!
