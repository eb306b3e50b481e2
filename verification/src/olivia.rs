//! Olivia: each character is one 6-bit symbol spread into a 64-chip Walsh
//! block, the chips packed `log2(tones)` to an MFSK symbol.
use vstd::prelude::*;
use crate::contestia::{lemma_even_trailing_zeros, trailing_zeros};

verus! {

/// Native sample rate.
pub const OLIVIA_RATE: u32 = 8_000;

/// Chips per Walsh block (one 6-bit symbol).
pub const WALSH_N: usize = 64;

/// The 64-entry character set, one Walsh symbol per character.
pub const CHARSET: [u8; 64] = [
    32, 65, 66, 67, 68, 69, 70, 71, 72, 73, 74, 75, 76, 77, 78, 79,
    80, 81, 82, 83, 84, 85, 86, 87, 88, 89, 90, 97, 98, 99, 100, 101,
    102, 103, 104, 105, 106, 107, 108, 109, 110, 111, 112, 113, 114, 115, 116, 117,
    118, 119, 120, 121, 122, 48, 49, 50, 51, 52, 53, 54, 55, 56, 57, 46,
];

/// The Walsh symbol of a byte: its position in the character set, or 0
/// (space) for a byte outside it.
pub fn char_to_symbol(ch: u8) -> (r: usize)
    ensures
        r < 64,
        CHARSET@.contains(ch) ==> CHARSET@[r as int] == ch && forall|j: int|
            0 <= j < r ==> CHARSET@[j] != ch,
        !CHARSET@.contains(ch) ==> r == 0,
{
    let cs = CHARSET;
    let mut i: usize = 0;
    while i < 64
        invariant
            cs@ == CHARSET@,
            i <= 64,
            forall|j: int| 0 <= j < i ==> CHARSET@[j] != ch,
        decreases 64 - i,
    {
        if cs[i] == ch {
            return i;
        }
        i = i + 1;
    }
    assert(!CHARSET@.contains(ch));
    0
}

/// The character of a symbol (its low six bits).
pub fn symbol_to_char(sym: usize) -> (c: char)
    ensures
        c == (CHARSET@[(sym % 64) as int] as char),
{
    let cs = CHARSET;
    cs[sym % 64] as char
}

/// Every character of the set survives the trip through its symbol.
pub proof fn lemma_olivia_symbol_round_trip(c: u8, r: usize)
    requires
        CHARSET@.contains(c),
        r < 64,
        CHARSET@[r as int] == c,
    ensures
        (CHARSET@[(r % 64) as int] as char) == (c as char),
{
}

/// Chips carried per MFSK symbol: the number of trailing zero bits of the
/// tone count (`log2(tones)` for a power of two).
pub fn chips_per_symbol(tones: u32) -> (r: usize)
    ensures
        r == trailing_zeros(tones),
{
    crate::contestia::chips_per_symbol(tones)
}

/// Symbols needed to carry one 64-chip Walsh block (padded up). The tone
/// count must be even (at least one chip per symbol).
pub fn symbols_per_char(tones: u32) -> (r: usize)
    requires
        tones % 2 == 0,
    ensures
        r == (64 + trailing_zeros(tones) - 1) / trailing_zeros(tones),
{
    let c = chips_per_symbol(tones);
    proof {
        lemma_even_trailing_zeros(tones);
    }
    (WALSH_N + c - 1) / c
}

} // verus!
