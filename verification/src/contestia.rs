//! Contestia: Olivia's faster sibling. An MFSK tone bank where each character
//! is spread across a 32-chip Walsh block (a 5-bit symbol), parametric over
//! the Contestia grid of tone counts and bandwidths.
use vstd::prelude::*;
use crate::text::{
    copy_chars, decimal, digit_char, find_char, find_char_exec, lemma_decimal_digits,
    lemma_find_char_past, lemma_parse_u16_decimal, parse_u16, parse_u16_chars, push_decimal, push_str,
    str_chars, string_push, is_digit_char,
};

verus! {

pub const CONTESTIA_RATE: u32 = 8000;

/// Chips per Walsh block (one 5-bit symbol per character).
pub const WALSH_N: usize = 32;

/// The 32-character set, one 5-bit symbol per character.
pub const CHARSET: [u8; 32] = [
    32, 65, 66, 67, 68, 69, 70, 71, 72, 73, 74, 75, 76, 77, 78, 79, 80, 81, 82, 83, 84, 85, 86, 87,
    88, 89, 90, 48, 49, 50, 51, 52,
];

/// A Contestia submode: `tones` MFSK tones over `bandwidth_hz`.
#[derive(Debug, Clone, Copy, PartialEq, Eq, Structural)]
pub struct ContestiaVariant {
    pub tones: u16,
    pub bandwidth_hz: u16,
}

/// The Contestia submode grid (5+5+4+2+3 = 19 submodes).
pub open spec fn contestia_grid() -> Seq<ContestiaVariant> {
    seq![
        ContestiaVariant { tones: 4, bandwidth_hz: 125 },
        ContestiaVariant { tones: 4, bandwidth_hz: 250 },
        ContestiaVariant { tones: 4, bandwidth_hz: 500 },
        ContestiaVariant { tones: 4, bandwidth_hz: 1000 },
        ContestiaVariant { tones: 4, bandwidth_hz: 2000 },
        ContestiaVariant { tones: 8, bandwidth_hz: 125 },
        ContestiaVariant { tones: 8, bandwidth_hz: 250 },
        ContestiaVariant { tones: 8, bandwidth_hz: 500 },
        ContestiaVariant { tones: 8, bandwidth_hz: 1000 },
        ContestiaVariant { tones: 8, bandwidth_hz: 2000 },
        ContestiaVariant { tones: 16, bandwidth_hz: 250 },
        ContestiaVariant { tones: 16, bandwidth_hz: 500 },
        ContestiaVariant { tones: 16, bandwidth_hz: 1000 },
        ContestiaVariant { tones: 16, bandwidth_hz: 2000 },
        ContestiaVariant { tones: 32, bandwidth_hz: 1000 },
        ContestiaVariant { tones: 32, bandwidth_hz: 2000 },
        ContestiaVariant { tones: 64, bandwidth_hz: 500 },
        ContestiaVariant { tones: 64, bandwidth_hz: 1000 },
        ContestiaVariant { tones: 64, bandwidth_hz: 2000 },
    ]
}

/// The label `contestia<tones>_<bandwidth>`.
pub open spec fn contestia_label(v: ContestiaVariant) -> Seq<char> {
    "contestia"@ + decimal(v.tones as nat) + seq!['_'] + decimal(v.bandwidth_hz as nat)
}

/// The submode a label names: `contestia`, then the tone count and the
/// bandwidth as `u16` numbers split at the first `_`, naming a submode of the
/// grid.
pub open spec fn contestia_of_label(s: Seq<char>) -> Option<ContestiaVariant> {
    if s.len() >= 9 && s.take(9) == "contestia"@ {
        let rest = s.skip(9);
        let i = find_char(rest, '_', 0);
        if i >= rest.len() {
            None
        } else {
            match (parse_u16(rest.take(i)), parse_u16(rest.skip(i + 1))) {
                (Some(t), Some(b)) => {
                    let v = ContestiaVariant { tones: t, bandwidth_hz: b };
                    if contestia_grid().contains(v) {
                        Some(v)
                    } else {
                        None
                    }
                },
                _ => None,
            }
        }
    } else {
        None
    }
}

impl ContestiaVariant {
    pub fn new(tones: u16, bandwidth_hz: u16) -> (r: ContestiaVariant)
        ensures
            r.tones == tones,
            r.bandwidth_hz == bandwidth_hz,
    {
        ContestiaVariant { tones, bandwidth_hz }
    }

    pub fn label(self) -> (s: String)
        ensures
            s@ == contestia_label(self),
    {
        let mut s = String::new();
        push_str(&mut s, "contestia");
        push_decimal(&mut s, self.tones as u32);
        string_push(&mut s, '_');
        push_decimal(&mut s, self.bandwidth_hz as u32);
        s
    }

    /// Parse a `contestia<tones>_<bw>` label if it names a submode in the
    /// grid.
    pub fn from_label(s: &str) -> (r: Option<ContestiaVariant>)
        ensures
            r == contestia_of_label(s@),
    {
        proof {
            reveal_strlit("contestia");
        }
        let c = str_chars(s);
        let prefix = str_chars("contestia");
        if c.len() < 9 {
            return None;
        }
        let mut k: usize = 0;
        while k < 9
            invariant
                c@ == s@,
                prefix@ == "contestia"@,
                9 <= c@.len(),
                prefix@.len() == 9,
                k <= 9,
                forall|j: int| 0 <= j < k ==> c@[j] == prefix@[j],
            decreases 9 - k,
        {
            if c[k] != prefix[k] {
                assert(s@.take(9)[k as int] != "contestia"@[k as int]);
                return None;
            }
            k = k + 1;
        }
        assert(s@.take(9) =~= "contestia"@);
        let rest = copy_chars(c.as_slice(), 9, c.len());
        assert(rest@ =~= s@.skip(9));
        let i = find_char_exec(rest.as_slice(), '_');
        if i >= rest.len() {
            return None;
        }
        let a = copy_chars(rest.as_slice(), 0, i);
        let b = copy_chars(rest.as_slice(), i + 1, rest.len());
        assert(a@ =~= rest@.take(i as int));
        assert(b@ =~= rest@.skip(i + 1));
        let t = match parse_u16_chars(a.as_slice()) {
            Some(t) => t,
            None => return None,
        };
        let bw = match parse_u16_chars(b.as_slice()) {
            Some(bw) => bw,
            None => return None,
        };
        let v = ContestiaVariant { tones: t, bandwidth_hz: bw };
        if in_grid(v) {
            Some(v)
        } else {
            None
        }
    }

    /// Every submode in the Contestia grid.
    pub fn all() -> (r: &'static [ContestiaVariant])
        ensures
            r@ == contestia_grid(),
    {
        let r: &'static [ContestiaVariant] = &[
            ContestiaVariant { tones: 4, bandwidth_hz: 125 },
            ContestiaVariant { tones: 4, bandwidth_hz: 250 },
            ContestiaVariant { tones: 4, bandwidth_hz: 500 },
            ContestiaVariant { tones: 4, bandwidth_hz: 1000 },
            ContestiaVariant { tones: 4, bandwidth_hz: 2000 },
            ContestiaVariant { tones: 8, bandwidth_hz: 125 },
            ContestiaVariant { tones: 8, bandwidth_hz: 250 },
            ContestiaVariant { tones: 8, bandwidth_hz: 500 },
            ContestiaVariant { tones: 8, bandwidth_hz: 1000 },
            ContestiaVariant { tones: 8, bandwidth_hz: 2000 },
            ContestiaVariant { tones: 16, bandwidth_hz: 250 },
            ContestiaVariant { tones: 16, bandwidth_hz: 500 },
            ContestiaVariant { tones: 16, bandwidth_hz: 1000 },
            ContestiaVariant { tones: 16, bandwidth_hz: 2000 },
            ContestiaVariant { tones: 32, bandwidth_hz: 1000 },
            ContestiaVariant { tones: 32, bandwidth_hz: 2000 },
            ContestiaVariant { tones: 64, bandwidth_hz: 500 },
            ContestiaVariant { tones: 64, bandwidth_hz: 1000 },
            ContestiaVariant { tones: 64, bandwidth_hz: 2000 },
        ];
        assert(r@ =~= contestia_grid());
        r
    }
}

/// Whether `v` is a submode of the grid.
fn in_grid(v: ContestiaVariant) -> (r: bool)
    ensures
        r == contestia_grid().contains(v),
{
    let all = ContestiaVariant::all();
    let mut j: usize = 0;
    while j < all.len()
        invariant
            all@ == contestia_grid(),
            j <= all@.len(),
            forall|m: int| 0 <= m < j ==> all@[m] != v,
        decreases all@.len() - j,
    {
        if all[j] == v {
            assert(contestia_grid()[j as int] == v);
            return true;
        }
        j = j + 1;
    }
    false
}

/// Every submode of the grid: its label parses back to it.
pub proof fn lemma_contestia_labels_round_trip(v: ContestiaVariant)
    requires
        contestia_grid().contains(v),
    ensures
        contestia_of_label(contestia_label(v)) == Some(v),
{
    let dt = decimal(v.tones as nat);
    let db = decimal(v.bandwidth_hz as nat);
    let s = contestia_label(v);
    reveal_strlit("contestia");
    assert("contestia"@.len() == 9);
    assert(s.take(9) =~= "contestia"@);
    let rest = s.skip(9);
    assert(rest =~= dt + seq!['_'] + db);
    lemma_decimal_digits(v.tones as nat);
    lemma_find_char_past(rest, '_', 0, dt.len() as int);
    assert(rest.take(dt.len() as int) =~= dt);
    assert(rest.skip(dt.len() as int + 1) =~= db);
    lemma_parse_u16_decimal(v.tones);
    lemma_parse_u16_decimal(v.bandwidth_hz);
}

/// The ASCII uppercase of a byte.
pub open spec fn ascii_upper(c: u8) -> u8 {
    if 97 <= c <= 122 {
        (c - 32) as u8
    } else {
        c
    }
}

/// The symbol of a byte: the position of its uppercase in the character
/// set, or 0 (space) for a byte outside it.
pub open spec fn contestia_symbol(c: u8) -> int {
    let up = ascii_upper(c);
    if CHARSET@.contains(up) {
        CHARSET@.index_of(up)
    } else {
        0
    }
}

/// The Walsh symbol of a character: case-folded to uppercase; unknown bytes
/// map to space.
pub fn char_to_symbol(ch: u8) -> (r: usize)
    ensures
        r < 32,
        CHARSET@.contains(ascii_upper(ch)) ==> CHARSET@[r as int] == ascii_upper(ch) && forall|j: int|
            0 <= j < r ==> CHARSET@[j] != ascii_upper(ch),
        !CHARSET@.contains(ascii_upper(ch)) ==> r == 0,
{
    let up = if 97 <= ch && ch <= 122 {
        ch - 32
    } else {
        ch
    };
    let cs = CHARSET;
    let mut i: usize = 0;
    while i < 32
        invariant
            cs@ == CHARSET@,
            i <= 32,
            up == ascii_upper(ch),
            forall|j: int| 0 <= j < i ==> CHARSET@[j] != up,
        decreases 32 - i,
    {
        if cs[i] == up {
            return i;
        }
        i = i + 1;
    }
    assert(!CHARSET@.contains(up));
    0
}

/// The character of a symbol (its low five bits).
pub fn symbol_to_char(sym: usize) -> (c: char)
    ensures
        c == (CHARSET@[(sym % 32) as int] as char),
{
    let cs = CHARSET;
    let k = sym & 31;
    assert(sym & 31 == sym % 32) by (bit_vector);
    cs[k] as char
}

/// Decoding the symbol of a character gives the character back, case-folded
/// to uppercase, for every character of the set.
pub proof fn lemma_symbol_round_trip(c: u8, r: usize)
    requires
        CHARSET@.contains(ascii_upper(c)),
        r < 32,
        CHARSET@[r as int] == ascii_upper(c),
    ensures
        (CHARSET@[(r % 32) as int] as char) == (ascii_upper(c) as char),
{
}

/// The index of the lowest set bit of `n` at or above bit `i`, or 32 when
/// there is none.
pub open spec fn lowest_set_bit(n: u32, i: int) -> int
    decreases 32 - i,
{
    if i >= 32 || i < 0 {
        32
    } else if (n >> (i as u32)) & 1 == 1 {
        i
    } else {
        lowest_set_bit(n, i + 1)
    }
}

/// The number of trailing zero bits of `n` (32 for zero).
pub open spec fn trailing_zeros(n: u32) -> int {
    lowest_set_bit(n, 0)
}

proof fn lemma_lowest_set_bit_bounds(n: u32, i: int)
    requires
        0 <= i <= 32,
    ensures
        i <= lowest_set_bit(n, i) <= 32,
    decreases 32 - i,
{
    if i < 32 && (n >> (i as u32)) & 1 != 1 {
        lemma_lowest_set_bit_bounds(n, i + 1);
    }
}

/// An even tone count carries at least one chip per symbol.
pub proof fn lemma_even_trailing_zeros(tones: u32)
    requires
        tones % 2 == 0,
    ensures
        1 <= trailing_zeros(tones) <= 32,
{
    assert((tones >> 0u32) & 1 != 1) by (bit_vector)
        requires
            tones % 2 == 0,
    ;
    lemma_lowest_set_bit_bounds(tones, 1);
}

/// Chips carried per MFSK symbol: `log2(tones)` for a power-of-two tone
/// count (the number of trailing zero bits).
pub fn chips_per_symbol(tones: u32) -> (r: usize)
    ensures
        r == trailing_zeros(tones),
{
    let mut i: u32 = 0;
    while i < 32 && (tones >> i) & 1 != 1
        invariant
            i <= 32,
            lowest_set_bit(tones, i as int) == trailing_zeros(tones),
        decreases 32 - i,
    {
        i = i + 1;
    }
    i as usize
}

/// Symbols needed to carry one 32-chip Walsh block (padded up). The tone
/// count must be even (at least one chip per symbol).
pub fn symbols_per_char(tones: u32) -> (r: usize)
    requires
        tones % 2 == 0,
    ensures
        r == (32 + trailing_zeros(tones) - 1) / trailing_zeros(tones),
{
    let c = chips_per_symbol(tones);
    proof {
        lemma_even_trailing_zeros(tones);
    }
    (WALSH_N + c - 1) / c
}

/// A Contestia modulator for one submode.
pub struct ContestiaMod {
    pub v: ContestiaVariant,
}

impl ContestiaMod {
    pub fn new(tones: u16, bandwidth_hz: u16) -> (m: ContestiaMod)
        ensures
            m.v.tones == tones,
            m.v.bandwidth_hz == bandwidth_hz,
    {
        ContestiaMod { v: ContestiaVariant::new(tones, bandwidth_hz) }
    }
}

} // verus!
