//! IFKP pictures: the fixed picture sizes and the `" pic%X"` header that
//! announces one in the text stream.
use vstd::prelude::*;
use crate::text::{all_ascii, find_bytes, find_sub, latin1, latin1_string, lemma_ascii_encode, occurs_at};
use vstd::string::StringSliceAdditionalSpecFns;

verus! {

/// Samples per pixel.
pub const SPP: usize = 8;

/// A fixed IFKP picture size.
#[derive(Debug, Clone, Copy, PartialEq, Eq)]
pub enum IfkpPicSize {
    /// 59×74 (T/t).
    Thumb,
    /// 120×150 (M/m).
    Mini,
    /// 240×300 (P/p).
    Portrait,
    /// 160×120 (S/s).
    Small,
    /// 320×240 (L/l).
    Large,
    /// 640×480 (V, F for grey).
    Vga,
}

/// The size of each picture size.
pub open spec fn ifkp_pic_dims(s: IfkpPicSize) -> (u32, u32) {
    match s {
        IfkpPicSize::Thumb => (59, 74),
        IfkpPicSize::Mini => (120, 150),
        IfkpPicSize::Portrait => (240, 300),
        IfkpPicSize::Small => (160, 120),
        IfkpPicSize::Large => (320, 240),
        IfkpPicSize::Vga => (640, 480),
    }
}

/// The on-air mode character (as a byte) for a size in colour or grey.
pub open spec fn ifkp_pic_char(s: IfkpPicSize, grey: bool) -> u8 {
    match s {
        IfkpPicSize::Thumb => if grey { 116 } else { 84 },
        IfkpPicSize::Mini => if grey { 109 } else { 77 },
        IfkpPicSize::Portrait => if grey { 112 } else { 80 },
        IfkpPicSize::Small => if grey { 115 } else { 83 },
        IfkpPicSize::Large => if grey { 108 } else { 76 },
        IfkpPicSize::Vga => if grey { 70 } else { 86 },
    }
}

impl IfkpPicSize {
    pub fn dims(self) -> (r: (u32, u32))
        ensures
            r == ifkp_pic_dims(self),
    {
        match self {
            IfkpPicSize::Thumb => (59, 74),
            IfkpPicSize::Mini => (120, 150),
            IfkpPicSize::Portrait => (240, 300),
            IfkpPicSize::Small => (160, 120),
            IfkpPicSize::Large => (320, 240),
            IfkpPicSize::Vga => (640, 480),
        }
    }

    /// The on-air mode character for this size at the given colour.
    pub fn tx_char(self, grey: bool) -> (c: char)
        ensures
            c == ifkp_pic_char(self, grey) as char,
    {
        match (self, grey) {
            (IfkpPicSize::Thumb, false) => 'T',
            (IfkpPicSize::Thumb, true) => 't',
            (IfkpPicSize::Mini, false) => 'M',
            (IfkpPicSize::Mini, true) => 'm',
            (IfkpPicSize::Portrait, false) => 'P',
            (IfkpPicSize::Portrait, true) => 'p',
            (IfkpPicSize::Small, false) => 'S',
            (IfkpPicSize::Small, true) => 's',
            (IfkpPicSize::Large, false) => 'L',
            (IfkpPicSize::Large, true) => 'l',
            (IfkpPicSize::Vga, false) => 'V',
            (IfkpPicSize::Vga, true) => 'F',
        }
    }
}

/// A parsed IFKP picture header.
#[derive(Debug, Clone, Copy, PartialEq, Eq)]
pub struct IfkpPicHeader {
    pub width: u32,
    pub height: u32,
    pub color: bool,
    /// 59×74 avatar (`A`): recognised but not decoded here.
    pub avatar: bool,
}

/// The header token `" pic%X"` as bytes.
pub open spec fn ifkp_pic_header_bytes(s: IfkpPicSize, grey: bool) -> Seq<u8> {
    seq![32u8, 112u8, 105u8, 99u8, 37u8, ifkp_pic_char(s, grey)]
}

/// Build the TX header token `" pic%X"` for a size at the given colour.
pub fn header(size: IfkpPicSize, grey: bool) -> (s: String)
    ensures
        s@ == latin1(ifkp_pic_header_bytes(size, grey)),
{
    let c: u8 = match (size, grey) {
        (IfkpPicSize::Thumb, false) => 84,
        (IfkpPicSize::Thumb, true) => 116,
        (IfkpPicSize::Mini, false) => 77,
        (IfkpPicSize::Mini, true) => 109,
        (IfkpPicSize::Portrait, false) => 80,
        (IfkpPicSize::Portrait, true) => 112,
        (IfkpPicSize::Small, false) => 83,
        (IfkpPicSize::Small, true) => 115,
        (IfkpPicSize::Large, false) => 76,
        (IfkpPicSize::Large, true) => 108,
        (IfkpPicSize::Vga, false) => 86,
        (IfkpPicSize::Vga, true) => 70,
    };
    let b: [u8; 6] = [32, 112, 105, 99, 37, c];
    assert(b@ =~= ifkp_pic_header_bytes(size, grey));
    latin1_string(&b)
}

/// The `(width, height, colour, avatar)` a mode character names.
pub open spec fn ifkp_pic_of_char(c: u8) -> Option<(u32, u32, bool, bool)> {
    if c == 65 {
        Some((59, 74, true, true))
    } else if c == 84 {
        Some((59, 74, true, false))
    } else if c == 116 {
        Some((59, 74, false, false))
    } else if c == 83 {
        Some((160, 120, true, false))
    } else if c == 115 {
        Some((160, 120, false, false))
    } else if c == 76 {
        Some((320, 240, true, false))
    } else if c == 108 {
        Some((320, 240, false, false))
    } else if c == 86 {
        Some((640, 480, true, false))
    } else if c == 118 {
        Some((640, 480, false, false))
    } else if c == 70 {
        Some((640, 480, false, false))
    } else if c == 80 {
        Some((240, 300, true, false))
    } else if c == 112 {
        Some((240, 300, false, false))
    } else if c == 77 {
        Some((120, 150, true, false))
    } else if c == 109 {
        Some((120, 150, false, false))
    } else {
        None
    }
}

/// The header a text window announces: the mode character after the first
/// `"pic%"`.
pub open spec fn ifkp_pic_parse(b: Seq<u8>) -> Option<(u32, u32, bool, bool)> {
    match find_sub(b, seq![112u8, 105u8, 99u8, 37u8], 0) {
        None => None,
        Some(idx) => if idx + 4 < b.len() {
            ifkp_pic_of_char(b[idx + 4])
        } else {
            None
        },
    }
}

/// Parse an IFKP picture header from the current RX text window: locate
/// `"pic%"` and map the following character through the size/colour table;
/// an unrecognised character gives `None`.
pub fn parse_header(window: &str) -> (r: Option<IfkpPicHeader>)
    ensures
        match ifkp_pic_parse(window.spec_bytes()) {
            None => r is None,
            Some(t) => r == Some(IfkpPicHeader { width: t.0, height: t.1, color: t.2, avatar: t.3 }),
        },
{
    let b = window.as_bytes();
    let pat: [u8; 4] = [112, 105, 99, 37];
    assert(pat@ =~= seq![112u8, 105u8, 99u8, 37u8]);
    let idx = match find_bytes(b, &pat) {
        Some(i) => i,
        None => return None,
    };
    if idx >= b.len() || b.len() - idx <= 4 {
        return None;
    }
    let c = b[idx + 4];
    let (width, height, color, avatar): (u32, u32, bool, bool) = if c == 65 {
        (59, 74, true, true)
    } else if c == 84 {
        (59, 74, true, false)
    } else if c == 116 {
        (59, 74, false, false)
    } else if c == 83 {
        (160, 120, true, false)
    } else if c == 115 {
        (160, 120, false, false)
    } else if c == 76 {
        (320, 240, true, false)
    } else if c == 108 {
        (320, 240, false, false)
    } else if c == 86 {
        (640, 480, true, false)
    } else if c == 118 {
        (640, 480, false, false)
    } else if c == 70 {
        (640, 480, false, false)
    } else if c == 80 {
        (240, 300, true, false)
    } else if c == 112 {
        (240, 300, false, false)
    } else if c == 77 {
        (120, 150, true, false)
    } else if c == 109 {
        (120, 150, false, false)
    } else {
        return None;
    };
    Some(IfkpPicHeader { width, height, color, avatar })
}

/// A header built for a size parses back to that size, in the colour it was
/// built for, and not as an avatar.
pub proof fn lemma_ifkp_pic_header_round_trip(s: IfkpPicSize, grey: bool)
    ensures
        ifkp_pic_parse(vstd::utf8::encode_utf8(latin1(ifkp_pic_header_bytes(s, grey)))) == Some(
            (ifkp_pic_dims(s).0, ifkp_pic_dims(s).1, !grey, false),
        ),
{
    let b = ifkp_pic_header_bytes(s, grey);
    let pat = seq![112u8, 105u8, 99u8, 37u8];
    assert(all_ascii(b));
    lemma_ascii_encode(b);
    assert(!occurs_at(b, pat, 0)) by {
        assert(b.subrange(0, 4)[0] != pat[0]);
    }
    assert(occurs_at(b, pat, 1)) by {
        assert(b.subrange(1, 5) =~= pat);
    }
    assert(find_sub(b, pat, 1) == Some(1int));
    assert(find_sub(b, pat, 0) == Some(1int));
}

} // verus!
