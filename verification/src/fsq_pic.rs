//! FSQ pictures: the eight picture modes and the `"% X"` header that
//! announces one inside a directed message.
use vstd::prelude::*;
use crate::text::{all_ascii, find_bytes, find_sub, latin1, latin1_string, lemma_ascii_encode, occurs_at};
use vstd::string::StringSliceAdditionalSpecFns;

verus! {

/// Samples per pixel.
pub const SPP: usize = 10;

/// One of FSQ's eight picture modes: a size, a colour/grey flag and the
/// on-air mode character.
#[derive(Debug, Clone, Copy, PartialEq, Eq)]
pub enum FsqPicMode {
    /// 'S' 160×120 colour.
    Small,
    /// 'L' 320×240 colour.
    Large,
    /// 'F' 640×480 grey.
    VgaGrey,
    /// 'V' 640×480 colour.
    VgaColor,
    /// 'P' 240×300 colour.
    PortraitColor,
    /// 'p' 240×300 grey.
    PortraitGrey,
    /// 'M' 120×150 colour.
    MiniColor,
    /// 'm' 120×150 grey.
    MiniGrey,
}

/// The size of each mode.
pub open spec fn fsq_pic_dims(m: FsqPicMode) -> (u32, u32) {
    match m {
        FsqPicMode::Small => (160, 120),
        FsqPicMode::Large => (320, 240),
        FsqPicMode::VgaGrey | FsqPicMode::VgaColor => (640, 480),
        FsqPicMode::PortraitColor | FsqPicMode::PortraitGrey => (240, 300),
        FsqPicMode::MiniColor | FsqPicMode::MiniGrey => (120, 150),
    }
}

/// Whether a mode is in colour (all but the three grey modes).
pub open spec fn fsq_pic_color(m: FsqPicMode) -> bool {
    !(m == FsqPicMode::VgaGrey || m == FsqPicMode::PortraitGrey || m == FsqPicMode::MiniGrey)
}

/// The on-air mode character of each mode, as a byte.
pub open spec fn fsq_pic_char(m: FsqPicMode) -> u8 {
    match m {
        FsqPicMode::Small => 83,
        FsqPicMode::Large => 76,
        FsqPicMode::VgaGrey => 70,
        FsqPicMode::VgaColor => 86,
        FsqPicMode::PortraitColor => 80,
        FsqPicMode::PortraitGrey => 112,
        FsqPicMode::MiniColor => 77,
        FsqPicMode::MiniGrey => 109,
    }
}

/// The picture mode index of each mode.
pub open spec fn fsq_pic_index(m: FsqPicMode) -> u8 {
    match m {
        FsqPicMode::Large => 0,
        FsqPicMode::Small => 1,
        FsqPicMode::VgaGrey => 2,
        FsqPicMode::VgaColor => 3,
        FsqPicMode::PortraitColor => 4,
        FsqPicMode::PortraitGrey => 5,
        FsqPicMode::MiniColor => 6,
        FsqPicMode::MiniGrey => 7,
    }
}

impl FsqPicMode {
    pub fn dims(self) -> (r: (u32, u32))
        ensures
            r == fsq_pic_dims(self),
    {
        match self {
            FsqPicMode::Small => (160, 120),
            FsqPicMode::Large => (320, 240),
            FsqPicMode::VgaGrey | FsqPicMode::VgaColor => (640, 480),
            FsqPicMode::PortraitColor | FsqPicMode::PortraitGrey => (240, 300),
            FsqPicMode::MiniColor | FsqPicMode::MiniGrey => (120, 150),
        }
    }

    /// True for the colour modes (false for `F`, `p`, `m`).
    pub fn color(self) -> (r: bool)
        ensures
            r == fsq_pic_color(self),
    {
        match self {
            FsqPicMode::VgaGrey | FsqPicMode::PortraitGrey | FsqPicMode::MiniGrey => false,
            _ => true,
        }
    }

    /// The on-air mode character.
    pub fn mode_char(self) -> (c: char)
        ensures
            c == fsq_pic_char(self) as char,
    {
        match self {
            FsqPicMode::Small => 'S',
            FsqPicMode::Large => 'L',
            FsqPicMode::VgaGrey => 'F',
            FsqPicMode::VgaColor => 'V',
            FsqPicMode::PortraitColor => 'P',
            FsqPicMode::PortraitGrey => 'p',
            FsqPicMode::MiniColor => 'M',
            FsqPicMode::MiniGrey => 'm',
        }
    }
}

/// A parsed FSQ picture header.
#[derive(Debug, Clone, Copy, PartialEq, Eq)]
pub struct FsqPicHeader {
    pub width: u32,
    pub height: u32,
    pub color: bool,
    /// The 0..7 picture mode index.
    pub image_mode: u8,
}

/// The header token `"% X"` of a mode, as bytes.
pub open spec fn fsq_pic_header_bytes(m: FsqPicMode) -> Seq<u8> {
    seq![37u8, 32u8, fsq_pic_char(m)]
}

/// Build the TX picture header token `"% X"` for a mode.
pub fn header(mode: FsqPicMode) -> (s: String)
    ensures
        s@ == latin1(fsq_pic_header_bytes(mode)),
{
    let c: u8 = match mode {
        FsqPicMode::Small => 83,
        FsqPicMode::Large => 76,
        FsqPicMode::VgaGrey => 70,
        FsqPicMode::VgaColor => 86,
        FsqPicMode::PortraitColor => 80,
        FsqPicMode::PortraitGrey => 112,
        FsqPicMode::MiniColor => 77,
        FsqPicMode::MiniGrey => 109,
    };
    let b: [u8; 3] = [37, 32, c];
    assert(b@ =~= fsq_pic_header_bytes(mode));
    latin1_string(&b)
}

/// The `(width, height, mode index)` a mode character names.
pub open spec fn fsq_pic_of_char(c: u8) -> Option<(u32, u32, u8)> {
    if c == 76 {
        Some((320, 240, 0))
    } else if c == 83 {
        Some((160, 120, 1))
    } else if c == 70 {
        Some((640, 480, 2))
    } else if c == 86 {
        Some((640, 480, 3))
    } else if c == 80 {
        Some((240, 300, 4))
    } else if c == 112 {
        Some((240, 300, 5))
    } else if c == 77 {
        Some((120, 150, 6))
    } else if c == 109 {
        Some((120, 150, 7))
    } else {
        None
    }
}

/// The header a text window announces: the mode character after the first
/// `"% "`, as width, height, colour and mode index.
pub open spec fn fsq_pic_parse(b: Seq<u8>) -> Option<(u32, u32, bool, u8)> {
    match find_sub(b, seq![37u8, 32u8], 0) {
        None => None,
        Some(idx) => if idx + 2 < b.len() {
            match fsq_pic_of_char(b[idx + 2]) {
                Some(t) => Some((t.0, t.1, !(t.2 == 2 || t.2 == 5 || t.2 == 7), t.2)),
                None => None,
            }
        } else {
            None
        },
    }
}

/// Parse an FSQ picture header from a directed message payload: the mode
/// character after the first `"% "`; an unrecognised character gives `None`.
pub fn parse_header(window: &str) -> (r: Option<FsqPicHeader>)
    ensures
        match fsq_pic_parse(window.spec_bytes()) {
            None => r is None,
            Some(t) => r == Some(FsqPicHeader { width: t.0, height: t.1, color: t.2, image_mode: t.3 }),
        },
{
    let b = window.as_bytes();
    let pat: [u8; 2] = [37, 32];
    assert(pat@ =~= seq![37u8, 32u8]);
    let idx = match find_bytes(b, &pat) {
        Some(i) => i,
        None => return None,
    };
    if idx >= b.len() || b.len() - idx <= 2 {
        return None;
    }
    let c = b[idx + 2];
    let (width, height, image_mode): (u32, u32, u8) = if c == 76 {
        (320, 240, 0)
    } else if c == 83 {
        (160, 120, 1)
    } else if c == 70 {
        (640, 480, 2)
    } else if c == 86 {
        (640, 480, 3)
    } else if c == 80 {
        (240, 300, 4)
    } else if c == 112 {
        (240, 300, 5)
    } else if c == 77 {
        (120, 150, 6)
    } else if c == 109 {
        (120, 150, 7)
    } else {
        return None;
    };
    let color = !(image_mode == 2 || image_mode == 5 || image_mode == 7);
    Some(FsqPicHeader { width, height, color, image_mode })
}

/// A header built for a mode parses back to that mode's size, colour and
/// index.
pub proof fn lemma_fsq_pic_header_round_trip(m: FsqPicMode)
    ensures
        fsq_pic_parse(vstd::utf8::encode_utf8(latin1(fsq_pic_header_bytes(m)))) == Some(
            (fsq_pic_dims(m).0, fsq_pic_dims(m).1, fsq_pic_color(m), fsq_pic_index(m)),
        ),
{
    let b = fsq_pic_header_bytes(m);
    assert(all_ascii(b));
    lemma_ascii_encode(b);
    assert(occurs_at(b, seq![37u8, 32u8], 0)) by {
        assert(b.subrange(0, 2) =~= seq![37u8, 32u8]);
    }
}

} // verus!
