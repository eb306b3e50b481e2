//! IFKP: 33-tone incremental frequency keying at a fixed tone spacing; the
//! speed selector fixes only the emitted samples per symbol.
use vstd::prelude::*;
use crate::text::{label_key, str_eq};

verus! {

/// Sample rate of the IFKP modem.
pub const IFKP_SR: u32 = 16000;

/// Samples per symbol at the normal speed.
pub const IFKP_SYMLEN: usize = 4096;

/// Tone spacing in units of `IFKP_SR / IFKP_SYMLEN`.
pub const IFKP_SPACING: u32 = 3;

/// The IFKP speed selector. Fixes only the emitted samples/symbol; tone
/// spacing is constant.
#[derive(Debug, Clone, Copy, PartialEq, Eq)]
pub enum IfkpSpeed {
    Slow,
    Normal,
    Fast,
}

/// The label naming each variant.
pub open spec fn ifkp_label(v: IfkpSpeed) -> Seq<char> {
    match v {
        IfkpSpeed::Slow => "ifkp-slow"@,
        IfkpSpeed::Normal => "ifkp"@,
        IfkpSpeed::Fast => "ifkp-fast"@,
    }
}

/// The variant a label names.
pub open spec fn ifkp_of_label(s: Seq<char>) -> Option<IfkpSpeed> {
    if s == "ifkp-slow"@ {
        Some(IfkpSpeed::Slow)
    } else if s == "ifkp-normal"@ || s == "ifkp"@ {
        Some(IfkpSpeed::Normal)
    } else if s == "ifkp-fast"@ {
        Some(IfkpSpeed::Fast)
    } else {
        None
    }
}

impl IfkpSpeed {
    /// Emitted samples per symbol: twice, once or half the normal length.
    pub fn symlen(self) -> (r: usize)
        ensures
            r == match self {
                IfkpSpeed::Slow => 8192int,
                IfkpSpeed::Normal => 4096int,
                IfkpSpeed::Fast => 2048int,
            },
    {
        match self {
            IfkpSpeed::Slow => IFKP_SYMLEN * 2,
            IfkpSpeed::Normal => IFKP_SYMLEN,
            IfkpSpeed::Fast => IFKP_SYMLEN / 2,
        }
    }

    pub fn from_label(s: &str) -> (r: Option<IfkpSpeed>)
        ensures
            r == ifkp_of_label(s@),
    {
        if str_eq(s, "ifkp-slow") {
            Some(IfkpSpeed::Slow)
        } else if str_eq(s, "ifkp-normal") || str_eq(s, "ifkp") {
            Some(IfkpSpeed::Normal)
        } else if str_eq(s, "ifkp-fast") {
            Some(IfkpSpeed::Fast)
        } else {
            None
        }
    }

    pub fn label(self) -> (r: &'static str)
        ensures
            r@ == ifkp_label(self),
    {
        match self {
            IfkpSpeed::Slow => "ifkp-slow",
            IfkpSpeed::Normal => "ifkp",
            IfkpSpeed::Fast => "ifkp-fast",
        }
    }

    /// Every speed.
    pub fn all() -> (r: &'static [IfkpSpeed])
        ensures
            r@ == seq![IfkpSpeed::Slow, IfkpSpeed::Normal, IfkpSpeed::Fast],
    {
        &[IfkpSpeed::Slow, IfkpSpeed::Normal, IfkpSpeed::Fast]
    }
}

/// Every variant's label parses back to that variant.
pub proof fn lemma_ifkp_labels_round_trip(v: IfkpSpeed)
    ensures
        ifkp_of_label(ifkp_label(v)) == Some(v),
{
    reveal_strlit("ifkp-slow");
    reveal_strlit("ifkp");
    reveal_strlit("ifkp-fast");
    reveal_strlit("ifkp-normal");
    assert(label_key("ifkp-slow"@) == (9int, 'i', 'w', 'o', 'l', 's', '-'));
    assert(label_key("ifkp"@) == (4int, 'i', 'p', 'k', 'f', 'i', 'i'));
    assert(label_key("ifkp-fast"@) == (9int, 'i', 't', 's', 'a', 'f', '-'));
    assert(label_key("ifkp-normal"@) == (11int, 'i', 'l', 'a', 'm', 'r', 'o'));
}

} // verus!
