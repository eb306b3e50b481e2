//! NAVTEX / SITOR-B: the two selectable modes of the CCIR-476 FEC-B FSK
//! codec.
use vstd::prelude::*;
use crate::text::{label_key, str_eq};

verus! {

/// The two selectable modes. Both use the identical CCIR-476 FEC-B / FSK
/// codec.
#[derive(Debug, Clone, Copy, PartialEq, Eq)]
pub enum NavtexVariant {
    /// 518 kHz international NAVTEX broadcast (ZCZC…NNNN framed on the air).
    Navtex,
    /// Raw SITOR mode B (Amateur AMTOR FEC), the same codec without framing.
    SitorB,
}

/// The label naming each variant.
pub open spec fn navtex_label(v: NavtexVariant) -> Seq<char> {
    match v {
        NavtexVariant::Navtex => "navtex"@,
        NavtexVariant::SitorB => "sitorb"@,
    }
}

/// The variant a label names.
pub open spec fn navtex_of_label(s: Seq<char>) -> Option<NavtexVariant> {
    if s == "navtex"@ {
        Some(NavtexVariant::Navtex)
    } else if s == "sitorb"@ {
        Some(NavtexVariant::SitorB)
    } else {
        None
    }
}

impl NavtexVariant {
    pub fn from_label(s: &str) -> (r: Option<NavtexVariant>)
        ensures
            r == navtex_of_label(s@),
    {
        if str_eq(s, "navtex") {
            Some(NavtexVariant::Navtex)
        } else if str_eq(s, "sitorb") {
            Some(NavtexVariant::SitorB)
        } else {
            None
        }
    }

    pub fn label(self) -> (r: &'static str)
        ensures
            r@ == navtex_label(self),
    {
        match self {
            NavtexVariant::Navtex => "navtex",
            NavtexVariant::SitorB => "sitorb",
        }
    }

    /// Both modes.
    pub fn all() -> (r: &'static [NavtexVariant])
        ensures
            r@ == seq![NavtexVariant::Navtex, NavtexVariant::SitorB],
    {
        &[NavtexVariant::Navtex, NavtexVariant::SitorB]
    }
}

/// Every variant's label parses back to that variant.
pub proof fn lemma_navtex_labels_round_trip(v: NavtexVariant)
    ensures
        navtex_of_label(navtex_label(v)) == Some(v),
{
    reveal_strlit("navtex");
    reveal_strlit("sitorb");
    assert(label_key("navtex"@) == (6int, 'n', 'x', 'e', 't', 'v', 'a'));
    assert(label_key("sitorb"@) == (6int, 's', 'b', 'r', 'o', 't', 'i'));
}

} // verus!
