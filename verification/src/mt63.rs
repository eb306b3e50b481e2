//! MT63: six submodes, each fixing a bandwidth and an interleave depth, and
//! the framing of a message into the character stream the encoder takes.
use vstd::prelude::*;
use crate::ofdm::{interleave_depth, Interleave};
use crate::text::{label_key, str_eq};
use vstd::string::StringSliceAdditionalSpecFns;

verus! {

/// The six MT63 submodes. Each fixes bandwidth and interleave depth.
#[derive(Debug, Clone, Copy, PartialEq, Eq)]
pub enum Mt63Variant {
    B500Short,
    B500Long,
    B1000Short,
    B1000Long,
    B2000Short,
    B2000Long,
}

/// The label naming each variant.
pub open spec fn mt63_label(v: Mt63Variant) -> Seq<char> {
    match v {
        Mt63Variant::B500Short => "mt63_500s"@,
        Mt63Variant::B500Long => "mt63_500l"@,
        Mt63Variant::B1000Short => "mt63_1000s"@,
        Mt63Variant::B1000Long => "mt63_1000l"@,
        Mt63Variant::B2000Short => "mt63_2000s"@,
        Mt63Variant::B2000Long => "mt63_2000l"@,
    }
}

/// The variant a label names.
pub open spec fn mt63_of_label(s: Seq<char>) -> Option<Mt63Variant> {
    if s == "mt63_500s"@ {
        Some(Mt63Variant::B500Short)
    } else if s == "mt63_500l"@ {
        Some(Mt63Variant::B500Long)
    } else if s == "mt63_1000s"@ {
        Some(Mt63Variant::B1000Short)
    } else if s == "mt63_1000l"@ {
        Some(Mt63Variant::B1000Long)
    } else if s == "mt63_2000s"@ {
        Some(Mt63Variant::B2000Short)
    } else if s == "mt63_2000l"@ {
        Some(Mt63Variant::B2000Long)
    } else {
        None
    }
}

impl Mt63Variant {
    pub fn bandwidth(self) -> (r: u32)
        ensures
            r == match self {
                Mt63Variant::B500Short | Mt63Variant::B500Long => 500u32,
                Mt63Variant::B1000Short | Mt63Variant::B1000Long => 1000u32,
                Mt63Variant::B2000Short | Mt63Variant::B2000Long => 2000u32,
            },
    {
        match self {
            Mt63Variant::B500Short | Mt63Variant::B500Long => 500,
            Mt63Variant::B1000Short | Mt63Variant::B1000Long => 1000,
            Mt63Variant::B2000Short | Mt63Variant::B2000Long => 2000,
        }
    }

    pub fn interleave(self) -> (r: Interleave)
        ensures
            r == match self {
                Mt63Variant::B500Short | Mt63Variant::B1000Short
                | Mt63Variant::B2000Short => Interleave::Short,
                Mt63Variant::B500Long | Mt63Variant::B1000Long
                | Mt63Variant::B2000Long => Interleave::Long,
            },
    {
        match self {
            Mt63Variant::B500Short | Mt63Variant::B1000Short
            | Mt63Variant::B2000Short => Interleave::Short,
            Mt63Variant::B500Long | Mt63Variant::B1000Long
            | Mt63Variant::B2000Long => Interleave::Long,
        }
    }

    pub fn from_label(s: &str) -> (r: Option<Mt63Variant>)
        ensures
            r == mt63_of_label(s@),
    {
        if str_eq(s, "mt63_500s") {
            Some(Mt63Variant::B500Short)
        } else if str_eq(s, "mt63_500l") {
            Some(Mt63Variant::B500Long)
        } else if str_eq(s, "mt63_1000s") {
            Some(Mt63Variant::B1000Short)
        } else if str_eq(s, "mt63_1000l") {
            Some(Mt63Variant::B1000Long)
        } else if str_eq(s, "mt63_2000s") {
            Some(Mt63Variant::B2000Short)
        } else if str_eq(s, "mt63_2000l") {
            Some(Mt63Variant::B2000Long)
        } else {
            None
        }
    }

    pub fn label(self) -> (r: &'static str)
        ensures
            r@ == mt63_label(self),
    {
        match self {
            Mt63Variant::B500Short => "mt63_500s",
            Mt63Variant::B500Long => "mt63_500l",
            Mt63Variant::B1000Short => "mt63_1000s",
            Mt63Variant::B1000Long => "mt63_1000l",
            Mt63Variant::B2000Short => "mt63_2000s",
            Mt63Variant::B2000Long => "mt63_2000l",
        }
    }

    /// Every submode.
    pub fn all() -> (r: &'static [Mt63Variant])
        ensures
            r@ == seq![Mt63Variant::B500Short, Mt63Variant::B500Long, Mt63Variant::B1000Short, Mt63Variant::B1000Long, Mt63Variant::B2000Short, Mt63Variant::B2000Long],
    {
        &[Mt63Variant::B500Short, Mt63Variant::B500Long, Mt63Variant::B1000Short, Mt63Variant::B1000Long, Mt63Variant::B2000Short, Mt63Variant::B2000Long]
    }
}

/// Every variant's label parses back to that variant.
pub proof fn lemma_mt63_labels_round_trip(v: Mt63Variant)
    ensures
        mt63_of_label(mt63_label(v)) == Some(v),
{
    reveal_strlit("mt63_500s");
    reveal_strlit("mt63_500l");
    reveal_strlit("mt63_1000s");
    reveal_strlit("mt63_1000l");
    reveal_strlit("mt63_2000s");
    reveal_strlit("mt63_2000l");
    assert(label_key("mt63_500s"@) == (9int, 'm', 's', '0', '0', '5', '_'));
    assert(label_key("mt63_500l"@) == (9int, 'm', 'l', '0', '0', '5', '_'));
    assert(label_key("mt63_1000s"@) == (10int, 'm', 's', '0', '0', '0', '1'));
    assert(label_key("mt63_1000l"@) == (10int, 'm', 'l', '0', '0', '0', '1'));
    assert(label_key("mt63_2000s"@) == (10int, 'm', 's', '0', '0', '0', '2'));
    assert(label_key("mt63_2000l"@) == (10int, 'm', 'l', '0', '0', '0', '2'));
}

/// Trailing NUL symbols appended after the text: exactly the interleave
/// depth, which pushes the last real character out through the encoder's
/// block interleaver.
pub fn flush_tail(intlv: Interleave) -> (r: usize)
    ensures
        r == interleave_depth(intlv),
{
    intlv.depth()
}

/// The framed character stream for a message: `depth` leading NULs, the
/// message bytes cut to 7-bit ASCII, then the trailing NUL flush.
pub open spec fn framed_stream(text: Seq<u8>, d: int) -> Seq<u8> {
    Seq::new(d as nat, |i: int| 0u8) + text.map_values(|b: u8| b & 0x7f) + Seq::new(
        d as nat,
        |i: int| 0u8,
    )
}

pub fn framed(text: &str, intlv: Interleave) -> (r: Vec<u8>)
    requires
        text.spec_bytes().len() + 2 * interleave_depth(intlv) <= usize::MAX,
    ensures
        r@ == framed_stream(text.spec_bytes(), interleave_depth(intlv) as int),
{
    let d = intlv.depth();
    let b = text.as_bytes();
    let mut v: Vec<u8> = Vec::with_capacity(d + b.len() + d);
    for i in 0..d
        invariant
            v@ == Seq::new(i as nat, |j: int| 0u8),
    {
        v.push(0);
        assert(v@ =~= Seq::new((i + 1) as nat, |j: int| 0u8));
    }
    for i in 0..b.len()
        invariant
            v@ == Seq::new(d as nat, |j: int| 0u8) + b@.take(i as int).map_values(|x: u8| x & 0x7f),
    {
        v.push(b[i] & 0x7f);
        assert(b@.take(i + 1).map_values(|x: u8| x & 0x7f) =~= b@.take(i as int).map_values(
            |x: u8| x & 0x7f,
        ).push(b@[i as int] & 0x7f));
    }
    assert(b@.take(b@.len() as int) =~= b@);
    let ghost head = v@;
    let tail = flush_tail(intlv);
    for i in 0..tail
        invariant
            v@ == head + Seq::new(i as nat, |j: int| 0u8),
    {
        v.push(0);
        assert(v@ =~= head + Seq::new((i + 1) as nat, |j: int| 0u8));
    }
    v
}

} // verus!
