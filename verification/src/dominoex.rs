//! DominoEX: 18-tone IFK+ (incremental frequency keying) MFSK, parametric by
//! submode. Each symbol is a tone offset relative to the previous tone:
//! `tone = (prev + 2 + nibble) % 18`, where the `+2` guard keeps successive
//! tones apart so a tone is never repeated.
use vstd::prelude::*;
use crate::ifk33::{ifk_chain, ifk_prev, lemma_ifk_chain, ifk_last};
use crate::text::{label_key, str_eq};

verus! {

/// The number of DominoEX tones.
pub const NUMTONES: u32 = 18;

/// The DominoEX submodes. Each fixes `(symlen, doublespaced, samplerate)`.
#[derive(Debug, Clone, Copy, PartialEq, Eq)]
pub enum DominoVariant {
    Micro,
    D4,
    D5,
    D8,
    D11,
    D16,
    D22,
    D44,
    D88,
}

/// Resolved per-submode parameters.
#[derive(Debug, Clone, Copy)]
pub struct DominoParams {
    /// Samples per symbol at `samplerate`.
    pub symlen: usize,
    /// IFK+ tone doubling factor: the tone spacing multiplier.
    pub doublespaced: usize,
    /// Native sample rate (8000 or 11025 Hz).
    pub samplerate: u32,
}

/// The `(symlen, doublespaced, samplerate)` of each submode.
pub open spec fn domino_params(v: DominoVariant) -> (usize, usize, u32) {
    match v {
        DominoVariant::Micro => (4000, 1, 8000),
        DominoVariant::D4 => (2048, 2, 8000),
        DominoVariant::D5 => (2048, 2, 11025),
        DominoVariant::D8 => (1024, 2, 8000),
        DominoVariant::D11 => (1024, 1, 11025),
        DominoVariant::D16 => (512, 1, 8000),
        DominoVariant::D22 => (512, 1, 11025),
        DominoVariant::D44 => (256, 2, 11025),
        DominoVariant::D88 => (128, 1, 11025),
    }
}

/// The label naming each submode.
pub open spec fn domino_label(v: DominoVariant) -> Seq<char> {
    match v {
        DominoVariant::Micro => "dominoexmicro"@,
        DominoVariant::D4 => "dominoex4"@,
        DominoVariant::D5 => "dominoex5"@,
        DominoVariant::D8 => "dominoex8"@,
        DominoVariant::D11 => "dominoex11"@,
        DominoVariant::D16 => "dominoex16"@,
        DominoVariant::D22 => "dominoex22"@,
        DominoVariant::D44 => "dominoex44"@,
        DominoVariant::D88 => "dominoex88"@,
    }
}

/// The submode a label names.
pub open spec fn domino_of_label(s: Seq<char>) -> Option<DominoVariant> {
    if s == "dominoexmicro"@ {
        Some(DominoVariant::Micro)
    } else if s == "dominoex4"@ {
        Some(DominoVariant::D4)
    } else if s == "dominoex5"@ {
        Some(DominoVariant::D5)
    } else if s == "dominoex8"@ {
        Some(DominoVariant::D8)
    } else if s == "dominoex11"@ {
        Some(DominoVariant::D11)
    } else if s == "dominoex16"@ {
        Some(DominoVariant::D16)
    } else if s == "dominoex22"@ {
        Some(DominoVariant::D22)
    } else if s == "dominoex44"@ {
        Some(DominoVariant::D44)
    } else if s == "dominoex88"@ {
        Some(DominoVariant::D88)
    } else {
        None
    }
}

impl DominoVariant {
    pub fn params(self) -> (p: DominoParams)
        ensures
            (p.symlen, p.doublespaced, p.samplerate) == domino_params(self),
    {
        match self {
            DominoVariant::Micro => DominoParams { symlen: 4000, doublespaced: 1, samplerate: 8000 },
            DominoVariant::D4 => DominoParams { symlen: 2048, doublespaced: 2, samplerate: 8000 },
            DominoVariant::D5 => DominoParams { symlen: 2048, doublespaced: 2, samplerate: 11025 },
            DominoVariant::D8 => DominoParams { symlen: 1024, doublespaced: 2, samplerate: 8000 },
            DominoVariant::D11 => DominoParams { symlen: 1024, doublespaced: 1, samplerate: 11025 },
            DominoVariant::D16 => DominoParams { symlen: 512, doublespaced: 1, samplerate: 8000 },
            DominoVariant::D22 => DominoParams { symlen: 512, doublespaced: 1, samplerate: 11025 },
            DominoVariant::D44 => DominoParams { symlen: 256, doublespaced: 2, samplerate: 11025 },
            DominoVariant::D88 => DominoParams { symlen: 128, doublespaced: 1, samplerate: 11025 },
        }
    }

    pub fn samplerate(self) -> (r: u32)
        ensures
            r == domino_params(self).2,
    {
        self.params().samplerate
    }

    /// Samples per symbol (the submode's `symlen`).
    pub fn samples_per_symbol(self) -> (r: usize)
        ensures
            r == domino_params(self).0,
    {
        self.params().symlen
    }

    pub fn from_label(s: &str) -> (r: Option<DominoVariant>)
        ensures
            r == domino_of_label(s@),
    {
        if str_eq(s, "dominoexmicro") {
            Some(DominoVariant::Micro)
        } else if str_eq(s, "dominoex4") {
            Some(DominoVariant::D4)
        } else if str_eq(s, "dominoex5") {
            Some(DominoVariant::D5)
        } else if str_eq(s, "dominoex8") {
            Some(DominoVariant::D8)
        } else if str_eq(s, "dominoex11") {
            Some(DominoVariant::D11)
        } else if str_eq(s, "dominoex16") {
            Some(DominoVariant::D16)
        } else if str_eq(s, "dominoex22") {
            Some(DominoVariant::D22)
        } else if str_eq(s, "dominoex44") {
            Some(DominoVariant::D44)
        } else if str_eq(s, "dominoex88") {
            Some(DominoVariant::D88)
        } else {
            None
        }
    }

    pub fn label(self) -> (r: &'static str)
        ensures
            r@ == domino_label(self),
    {
        match self {
            DominoVariant::Micro => "dominoexmicro",
            DominoVariant::D4 => "dominoex4",
            DominoVariant::D5 => "dominoex5",
            DominoVariant::D8 => "dominoex8",
            DominoVariant::D11 => "dominoex11",
            DominoVariant::D16 => "dominoex16",
            DominoVariant::D22 => "dominoex22",
            DominoVariant::D44 => "dominoex44",
            DominoVariant::D88 => "dominoex88",
        }
    }

    /// Every submode.
    pub fn all() -> (r: &'static [DominoVariant])
        ensures
            r@ == seq![
                DominoVariant::Micro,
                DominoVariant::D4,
                DominoVariant::D5,
                DominoVariant::D8,
                DominoVariant::D11,
                DominoVariant::D16,
                DominoVariant::D22,
                DominoVariant::D44,
                DominoVariant::D88,
            ],
    {
        &[
            DominoVariant::Micro,
            DominoVariant::D4,
            DominoVariant::D5,
            DominoVariant::D8,
            DominoVariant::D11,
            DominoVariant::D16,
            DominoVariant::D22,
            DominoVariant::D44,
            DominoVariant::D88,
        ]
    }
}

/// Every submode's label parses back to that submode.
pub proof fn lemma_domino_labels_round_trip(v: DominoVariant)
    ensures
        domino_of_label(domino_label(v)) == Some(v),
{
    reveal_strlit("dominoexmicro");
    reveal_strlit("dominoex4");
    reveal_strlit("dominoex5");
    reveal_strlit("dominoex8");
    reveal_strlit("dominoex11");
    reveal_strlit("dominoex16");
    reveal_strlit("dominoex22");
    reveal_strlit("dominoex44");
    reveal_strlit("dominoex88");
    assert(label_key("dominoexmicro"@) == (13int, 'd', 'o', 'r', 'c', 'i', 'm'));
    assert(label_key("dominoex4"@) == (9int, 'd', '4', 'x', 'e', 'o', 'n'));
    assert(label_key("dominoex5"@) == (9int, 'd', '5', 'x', 'e', 'o', 'n'));
    assert(label_key("dominoex8"@) == (9int, 'd', '8', 'x', 'e', 'o', 'n'));
    assert(label_key("dominoex11"@) == (10int, 'd', '1', '1', 'x', 'e', 'o'));
    assert(label_key("dominoex16"@) == (10int, 'd', '6', '1', 'x', 'e', 'o'));
    assert(label_key("dominoex22"@) == (10int, 'd', '2', '2', 'x', 'e', 'o'));
    assert(label_key("dominoex44"@) == (10int, 'd', '4', '4', 'x', 'e', 'o'));
    assert(label_key("dominoex88"@) == (10int, 'd', '8', '8', 'x', 'e', 'o'));
}

/// The IFK+ tone-index sequence for a varicode nibble stream:
/// `tone = (prev + 2 + nibble) % NUMTONES`, `prev` starting at 0.
pub fn ifk_tones(nibbles: &[u8]) -> (r: Vec<u32>)
    ensures
        r@.map_values(|t: u32| t as int) == ifk_chain(nibbles@, 2, 18),
{
    let mut out: Vec<u32> = Vec::with_capacity(nibbles.len());
    let mut prev: u32 = 0;
    for i in 0..nibbles.len()
        invariant
            out@.map_values(|t: u32| t as int) == ifk_chain(nibbles@.take(i as int), 2, 18),
            prev == ifk_last(ifk_chain(nibbles@.take(i as int), 2, 18)),
            prev < 18,
    {
        proof {
            lemma_ifk_chain(nibbles@, 2, 18, i as int);
        }
        let tone = (prev + 2 + nibbles[i] as u32) % NUMTONES;
        out.push(tone);
        prev = tone;
        proof {
            assert(nibbles@.take(i + 1).drop_last() =~= nibbles@.take(i as int));
            assert(out@.map_values(|t: u32| t as int) =~= ifk_chain(nibbles@.take(i + 1), 2, 18));
        }
    }
    proof {
        assert(nibbles@.take(nibbles@.len() as int) =~= nibbles@);
    }
    out
}

/// For nibbles (values below 16) every DominoEX tone is one of the 18 tones
/// and differs from the tone before it (the seed tone 0 first): a tone is
/// never repeated.
pub proof fn lemma_ifk_tones_never_repeat(nibbles: Seq<u8>, k: int)
    requires
        forall|j: int| 0 <= j < nibbles.len() ==> #[trigger] nibbles[j] < 16,
        0 <= k < nibbles.len(),
    ensures
        0 <= ifk_chain(nibbles, 2, 18)[k] < 18,
        ifk_chain(nibbles, 2, 18)[k] != ifk_prev(ifk_chain(nibbles, 2, 18), k),
{
    lemma_ifk_chain(nibbles, 2, 18, k);
    let t = ifk_chain(nibbles, 2, 18);
    if k > 0 {
        lemma_ifk_chain(nibbles, 2, 18, k - 1);
        assert(ifk_chain(nibbles.take(k), 2, 18) =~= t.take(k));
    } else {
        assert(nibbles.take(0) =~= Seq::<u8>::empty());
    }
    let p = ifk_prev(t, k);
    assert(0 <= p < 18);
    assert(nibbles[k] < 16);
    assert((p + nibbles[k] + 2) % 18 != p);
}

} // verus!
