//! JS8 (JS8Call): FT8's 79-symbol, 8-tone frame with its own Costas arrays.
//! The submodes Normal / Fast / Turbo / Slow (and the disabled Ultra) differ in
//! samples per symbol, tone spacing, T-R period and Costas variant.
use vstd::prelude::*;

verus! {

/// Sample rate (all submodes).
pub const JS8_RATE: u32 = 12000;

/// Total channel symbols: 21 sync (3×7 Costas) + 58 data.
pub const JS8_NSYM: usize = 79;

/// Data symbols, each 3 codeword bits.
pub const JS8_ND: usize = 58;

/// Costas group start positions within the frame: 0–6, 36–42, 72–78.
pub const JS8_COSTAS_STARTS: [usize; 3] = [0, 36, 72];

/// Original 7×7 Costas array (JS8 Normal; the same array in all three
/// groups).
pub const JS8_COSTAS_ORIG: [u8; 7] = [4, 2, 5, 6, 1, 3, 0];

/// Symmetrical Costas arrays A/B/C (JS8 Fast/Turbo/Slow/Ultra; one per
/// group).
pub const JS8_COSTAS_SYM_A: [u8; 7] = [0, 6, 2, 3, 5, 4, 1];

pub const JS8_COSTAS_SYM_B: [u8; 7] = [1, 5, 0, 2, 3, 6, 4];

pub const JS8_COSTAS_SYM_C: [u8; 7] = [2, 5, 0, 6, 4, 1, 3];

/// JS8 submodes.
#[derive(Debug, Clone, Copy, PartialEq, Eq)]
pub enum Js8Submode {
    Normal,
    Fast,
    Turbo,
    Slow,
    /// Defined in the reference but disabled in its calling code; not a
    /// selectable mode.
    Ultra,
}

/// Whether a submode uses the symmetrical Costas arrays (all but Normal).
pub open spec fn symmetrical_costas(s: Js8Submode) -> bool {
    s != Js8Submode::Normal
}

/// The three Costas arrays of a submode's frame groups.
pub open spec fn costas_groups(s: Js8Submode) -> Seq<Seq<u8>> {
    if symmetrical_costas(s) {
        seq![JS8_COSTAS_SYM_A@, JS8_COSTAS_SYM_B@, JS8_COSTAS_SYM_C@]
    } else {
        seq![JS8_COSTAS_ORIG@, JS8_COSTAS_ORIG@, JS8_COSTAS_ORIG@]
    }
}

/// Per-submode constant parameters. The tone spacing is `JS8_RATE / nsps`
/// Hz.
#[derive(Debug, Clone, Copy, PartialEq, Eq)]
pub struct Js8Params {
    pub name: &'static str,
    /// Samples per symbol at 12 kHz.
    pub nsps: usize,
    /// Nominal T-R period / transmission length, seconds.
    pub tx_seconds: u32,
    /// TX start delay, ms.
    pub start_delay_ms: u32,
    /// Costas variant: `false` the normal arrays, `true` the symmetrical ones.
    pub symmetrical_costas: bool,
}

/// The parameter row of each submode.
pub open spec fn js8_params(s: Js8Submode) -> Js8Params {
    match s {
        Js8Submode::Normal => Js8Params {
            name: "NORMAL",
            nsps: 1920,
            tx_seconds: 15,
            start_delay_ms: 500,
            symmetrical_costas: false,
        },
        Js8Submode::Fast => Js8Params {
            name: "FAST",
            nsps: 1200,
            tx_seconds: 10,
            start_delay_ms: 200,
            symmetrical_costas: true,
        },
        Js8Submode::Turbo => Js8Params {
            name: "TURBO",
            nsps: 600,
            tx_seconds: 6,
            start_delay_ms: 100,
            symmetrical_costas: true,
        },
        Js8Submode::Slow => Js8Params {
            name: "SLOW",
            nsps: 3840,
            tx_seconds: 30,
            start_delay_ms: 500,
            symmetrical_costas: true,
        },
        Js8Submode::Ultra => Js8Params {
            name: "ULTRA",
            nsps: 384,
            tx_seconds: 4,
            start_delay_ms: 100,
            symmetrical_costas: true,
        },
    }
}

impl Js8Submode {
    pub fn params(self) -> (p: Js8Params)
        ensures
            p == js8_params(self),
            p.symmetrical_costas == symmetrical_costas(self),
    {
        match self {
            Js8Submode::Normal => Js8Params {
                name: "NORMAL",
                nsps: 1920,
                tx_seconds: 15,
                start_delay_ms: 500,
                symmetrical_costas: false,
            },
            Js8Submode::Fast => Js8Params {
                name: "FAST",
                nsps: 1200,
                tx_seconds: 10,
                start_delay_ms: 200,
                symmetrical_costas: true,
            },
            Js8Submode::Turbo => Js8Params {
                name: "TURBO",
                nsps: 600,
                tx_seconds: 6,
                start_delay_ms: 100,
                symmetrical_costas: true,
            },
            Js8Submode::Slow => Js8Params {
                name: "SLOW",
                nsps: 3840,
                tx_seconds: 30,
                start_delay_ms: 500,
                symmetrical_costas: true,
            },
            Js8Submode::Ultra => Js8Params {
                name: "ULTRA",
                nsps: 384,
                tx_seconds: 4,
                start_delay_ms: 100,
                symmetrical_costas: true,
            },
        }
    }

    /// The three 7-symbol Costas arrays for this submode's frame groups.
    pub fn costas(self) -> (r: [[u8; 7]; 3])
        ensures
            r@.map_values(|g: [u8; 7]| g@) == costas_groups(self),
    {
        let r = if self.params().symmetrical_costas {
            [JS8_COSTAS_SYM_A, JS8_COSTAS_SYM_B, JS8_COSTAS_SYM_C]
        } else {
            [JS8_COSTAS_ORIG; 3]
        };
        assert(r@.map_values(|g: [u8; 7]| g@) =~= costas_groups(self));
        r
    }
}

/// The frame position of data symbol `j`: the first 29 occupy 7..36, the
/// next 29 occupy 43..72.
pub open spec fn js8_data_pos(j: int) -> int {
    if j < 29 {
        7 + j
    } else {
        43 + (j - 29)
    }
}

/// Data symbol `j` of a codeword: the plain-binary 3-bit map
/// `cw[3j]·4 + cw[3j+1]·2 + cw[3j+2]`.
pub open spec fn js8_data_tone(cw: Seq<u8>, j: int) -> int {
    cw[3 * j] * 4 + cw[3 * j + 1] * 2 + cw[3 * j + 2]
}

/// The frame of a codeword: Costas group `g` at `7g`-offset starts 0/36/72,
/// the 58 data symbols between them (`S7 D29 S7 D29 S7`).
pub open spec fn js8_frame(cw: Seq<u8>, s: Js8Submode) -> Seq<int> {
    Seq::new(
        79,
        |p: int|
            if p < 7 {
                costas_groups(s)[0][p] as int
            } else if p < 36 {
                js8_data_tone(cw, p - 7)
            } else if p < 43 {
                costas_groups(s)[1][p - 36] as int
            } else if p < 72 {
                js8_data_tone(cw, p - 43 + 29)
            } else {
                costas_groups(s)[2][p - 72] as int
            },
    )
}

/// Assemble the 79 channel tones (0–7) from an LDPC(174,87) codeword: the
/// three Costas groups at 0/36/72 and the 58 data tones between them. The
/// codeword holds bits; each data tone must fit a byte.
pub fn js8_symbols_from_codeword(cw: &[u8; 174], submode: Js8Submode) -> (itone: [u8; 79])
    requires
        forall|j: int| 0 <= j < 58 ==> #[trigger] js8_data_tone(cw@, j) <= 255,
    ensures
        itone@.map_values(|t: u8| t as int) == js8_frame(cw@, submode),
{
    let costas = submode.costas();
    let mut itone = [0u8; 79];
    let starts = JS8_COSTAS_STARTS;
    for g in 0..3
        invariant
            starts@ == JS8_COSTAS_STARTS@,
            costas@.map_values(|a: [u8; 7]| a@) == costas_groups(submode),
            forall|j: int| 0 <= j < 58 ==> #[trigger] js8_data_tone(cw@, j) <= 255,
            forall|gg: int, k: int|
                0 <= gg < g && 0 <= k < 7 ==> itone@[starts@[gg] + k] == costas_groups(
                    submode,
                )[gg][k],
    {
        let start = starts[g];
        for k in 0..7
            invariant
                starts@ == JS8_COSTAS_STARTS@,
                g < 3,
                start == starts@[g as int],
                costas@.map_values(|a: [u8; 7]| a@) == costas_groups(submode),
                forall|gg: int, kk: int|
                    0 <= gg < g && 0 <= kk < 7 ==> itone@[starts@[gg] + kk] == costas_groups(
                        submode,
                    )[gg][kk],
                forall|kk: int| 0 <= kk < k ==> itone@[start + kk] == costas_groups(submode)[g as int][kk],
        {
            assert(costas@.map_values(|a: [u8; 7]| a@)[g as int] == costas@[g as int]@);
            itone[start + k] = costas[g][k];
        }
    }
    for j in 0..58
        invariant
            starts@ == JS8_COSTAS_STARTS@,
            forall|jj: int| 0 <= jj < 58 ==> #[trigger] js8_data_tone(cw@, jj) <= 255,
            forall|gg: int, k: int|
                0 <= gg < 3 && 0 <= k < 7 ==> itone@[starts@[gg] + k] == costas_groups(
                    submode,
                )[gg][k],
            forall|jj: int| 0 <= jj < j ==> itone@[js8_data_pos(jj)] as int == js8_data_tone(cw@, jj),
    {
        let pos = if j < 29 {
            7 + j
        } else {
            43 + (j - 29)
        };
        let b = 3 * j;
        assert(js8_data_tone(cw@, j as int) <= 255);
        itone[pos] = cw[b] * 4 + cw[b + 1] * 2 + cw[b + 2];
    }
    proof {
        let f = js8_frame(cw@, submode);
        assert forall|p: int| 0 <= p < 79 implies itone@[p] as int == f[p] by {
            if p < 7 {
                assert(itone@[starts@[0] + p] == costas_groups(submode)[0][p]);
            } else if p < 36 {
                assert(js8_data_pos(p - 7) == p);
            } else if p < 43 {
                assert(itone@[starts@[1] + (p - 36)] == costas_groups(submode)[1][p - 36]);
            } else if p < 72 {
                assert(js8_data_pos(p - 43 + 29) == p);
            } else {
                assert(itone@[starts@[2] + (p - 72)] == costas_groups(submode)[2][p - 72]);
            }
        }
        assert(itone@.map_values(|t: u8| t as int) =~= f);
    }
    itone
}

} // verus!
