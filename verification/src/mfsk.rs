//! MFSK: M-ary FSK with a NASA K=7 rate-1/2 convolutional code, a diagonal
//! interleaver and the self-framing MFSK Varicode, parametric by submode
//! (MFSK4/8/11/16/22/31/32/64/128 and the 64L/128L deep-interleave modes).
//! `numtones == 2^symbits`; each symbol carries `symbits` code bits.
use vstd::prelude::*;
use vstd::arithmetic::power2::pow2;
use crate::text::{label_key, str_eq};

verus! {

/// NASA K=7 rate-1/2 generator polynomials.
pub const POLY1: u32 = 0x6d;
pub const POLY2: u32 = 0x4f;

/// The MFSK submodes. Each fixes `(symlen, symbits, depth, samplerate)`.
#[derive(Debug, Clone, Copy, PartialEq, Eq)]
pub enum MfskVariant {
    M4,
    M8,
    M11,
    M16,
    M22,
    M31,
    M32,
    M64,
    M128,
    M64L,
    M128L,
}

/// Resolved per-submode parameters.
#[derive(Debug, Clone, Copy)]
pub struct MfskParams {
    /// Samples per symbol at `samplerate`.
    pub symlen: usize,
    /// Bits per MFSK symbol = interleaver width.
    pub symbits: usize,
    /// Diagonal-interleaver depth.
    pub depth: usize,
    /// Native sample rate (8000 or 11025 Hz).
    pub samplerate: u32,
    /// TX flush/preamble length in bits, sized to drain the interleaver.
    pub preamble: usize,
}

impl MfskParams {
    /// Number of MFSK tones = `2^symbits`.
    pub fn numtones(&self) -> (r: u32)
        requires
            self.symbits < 32,
        ensures
            r == pow2(self.symbits as nat),
    {
        let s = self.symbits as u32;
        proof {
            vstd::bits::lemma_u32_pow2_no_overflow(s as nat);
            vstd::bits::lemma_u32_shl_is_mul(1, s);
        }
        1u32 << s
    }
}

/// The `(symlen, symbits, depth, samplerate, preamble)` of each submode.
pub open spec fn mfsk_params(v: MfskVariant) -> (usize, usize, usize, u32, usize) {
    match v {
        MfskVariant::M4 => (2048, 5, 5, 8000, 107),
        MfskVariant::M8 => (1024, 5, 5, 8000, 107),
        MfskVariant::M16 => (512, 4, 10, 8000, 107),
        MfskVariant::M32 => (256, 4, 10, 8000, 107),
        MfskVariant::M31 => (256, 3, 10, 8000, 107),
        MfskVariant::M64 => (128, 4, 10, 8000, 180),
        MfskVariant::M128 => (64, 4, 20, 8000, 214),
        MfskVariant::M64L => (128, 4, 400, 8000, 2500),
        MfskVariant::M128L => (64, 4, 800, 8000, 5000),
        MfskVariant::M11 => (1024, 4, 10, 11025, 107),
        MfskVariant::M22 => (512, 4, 10, 11025, 107),
    }
}

/// The label naming each variant.
pub open spec fn mfsk_label(v: MfskVariant) -> Seq<char> {
    match v {
        MfskVariant::M4 => "mfsk4"@,
        MfskVariant::M8 => "mfsk8"@,
        MfskVariant::M11 => "mfsk11"@,
        MfskVariant::M16 => "mfsk16"@,
        MfskVariant::M22 => "mfsk22"@,
        MfskVariant::M31 => "mfsk31"@,
        MfskVariant::M32 => "mfsk32"@,
        MfskVariant::M64 => "mfsk64"@,
        MfskVariant::M128 => "mfsk128"@,
        MfskVariant::M64L => "mfsk64l"@,
        MfskVariant::M128L => "mfsk128l"@,
    }
}

/// The variant a label names.
pub open spec fn mfsk_of_label(s: Seq<char>) -> Option<MfskVariant> {
    if s == "mfsk4"@ {
        Some(MfskVariant::M4)
    } else if s == "mfsk8"@ {
        Some(MfskVariant::M8)
    } else if s == "mfsk11"@ {
        Some(MfskVariant::M11)
    } else if s == "mfsk16"@ {
        Some(MfskVariant::M16)
    } else if s == "mfsk22"@ {
        Some(MfskVariant::M22)
    } else if s == "mfsk31"@ {
        Some(MfskVariant::M31)
    } else if s == "mfsk32"@ {
        Some(MfskVariant::M32)
    } else if s == "mfsk64"@ {
        Some(MfskVariant::M64)
    } else if s == "mfsk128"@ {
        Some(MfskVariant::M128)
    } else if s == "mfsk64l"@ {
        Some(MfskVariant::M64L)
    } else if s == "mfsk128l"@ {
        Some(MfskVariant::M128L)
    } else {
        None
    }
}

impl MfskVariant {
    pub fn params(self) -> (p: MfskParams)
        ensures
            (p.symlen, p.symbits, p.depth, p.samplerate, p.preamble) == mfsk_params(self),
    {
        match self {
            MfskVariant::M4 => MfskParams {
                symlen: 2048,
                symbits: 5,
                depth: 5,
                samplerate: 8000,
                preamble: 107,
            },
            MfskVariant::M8 => MfskParams {
                symlen: 1024,
                symbits: 5,
                depth: 5,
                samplerate: 8000,
                preamble: 107,
            },
            MfskVariant::M16 => MfskParams {
                symlen: 512,
                symbits: 4,
                depth: 10,
                samplerate: 8000,
                preamble: 107,
            },
            MfskVariant::M32 => MfskParams {
                symlen: 256,
                symbits: 4,
                depth: 10,
                samplerate: 8000,
                preamble: 107,
            },
            MfskVariant::M31 => MfskParams {
                symlen: 256,
                symbits: 3,
                depth: 10,
                samplerate: 8000,
                preamble: 107,
            },
            MfskVariant::M64 => MfskParams {
                symlen: 128,
                symbits: 4,
                depth: 10,
                samplerate: 8000,
                preamble: 180,
            },
            MfskVariant::M128 => MfskParams {
                symlen: 64,
                symbits: 4,
                depth: 20,
                samplerate: 8000,
                preamble: 214,
            },
            MfskVariant::M64L => MfskParams {
                symlen: 128,
                symbits: 4,
                depth: 400,
                samplerate: 8000,
                preamble: 2500,
            },
            MfskVariant::M128L => MfskParams {
                symlen: 64,
                symbits: 4,
                depth: 800,
                samplerate: 8000,
                preamble: 5000,
            },
            MfskVariant::M11 => MfskParams {
                symlen: 1024,
                symbits: 4,
                depth: 10,
                samplerate: 11025,
                preamble: 107,
            },
            MfskVariant::M22 => MfskParams {
                symlen: 512,
                symbits: 4,
                depth: 10,
                samplerate: 11025,
                preamble: 107,
            },
        }
    }

    pub fn samplerate(self) -> (r: u32)
        ensures
            r == mfsk_params(self).3,
    {
        self.params().samplerate
    }

    pub fn from_label(s: &str) -> (r: Option<MfskVariant>)
        ensures
            r == mfsk_of_label(s@),
    {
        if str_eq(s, "mfsk4") {
            Some(MfskVariant::M4)
        } else if str_eq(s, "mfsk8") {
            Some(MfskVariant::M8)
        } else if str_eq(s, "mfsk11") {
            Some(MfskVariant::M11)
        } else if str_eq(s, "mfsk16") {
            Some(MfskVariant::M16)
        } else if str_eq(s, "mfsk22") {
            Some(MfskVariant::M22)
        } else if str_eq(s, "mfsk31") {
            Some(MfskVariant::M31)
        } else if str_eq(s, "mfsk32") {
            Some(MfskVariant::M32)
        } else if str_eq(s, "mfsk64") {
            Some(MfskVariant::M64)
        } else if str_eq(s, "mfsk128") {
            Some(MfskVariant::M128)
        } else if str_eq(s, "mfsk64l") {
            Some(MfskVariant::M64L)
        } else if str_eq(s, "mfsk128l") {
            Some(MfskVariant::M128L)
        } else {
            None
        }
    }

    pub fn label(self) -> (r: &'static str)
        ensures
            r@ == mfsk_label(self),
    {
        match self {
            MfskVariant::M4 => "mfsk4",
            MfskVariant::M8 => "mfsk8",
            MfskVariant::M11 => "mfsk11",
            MfskVariant::M16 => "mfsk16",
            MfskVariant::M22 => "mfsk22",
            MfskVariant::M31 => "mfsk31",
            MfskVariant::M32 => "mfsk32",
            MfskVariant::M64 => "mfsk64",
            MfskVariant::M128 => "mfsk128",
            MfskVariant::M64L => "mfsk64l",
            MfskVariant::M128L => "mfsk128l",
        }
    }

    /// Every submode.
    pub fn all() -> (r: &'static [MfskVariant])
        ensures
            r@ == seq![MfskVariant::M4, MfskVariant::M8, MfskVariant::M11, MfskVariant::M16, MfskVariant::M22, MfskVariant::M31, MfskVariant::M32, MfskVariant::M64, MfskVariant::M128, MfskVariant::M64L, MfskVariant::M128L],
    {
        &[MfskVariant::M4, MfskVariant::M8, MfskVariant::M11, MfskVariant::M16, MfskVariant::M22, MfskVariant::M31, MfskVariant::M32, MfskVariant::M64, MfskVariant::M128, MfskVariant::M64L, MfskVariant::M128L]
    }
}

/// Every variant's label parses back to that variant.
pub proof fn lemma_mfsk_labels_round_trip(v: MfskVariant)
    ensures
        mfsk_of_label(mfsk_label(v)) == Some(v),
{
    reveal_strlit("mfsk4");
    reveal_strlit("mfsk8");
    reveal_strlit("mfsk11");
    reveal_strlit("mfsk16");
    reveal_strlit("mfsk22");
    reveal_strlit("mfsk31");
    reveal_strlit("mfsk32");
    reveal_strlit("mfsk64");
    reveal_strlit("mfsk128");
    reveal_strlit("mfsk64l");
    reveal_strlit("mfsk128l");
    assert(label_key("mfsk4"@) == (5int, 'm', '4', 'k', 's', 'f', 'm'));
    assert(label_key("mfsk8"@) == (5int, 'm', '8', 'k', 's', 'f', 'm'));
    assert(label_key("mfsk11"@) == (6int, 'm', '1', '1', 'k', 's', 'f'));
    assert(label_key("mfsk16"@) == (6int, 'm', '6', '1', 'k', 's', 'f'));
    assert(label_key("mfsk22"@) == (6int, 'm', '2', '2', 'k', 's', 'f'));
    assert(label_key("mfsk31"@) == (6int, 'm', '1', '3', 'k', 's', 'f'));
    assert(label_key("mfsk32"@) == (6int, 'm', '2', '3', 'k', 's', 'f'));
    assert(label_key("mfsk64"@) == (6int, 'm', '4', '6', 'k', 's', 'f'));
    assert(label_key("mfsk128"@) == (7int, 'm', '8', '2', '1', 'k', 's'));
    assert(label_key("mfsk64l"@) == (7int, 'm', 'l', '4', '6', 'k', 's'));
    assert(label_key("mfsk128l"@) == (8int, 'm', 'l', '8', '2', '1', 'k'));
}

/// The tone count and symbol rate (as a fraction `num / den` baud) fldigi
/// gives each MFSK submode: MFSK4 and MFSK8 send 32 tones, MFSK31 8, and the
/// others 16; MFSK16 runs at 15.625 baud, MFSK11 and MFSK22 at 11025/1024 and
/// 11025/512 baud.
pub open spec fn mfsk_documented(v: MfskVariant) -> (nat, nat, nat) {
    match v {
        MfskVariant::M4 => (32, 125, 32),
        MfskVariant::M8 => (32, 125, 16),
        MfskVariant::M11 => (16, 11025, 1024),
        MfskVariant::M16 => (16, 125, 8),
        MfskVariant::M22 => (16, 11025, 512),
        MfskVariant::M31 => (8, 125, 4),
        MfskVariant::M32 => (16, 125, 4),
        MfskVariant::M64 => (16, 125, 2),
        MfskVariant::M128 => (16, 125, 1),
        MfskVariant::M64L => (16, 125, 2),
        MfskVariant::M128L => (16, 125, 1),
    }
}

/// Every submode's parameters give its documented tone count (`2^symbits`)
/// and symbol rate (`samplerate / symlen`).
pub proof fn lemma_mfsk_submode_grid(v: MfskVariant)
    ensures
        pow2(mfsk_params(v).1 as nat) == mfsk_documented(v).0,
        mfsk_params(v).3 * mfsk_documented(v).2 == mfsk_documented(v).1 * mfsk_params(v).0,
{
    vstd::arithmetic::power2::lemma2_to64();
}

/// Every submode has fewer than 32 bits per symbol, so its tone count fits.
pub proof fn lemma_mfsk_symbits_small(v: MfskVariant)
    ensures
        mfsk_params(v).1 < 32,
{
}

/// The parity of the low seven bits of `x`.
pub open spec fn parity7(x: u32) -> u32 {
    (x ^ (x >> 1) ^ (x >> 2) ^ (x >> 3) ^ (x >> 4) ^ (x >> 5) ^ (x >> 6)) & 1
}

/// The encoder shift register after the first `i` data bits: each bit (its
/// low bit) is shifted in at the bottom.
pub open spec fn conv_reg(bits: Seq<u8>, i: int) -> u32
    decreases i,
{
    if i <= 0 {
        0
    } else {
        (conv_reg(bits, i - 1) << 1) | (bits[i - 1] as u32 & 1)
    }
}

/// Code bit `k` of the stream: for data bit `k / 2`, the POLY1 parity of the
/// register (even `k`), then the POLY2 parity (odd `k`).
pub open spec fn conv_out(bits: Seq<u8>, k: int) -> u32 {
    if k % 2 == 0 {
        parity7(conv_reg(bits, k / 2 + 1) & POLY1)
    } else {
        parity7(conv_reg(bits, k / 2 + 1) & POLY2)
    }
}

/// Streaming K=7 (POLY1/POLY2) convolutional encode of a data-bit stream, no
/// tail flush. Two output bits per input bit: the POLY1 parity of the
/// register, then the POLY2 parity.
pub fn conv_stream(bits: &[u8]) -> (r: Vec<u8>)
    requires
        bits@.len() * 2 <= usize::MAX,
    ensures
        r@.len() == 2 * bits@.len(),
        forall|k: int| 0 <= k < r@.len() ==> #[trigger] r@[k] == conv_out(bits@, k),
{
    let mut reg: u32 = 0;
    let mut out: Vec<u8> = Vec::with_capacity(bits.len() * 2);
    for i in 0..bits.len()
        invariant
            reg == conv_reg(bits@, i as int),
            out@.len() == 2 * i,
            forall|k: int| 0 <= k < out@.len() ==> #[trigger] out@[k] == conv_out(bits@, k),
    {
        reg = (reg << 1) | (bits[i] as u32 & 1);
        let a = reg & POLY1;
        let b = reg & POLY2;
        let pa = (a ^ (a >> 1) ^ (a >> 2) ^ (a >> 3) ^ (a >> 4) ^ (a >> 5) ^ (a >> 6)) & 1;
        let pb = (b ^ (b >> 1) ^ (b >> 2) ^ (b >> 3) ^ (b >> 4) ^ (b >> 5) ^ (b >> 6)) & 1;
        assert(pa <= 1 && pb <= 1) by (bit_vector)
            requires
                pa == (a ^ (a >> 1) ^ (a >> 2) ^ (a >> 3) ^ (a >> 4) ^ (a >> 5) ^ (a >> 6)) & 1,
                pb == (b ^ (b >> 1) ^ (b >> 2) ^ (b >> 3) ^ (b >> 4) ^ (b >> 5) ^ (b >> 6)) & 1,
        ;
        out.push(pa as u8);
        out.push(pb as u8);
        assert(conv_out(bits@, 2 * i as int) == pa && conv_out(bits@, 2 * i + 1) == pb);
    }
    out
}

} // verus!
