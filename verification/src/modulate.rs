//! Differential phase coding for DBPSK/DQPSK: symbols become absolute phase
//! indices (in units of `2π/M`, `M = 2^bps`) so the demodulator needs no
//! absolute phase reference.
use vstd::prelude::*;

verus! {

/// The absolute phase index after the first `k` symbols: their running sum
/// modulo `m`.
pub open spec fn diff_phase(symbols: Seq<u32>, m: int, k: int) -> int
    decreases k,
{
    if k <= 0 {
        0
    } else {
        (diff_phase(symbols, m, k - 1) + symbols[k - 1]) % m
    }
}

/// The symbol a phase sequence carries at `i`: the step from the previous
/// phase (0 before the first) modulo `m`.
pub open spec fn diff_symbol(phases: Seq<u32>, m: int, i: int) -> int {
    let prev = if i == 0 {
        0
    } else {
        phases[i - 1] as int
    };
    (phases[i] + m - prev) % m
}

/// The phase indices of a whole symbol stream.
pub open spec fn diff_phases(symbols: Seq<u32>, m: int) -> Seq<u32> {
    Seq::new(symbols.len(), |k: int| diff_phase(symbols, m, k + 1) as u32)
}

/// The differential phase coder of a DBPSK (`bps == 1`) or DQPSK (`bps ==
/// 2`) modem.
#[derive(Debug, Clone, Copy, PartialEq, Eq)]
pub struct DiffPsk {
    /// Bits per symbol: 1 = DBPSK, 2 = DQPSK.
    pub bps: u32,
}

/// The number of phases, `2^bps`.
pub open spec fn phase_count(bps: u32) -> int {
    if bps == 1 {
        2
    } else {
        4
    }
}

impl DiffPsk {
    pub fn new(bps: u32) -> (d: Self)
        requires
            bps == 1 || bps == 2,
        ensures
            d.bps == bps,
    {
        DiffPsk { bps }
    }

    /// Differential phase encode: the absolute phase index per symbol.
    pub fn diff_encode(&self, symbols: &[u32]) -> (out: Vec<u32>)
        requires
            self.bps == 1 || self.bps == 2,
            forall|i: int|
                0 <= i < symbols@.len() ==> diff_phase(symbols@, phase_count(self.bps), i)
                    + #[trigger] symbols@[i] <= u32::MAX,
        ensures
            out@.len() == symbols@.len(),
            forall|i: int|
                0 <= i < out@.len() ==> #[trigger] out@[i] == diff_phase(
                    symbols@,
                    phase_count(self.bps),
                    i + 1,
                ),
    {
        let m: u32 = if self.bps == 1 {
            2
        } else {
            4
        };
        let mut acc: u32 = 0;
        let mut out: Vec<u32> = Vec::new();
        for k in 0..symbols.len()
            invariant
                m == phase_count(self.bps),
                m == 2 || m == 4,
                acc == diff_phase(symbols@, m as int, k as int),
                acc < m,
                out@.len() == k,
                forall|i: int|
                    0 <= i < symbols@.len() ==> diff_phase(symbols@, m as int, i)
                        + #[trigger] symbols@[i] <= u32::MAX,
                forall|i: int|
                    0 <= i < k ==> #[trigger] out@[i] == diff_phase(symbols@, m as int, i + 1),
        {
            let s = symbols[k];
            acc = (acc + s) % m;
            out.push(acc);
        }
        out
    }

    /// Inverse of `diff_encode`: the symbol stream of absolute phases.
    pub fn diff_decode(&self, phases: &[u32]) -> (out: Vec<u32>)
        requires
            self.bps == 1 || self.bps == 2,
            forall|i: int|
                0 <= i < phases@.len() ==> #[trigger] phases@[i] + phase_count(self.bps)
                    <= u32::MAX,
            forall|i: int|
                0 < i < phases@.len() ==> #[trigger] phases@[i] + phase_count(self.bps)
                    >= phases@[i - 1],
        ensures
            out@.len() == phases@.len(),
            forall|i: int|
                0 <= i < out@.len() ==> #[trigger] out@[i] == diff_symbol(
                    phases@,
                    phase_count(self.bps),
                    i,
                ),
    {
        let m: u32 = if self.bps == 1 {
            2
        } else {
            4
        };
        let mut prev: u32 = 0;
        let mut out: Vec<u32> = Vec::new();
        for k in 0..phases.len()
            invariant
                m == phase_count(self.bps),
                m == 2 || m == 4,
                prev == (if k == 0 {
                    0
                } else {
                    phases@[k - 1]
                }),
                out@.len() == k,
                forall|i: int| 0 <= i < phases@.len() ==> #[trigger] phases@[i] + m <= u32::MAX,
                forall|i: int| 0 < i < phases@.len() ==> #[trigger] phases@[i] + m >= phases@[i - 1],
                forall|i: int|
                    0 <= i < k ==> #[trigger] out@[i] == diff_symbol(phases@, m as int, i),
        {
            let p = phases[k];
            out.push((p + m - prev) % m);
            prev = p;
        }
        out
    }
}

/// Decoding the encoded phases gives back every symbol, modulo the number
/// of phases (so exactly, for symbols below it).
pub proof fn lemma_diff_round_trip(symbols: Seq<u32>, bps: u32)
    requires
        bps == 1 || bps == 2,
    ensures
        forall|i: int|
            0 <= i < symbols.len() ==> #[trigger] diff_symbol(
                diff_phases(symbols, phase_count(bps)),
                phase_count(bps),
                i,
            ) == symbols[i] as int % phase_count(bps),
{
    let m = phase_count(bps);
    let ph = diff_phases(symbols, m);
    assert forall|i: int| 0 <= i < symbols.len() implies #[trigger] diff_symbol(ph, m, i)
        == symbols[i] as int % m by {
        let a = diff_phase(symbols, m, i);
        let s = symbols[i] as int;
        assert(0 <= a < m);
        assert(ph[i] as int == (a + s) % m);
        if i > 0 {
            assert(ph[i - 1] as int == a);
        }
        let q = (a + s) / m;
        vstd::arithmetic::div_mod::lemma_fundamental_div_mod(a + s, m);
        vstd::arithmetic::div_mod::lemma_fundamental_div_mod(s, m);
        let t = s / m;
        let r = s % m;
        // (a + s) % m + m - a == s - q * m + m, and s == t * m + r.
        assert((a + s) % m + m - a == r + (t - q + 1) * m) by (nonlinear_arith)
            requires
                a + s == m * q + (a + s) % m,
                s == m * t + r,
        ;
        vstd::arithmetic::div_mod::lemma_fundamental_div_mod_converse(
            (a + s) % m + m - a,
            m,
            t - q + 1,
            r,
        );
    }
}

} // verus!
