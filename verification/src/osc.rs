//! Phase-accumulator oscillator: one `u32` accumulator wraps to give an exact
//! modulo-2π phase, and its top 8 bits index a 256-entry cos/sin table.
use vstd::prelude::*;

verus! {

/// One full turn of the accumulator, `2^32`.
pub open spec fn turn() -> int {
    0x1_0000_0000
}

/// The accumulator after `k` samples from `phase`, stepping `step` each.
pub open spec fn phase_after(phase: u32, step: u32, k: nat) -> int
    decreases k,
{
    if k == 0 {
        phase as int
    } else {
        (phase_after(phase, step, (k - 1) as nat) + step) % turn()
    }
}

/// Phase-accumulator oscillator. The phase increment per sample is
/// `freq/rate · 2^32`.
pub struct Oscillator {
    phase: u32,
    step: u32,
}

impl Oscillator {
    /// The accumulator.
    pub closed spec fn phase(&self) -> u32 {
        self.phase
    }

    /// The per-sample increment.
    pub closed spec fn step_spec(&self) -> u32 {
        self.step
    }

    /// An oscillator at phase 0 advancing `step` per sample.
    pub fn with_step(step: u32) -> (o: Self)
        ensures
            o.phase() == 0,
            o.step_spec() == step,
    {
        Oscillator { phase: 0, step }
    }

    /// Retune: a new increment, the phase kept.
    pub fn set_step(&mut self, step: u32)
        ensures
            final(self).phase() == old(self).phase(),
            final(self).step_spec() == step,
    {
        self.step = step;
    }

    /// The per-sample increment.
    pub fn step(&self) -> (r: u32)
        ensures
            r == self.step_spec(),
    {
        self.step
    }

    /// Advance one sample, returning the table index of the phase before the
    /// step: its top 8 bits.
    pub fn next_index(&mut self) -> (idx: usize)
        ensures
            idx == old(self).phase() as int / 0x100_0000,
            idx < 256,
            final(self).phase() == (old(self).phase() + old(self).step_spec()) % turn(),
            final(self).step_spec() == old(self).step_spec(),
    {
        proof {
            vstd::bits::lemma_u32_shr_is_div(self.phase, 24);
            vstd::arithmetic::power2::lemma2_to64();
        }
        let idx = (self.phase >> 24) as usize;
        self.phase = self.phase.wrapping_add(self.step);
        idx
    }
}

/// The accumulator never drifts: after `k` samples it sits at the start
/// phase plus `k` steps, modulo one turn.
pub proof fn lemma_phase_after(phase: u32, step: u32, k: nat)
    ensures
        phase_after(phase, step, k) == (phase + k * step) % turn(),
    decreases k,
{
    if k > 0 {
        lemma_phase_after(phase, step, (k - 1) as nat);
        let prev = phase + (k - 1) * step;
        vstd::arithmetic::div_mod::lemma_add_mod_noop(prev, step as int, turn());
        vstd::arithmetic::div_mod::lemma_small_mod(step as nat, turn() as nat);
        assert(prev + step == phase + k * step) by (nonlinear_arith)
            requires
                prev == phase + (k - 1) * step,
        ;
    } else {
        vstd::arithmetic::div_mod::lemma_small_mod(phase as nat, turn() as nat);
    }
}

} // verus!
