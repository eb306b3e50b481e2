//! FT4: the modulator and demodulator handles of the mode.
use vstd::prelude::*;

verus! {

/// The FT4 modulator (the mode has no per-instance state).
pub struct Ft4Mod;

impl Ft4Mod {
    pub fn new() -> (m: Ft4Mod)
        ensures
            m == Ft4Mod,
    {
        Ft4Mod
    }
}

/// The FT4 block demodulator (the mode has no per-instance state).
pub struct Ft4Demod;

impl Ft4Demod {
    pub fn new() -> (d: Ft4Demod)
        ensures
            d == Ft4Demod,
    {
        Ft4Demod
    }
}

} // verus!
