//! ADS-B (Mode S) building blocks: parity, frame fields, the address roster and
//! the candidate-acceptance rules of the 2.4 Msps demodulator.
use vstd::prelude::*;

pub mod crc;
pub mod demod2400;
pub mod ppm;
pub mod message;
pub mod roster;
pub mod syndrome;
pub mod track;
pub mod tracker;

verus! {

/// ADS-B working rate: 2 Msps.
pub const ADSB_RATE: u32 = 2_000_000;
/// Short Mode S frame length in bits (DF 0/4/5/11/…).
pub const SHORT_FRAME_BITS: usize = 56;
/// Long (extended squitter) frame length in bits (DF 16/17/18/…).
pub const LONG_FRAME_BITS: usize = 112;
/// Half-microsecond slots in the 8 µs preamble.
pub const PREAMBLE_SLOTS: usize = 16;
/// Preamble slots that carry a pulse: pulses at 0.0, 1.0, 3.5 and 4.5 µs.
pub const PREAMBLE_HIGH_SLOTS: [usize; 4] = [0, 2, 7, 9];
/// Preamble guard slots tested for quiet: the gap between the two pulse pairs
/// and the gap before the data.
pub const PREAMBLE_QUIET_SLOTS: [usize; 6] = [4, 5, 11, 12, 13, 14];
/// Half-microsecond slots per data bit (one pulse-position pair).
pub const DATA_SLOTS_PER_BIT: usize = 2;
/// Sub-sample slicer phases the streaming demodulator runs.
pub const ADSB_SLICER_PHASES: usize = 4;

/// True when downlink format `df` denotes a 112-bit (long) frame: DF16-21 and
/// DF24-31.
pub fn long_frame_df(df: u8) -> (r: bool)
    ensures
        r == ((16 <= df && df <= 21) || (24 <= df && df <= 31)),
{
    (16 <= df && df <= 21) || (24 <= df && df <= 31)
}

} // verus!
