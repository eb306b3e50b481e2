//! The acceptance rule of the 2 Msps pulse-position slicer: which sliced
//! candidates are eligible for the confidence gate, with the single-bit
//! repair and address-roster recovery levers.
use vstd::prelude::*;
use super::crc::{self, flip_bit, repair_position};
use super::long_frame_df;
use super::roster::{address_overlaid, is_address_overlaid, IcaoRoster};

verus! {

/// Whether downlink format `df` is a 112-bit (long) frame.
pub open spec fn long_df(df: u8) -> bool {
    (16 <= df && df <= 21) || (24 <= df && df <= 31)
}

/// The downlink format byte 0 of `b` holds after flipping bit `p` (`p < 5`).
pub open spec fn df_after_flip(b: Seq<u8>, p: int) -> u8 {
    (b[0] ^ ((1u8 << ((7 - p) as u8)) as u8)) >> 3u8
}

/// The bit a single-bit repair flips, if repair is enabled and one applies
/// without moving the frame between the short and long length classes.
pub open spec fn repair_fix(b: Seq<u8>, df: u8, residual: u32, repair: bool) -> Option<int> {
    if !repair {
        None
    } else {
        match repair_position(residual, (b.len() * 8) as int) {
            Some(p) => {
                let rdf = if p < 5 {
                    df_after_flip(b, p)
                } else {
                    df
                };
                if long_df(rdf) == long_df(df) {
                    Some(p)
                } else {
                    None
                }
            },
            None => None,
        }
    }
}

/// The eligibility decision for a sliced candidate `b` with downlink format
/// `df` (read before any repair) and CRC residual `residual`: the
/// `(residual, recovered address)` it is accepted with, or `None`, and the
/// bytes after any repair.
pub open spec fn classify_spec(
    b: Seq<u8>,
    df: u8,
    residual: u32,
    degenerate: bool,
    require_crc: bool,
    repair: bool,
    roster: Option<Seq<u32>>,
) -> (Option<(u32, Option<u32>)>, Seq<u8>) {
    if degenerate {
        (None, b)
    } else if !require_crc {
        (Some((residual, None)), b)
    } else if residual == 0 {
        (Some((0u32, None)), b)
    } else {
        match repair_fix(b, df, residual, repair) {
            Some(p) => (Some((0u32, None)), flip_bit(b, p)),
            None => match roster {
                Some(r) => if address_overlaid(df) && r.contains(residual) {
                    (Some((residual, Some(residual))), b)
                } else {
                    (None, b)
                },
                None => (None, b),
            },
        }
    }
}

/// The roster's addresses, if one is given.
pub open spec fn roster_view(roster: Option<&IcaoRoster>) -> Option<Seq<u32>> {
    match roster {
        Some(r) => Some(r.addresses()),
        None => None,
    }
}

/// Decide whether a sliced candidate is eligible for acceptance. Returns
/// `Some((residual, recovered_icao))` for an eligible frame — possibly with
/// `bytes` corrected in place by a single-bit repair — or `None`.
///
/// In order: a degenerate (all-zero) slice is never eligible; with
/// `require_crc` off every other candidate is; a clean parity is; with
/// `repair`, a candidate that a unique single-bit flip makes clean is, unless
/// the flip would move its downlink format between the short and long classes;
/// with a roster, an address-overlaid format whose residual (its address) is
/// on the roster is, with that address recovered.
pub fn classify(
    require_crc: bool,
    repair: bool,
    bytes: &mut [u8],
    df: u8,
    residual: u32,
    degenerate: bool,
    roster: Option<&IcaoRoster>,
) -> (r: Option<(u32, Option<u32>)>)
    requires
        old(bytes)@.len() * 8 <= usize::MAX,
        roster matches Some(ro) ==> ro.wf(),
    ensures
        ({
            let d = classify_spec(
                old(bytes)@,
                df,
                residual,
                degenerate,
                require_crc,
                repair,
                roster_view(roster),
            );
            r == d.0 && final(bytes)@ == d.1
        }),
{
    if degenerate {
        return None;
    }
    if !require_crc {
        return Some((residual, None));
    }
    if residual == 0 {
        return Some((0, None));
    }
    if repair {
        let nbits = bytes.len() * 8;
        assert(nbits % 8 == 0) by (nonlinear_arith)
            requires
                nbits == bytes@.len() * 8,
        ;
        match crc::locate_single_bit_error(residual, nbits) {
            Some(p) => {
                assert(p / 8 < bytes@.len()) by (nonlinear_arith)
                    requires
                        p < nbits,
                        nbits == bytes@.len() * 8,
                ;
                let repaired_df = if p < 5 {
                    (bytes[0] ^ (1u8 << ((7 - p) as u8))) >> 3u8
                } else {
                    df
                };
                if long_frame_df(repaired_df) == long_frame_df(df) {
                    let ghost before = bytes@;
                    let sh: u8 = (7 - p % 8) as u8;
                    let idx = p / 8;
                    let v = bytes[idx] ^ (1u8 << sh);
                    bytes[idx] = v;
                    assert(bytes@ =~= flip_bit(before, p as int));
                    return Some((0, None));
                }
            },
            None => {},
        }
    }
    match roster {
        Some(ro) => {
            if is_address_overlaid(df) && ro.contains(residual) {
                Some((residual, Some(residual)))
            } else {
                None
            }
        },
        None => None,
    }
}

} // verus!
