//! Candidate acceptance for the native 2.4 Msps Mode S demodulator.
//!
//! A sliced candidate is accepted on a fused CRC-plus-address-roster score,
//! not CRC alone: the address-overlaid downlink formats and single-bit-
//! corrected frames are recovered only when the address they carry is already
//! known, which rejects the shift-ghosts a CRC-only gate would admit.
use vstd::prelude::*;
use super::crc::{self, crc, flip_bit, repair_position};
use super::roster::{address_overlaid, is_address_overlaid, IcaoRoster};
use super::{LONG_FRAME_BITS, SHORT_FRAME_BITS};

verus! {

/// Message length (bits) for a downlink format the slicer decodes, or `None`
/// for a format it will not attempt: short {0,4,5,11}, long {16,17,18,20,21}.
pub open spec fn msg_bits(df: u8) -> Option<usize> {
    if df == 0 || df == 4 || df == 5 || df == 11 {
        Some(56usize)
    } else if df == 16 || df == 17 || df == 18 || df == 20 || df == 21 {
        Some(112usize)
    } else {
        None
    }
}

/// Message length (bits) for a downlink format the slicer decodes, or `None`.
pub fn candidate_msg_bits(df: u8) -> (r: Option<usize>)
    ensures
        r == msg_bits(df),
{
    if df == 0 || df == 4 || df == 5 || df == 11 {
        Some(SHORT_FRAME_BITS)
    } else if df == 16 || df == 17 || df == 18 || df == 20 || df == 21 {
        Some(LONG_FRAME_BITS)
    } else {
        None
    }
}

/// The 24-bit ICAO address carried in the clear in bytes 1..4 (DF11/17/18).
pub open spec fn clear_address(b: Seq<u8>) -> u32 {
    ((b[1] as u32) << 16u32) | ((b[2] as u32) << 8u32) | (b[3] as u32)
}

fn clear_icao(bytes: &[u8]) -> (r: u32)
    requires
        bytes@.len() >= 4,
    ensures
        r == clear_address(bytes@),
{
    ((bytes[1] as u32) << 16u32) | ((bytes[2] as u32) << 8u32) | bytes[3] as u32
}

/// The frame a single-bit repair outside the 5-bit downlink-format field
/// produces, if one applies.
#[verifier::opaque]
pub open spec fn repaired(b: Seq<u8>) -> Option<Seq<u8>> {
    match repair_position(crc(b), (b.len() * 8) as int) {
        Some(p) => if p >= 5 {
            Some(flip_bit(b, p))
        } else {
            None
        },
        None => None,
    }
}

/// Correct a unique single-bit error outside the 5-bit DF field in place; a
/// repair located in the DF field would reinterpret the frame length and is
/// declined. Returns whether a repair was applied.
fn repair_single_bit(bytes: &mut Vec<u8>) -> (r: bool)
    requires
        old(bytes)@.len() * 8 <= usize::MAX,
    ensures
        r == repaired(old(bytes)@) is Some,
        final(bytes)@.len() == old(bytes)@.len(),
        r ==> final(bytes)@ == repaired(old(bytes)@).unwrap(),
        !r ==> final(bytes)@ == old(bytes)@,
{
    reveal(repaired);
    let nbits = bytes.len() * 8;
    assert(nbits % 8 == 0) by (nonlinear_arith)
        requires
            nbits == bytes@.len() * 8,
    ;
    let residual = crc::checksum(bytes.as_slice());
    match crc::locate_single_bit_error(residual, nbits) {
        Some(p) => {
            if p >= 5 {
                let ghost before = bytes@;
                assert(p / 8 < bytes@.len()) by (nonlinear_arith)
                    requires
                        p < nbits,
                        nbits == bytes@.len() * 8,
                ;
                let sh: u8 = (7 - p % 8) as u8;
                let idx = p / 8;
                let v = bytes[idx] ^ (1u8 << sh);
                bytes.set(idx, v);
                assert(bytes@ =~= flip_bit(before, p as int));
                true
            } else {
                false
            }
        },
        None => false,
    }
}

/// A scored, accepted candidate.
pub struct Scored {
    /// The accepted bytes, possibly single-bit-corrected.
    pub bytes: Vec<u8>,
    /// Higher = more confident; used to keep the best of the sliced phases.
    pub score: i32,
    /// `true` when the accepted bytes checksum to zero (clean or repaired).
    pub crc_ok: bool,
    /// Address this frame proves in the clear, to add to the roster.
    pub seed_icao: Option<u32>,
}

/// Whether every byte of `b` is zero.
pub open spec fn all_zero(b: Seq<u8>) -> bool {
    forall|i: int| 0 <= i < b.len() ==> b[i] == 0u8
}

/// Acceptance of an extended squitter (DF17/18): clean (a clean DF17 seeds its
/// address), or after a single-bit repair.
pub open spec fn score_squitter(b: Seq<u8>, roster: Seq<u32>) -> Option<(Seq<u8>, i32, bool, Option<u32>)> {
    if crc(b) == 0 {
        let icao = clear_address(b);
        Some(
            (
                b,
                if roster.contains(icao) { 1800i32 } else { 1400i32 },
                true,
                if b[0] >> 3u8 == 17 { Some(icao) } else { None },
            ),
        )
    } else {
        match repaired(b) {
            Some(r) => Some(
                (r, if roster.contains(clear_address(r)) { 900i32 } else { 700i32 }, true, None),
            ),
            None => None,
        }
    }
}

/// Acceptance of an all-call reply (DF11): clean when only the
/// interrogator-id bits (low 7) of the residual are set — an IID-0 reply seeds
/// its address, a nonzero IID is kept only for a known address; otherwise a
/// single-bit repair is kept only when the repaired address is known.
pub open spec fn score_all_call(b: Seq<u8>, roster: Seq<u32>) -> Option<(Seq<u8>, i32, bool, Option<u32>)> {
    let residual = crc(b);
    let icao = clear_address(b);
    if residual & 0xFFFF80u32 == 0 {
        if residual & 0x7Fu32 == 0 {
            Some((b, if roster.contains(icao) { 1600i32 } else { 750i32 }, true, Some(icao)))
        } else if roster.contains(icao) {
            Some((b, 1000i32, true, None))
        } else {
            None
        }
    } else {
        match repaired(b) {
            Some(r) => if roster.contains(clear_address(r)) {
                Some((r, 900i32, true, None))
            } else {
                None
            },
            None => None,
        }
    }
}

/// The acceptance decision for candidate `b` against roster addresses
/// `roster`: the accepted bytes, score, CRC flag and seeded address, or `None`
/// to reject. An all-zero slice is never a transmission; the address-overlaid
/// formats (DF0/4/5/16/20/21) are kept only when their residual — the address —
/// is known; other formats are rejected.
pub open spec fn score_of(b: Seq<u8>, roster: Seq<u32>) -> Option<(Seq<u8>, i32, bool, Option<u32>)> {
    let df = b[0] >> 3u8;
    if all_zero(b) {
        None
    } else if df == 17 || df == 18 {
        score_squitter(b, roster)
    } else if df == 11 {
        score_all_call(b, roster)
    } else if address_overlaid(df) {
        if roster.contains(crc(b)) {
            Some((b, 1000i32, false, None))
        } else {
            None
        }
    } else {
        None
    }
}

/// Whether the scored candidate `r` carries the decision `d`.
pub open spec fn scored_as(r: Option<Scored>, d: Option<(Seq<u8>, i32, bool, Option<u32>)>) -> bool {
    match d {
        Some((b, score, ok, seed)) => r matches Some(s) && s.bytes@ == b && s.score == score
            && s.crc_ok == ok && s.seed_icao == seed,
        None => r is None,
    }
}

fn score_squitter_exec(bytes: Vec<u8>, residual: u32, roster: &IcaoRoster) -> (r: Option<Scored>)
    requires
        bytes@.len() >= 4,
        bytes@.len() * 8 <= usize::MAX,
        residual == crc(bytes@),
        roster.wf(),
    ensures
        scored_as(r, score_squitter(bytes@, roster.addresses())),
{
    let mut bytes = bytes;
    if residual == 0 {
        let icao = clear_icao(bytes.as_slice());
        let score = if roster.contains(icao) { 1800 } else { 1400 };
        let seed_icao = if bytes[0] >> 3u8 == 17 { Some(icao) } else { None };
        Some(Scored { bytes, score, crc_ok: true, seed_icao })
    } else if repair_single_bit(&mut bytes) {
        let score = if roster.contains(clear_icao(bytes.as_slice())) { 900 } else { 700 };
        Some(Scored { bytes, score, crc_ok: true, seed_icao: None })
    } else {
        None
    }
}

/// A clean all-call reply is always accepted and seeds its address: a
/// candidate whose first byte holds downlink format 11 (byte values 88 to 95)
/// and whose CRC residual is zero is kept unchanged, marked CRC-clean, with
/// its clear address to add to the roster, scoring 1600 when that address is
/// already known and 750 when it is not, whatever else the roster holds.
pub proof fn lemma_clean_all_call_seeds_roster(b: Seq<u8>, roster: Seq<u32>)
    requires
        b.len() >= 4,
        88 <= b[0] < 96,
        crc(b) == 0,
    ensures
        score_of(b, roster) == Some(
            (
                b,
                if roster.contains(clear_address(b)) { 1600i32 } else { 750i32 },
                true,
                Some(clear_address(b)),
            ),
        ),
{
    vstd::bits::lemma_u8_shr_is_div(b[0], 3);
    vstd::arithmetic::power2::lemma2_to64();
    assert(!all_zero(b)) by {
        assert(b[0] != 0u8);
    }
    crc::lemma_bit_identities(0, 0);
}

fn score_all_call_exec(bytes: Vec<u8>, residual: u32, roster: &IcaoRoster) -> (r: Option<Scored>)
    requires
        bytes@.len() >= 4,
        bytes@.len() * 8 <= usize::MAX,
        residual == crc(bytes@),
        roster.wf(),
    ensures
        scored_as(r, score_all_call(bytes@, roster.addresses())),
{
    let mut bytes = bytes;
    let icao = clear_icao(bytes.as_slice());
    if residual & 0xffff80 == 0 {
        let iid = residual & 0x7f;
        if iid == 0 {
            let score = if roster.contains(icao) { 1600 } else { 750 };
            Some(Scored { bytes, score, crc_ok: true, seed_icao: Some(icao) })
        } else if roster.contains(icao) {
            Some(Scored { bytes, score: 1000, crc_ok: true, seed_icao: None })
        } else {
            None
        }
    } else if repair_single_bit(&mut bytes) && roster.contains(clear_icao(bytes.as_slice())) {
        Some(Scored { bytes, score: 900, crc_ok: true, seed_icao: None })
    } else {
        None
    }
}

/// Score a sliced candidate: fuse the CRC (and single-bit error correction)
/// with membership in the recently-seen ICAO roster. Returns `None` to reject.
pub fn score_candidate(bytes: Vec<u8>, roster: &IcaoRoster) -> (r: Option<Scored>)
    requires
        bytes@.len() >= 4,
        bytes@.len() * 8 <= usize::MAX,
        roster.wf(),
    ensures
        scored_as(r, score_of(bytes@, roster.addresses())),
{
    let mut all_zero = true;
    for i in 0..bytes.len()
        invariant
            all_zero == forall|k: int| 0 <= k < i ==> bytes@[k] == 0u8,
    {
        if bytes[i] != 0 {
            all_zero = false;
        }
    }
    if all_zero {
        return None;
    }
    let df = bytes[0] >> 3u8;
    let residual = crc::checksum(bytes.as_slice());
    if df == 17 || df == 18 {
        score_squitter_exec(bytes, residual, roster)
    } else if df == 11 {
        score_all_call_exec(bytes, residual, roster)
    } else if is_address_overlaid(df) {
        if roster.contains(residual) {
            Some(Scored { bytes, score: 1000, crc_ok: false, seed_icao: None })
        } else {
            None
        }
    } else {
        None
    }
}

} // verus!
