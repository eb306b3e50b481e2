use omnimodem_dsp::adsb::crc::{append_parity, checksum, locate_single_bit_error, try_repair_single_bit};
use omnimodem_dsp::adsb::demod2400::score_candidate;
use omnimodem_dsp::adsb::long_frame_df;
use omnimodem_dsp::adsb::message::{encode_identification, ModeS};
use omnimodem_dsp::adsb::roster::{is_address_overlaid, IcaoRoster};
use omnimodem_dsp::adsb::tracker::{classify_squitter, Ingest};
use omnimodem_dsp::adsb::ppm::classify;

fn hex(s: &str) -> Vec<u8> {
    (0..s.len()).step_by(2).map(|i| u8::from_str_radix(&s[i..i + 2], 16).unwrap()).collect()
}

/// Canonical DF17 identification frame: ICAO 4840D6, callsign "KLM1023".
const KLM1023: &str = "8D4840D6202CC371C32CE0576098";

/// A clean 14-byte frame (DF17, ICAO 4840D6, "KLM1023"), checksum 0.
fn clean_frame() -> Vec<u8> {
    vec![0x8D, 0x48, 0x40, 0xD6, 0x20, 0x2C, 0xC3, 0x71, 0xC3, 0x2C, 0xE0, 0x57, 0x60, 0x98]
}

#[test]
fn repairs_every_single_bit_flip() {
    let clean = clean_frame();
    let nbits = clean.len() * 8;
    for p in 0..nbits {
        let mut f = clean.clone();
        f[p / 8] ^= 1 << (7 - (p % 8));
        assert_ne!(checksum(&f), 0, "bit {p} flip should break parity");
        assert!(try_repair_single_bit(&mut f), "bit {p} should be repairable");
        assert_eq!(checksum(&f), 0, "bit {p} repaired frame must checksum clean");
        assert_eq!(f, clean, "bit {p} repair must restore the original frame");
    }
}

#[test]
fn locates_matching_bit_position() {
    let clean = clean_frame();
    let nbits = clean.len() * 8;
    for p in [0usize, 7, 40, 111] {
        let mut f = clean.clone();
        f[p / 8] ^= 1 << (7 - (p % 8));
        assert_eq!(locate_single_bit_error(checksum(&f), nbits), Some(p));
    }
}

#[test]
fn declines_clean_and_double_bit_frames() {
    let clean = clean_frame();
    let mut f = clean.clone();
    assert!(!try_repair_single_bit(&mut f));
    assert_eq!(f, clean);
    let mut two = clean.clone();
    two[0] ^= 0x01;
    two[9] ^= 0x40;
    assert_ne!(checksum(&two), 0);
    let before = two.clone();
    assert!(!try_repair_single_bit(&mut two));
    assert_eq!(two, before, "declined repair must not mutate the frame");
}

#[test]
fn repairs_short_frames_too() {
    let mut f = [0u8; 7];
    f[0] = (11 << 3) | 0x05;
    f[1] = 0x3C;
    f[2] = 0x64;
    f[3] = 0x44;
    append_parity(&mut f);
    let clean = f;
    f[4] ^= 0x08;
    assert!(try_repair_single_bit(&mut f));
    assert_eq!(f, clean);
}

#[test]
fn locate_declines_zero_residual() {
    assert_eq!(locate_single_bit_error(0, 112), None);
    assert_eq!(locate_single_bit_error(0, 10), None);
}

#[test]
fn notes_and_contains() {
    let mut r = IcaoRoster::new(4);
    assert!(!r.contains(0xABCDEF));
    r.note(0xABCDEF);
    assert!(r.contains(0xABCDEF));
    assert_eq!(r.len(), 1);
}

#[test]
fn re_noting_is_idempotent_and_refreshes_recency() {
    let mut r = IcaoRoster::new(2);
    r.note(0x1);
    r.note(0x2);
    r.note(0x1);
    r.note(0x3);
    assert_eq!(r.len(), 2);
    assert!(r.contains(0x1));
    assert!(r.contains(0x3));
    assert!(!r.contains(0x2));
}

#[test]
fn evicts_oldest_when_full() {
    let mut r = IcaoRoster::new(2);
    r.note(0x1);
    r.note(0x2);
    r.note(0x3);
    assert!(!r.contains(0x1));
    assert!(r.contains(0x2));
    assert!(r.contains(0x3));
}

#[test]
fn address_overlaid_formats() {
    for df in [0, 4, 5, 16, 20, 21] {
        assert!(is_address_overlaid(df), "DF{df} should be address-overlaid");
    }
    for df in [11, 17, 18] {
        assert!(!is_address_overlaid(df), "DF{df} carries its address in the clear");
    }
}

#[test]
fn roster_clear_and_default() {
    let mut r = IcaoRoster::default();
    assert!(r.is_empty());
    r.note(0x123456);
    assert!(!r.is_empty());
    r.clear();
    assert!(r.is_empty());
    assert!(!r.contains(0x123456));
}

#[test]
fn crc_valid_frame_checksums_zero() {
    assert_eq!(checksum(&hex(KLM1023)), 0);
}

#[test]
fn append_parity_reproduces_known_parity() {
    let mut frame = hex(KLM1023);
    append_parity(&mut frame);
    assert_eq!(&frame[11..14], &[0x57, 0x60, 0x98]);
}

#[test]
fn encode_identification_matches_reference() {
    assert_eq!(encode_identification(0x4840D6, "KLM1023 ").to_vec(), hex(KLM1023));
}

#[test]
fn modes_fields_decode() {
    let bytes = hex(KLM1023);
    let m = ModeS::new(&bytes);
    assert_eq!(m.df(), 17);
    assert_eq!(m.ca(), 5);
    assert_eq!(m.icao(), 0x4840D6);
    assert_eq!(m.type_code(), Some(4));
    assert_eq!(m.callsign().as_deref(), Some("KLM1023"));
}

#[test]
fn callsign_preserves_embedded_space() {
    let frame = encode_identification(0x400000, "AB CD");
    assert_eq!(ModeS::new(&frame).callsign().as_deref(), Some("AB CD"));
}

#[test]
fn airborne_altitude_decode() {
    let bytes = hex("8D40621D58C382D690C8AC2863A7");
    assert_eq!(ModeS::new(&bytes).airborne_position().unwrap().altitude, Some(38000));
}

#[test]
fn identification_round_trips_lowercase_and_padding() {
    let frame = encode_identification(0x1ABCDEF, "ab1");
    let m = ModeS::new(&frame);
    assert_eq!(checksum(&frame), 0);
    assert_eq!(m.icao(), 0xABCDEF);
    assert_eq!(m.callsign().as_deref(), Some("AB1"));
}

#[test]
fn long_frame_formats() {
    for df in [16u8, 17, 18, 19, 20, 21, 24, 31] {
        assert!(long_frame_df(df));
    }
    for df in [0u8, 4, 5, 11, 15, 22, 23] {
        assert!(!long_frame_df(df));
    }
}

#[test]
fn candidate_scoring_accepts_clean_squitter_and_rejects_noise() {
    let roster = IcaoRoster::new(8);
    let s = score_candidate(clean_frame(), &roster).expect("clean DF17 is accepted");
    assert!(s.crc_ok);
    assert_eq!(s.seed_icao, Some(0x4840D6));
    assert!(score_candidate(vec![0u8; 14], &roster).is_none());
}

#[test]
fn classify_folds_in_tracked_squitters() {
    assert_eq!(classify_squitter(&hex(KLM1023)), Some((0x4840D6, 4)));
    assert_eq!(classify_squitter(&hex("8D40621D58C382D690C8AC2863A7")), Some((0x40621D, 11)));
    assert_eq!(classify_squitter(&hex("8D485020994409940838175B284F")), Some((0x485020, 19)));
    let frame = encode_identification(0x40621D, "KLM1023");
    assert_eq!(classify_squitter(&frame), Some((0x40621D, 4)));
}

#[test]
fn classify_ignores_non_adsb_frames() {
    // DF11 all-call (short frame): not an extended squitter.
    assert_eq!(classify_squitter(&[0x5D, 0x3C, 0x64, 0x44, 0, 0, 0]), None);
    // A long DF20 frame is not a squitter either.
    let mut f = hex(KLM1023);
    f[0] = 20 << 3;
    assert_eq!(classify_squitter(&f), None);
    // DF18 with the same payload is folded in.
    f[0] = (18 << 3) | 2;
    assert_eq!(classify_squitter(&f), Some((0x4840D6, 4)));
    // Type code 0 (no position) and 28 (aircraft status) are not tracked.
    let mut g = hex(KLM1023);
    g[4] = 0;
    assert_eq!(classify_squitter(&g), None);
    g[4] = 28 << 3;
    assert_eq!(classify_squitter(&g), None);
    // Thirteen bytes are too short for an ME field.
    assert_eq!(classify_squitter(&hex(KLM1023)[..13]), None);
    assert_ne!(Ingest::Updated(1), Ingest::Unchanged(1));
    assert_ne!(Ingest::Ignored, Ingest::Unchanged(0));
}

#[test]
fn classify_accepts_clean_and_repairs_single_bits() {
    let clean = hex(KLM1023);
    let mut b = clean.clone();
    assert_eq!(classify(true, false, &mut b, 17, 0, false, None), Some((0, None)));
    // A degenerate slice is never eligible, even with parity checks off.
    assert_eq!(classify(false, true, &mut b, 17, 0, true, None), None);
    // Without parity checks every other candidate passes with its residual.
    assert_eq!(classify(false, false, &mut b, 17, 1234, false, None), Some((1234, None)));
    // One flipped data bit: rejected without repair, restored with it.
    let mut d = clean.clone();
    d[6] ^= 0x10;
    let r = checksum(&d);
    assert_ne!(r, 0);
    let mut no_fix = d.clone();
    assert_eq!(classify(true, false, &mut no_fix, 17, r, false, None), None);
    assert_eq!(no_fix, d);
    let mut fix = d.clone();
    assert_eq!(classify(true, true, &mut fix, 17, r, false, None), Some((0, None)));
    assert_eq!(fix, clean);
}

#[test]
fn classify_declines_repairs_that_change_the_length_class() {
    // Bit 0 turns DF17 into DF1 (short); the slice was cut short for DF1, so
    // the repair that would restore DF17 is declined and the bytes kept.
    let clean = hex(KLM1023);
    let mut d = clean.clone();
    d[0] ^= 0x80;
    let r = checksum(&d);
    let before = d.clone();
    assert_eq!(classify(true, true, &mut d, d_df(&before), r, false, None), None);
    assert_eq!(d, before);
}

fn d_df(b: &[u8]) -> u8 {
    b[0] >> 3
}

#[test]
fn classify_recovers_roster_addresses_of_overlaid_formats() {
    // A DF4 surveillance reply: its residual is the address folded into parity.
    let f = vec![0x20u8, 0x00, 0x0B, 0x38, 0x12, 0x34, 0x56];
    let r = checksum(&f);
    let mut roster = IcaoRoster::new(8);
    let mut b = f.clone();
    assert_eq!(classify(true, false, &mut b, 4, r, false, Some(&roster)), None);
    roster.note(r);
    assert_eq!(classify(true, false, &mut b, 4, r, false, Some(&roster)), Some((r, Some(r))));
    assert_eq!(b, f);
    // A DF11 residual is not an address, roster or not.
    assert_eq!(classify(true, false, &mut b, 11, r, false, Some(&roster)), None);
}

#[test]
fn roster_holds_each_address_once_within_capacity() {
    let mut r = IcaoRoster::new(2);
    for a in [0x1u32, 0x2, 0x1, 0x3] {
        r.note(a);
    }
    assert_eq!(r.len(), 2);
    assert!(r.contains(0x1));
    assert!(r.contains(0x3));
    assert!(!r.contains(0x2));
}

#[test]
fn short_and_long_frames_repair_every_bit_to_itself() {
    for frame in [hex("5D4840D6202CC3"), hex("8D4840D6202CC371C32CE0576098")] {
        let mut clean = frame.clone();
        let n = clean.len();
        clean[n - 3..].fill(0);
        append_parity(&mut clean);
        assert_eq!(checksum(&clean), 0);
        let nbits = clean.len() * 8;
        assert_eq!(locate_single_bit_error(0, nbits), None);
        for p in 0..nbits {
            let mut f = clean.clone();
            f[p / 8] ^= 1 << (7 - p % 8);
            assert_eq!(locate_single_bit_error(checksum(&f), nbits), Some(p));
        }
    }
}

#[test]
fn callsign_round_trip_trims_only_trailing_spaces() {
    let frame = encode_identification(0x4840D6, "KLM1023 ");
    assert_eq!(ModeS::new(&frame).callsign().as_deref(), Some("KLM1023"));
    let frame = encode_identification(0x4840D6, " A1  B ");
    assert_eq!(ModeS::new(&frame).callsign().as_deref(), Some(" A1  B"));
}
