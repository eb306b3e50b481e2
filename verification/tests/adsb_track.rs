use omnimodem_dsp::adsb::message::{encode_identification, AirbornePosition};
use omnimodem_dsp::adsb::track::{AircraftTracker, CprPair};

fn hex(s: &str) -> Vec<u8> {
    (0..s.len()).step_by(2).map(|i| u8::from_str_radix(&s[i..i + 2], 16).unwrap()).collect()
}

const ODD: &str = "8D40621D58C386435CC412692AD6";
const EVEN: &str = "8D40621D58C382D690C8AC2863A7";

#[test]
fn tracks_callsign_from_identification() {
    let mut t = AircraftTracker::new(60_000, 10_000);
    let f = encode_identification(0x4840D6, "KLM1023 ");
    assert_eq!(t.ingest(&f, 1000).map(|g| g.icao), Some(0x4840D6));
    let ac = t.aircraft();
    assert_eq!(ac.len(), 1);
    assert_eq!(ac[0].icao, 0x4840D6);
    assert_eq!(ac[0].callsign.as_deref(), Some("KLM1023"));
    assert_eq!(ac[0].last_seen_ms, 1000);
}

#[test]
fn pairs_cpr_halves_and_altitude() {
    let mut t = AircraftTracker::new(60_000, 10_000);
    // Odd first, then even: the newest half is the even one.
    let first = t.ingest(&hex(ODD), 0).expect("squitter");
    assert_eq!(first.icao, 0x40621D);
    assert_eq!(first.pair, None);
    let second = t.ingest(&hex(EVEN), 100).expect("squitter");
    assert_eq!(second.icao, 0x40621D);
    let even = AirbornePosition { odd: false, lat_cpr: 93000, lon_cpr: 51372, altitude: Some(38000) };
    let odd = AirbornePosition { odd: true, lat_cpr: 74158, lon_cpr: 50194, altitude: Some(38000) };
    assert_eq!(second.pair, Some(CprPair { even, odd, newest_is_odd: false }));
    let ac = t.aircraft();
    assert_eq!(ac.len(), 1);
    assert_eq!(ac[0].altitude_ft, Some(38000));
    assert_eq!(ac[0].last_seen_ms, 100);
    assert_eq!(ac[0].callsign, None);
}

#[test]
fn cpr_not_paired_outside_window() {
    let mut t = AircraftTracker::new(600_000, 10_000);
    assert_eq!(t.ingest(&hex(ODD), 0).and_then(|g| g.pair), None);
    // 50 s apart is outside the 10 s window.
    assert_eq!(t.ingest(&hex(EVEN), 50_000).and_then(|g| g.pair), None);
    // A fresh odd half 5 s after the even one pairs with it.
    let g = t.ingest(&hex(ODD), 55_000).expect("squitter");
    assert_eq!(g.pair.map(|p| p.newest_is_odd), Some(true));
}

#[test]
fn identification_after_a_pair_hands_out_no_pair() {
    let mut t = AircraftTracker::new(60_000, 10_000);
    t.ingest(&hex(ODD), 0);
    t.ingest(&hex(EVEN), 100);
    let f = encode_identification(0x40621D, "KLM1023");
    let g = t.ingest(&f, 200).expect("squitter");
    assert_eq!(g.pair, None);
    let ac = t.aircraft();
    assert_eq!(ac[0].callsign.as_deref(), Some("KLM1023"));
    assert_eq!(ac[0].altitude_ft, Some(38000));
}

#[test]
fn ages_out_stale_aircraft() {
    let mut t = AircraftTracker::new(30_000, 10_000);
    let f = encode_identification(0x400000, "OLD1");
    t.ingest(&f, 1000);
    assert_eq!(t.len(), 1);
    t.prune(1000 + 30_000); // exactly at the edge: still kept
    assert_eq!(t.len(), 1);
    t.prune(1000 + 30_001); // one ms past: dropped
    assert_eq!(t.len(), 0);
}

#[test]
fn ignores_non_extended_squitter() {
    let mut t = AircraftTracker::new(60_000, 10_000);
    // DF11 short all-call frame, not DF17/18.
    let mut f = [0u8; 7];
    f[0] = (11 << 3) | 0x05;
    assert!(t.ingest(&f, 1000).is_none());
    assert!(t.is_empty());
}

#[test]
fn aircraft_come_out_in_address_order() {
    let mut t = AircraftTracker::new(60_000, 10_000);
    t.ingest(&encode_identification(0x800000, "CCC3"), 10);
    t.ingest(&encode_identification(0x100000, "AAA1"), 20);
    t.ingest(&encode_identification(0x400000, "BBB2"), 30);
    let icaos: Vec<u32> = t.aircraft().iter().map(|a| a.icao).collect();
    assert_eq!(icaos, vec![0x100000, 0x400000, 0x800000]);
    t.prune(60_015);
    let icaos: Vec<u32> = t.aircraft().iter().map(|a| a.icao).collect();
    assert_eq!(icaos, vec![0x100000, 0x400000]);
}

use omnimodem_dsp::adsb::tracker::{AircraftTracker as LiveTracker, Ingest, CPR_PAIR_WINDOW_MS};

#[test]
fn cpr_pair_yields_pair_altitude_and_reports_on_change() {
    let mut t = LiveTracker::new();
    let u = t.ingest(&hex(ODD), 1_000);
    assert_eq!(u.ingest, Ingest::Updated(0x40621D));
    assert_eq!(u.pair, None);
    let u = t.ingest(&hex(EVEN), 1_500);
    assert_eq!(u.pair.map(|p| p.newest_is_odd), Some(false));
    let ac = t.get(0x40621D).unwrap();
    assert_eq!(ac.altitude_ft, Some(38000));
    assert_eq!(ac.last_seen_ms, 1_500);
}

#[test]
fn identification_populates_callsign() {
    let mut t = LiveTracker::new();
    let frame = encode_identification(0x40621D, "KLM1023");
    assert_eq!(t.ingest(&frame, 0).ingest, Ingest::Updated(0x40621D));
    assert_eq!(t.get(0x40621D).unwrap().callsign.as_deref(), Some("KLM1023"));
}

#[test]
fn duplicate_frame_is_unchanged() {
    let mut t = LiveTracker::new();
    let frame = encode_identification(0x484010, "DUP");
    assert_eq!(t.ingest(&frame, 0).ingest, Ingest::Updated(0x484010));
    assert_eq!(t.ingest(&frame, 100).ingest, Ingest::Unchanged(0x484010));
}

#[test]
fn stale_cpr_half_does_not_solve() {
    let mut t = LiveTracker::new();
    t.ingest(&hex(EVEN), 0);
    let u = t.ingest(&hex(ODD), CPR_PAIR_WINDOW_MS + 1);
    assert_eq!(u.pair, None);
}

#[test]
fn prune_ages_out_stale_contacts() {
    let mut t = LiveTracker::new();
    t.ingest(&encode_identification(0xAAAAAA, "OLD"), 0);
    t.ingest(&encode_identification(0xBBBBBB, "NEW"), 50_000);
    let removed = t.prune(61_000, 60_000);
    assert_eq!(removed, vec![0xAAAAAA]);
    assert!(t.get(0xAAAAAA).is_none());
    assert!(t.get(0xBBBBBB).is_some());
}

#[test]
fn non_adsb_frames_are_ignored() {
    let mut t = LiveTracker::new();
    assert_eq!(t.ingest(&[0x5D, 0x3C, 0x64, 0x44, 0, 0, 0], 0).ingest, Ingest::Ignored);
    assert!(t.is_empty());
}

#[test]
fn gnss_height_position_keeps_altitude() {
    // Type code 20 (GNSS height): the position is taken, the altitude is not.
    let mut f = hex(ODD);
    f[4] = (20 << 3) | (f[4] & 7);
    omnimodem_dsp::adsb::crc::append_parity(&mut f);
    let mut t = LiveTracker::new();
    assert_eq!(t.ingest(&f, 0).ingest, Ingest::Unchanged(0x40621D));
    assert_eq!(t.get(0x40621D).unwrap().altitude_ft, None);
}
