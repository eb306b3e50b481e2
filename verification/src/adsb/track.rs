//! ADS-B aircraft tracker: folds a stream of decoded Mode S frames into
//! per-aircraft state (callsign, altitude, last-seen time), keeps the latest
//! even and odd CPR position halves of each aircraft and hands out the pair to
//! solve when the two are close in time, and ages out stale contacts.
//!
//! The tracker is time-injected: the caller supplies a monotonic `now_ms`.
//! Solving a CPR pair into latitude and longitude is left to the caller.
use vstd::prelude::*;
use std::collections::BTreeMap;
use vstd::std_specs::iter::IteratorSpec;
use crate::adsb::message::{
    ac12_feet, callsign_raw, field, lemma_field_bound, trim_trailing_spaces, AirbornePosition,
    ModeS,
};

verus! {

/// One buffered CPR half-report and the time it arrived.
#[derive(Clone, Copy, Debug, PartialEq, Eq)]
pub struct CprSlot {
    pub pos: AirbornePosition,
    pub ts: u64,
}

/// An even and an odd CPR half-report close enough in time to be solved
/// together; `newest_is_odd` says which of the two arrived last.
#[derive(Clone, Copy, Debug, PartialEq, Eq)]
pub struct CprPair {
    pub even: AirbornePosition,
    pub odd: AirbornePosition,
    pub newest_is_odd: bool,
}

/// What one ingested frame did: the aircraft's address, and the CPR pair to
/// solve when this frame completed a fresh even/odd pair.
#[derive(Clone, Copy, Debug, PartialEq, Eq)]
pub struct Ingested {
    pub icao: u32,
    pub pair: Option<CprPair>,
}

/// Per-aircraft state: address, callsign, barometric altitude and the time of
/// the most recent frame.
#[derive(Debug)]
pub struct Aircraft {
    pub icao: u32,
    pub callsign: Option<String>,
    pub altitude_ft: Option<i32>,
    pub last_seen_ms: u64,
}

/// An aircraft's tracked state as plain values.
pub struct TrackView {
    pub callsign: Option<Seq<char>>,
    pub altitude_ft: Option<i32>,
    pub last_seen_ms: u64,
    pub even: Option<CprSlot>,
    pub odd: Option<CprSlot>,
}

/// The state of an aircraft seen for the first time.
pub open spec fn fresh_track() -> TrackView {
    TrackView { callsign: None, altitude_ft: None, last_seen_ms: 0, even: None, odd: None }
}

/// Whether a frame is a DF17/DF18 extended squitter.
pub open spec fn squitter(msg: Seq<u8>) -> bool {
    msg.len() >= 1 && (msg[0] >> 3u8 == 17 || msg[0] >> 3u8 == 18)
}

/// A frame is an extended squitter exactly when its first byte holds
/// downlink format 17 or 18 (byte values 136 to 151): DF18 is taken like
/// DF17, and every other format is not.
pub proof fn lemma_squitter_formats(msg: Seq<u8>)
    requires
        msg.len() >= 1,
    ensures
        squitter(msg) <==> 136 <= msg[0] < 152,
{
    vstd::bits::lemma_u8_shr_is_div(msg[0], 3);
    vstd::arithmetic::power2::lemma2_to64();
}

/// Whether a frame carries an identification (type code 1-4).
pub open spec fn ident_frame(msg: Seq<u8>) -> bool {
    msg.len() >= 11 && 1 <= field(msg, 32, 5) <= 4
}

/// Whether a frame carries an airborne position (type code 9-18 or 20-22).
pub open spec fn position_frame(msg: Seq<u8>) -> bool {
    msg.len() >= 11 && {
        let tc = field(msg, 32, 5);
        9 <= tc <= 18 || 20 <= tc <= 22
    }
}

/// The CPR half-report of a position frame.
pub open spec fn position_of(msg: Seq<u8>) -> AirbornePosition {
    AirbornePosition {
        odd: field(msg, 53, 1) == 1,
        lat_cpr: field(msg, 54, 17) as u32,
        lon_cpr: field(msg, 71, 17) as u32,
        altitude: ac12_feet(field(msg, 40, 12) as u16),
    }
}

/// An aircraft's state after a frame from it arrives at `now`: the time is
/// noted; an identification sets the callsign; a position frame stores its
/// CPR half in the even or odd slot and, when it holds one, its altitude.
pub open spec fn track_after(t: TrackView, msg: Seq<u8>, now: u64) -> TrackView {
    let t1 = TrackView { last_seen_ms: now, ..t };
    if ident_frame(msg) {
        TrackView { callsign: Some(trim_trailing_spaces(callsign_raw(msg, 8))), ..t1 }
    } else if position_frame(msg) {
        let p = position_of(msg);
        let alt = if p.altitude is Some {
            p.altitude
        } else {
            t.altitude_ft
        };
        let slot = CprSlot { pos: p, ts: now };
        if p.odd {
            TrackView { altitude_ft: alt, odd: Some(slot), ..t1 }
        } else {
            TrackView { altitude_ft: alt, even: Some(slot), ..t1 }
        }
    } else {
        t1
    }
}

/// The distance between two times.
pub open spec fn time_apart(a: u64, b: u64) -> int {
    if a >= b {
        a - b
    } else {
        b - a
    }
}

/// The pair an aircraft's slots make: both halves present and no more than
/// `window` apart.
pub open spec fn ready_pair(t: TrackView, window: u64) -> Option<CprPair> {
    match (t.even, t.odd) {
        (Some(e), Some(o)) => if time_apart(e.ts, o.ts) <= window {
            Some(CprPair { even: e.pos, odd: o.pos, newest_is_odd: o.ts >= e.ts })
        } else {
            None
        },
        _ => None,
    }
}

/// The CPR pair a frame hands out: the aircraft's fresh pair after a
/// position frame, nothing after any other frame.
pub open spec fn pair_after(t: TrackView, msg: Seq<u8>, window: u64) -> Option<CprPair> {
    if position_frame(msg) {
        ready_pair(t, window)
    } else {
        None
    }
}

/// Whether an aircraft last seen at `seen` is still current at `now`.
pub open spec fn current(seen: u64, now: u64, max_age: u64) -> bool {
    (if now >= seen {
        now - seen
    } else {
        0
    }) <= max_age
}

/// The tracks still current at `now`.
pub open spec fn current_tracks(m: Map<u32, TrackView>, now: u64, max_age: u64) -> Map<
    u32,
    TrackView,
> {
    Map::new(
        |k: u32| m.contains_key(k) && current(m[k].last_seen_ms, now, max_age),
        |k: u32| m[k],
    )
}

/// Whether `v` lists the tracked aircraft `m` in increasing address order.
pub open spec fn lists_tracks(v: Seq<Aircraft>, m: Map<u32, TrackView>) -> bool {
    &&& v.len() == m.dom().len()
    &&& forall|i: int, j: int| 0 <= i < j < v.len() ==> v[i].icao < v[j].icao
    &&& forall|i: int|
        #![trigger v[i]]
        0 <= i < v.len() ==> m.contains_key(v[i].icao) && aircraft_view(v[i]) == (
        m[v[i].icao].callsign,
        m[v[i].icao].altitude_ft,
        m[v[i].icao].last_seen_ms,
    )
}

/// An aircraft as plain values: callsign, altitude and last-seen time.
pub open spec fn aircraft_view(a: Aircraft) -> (Option<Seq<char>>, Option<i32>, u64) {
    (
        match a.callsign {
            Some(s) => Some(s@),
            None => None,
        },
        a.altitude_ft,
        a.last_seen_ms,
    )
}

struct Entry {
    callsign: Option<String>,
    altitude_ft: Option<i32>,
    last_seen_ms: u64,
    even: Option<CprSlot>,
    odd: Option<CprSlot>,
}

spec fn entry_view(e: Entry) -> TrackView {
    TrackView {
        callsign: match e.callsign {
            Some(s) => Some(s@),
            None => None,
        },
        altitude_ft: e.altitude_ft,
        last_seen_ms: e.last_seen_ms,
        even: e.even,
        odd: e.odd,
    }
}

/// Addresses obey the order that the map's specification assumes of its
/// keys.
pub open spec fn addresses_ordered() -> bool {
    vstd::std_specs::btree::key_obeys_cmp_spec::<u32>() && vstd::laws_cmp::obeys_cmp::<u32>()
}

pub proof fn lemma_addresses_ordered()
    ensures
        addresses_ordered(),
{
    broadcast use vstd::laws_cmp::group_laws_cmp;

}

proof fn lemma_increasing_addresses(s: Seq<u32>)
    requires
        vstd::std_specs::btree::increasing_seq(s),
        addresses_ordered(),
    ensures
        forall|i: int, j: int| 0 <= i < j < s.len() ==> s[i] < s[j],
{
    broadcast use vstd::std_specs::btree::axiom_increasing_seq_meaning;

    assert forall|i: int, j: int| 0 <= i < j < s.len() implies s[i] < s[j] by {
        assert(vstd::std_specs::cmp::OrdSpec::cmp_spec(&s[i], &s[j]) is Less);
    }
}

/// Aggregates decoded Mode S frames into live aircraft state.
pub struct AircraftTracker {
    max_age_ms: u64,
    cpr_window_ms: u64,
    by_icao: BTreeMap<u32, Entry>,
}

impl AircraftTracker {
    /// The tracked aircraft by address.
    pub closed spec fn tracks(&self) -> Map<u32, TrackView> {
        self.by_icao@.map_values(|e: Entry| entry_view(e))
    }

    /// How long an aircraft stays tracked without a frame.
    pub closed spec fn max_age(&self) -> u64 {
        self.max_age_ms
    }

    /// How far apart an even and an odd CPR half may be and still pair.
    pub closed spec fn cpr_window(&self) -> u64 {
        self.cpr_window_ms
    }

    /// `max_age_ms`: drop an aircraft not heard from within this window.
    /// `cpr_window_ms`: only pair an even and an odd CPR report whose times
    /// are within this window.
    pub fn new(max_age_ms: u64, cpr_window_ms: u64) -> (t: Self)
        ensures
            t.tracks() == Map::<u32, TrackView>::empty(),
            t.max_age() == max_age_ms,
            t.cpr_window() == cpr_window_ms,
    {
        let t = AircraftTracker { max_age_ms, cpr_window_ms, by_icao: BTreeMap::new() };
        assert(t.tracks() =~= Map::<u32, TrackView>::empty());
        t
    }

    /// Ingest a decoded Mode S frame at `now_ms`. A DF17/18 extended squitter
    /// updates (or starts) its aircraft's track and yields its address, with
    /// the CPR pair to solve when this frame completed a fresh even/odd pair;
    /// any other frame changes nothing and yields `None`.
    pub fn ingest(&mut self, bytes: &[u8], now_ms: u64) -> (r: Option<Ingested>)
        requires
            bytes@.len() >= 1,
            squitter(bytes@) ==> bytes@.len() >= 4,
        ensures
            final(self).max_age() == old(self).max_age(),
            final(self).cpr_window() == old(self).cpr_window(),
            !squitter(bytes@) ==> r is None && final(self).tracks() == old(self).tracks(),
            squitter(bytes@) ==> {
                let icao = field(bytes@, 8, 24) as u32;
                let before = if old(self).tracks().contains_key(icao) {
                    old(self).tracks()[icao]
                } else {
                    fresh_track()
                };
                let after = track_after(before, bytes@, now_ms);
                &&& final(self).tracks() == old(self).tracks().insert(icao, after)
                &&& r matches Some(g) && g.icao == icao && g.pair == pair_after(
                    after,
                    bytes@,
                    old(self).cpr_window(),
                )
            },
    {
        proof {
            lemma_addresses_ordered();
        }
        let m = ModeS::new(bytes);
        let df = m.df();
        if !(df == 17 || df == 18) {
            return None;
        }
        let icao = m.icao();
        let ghost old_map = self.by_icao@;
        let mut e = match self.by_icao.remove(&icao) {
            Some(e) => e,
            None => Entry { callsign: None, altitude_ft: None, last_seen_ms: 0, even: None, odd: None },
        };
        let ghost before = entry_view(e);
        assert(before == (if old(self).tracks().contains_key(icao) {
            old(self).tracks()[icao]
        } else {
            fresh_track()
        }));
        e.last_seen_ms = now_ms;
        let mut pair: Option<CprPair> = None;
        proof {
            lemma_field_bound(bytes@, 32, 5);
            vstd::arithmetic::power2::lemma2_to64();
        }
        match m.type_code() {
            Some(tc) => {
                if 1 <= tc && tc <= 4 {
                    if let Some(cs) = m.callsign() {
                        e.callsign = Some(cs);
                    }
                } else if let Some(ap) = m.airborne_position() {
                    if let Some(alt) = ap.altitude {
                        e.altitude_ft = Some(alt);
                    }
                    let slot = CprSlot { pos: ap, ts: now_ms };
                    if ap.odd {
                        e.odd = Some(slot);
                    } else {
                        e.even = Some(slot);
                    }
                    if let (Some(ev), Some(od)) = (e.even, e.odd) {
                        let apart = if ev.ts >= od.ts {
                            ev.ts - od.ts
                        } else {
                            od.ts - ev.ts
                        };
                        if apart <= self.cpr_window_ms {
                            pair = Some(CprPair { even: ev.pos, odd: od.pos, newest_is_odd: od.ts >= ev.ts });
                        }
                    }
                }
            },
            None => {},
        }
        let ghost after = entry_view(e);
        assert(after == track_after(before, bytes@, now_ms));
        self.by_icao.insert(icao, e);
        assert(self.tracks() =~= old(self).tracks().insert(icao, after));
        Some(Ingested { icao, pair })
    }

    /// Drop the aircraft not seen within `max_age_ms` of `now_ms`.
    pub fn prune(&mut self, now_ms: u64)
        ensures
            final(self).max_age() == old(self).max_age(),
            final(self).cpr_window() == old(self).cpr_window(),
            final(self).tracks() == current_tracks(old(self).tracks(), now_ms, old(self).max_age()),
    {
        proof {
            lemma_addresses_ordered();
        }
        let max = self.max_age_ms;
        let ghost old_map = self.by_icao@;
        let mut stale: Vec<u32> = Vec::new();
        proof {
            vstd::std_specs::btree::axiom_spec_keys_iter(&self.by_icao);
        }
        let ghost ks = vstd::std_specs::btree::spec_keys_iter(&self.by_icao).remaining();
        assert forall|k: u32| #[trigger] old_map.contains_key(k) implies exists|i: int|
            0 <= i < ks.len() && *ks[i] == k by {
            assert(ks.unref().to_set().contains(k));
            let i = choose|i: int| 0 <= i < ks.unref().len() && ks.unref()[i] == k;
            assert(*ks[i] == k);
        }
        for k in it: self.by_icao.keys()
            invariant
                self.by_icao@ == old_map,
                self.max_age_ms == old(self).max_age(),
                self.cpr_window_ms == old(self).cpr_window(),
                max == old(self).max_age(),
                addresses_ordered(),
                it.seq() == ks,
                forall|k: u32| #[trigger]
                    old_map.contains_key(k) ==> exists|i: int| 0 <= i < ks.len() && *ks[i] == k,
                forall|j: int|
                    0 <= j < stale.len() ==> old_map.contains_key(#[trigger] stale@[j]) && !current(
                        old_map[stale@[j]].last_seen_ms,
                        now_ms,
                        max,
                    ),
                forall|i: int|
                    0 <= i < it.index() && !current(old_map[*ks[i]].last_seen_ms, now_ms, max)
                        ==> stale@.contains(*#[trigger] ks[i]),
        {
            assert(*k == *ks[it.index()]);
            let ghost idx = it.index();
            let ghost before = stale@;
            let e = self.by_icao.get(k).unwrap();
            let seen = e.last_seen_ms;
            let age = if now_ms >= seen {
                now_ms - seen
            } else {
                0
            };
            if age > max {
                stale.push(*k);
                assert(stale@[stale.len() - 1] == *k);
            }
            assert forall|i: int|
                0 <= i < idx + 1 && !current(old_map[*ks[i]].last_seen_ms, now_ms, max) implies
                stale@.contains(*#[trigger] ks[i]) by {
                if i < idx {
                    let w = choose|w: int| 0 <= w < before.len() && before[w] == *ks[i];
                    assert(stale@[w] == before[w]);
                }
            }
        }
        let mut j: usize = 0;
        while j < stale.len()
            invariant
                j <= stale.len(),
                self.max_age_ms == old(self).max_age(),
                self.cpr_window_ms == old(self).cpr_window(),
                addresses_ordered(),
                self.by_icao@ == old_map.remove_keys(stale@.take(j as int).to_set()),
                forall|i: int|
                    0 <= i < stale.len() ==> old_map.contains_key(#[trigger] stale@[i]) && !current(
                        old_map[stale@[i]].last_seen_ms,
                        now_ms,
                        max,
                    ),
            decreases stale.len() - j,
        {
            let k = stale[j];
            self.by_icao.remove(&k);
            assert(stale@.take(j + 1) =~= stale@.take(j as int).push(k));
            proof {
                stale@.take(j as int).lemma_push_to_set_commute(k);
            }
            assert(self.by_icao@ =~= old_map.remove_keys(stale@.take(j + 1).to_set()));
            j = j + 1;
        }
        assert(stale@.take(stale.len() as int) =~= stale@);
        assert(self.tracks() =~= current_tracks(old(self).tracks(), now_ms, max)) by {
            assert forall|k: u32| #[trigger] old_map.contains_key(k) && !current(
                old_map[k].last_seen_ms,
                now_ms,
                max,
            ) implies stale@.to_set().contains(k) by {
                let i = choose|i: int| 0 <= i < ks.len() && *ks[i] == k;
                assert(stale@.contains(*ks[i]));
            }
        }
    }

    /// Snapshot of the tracked aircraft, in increasing address order. Does
    /// not prune.
    pub fn aircraft(&self) -> (v: Vec<Aircraft>)
        ensures
            lists_tracks(v@, self.tracks()),
    {
        proof {
            lemma_addresses_ordered();
        }
        let ghost kvs = vstd::std_specs::btree::spec_btree_map_iter(&self.by_icao).remaining();
        let ghost m = self.by_icao@;
        let mut v: Vec<Aircraft> = Vec::new();
        for kv in it: self.by_icao.iter()
            invariant
                addresses_ordered(),
                it.seq() == kvs,
                v.len() == it.index(),
                forall|i: int|
                    #![trigger v@[i]]
                    0 <= i < v.len() ==> v@[i].icao == *kvs[i].0 && aircraft_view(v@[i]) == (
                        entry_view(*kvs[i].1).callsign,
                        entry_view(*kvs[i].1).altitude_ft,
                        entry_view(*kvs[i].1).last_seen_ms,
                    ),
        {
            let (k, e) = kv;
            let cs = match &e.callsign {
                Some(s) => Some(s.clone()),
                None => None,
            };
            let a = Aircraft {
                icao: *k,
                callsign: cs,
                altitude_ft: e.altitude_ft,
                last_seen_ms: e.last_seen_ms,
            };
            v.push(a);
        }
        proof {
            let ks = kvs.map_values(|kv: (&u32, &Entry)| *kv.0);
            lemma_increasing_addresses(ks);
            assert(self.tracks().dom() =~= m.dom());
            assert forall|i: int, j: int| 0 <= i < j < v.len() implies v@[i].icao < v@[j].icao by {
                assert(ks[i] == *kvs[i].0 && ks[j] == *kvs[j].0);
            }
            assert forall|i: int| 0 <= i < v.len() implies #[trigger] self.tracks().contains_key(
                v@[i].icao,
            ) && aircraft_view(v@[i]) == (
                self.tracks()[v@[i].icao].callsign,
                self.tracks()[v@[i].icao].altitude_ft,
                self.tracks()[v@[i].icao].last_seen_ms,
            ) by {
                assert(m.contains_key(*kvs[i].0) && m[*kvs[i].0] == *kvs[i].1);
            }
        }
        v
    }

    /// Number of aircraft currently tracked.
    pub fn len(&self) -> (n: usize)
        ensures
            n == self.tracks().dom().len(),
    {
        proof {
            lemma_addresses_ordered();
            assert(self.tracks().dom() =~= self.by_icao@.dom());
        }
        self.by_icao.len()
    }

    /// Whether no aircraft is tracked.
    pub fn is_empty(&self) -> (b: bool)
        ensures
            b == (self.tracks().dom().len() == 0),
    {
        proof {
            lemma_addresses_ordered();
            assert(self.tracks().dom() =~= self.by_icao@.dom());
        }
        self.by_icao.len() == 0
    }
}

} // verus!
