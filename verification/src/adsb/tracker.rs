//! The ICAO-keyed live aircraft tracker: which decoded Mode S frames are
//! folded into per-aircraft state, and the integer update step (callsign,
//! barometric altitude from type codes 9-18 only, last-seen time, CPR half
//! slots and the pair to solve), with whether a reportable field changed.
//! Solving positions and decoding velocities is the caller's.
use vstd::prelude::*;
use std::collections::BTreeMap;
use vstd::std_specs::iter::IteratorSpec;
use crate::adsb::message::{callsign_raw, field, lemma_field_bound, trim_trailing_spaces, ModeS};
use crate::adsb::track::{
    addresses_ordered, aircraft_view, current, current_tracks, fresh_track,
    lemma_addresses_ordered, pair_after, position_frame, position_of, Aircraft, CprPair, CprSlot,
    TrackView,
};

verus! {

/// Outcome of ingesting one frame.
#[derive(Clone, Copy, Debug, PartialEq, Eq)]
pub enum Ingest {
    /// A tracked aircraft's reportable state changed; holds its ICAO address.
    Updated(u32),
    /// A recognized squitter that added nothing new (an exact duplicate, or a
    /// lone CPR half that could not yet be solved).
    Unchanged(u32),
    /// Not a frame the tracker folds in (wrong DF, non-ADS-B type code,
    /// garbage).
    Ignored,
}

/// Type codes the tracker folds in: identification (1-4), airborne position
/// (9-18, 20-22) and airborne velocity (19).
pub open spec fn tracked_type_code(tc: int) -> bool {
    (1 <= tc <= 4) || (9 <= tc <= 22)
}

/// What a frame is to the tracker: `Some((icao, type_code))` for a long (14
/// byte) DF17 or DF18 extended squitter with a tracked type code, else `None`.
pub open spec fn squitter_kind(msg: Seq<u8>) -> Option<(u32, u8)> {
    if msg.len() < 14 {
        None
    } else {
        let df = msg[0] >> 3u8;
        let tc = field(msg, 32, 5);
        if (df == 17 || df == 18) && tracked_type_code(tc as int) {
            Some((field(msg, 8, 24) as u32, tc as u8))
        } else {
            None
        }
    }
}

/// The frames the live tracker folds in are exactly the long (at least 14
/// byte) frames of downlink format 17 or 18 (first byte 136 to 151) whose
/// type code is identification, airborne position or velocity, filed under
/// the address in bits 8..32.
pub proof fn lemma_tracked_frames(msg: Seq<u8>)
    ensures
        squitter_kind(msg) is Some <==> (msg.len() >= 14 && 136 <= msg[0] < 152 && ({
            let tc = field(msg, 32, 5);
            (1 <= tc <= 4) || (9 <= tc <= 22)
        })),
        squitter_kind(msg) matches Some(k) ==> k.0 as nat == field(msg, 8, 24),
{
    if msg.len() >= 1 {
        vstd::bits::lemma_u8_shr_is_div(msg[0], 3);
    }
    lemma_field_bound(msg, 8, 24);
    vstd::arithmetic::power2::lemma2_to64();
}

/// Decide whether the tracker folds `frame` in: a DF17/18 extended squitter of
/// at least 14 bytes whose type code is tracked yields its ICAO address and
/// type code; anything else is ignored before any state is touched.
pub fn classify_squitter(frame: &[u8]) -> (r: Option<(u32, u8)>)
    ensures
        r == squitter_kind(frame@),
{
    if frame.len() < 14 {
        return None;
    }
    let msg = ModeS::new(frame);
    proof {
        lemma_field_bound(frame@, 32, 5);
        lemma_field_bound(frame@, 8, 24);
        vstd::arithmetic::power2::lemma2_to64();
    }
    let df = msg.df();
    if !(df == 17 || df == 18) {
        return None;
    }
    let tc = match msg.type_code() {
        Some(tc) => tc,
        None => {
            return None;
        },
    };
    let icao = msg.icao();
    if !((1 <= tc && tc <= 4) || (9 <= tc && tc <= 22)) {
        return None;
    }
    Some((icao, tc))
}

/// Maximum age difference between the even and odd CPR halves of a pair.
pub const CPR_PAIR_WINDOW_MS: u64 = 10_000;

/// An aircraft's tracked state after a folded-in frame (a long DF17/18
/// squitter with a tracked type code) arrives at `now`: the time is noted; an
/// identification sets the callsign; a position frame stores its CPR half in
/// the even or odd slot and, for a barometric type code (9-18) holding one,
/// its altitude; a velocity frame changes nothing more.
pub open spec fn live_track_after(t: TrackView, msg: Seq<u8>, now: u64) -> TrackView {
    let t1 = TrackView { last_seen_ms: now, ..t };
    let tc = field(msg, 32, 5);
    if 1 <= tc <= 4 {
        TrackView { callsign: Some(trim_trailing_spaces(callsign_raw(msg, 8))), ..t1 }
    } else if position_frame(msg) {
        let p = position_of(msg);
        let alt = if 9 <= tc <= 18 && p.altitude is Some {
            p.altitude
        } else {
            t.altitude_ft
        };
        let slot = CprSlot { pos: p, ts: now };
        if p.odd {
            TrackView { altitude_ft: alt, odd: Some(slot), ..t1 }
        } else {
            TrackView { altitude_ft: alt, even: Some(slot), ..t1 }
        }
    } else {
        t1
    }
}

/// Whether a reportable field held here (callsign or altitude) changed.
pub open spec fn reported_change(before: TrackView, after: TrackView) -> bool {
    before.callsign != after.callsign || before.altitude_ft != after.altitude_ft
}

/// What one ingested frame did: whether a reportable field held here changed
/// (`Updated`), nothing did (`Unchanged`) or the frame is not folded in
/// (`Ignored`), and the CPR pair to solve when this frame completed a fresh
/// even/odd pair. A solved position or a velocity is the caller's to compare.
#[derive(Clone, Copy, Debug, PartialEq, Eq)]
pub struct Update {
    pub ingest: Ingest,
    pub pair: Option<CprPair>,
}

struct Track {
    ac: Aircraft,
    even: Option<CprSlot>,
    odd: Option<CprSlot>,
}

spec fn track_view(t: Track) -> TrackView {
    TrackView {
        callsign: match t.ac.callsign {
            Some(s) => Some(s@),
            None => None,
        },
        altitude_ft: t.ac.altitude_ft,
        last_seen_ms: t.ac.last_seen_ms,
        even: t.even,
        odd: t.odd,
    }
}

/// ICAO-keyed store of live aircraft.
pub struct AircraftTracker {
    tracks: BTreeMap<u32, Track>,
}

impl AircraftTracker {
    /// The tracked aircraft by address.
    pub closed spec fn tracks(&self) -> Map<u32, TrackView> {
        self.tracks@.map_values(|t: Track| track_view(t))
    }

    /// Each track is filed under its own address.
    pub closed spec fn wf(&self) -> bool {
        forall|k: u32| #[trigger] self.tracks@.contains_key(k) ==> self.tracks@[k].ac.icao == k
    }

    pub fn new() -> (t: Self)
        ensures
            t.wf(),
            t.tracks() == Map::<u32, TrackView>::empty(),
    {
        let t = AircraftTracker { tracks: BTreeMap::new() };
        assert(t.tracks() =~= Map::<u32, TrackView>::empty());
        t
    }

    /// Fold one decoded Mode S frame (parity already verified) into the
    /// per-aircraft state at time `now_ms`. Frames that are not long DF17/18
    /// squitters of a tracked type code are ignored before any state is
    /// touched.
    pub fn ingest(&mut self, frame: &[u8], now_ms: u64) -> (r: Update)
        requires
            old(self).wf(),
        ensures
            final(self).wf(),
            match squitter_kind(frame@) {
                None => r.ingest == Ingest::Ignored && r.pair is None && final(self).tracks()
                    == old(self).tracks(),
                Some(k) => {
                    let icao = k.0;
                    let before = if old(self).tracks().contains_key(icao) {
                        old(self).tracks()[icao]
                    } else {
                        fresh_track()
                    };
                    let after = live_track_after(before, frame@, now_ms);
                    &&& final(self).tracks() == old(self).tracks().insert(icao, after)
                    &&& r.ingest == (if reported_change(before, after) {
                        Ingest::Updated(icao)
                    } else {
                        Ingest::Unchanged(icao)
                    })
                    &&& r.pair == pair_after(after, frame@, CPR_PAIR_WINDOW_MS)
                },
            },
    {
        proof {
            lemma_addresses_ordered();
        }
        let (icao, tc) = match classify_squitter(frame) {
            Some(k) => k,
            None => {
                return Update { ingest: Ingest::Ignored, pair: None };
            },
        };
        let m = ModeS::new(frame);
        let mut t = match self.tracks.remove(&icao) {
            Some(t) => t,
            None => Track {
                ac: Aircraft { icao, callsign: None, altitude_ft: None, last_seen_ms: 0 },
                even: None,
                odd: None,
            },
        };
        let ghost before = track_view(t);
        assert(before == (if old(self).tracks().contains_key(icao) {
            old(self).tracks()[icao]
        } else {
            fresh_track()
        }));
        t.ac.last_seen_ms = now_ms;
        let mut pair: Option<CprPair> = None;
        let mut changed = false;
        if 1 <= tc && tc <= 4 {
            let cs = m.callsign();
            changed = match (&t.ac.callsign, &cs) {
                (Some(a), Some(b)) => !crate::text::str_eq(a.as_str(), b.as_str()),
                (None, None) => false,
                _ => true,
            };
            t.ac.callsign = cs;
        } else if let Some(ap) = m.airborne_position() {
            if 9 <= tc && tc <= 18 {
                if let Some(alt) = ap.altitude {
                    changed = match t.ac.altitude_ft {
                        Some(a) => a != alt,
                        None => true,
                    };
                    t.ac.altitude_ft = Some(alt);
                }
            }
            let slot = CprSlot { pos: ap, ts: now_ms };
            if ap.odd {
                t.odd = Some(slot);
            } else {
                t.even = Some(slot);
            }
            if let (Some(ev), Some(od)) = (t.even, t.odd) {
                let apart = if ev.ts >= od.ts {
                    ev.ts - od.ts
                } else {
                    od.ts - ev.ts
                };
                if apart <= CPR_PAIR_WINDOW_MS {
                    pair = Some(CprPair { even: ev.pos, odd: od.pos, newest_is_odd: od.ts >= ev.ts });
                }
            }
        }
        let ghost after = track_view(t);
        assert(after == live_track_after(before, frame@, now_ms));
        assert(changed == reported_change(before, after));
        self.tracks.insert(icao, t);
        assert(self.tracks() =~= old(self).tracks().insert(icao, after));
        let ingest = if changed {
            Ingest::Updated(icao)
        } else {
            Ingest::Unchanged(icao)
        };
        Update { ingest, pair }
    }

    /// Latest state for an aircraft, if tracked.
    pub fn get(&self, icao: u32) -> (r: Option<&Aircraft>)
        requires
            self.wf(),
        ensures
            match r {
                Some(a) => self.tracks().contains_key(icao) && a.icao == icao && aircraft_view(*a)
                    == (
                    self.tracks()[icao].callsign,
                    self.tracks()[icao].altitude_ft,
                    self.tracks()[icao].last_seen_ms,
                ),
                None => !self.tracks().contains_key(icao),
            },
    {
        proof {
            lemma_addresses_ordered();
        }
        match self.tracks.get(&icao) {
            Some(t) => Some(&t.ac),
            None => None,
        }
    }

    /// Number of tracked aircraft.
    pub fn len(&self) -> (n: usize)
        ensures
            n == self.tracks().dom().len(),
    {
        proof {
            lemma_addresses_ordered();
            assert(self.tracks().dom() =~= self.tracks@.dom());
        }
        self.tracks.len()
    }

    /// Whether no aircraft is tracked.
    pub fn is_empty(&self) -> (b: bool)
        ensures
            b == (self.tracks().dom().len() == 0),
    {
        proof {
            lemma_addresses_ordered();
            assert(self.tracks().dom() =~= self.tracks@.dom());
        }
        self.tracks.len() == 0
    }

    /// Drop aircraft not heard from within `ttl_ms` of `now_ms`, returning the
    /// addresses removed (each once, in increasing order of address).
    pub fn prune(&mut self, now_ms: u64, ttl_ms: u64) -> (removed: Vec<u32>)
        requires
            old(self).wf(),
        ensures
            final(self).wf(),
            final(self).tracks() == current_tracks(old(self).tracks(), now_ms, ttl_ms),
            removed@.no_duplicates(),
            forall|k: u32|
                removed@.contains(k) <==> (old(self).tracks().contains_key(k) && !current(
                    #[trigger] old(self).tracks()[k].last_seen_ms,
                    now_ms,
                    ttl_ms,
                )),
    {
        proof {
            lemma_addresses_ordered();
        }
        let ghost old_map = self.tracks@;
        let mut stale: Vec<u32> = Vec::new();
        proof {
            vstd::std_specs::btree::axiom_spec_keys_iter(&self.tracks);
        }
        let ghost ks = vstd::std_specs::btree::spec_keys_iter(&self.tracks).remaining();
        assert forall|k: u32| #[trigger] old_map.contains_key(k) implies exists|i: int|
            0 <= i < ks.len() && *ks[i] == k by {
            assert(ks.unref().to_set().contains(k));
            let i = choose|i: int| 0 <= i < ks.unref().len() && ks.unref()[i] == k;
            assert(*ks[i] == k);
        }
        let ghost mut pos: Seq<int> = Seq::empty();
        for k in it: self.tracks.keys()
            invariant
                self.tracks@ == old_map,
                addresses_ordered(),
                it.seq() == ks,
                ks.unref().no_duplicates(),
                forall|k: u32| #[trigger]
                    old_map.contains_key(k) ==> exists|i: int| 0 <= i < ks.len() && *ks[i] == k,
                forall|j: int|
                    0 <= j < stale.len() ==> old_map.contains_key(#[trigger] stale@[j]) && !current(
                        old_map[stale@[j]].ac.last_seen_ms,
                        now_ms,
                        ttl_ms,
                    ),
                pos.len() == stale.len(),
                forall|j: int|
                    0 <= j < stale.len() ==> 0 <= #[trigger] pos[j] < it.index() && *ks[pos[j]]
                        == stale@[j],
                stale@.no_duplicates(),
                forall|i: int|
                    0 <= i < it.index() && !current(old_map[*ks[i]].ac.last_seen_ms, now_ms, ttl_ms)
                        ==> stale@.contains(*#[trigger] ks[i]),
        {
            assert(*k == *ks[it.index()]);
            let ghost idx = it.index();
            let ghost before = stale@;
            let t = self.tracks.get(k).unwrap();
            let seen = t.ac.last_seen_ms;
            let age = if now_ms >= seen {
                now_ms - seen
            } else {
                0
            };
            if age > ttl_ms {
                proof {
                    assert forall|j: int| 0 <= j < before.len() implies before[j] != *k by {
                        let i = pos[j];
                        assert(*ks[i] == before[j]);
                        assert(ks.unref()[i] == *ks[i]);
                        assert(ks.unref()[idx] == *ks[idx]);
                        if before[j] == *k {
                            assert(i != idx);
                        }
                    }
                    pos = pos.push(idx);
                }
                stale.push(*k);
                assert(stale@[stale.len() - 1] == *k);
                assert(stale@ =~= before.push(*k));
            }
            assert forall|i: int|
                0 <= i < idx + 1 && !current(old_map[*ks[i]].ac.last_seen_ms, now_ms, ttl_ms) implies
                stale@.contains(*#[trigger] ks[i]) by {
                if i < idx {
                    let w = choose|w: int| 0 <= w < before.len() && before[w] == *ks[i];
                    assert(stale@[w] == before[w]);
                }
            }
        }
        let mut j: usize = 0;
        while j < stale.len()
            invariant
                j <= stale.len(),
                addresses_ordered(),
                self.tracks@ == old_map.remove_keys(stale@.take(j as int).to_set()),
                forall|k: u32| #[trigger]
                    old_map.contains_key(k) ==> old_map[k].ac.icao == k,
            decreases stale.len() - j,
        {
            let k = stale[j];
            self.tracks.remove(&k);
            assert(stale@.take(j + 1) =~= stale@.take(j as int).push(k));
            proof {
                stale@.take(j as int).lemma_push_to_set_commute(k);
            }
            assert(self.tracks@ =~= old_map.remove_keys(stale@.take(j + 1).to_set()));
            j = j + 1;
        }
        assert(stale@.take(stale.len() as int) =~= stale@);
        assert forall|k: u32| #[trigger] old_map.contains_key(k) && !current(
            old_map[k].ac.last_seen_ms,
            now_ms,
            ttl_ms,
        ) implies stale@.contains(k) by {
            let i = choose|i: int| 0 <= i < ks.len() && *ks[i] == k;
            assert(stale@.contains(*ks[i]));
        }
        assert(self.tracks() =~= current_tracks(old(self).tracks(), now_ms, ttl_ms));
        stale
    }
}

} // verus!
