//! The ingestion boundary: one explicit validation-and-defaulting pass that
//! turns the raw (optional-field) document the shell hands over into the
//! fully typed model, plus the check that the model is small enough for
//! every total this library computes to fit a machine word. Defaults follow
//! the input contract: missing timestamp "000", missing slug "race",
//! missing slot count 6, missing name, occupant or zone their placeholders,
//! missing numbers zero; a time of zero means "no valid lap" and becomes an
//! absent time.

use vstd::prelude::*;
use crate::model::{
    all_samples, lemma_races_concat, lemma_sessions_concat, samples_of_races,
    samples_of_sessions, weight, EventInfo, EventMeta, OfficialEntry, PenaltyEntry, Pilot, Race,
    RaceDataModel, Session, SlotSample, ZoneEntry,
};

verus! {

pub struct RawSlot {
    pub slot_id: u64,
    pub pilot_id: Option<String>,
    pub laps: Option<u64>,
    pub time: Option<u64>,
}

pub struct RawSession {
    pub slots: Vec<RawSlot>,
}

pub struct RawRace {
    pub sessions: Vec<RawSession>,
}

pub struct RawPilot {
    pub id: String,
    pub name: Option<String>,
}

pub struct RawOfficialEntry {
    pub pilot_id: String,
    pub laps: Option<u64>,
    pub gap: Option<String>,
}

pub struct RawPenaltyEntry {
    pub pilot_id: String,
    pub value: Option<i64>,
}

pub struct RawZoneEntry {
    pub pilot_id: String,
    pub zone: Option<String>,
}

/// The document as the shell parsed it: every optional field still absent
/// where the source had nothing usable.
pub struct RawDocument {
    pub timestamp: Option<String>,
    pub slug: Option<String>,
    pub slots: Option<u64>,
    pub pilots: Vec<RawPilot>,
    pub races: Vec<RawRace>,
    pub official_ranking: Vec<RawOfficialEntry>,
    pub penalties: Vec<RawPenaltyEntry>,
    pub zones: Vec<RawZoneEntry>,
}

pub open spec fn opt_text(o: Option<String>, dflt: Seq<char>) -> Seq<char> {
    match o {
        Some(s) => s@,
        None => dflt,
    }
}

pub open spec fn slot_ok(r: RawSlot, s: SlotSample) -> bool {
    &&& s.slot_id == r.slot_id
    &&& s.pilot_id@ == opt_text(r.pilot_id, "---"@)
    &&& s.laps == match r.laps {
        Some(l) => l,
        None => 0u64,
    }
    &&& s.time == match r.time {
        Some(t) => if t > 0 {
            Some(t)
        } else {
            None::<u64>
        },
        None => None::<u64>,
    }
}

pub open spec fn session_ok(r: RawSession, s: Session) -> bool {
    &&& s.slots@.len() == r.slots@.len()
    &&& forall|i: int| 0 <= i < r.slots@.len() ==> slot_ok(r.slots@[i], #[trigger] s.slots@[i])
}

pub open spec fn race_ok(r: RawRace, s: Race) -> bool {
    &&& s.sessions@.len() == r.sessions@.len()
    &&& forall|i: int|
        0 <= i < r.sessions@.len() ==> session_ok(r.sessions@[i], #[trigger] s.sessions@[i])
}

/// What the defaulting pass promises of the whole model.
pub open spec fn model_ok(r: RawDocument, m: RaceDataModel) -> bool {
    &&& m.event.timestamp@ == opt_text(r.timestamp, "000"@)
    &&& m.event.slug@ == opt_text(r.slug, "race"@)
    &&& m.metadata.slots == match r.slots {
        Some(n) => n,
        None => 6u64,
    }
    &&& m.pilots@.len() == r.pilots@.len()
    &&& forall|i: int|
        0 <= i < r.pilots@.len() ==> (#[trigger] m.pilots@[i]).id@ == r.pilots@[i].id@
            && m.pilots@[i].name@ == opt_text(r.pilots@[i].name, "---"@)
    &&& m.races@.len() == r.races@.len()
    &&& forall|i: int| 0 <= i < r.races@.len() ==> race_ok(r.races@[i], #[trigger] m.races@[i])
    &&& m.official_ranking@.len() == r.official_ranking@.len()
    &&& forall|i: int|
        0 <= i < r.official_ranking@.len() ==> {
            &&& (#[trigger] m.official_ranking@[i]).pilot_id@ == r.official_ranking@[i].pilot_id@
            &&& m.official_ranking@[i].laps == match r.official_ranking@[i].laps {
                Some(l) => l,
                None => 0u64,
            }
            &&& m.official_ranking@[i].gap@ == opt_text(r.official_ranking@[i].gap, "0"@)
        }
    &&& m.penalties@.len() == r.penalties@.len()
    &&& forall|i: int|
        0 <= i < r.penalties@.len() ==> (#[trigger] m.penalties@[i]).pilot_id@
            == r.penalties@[i].pilot_id@ && m.penalties@[i].value == match r.penalties@[i].value {
            Some(v) => v,
            None => 0i64,
        }
    &&& m.zones@.len() == r.zones@.len()
    &&& forall|i: int|
        0 <= i < r.zones@.len() ==> (#[trigger] m.zones@[i]).pilot_id@ == r.zones@[i].pilot_id@
            && m.zones@[i].zone@ == opt_text(r.zones@[i].zone, "000"@)
}

fn text_or(o: &Option<String>, dflt: &str) -> (s: String)
    ensures
        s@ == opt_text(*o, dflt@),
{
    match o {
        Some(t) => t.clone(),
        None => dflt.to_owned(),
    }
}

fn build_slot(r: &RawSlot) -> (s: SlotSample)
    ensures
        slot_ok(*r, s),
{
    SlotSample {
        slot_id: r.slot_id,
        pilot_id: text_or(&r.pilot_id, "---"),
        laps: match r.laps {
            Some(l) => l,
            None => 0,
        },
        time: match r.time {
            Some(t) => if t > 0 {
                Some(t)
            } else {
                None
            },
            None => None,
        },
    }
}

fn build_session(r: &RawSession) -> (s: Session)
    ensures
        session_ok(*r, s),
{
    let mut slots: Vec<SlotSample> = Vec::new();
    let mut i: usize = 0;
    while i < r.slots.len()
        invariant
            i <= r.slots@.len(),
            slots@.len() == i,
            forall|q: int| 0 <= q < i ==> slot_ok(r.slots@[q], #[trigger] slots@[q]),
        decreases r.slots@.len() - i,
    {
        slots.push(build_slot(&r.slots[i]));
        i += 1;
    }
    Session { slots }
}

fn build_race(r: &RawRace) -> (s: Race)
    ensures
        race_ok(*r, s),
{
    let mut sessions: Vec<Session> = Vec::new();
    let mut i: usize = 0;
    while i < r.sessions.len()
        invariant
            i <= r.sessions@.len(),
            sessions@.len() == i,
            forall|q: int| 0 <= q < i ==> session_ok(r.sessions@[q], #[trigger] sessions@[q]),
        decreases r.sessions@.len() - i,
    {
        sessions.push(build_session(&r.sessions[i]));
        i += 1;
    }
    Race { sessions }
}

/// The one validation-and-defaulting pass: every absent optional field
/// resolves to its documented default, a non-positive time resolves to "no
/// valid lap", and every downstream component works on the result alone.
pub fn build_model(r: &RawDocument) -> (m: RaceDataModel)
    ensures
        model_ok(*r, m),
{
    let mut pilots: Vec<Pilot> = Vec::new();
    let mut i: usize = 0;
    while i < r.pilots.len()
        invariant
            i <= r.pilots@.len(),
            pilots@.len() == i,
            forall|q: int|
                0 <= q < i ==> (#[trigger] pilots@[q]).id@ == r.pilots@[q].id@ && pilots@[q].name@
                    == opt_text(r.pilots@[q].name, "---"@),
        decreases r.pilots@.len() - i,
    {
        pilots.push(
            Pilot { id: r.pilots[i].id.clone(), name: text_or(&r.pilots[i].name, "---") },
        );
        i += 1;
    }
    let mut races: Vec<Race> = Vec::new();
    let mut i: usize = 0;
    while i < r.races.len()
        invariant
            i <= r.races@.len(),
            races@.len() == i,
            forall|q: int| 0 <= q < i ==> race_ok(r.races@[q], #[trigger] races@[q]),
        decreases r.races@.len() - i,
    {
        races.push(build_race(&r.races[i]));
        i += 1;
    }
    let mut official: Vec<OfficialEntry> = Vec::new();
    let mut i: usize = 0;
    while i < r.official_ranking.len()
        invariant
            i <= r.official_ranking@.len(),
            official@.len() == i,
            forall|q: int|
                0 <= q < i ==> {
                    &&& (#[trigger] official@[q]).pilot_id@ == r.official_ranking@[q].pilot_id@
                    &&& official@[q].laps == match r.official_ranking@[q].laps {
                        Some(l) => l,
                        None => 0u64,
                    }
                    &&& official@[q].gap@ == opt_text(r.official_ranking@[q].gap, "0"@)
                },
        decreases r.official_ranking@.len() - i,
    {
        let e = &r.official_ranking[i];
        official.push(
            OfficialEntry {
                pilot_id: e.pilot_id.clone(),
                laps: match e.laps {
                    Some(l) => l,
                    None => 0,
                },
                gap: text_or(&e.gap, "0"),
            },
        );
        i += 1;
    }
    let mut penalties: Vec<PenaltyEntry> = Vec::new();
    let mut i: usize = 0;
    while i < r.penalties.len()
        invariant
            i <= r.penalties@.len(),
            penalties@.len() == i,
            forall|q: int|
                0 <= q < i ==> (#[trigger] penalties@[q]).pilot_id@ == r.penalties@[q].pilot_id@
                    && penalties@[q].value == match r.penalties@[q].value {
                    Some(v) => v,
                    None => 0i64,
                },
        decreases r.penalties@.len() - i,
    {
        let e = &r.penalties[i];
        penalties.push(
            PenaltyEntry {
                pilot_id: e.pilot_id.clone(),
                value: match e.value {
                    Some(v) => v,
                    None => 0,
                },
            },
        );
        i += 1;
    }
    let mut zones: Vec<ZoneEntry> = Vec::new();
    let mut i: usize = 0;
    while i < r.zones.len()
        invariant
            i <= r.zones@.len(),
            zones@.len() == i,
            forall|q: int|
                0 <= q < i ==> (#[trigger] zones@[q]).pilot_id@ == r.zones@[q].pilot_id@
                    && zones@[q].zone@ == opt_text(r.zones@[q].zone, "000"@),
        decreases r.zones@.len() - i,
    {
        let e = &r.zones[i];
        zones.push(ZoneEntry { pilot_id: e.pilot_id.clone(), zone: text_or(&e.zone, "000") });
        i += 1;
    }
    RaceDataModel {
        event: EventInfo {
            timestamp: text_or(&r.timestamp, "000"),
            slug: text_or(&r.slug, "race"),
        },
        metadata: EventMeta {
            slots: match r.slots {
                Some(n) => n,
                None => 6,
            },
        },
        pilots,
        races,
        official_ranking: official,
        penalties,
        zones,
    }
}

/// Every slot of the traversal is a sample of the model.
proof fn lemma_sample_in_model(m: RaceDataModel, ri: int, si: int, k: int)
    requires
        0 <= ri < m.races@.len(),
        0 <= si < m.races@[ri].sessions@.len(),
        0 <= k < m.races@[ri].sessions@[si].slots@.len(),
    ensures
        exists|i: int|
            0 <= i < all_samples(m).len() && all_samples(m)[i] == m.races@[ri].sessions@[si].slots@[k],
{
    let rs = m.races@;
    let ss = rs[ri].sessions@;
    let sl = ss[si].slots@;
    assert(rs =~= rs.take(ri) + seq![rs[ri]] + rs.skip(ri + 1));
    lemma_races_concat(rs.take(ri) + seq![rs[ri]], rs.skip(ri + 1));
    lemma_races_concat(rs.take(ri), seq![rs[ri]]);
    assert(seq![rs[ri]].drop_last() =~= Seq::<Race>::empty());
    assert(seq![rs[ri]].len() == 1 && seq![rs[ri]].last() == rs[ri]);
    assert(samples_of_races(Seq::<Race>::empty()) =~= Seq::<SlotSample>::empty());
    assert(samples_of_races(seq![rs[ri]]) =~= samples_of_sessions(ss));
    assert(ss =~= ss.take(si) + seq![ss[si]] + ss.skip(si + 1));
    lemma_sessions_concat(ss.take(si) + seq![ss[si]], ss.skip(si + 1));
    lemma_sessions_concat(ss.take(si), seq![ss[si]]);
    assert(seq![ss[si]].drop_last() =~= Seq::<Session>::empty());
    assert(seq![ss[si]].len() == 1 && seq![ss[si]].last() == ss[si]);
    assert(samples_of_sessions(Seq::<Session>::empty()) =~= Seq::<SlotSample>::empty());
    assert(samples_of_sessions(seq![ss[si]]) =~= sl);
    let a = samples_of_races(rs.take(ri));
    let b = samples_of_sessions(ss.take(si));
    let i = a.len() + b.len() + k;
    assert(all_samples(m) =~= a + b + sl + samples_of_sessions(ss.skip(si + 1))
        + samples_of_races(rs.skip(ri + 1)));
    assert(all_samples(m)[i] == sl[k]);
}

/// Decides whether a model is well formed: every recorded time positive and
/// the total weight of its lap counts within a machine word.
pub fn model_fits(m: &RaceDataModel) -> (r: bool)
    ensures
        r == m.wf(),
{
    let mut acc: u64 = 0;
    let mut ri: usize = 0;
    while ri < m.races.len()
        invariant
            ri <= m.races@.len(),
            acc == weight(samples_of_races(m.races@.take(ri as int))),
            forall|i: int|
                0 <= i < samples_of_races(m.races@.take(ri as int)).len() ==> (
                #[trigger] samples_of_races(m.races@.take(ri as int))[i]).wf(),
        decreases m.races@.len() - ri,
    {
        let race = &m.races[ri];
        let mut si: usize = 0;
        while si < race.sessions.len()
            invariant
                ri < m.races@.len(),
                race == m.races@[ri as int],
                si <= race.sessions@.len(),
                acc == weight(
                    samples_of_races(m.races@.take(ri as int)) + samples_of_sessions(
                        race.sessions@.take(si as int),
                    ),
                ),
                forall|i: int|
                    0 <= i < (samples_of_races(m.races@.take(ri as int)) + samples_of_sessions(
                        race.sessions@.take(si as int),
                    )).len() ==> (#[trigger] (samples_of_races(m.races@.take(ri as int))
                        + samples_of_sessions(race.sessions@.take(si as int)))[i]).wf(),
            decreases race.sessions@.len() - si,
        {
            let session = &race.sessions[si];
            let mut k: usize = 0;
            while k < session.slots.len()
                invariant
                    ri < m.races@.len(),
                    race == m.races@[ri as int],
                    si < race.sessions@.len(),
                    session == race.sessions@[si as int],
                    k <= session.slots@.len(),
                    acc == weight(
                        samples_of_races(m.races@.take(ri as int)) + samples_of_sessions(
                            race.sessions@.take(si as int),
                        ) + session.slots@.take(k as int),
                    ),
                    forall|i: int|
                        0 <= i < (samples_of_races(m.races@.take(ri as int))
                            + samples_of_sessions(race.sessions@.take(si as int))
                            + session.slots@.take(k as int)).len() ==> (#[trigger] (
                        samples_of_races(m.races@.take(ri as int)) + samples_of_sessions(
                            race.sessions@.take(si as int),
                        ) + session.slots@.take(k as int))[i]).wf(),
                decreases session.slots@.len() - k,
            {
                let ghost prefix = samples_of_races(m.races@.take(ri as int))
                    + samples_of_sessions(race.sessions@.take(si as int)) + session.slots@.take(
                    k as int,
                );
                let sample = &session.slots[k];
                let ghost next_prefix = samples_of_races(m.races@.take(ri as int))
                    + samples_of_sessions(race.sessions@.take(si as int)) + session.slots@.take(
                    k as int + 1,
                );
                proof {
                    assert(next_prefix =~= prefix.push(*sample));
                    assert(next_prefix.drop_last() =~= prefix);
                    lemma_sample_in_model(*m, ri as int, si as int, k as int);
                }
                match sample.time {
                    Some(t) => {
                        if t == 0 {
                            proof {
                                let w = choose|i: int|
                                    0 <= i < all_samples(*m).len() && all_samples(*m)[i] == *sample;
                                assert(!all_samples(*m)[w].wf());
                            }
                            return false;
                        }
                    },
                    None => {},
                }
                if acc >= u64::MAX - sample.laps {
                    // the next prefix already outweighs a machine word, so
                    // the whole event does too
                    proof {
                        crate::aggregate::lemma_prefix_weight_bound(
                            *m,
                            ri as int,
                            si as int,
                            k as int + 1,
                        );
                        assert(weight(next_prefix) > u64::MAX);
                    }
                    return false;
                }
                acc = acc + sample.laps + 1;
                k += 1;
            }
            proof {
                assert(session.slots@.take(session.slots@.len() as int) =~= session.slots@);
                assert(race.sessions@.take(si as int + 1).drop_last() =~= race.sessions@.take(
                    si as int,
                ));
                assert(samples_of_races(m.races@.take(ri as int)) + samples_of_sessions(
                    race.sessions@.take(si as int),
                ) + session.slots@ =~= samples_of_races(m.races@.take(ri as int))
                    + samples_of_sessions(race.sessions@.take(si as int + 1)));
            }
            si += 1;
        }
        proof {
            assert(m.races@.take(ri as int + 1).drop_last() =~= m.races@.take(ri as int));
            assert(race.sessions@.take(race.sessions@.len() as int) =~= race.sessions@);
            assert(samples_of_races(m.races@.take(ri as int)) + samples_of_sessions(
                race.sessions@.take(race.sessions@.len() as int),
            ) =~= samples_of_races(m.races@.take(ri as int + 1)));
        }
        ri += 1;
    }
    proof {
        assert(m.races@.take(m.races@.len() as int) =~= m.races@);
    }
    true
}

} // verus!
