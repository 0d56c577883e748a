//! Per-pilot aggregation: one walk over every race, session and slot of the
//! event, folding the slots occupied by the queried pilot into a lap total,
//! a count of sessions with laps, the best lap (the earliest slot in
//! traversal order wins a tie, since only a strictly better time replaces
//! the incumbent), and per-slot lap/time records (a slot revisited in a
//! later session keeps the later record).

use vstd::prelude::*;
use vstd::pervasive::VecAdditionalExecFns;
use crate::model::{
    RaceDataModel, Race, Session, SlotSample, all_samples, samples_of_races, samples_of_sessions,
    weight, lemma_weight_nonneg, lemma_weight_concat, lemma_races_concat, lemma_sessions_concat,
};

verus! {

/// Ghost state of the aggregation fold.
pub ghost struct AggState {
    pub total: int,
    pub sessions: int,
    /// Best lap so far: time in thousandths and the slot where it was set.
    pub best: Option<(u64, u64)>,
    /// Per-slot records: slot id to (laps, time).
    pub slots: Map<u64, (u64, Option<u64>)>,
}

pub open spec fn init_state() -> AggState {
    AggState { total: 0, sessions: 0, best: None, slots: Map::empty() }
}

/// A candidate time replaces the incumbent only when strictly better.
pub open spec fn improves(t: u64, best: Option<(u64, u64)>) -> bool {
    match best {
        None => true,
        Some(b) => t < b.0,
    }
}

/// Folding one matching sample into the aggregation state.
pub open spec fn agg_step(st: AggState, x: SlotSample) -> AggState {
    AggState {
        total: st.total + x.laps,
        sessions: st.sessions + if x.laps > 0 {
            1int
        } else {
            0int
        },
        best: match x.time {
            Some(t) => if improves(t, st.best) {
                Some((t, x.slot_id))
            } else {
                st.best
            },
            None => st.best,
        },
        slots: st.slots.insert(x.slot_id, (x.laps, x.time)),
    }
}

/// Folding a sample sequence left to right.
pub open spec fn agg_seq(st: AggState, s: Seq<SlotSample>) -> AggState
    decreases s.len(),
{
    if s.len() == 0 {
        st
    } else {
        agg_step(agg_seq(st, s.drop_last()), s.last())
    }
}

/// Whether a sample belongs to the pilot with the given (canonical) id.
pub open spec fn matches_pilot(x: SlotSample, pid: Seq<char>) -> bool {
    x.pilot_id@ == pid
}

/// The subsequence of samples that belong to one pilot, in order.
pub open spec fn msamples(s: Seq<SlotSample>, pid: Seq<char>) -> Seq<SlotSample>
    decreases s.len(),
{
    if s.len() == 0 {
        Seq::empty()
    } else {
        msamples(s.drop_last(), pid) + if matches_pilot(s.last(), pid) {
            seq![s.last()]
        } else {
            Seq::empty()
        }
    }
}

/// The samples of the event that belong to one pilot, in traversal order.
pub open spec fn matching_samples(m: RaceDataModel, pid: Seq<char>) -> Seq<SlotSample> {
    msamples(all_samples(m), pid)
}

/// The aggregation of one pilot over the whole event.
pub open spec fn pilot_agg(m: RaceDataModel, pid: Seq<char>) -> AggState {
    agg_seq(init_state(), matching_samples(m, pid))
}

/// Raw lap total of a sample sequence.
pub open spec fn sum_laps(s: Seq<SlotSample>) -> int
    decreases s.len(),
{
    if s.len() == 0 {
        0
    } else {
        sum_laps(s.drop_last()) + s.last().laps
    }
}

/// How many samples of a sequence carry at least one lap.
pub open spec fn count_with_laps(s: Seq<SlotSample>) -> int
    decreases s.len(),
{
    if s.len() == 0 {
        0
    } else {
        count_with_laps(s.drop_last()) + if s.last().laps > 0 {
            1int
        } else {
            0int
        }
    }
}

/// Best lap time of one pilot over the whole event, if any.
pub open spec fn best_time_of(m: RaceDataModel, pid: Seq<char>) -> Option<u64> {
    match pilot_agg(m, pid).best {
        Some(b) => Some(b.0),
        None => None,
    }
}

// --- Executable result ---

/// Best lap: time in thousandths and the slot where it was set.
#[derive(Clone, Copy)]
pub struct BestLap {
    pub time: u64,
    pub slot_id: u64,
}

/// Per-slot record of one pilot: laps and time recorded there.
#[derive(Clone, Copy)]
pub struct SlotRecord {
    pub slot_id: u64,
    pub laps: u64,
    pub time: Option<u64>,
}

/// Aggregation result for one pilot.
pub struct PilotAgg {
    pub total_laps: u64,
    pub sessions: u64,
    pub best: Option<BestLap>,
    pub slots: Vec<SlotRecord>,
}

pub open spec fn best_view(b: Option<BestLap>) -> Option<(u64, u64)> {
    match b {
        None => None,
        Some(bl) => Some((bl.time, bl.slot_id)),
    }
}

/// The mapping a record list stands for (later records shadow earlier ones;
/// the lists this library builds carry each slot id once).
pub open spec fn records_map(s: Seq<SlotRecord>) -> Map<u64, (u64, Option<u64>)>
    decreases s.len(),
{
    if s.len() == 0 {
        Map::empty()
    } else {
        records_map(s.drop_last()).insert(s.last().slot_id, (s.last().laps, s.last().time))
    }
}

pub open spec fn records_unique(s: Seq<SlotRecord>) -> bool {
    forall|i: int, j: int| 0 <= i < j < s.len() ==> s[i].slot_id != s[j].slot_id
}

impl PilotAgg {
    /// The exec result carries exactly the ghost fold state.
    pub open spec fn is_state(self, st: AggState) -> bool {
        &&& self.total_laps == st.total
        &&& self.sessions == st.sessions
        &&& best_view(self.best) == st.best
        &&& records_map(self.slots@) == st.slots
        &&& records_unique(self.slots@)
    }
}

// --- Lemmas about the fold ---

/// The pilot's samples weigh no more than all samples.
pub proof fn lemma_weight_msamples(s: Seq<SlotSample>, pid: Seq<char>)
    ensures
        weight(msamples(s, pid)) <= weight(s),
    decreases s.len(),
{
    if s.len() > 0 {
        lemma_weight_msamples(s.drop_last(), pid);
        if matches_pilot(s.last(), pid) {
            assert(msamples(s, pid) == msamples(s.drop_last(), pid) + seq![s.last()]);
            lemma_weight_concat(msamples(s.drop_last(), pid), seq![s.last()]);
            assert(seq![s.last()].drop_last() =~= Seq::<SlotSample>::empty());
            assert(seq![s.last()].len() == 1 && seq![s.last()].last() == s.last());
            assert(weight(Seq::<SlotSample>::empty()) == 0);
            assert(weight(seq![s.last()]) == s.last().laps + 1);
        } else {
            assert(msamples(s, pid) =~= msamples(s.drop_last(), pid));
        }
    }
}

/// Every sample a pilot matches is well formed when the model is.
pub proof fn lemma_msamples_wf(s: Seq<SlotSample>, pid: Seq<char>)
    requires
        forall|i: int| 0 <= i < s.len() ==> (#[trigger] s[i]).wf(),
    ensures
        forall|i: int| 0 <= i < msamples(s, pid).len() ==> (#[trigger] msamples(s, pid)[i]).wf(),
        forall|i: int|
            0 <= i < msamples(s, pid).len() ==> matches_pilot(#[trigger] msamples(s, pid)[i], pid),
    decreases s.len(),
{
    if s.len() > 0 {
        assert(forall|i: int| 0 <= i < s.len() - 1 ==> s.drop_last()[i] == s[i]);
        lemma_msamples_wf(s.drop_last(), pid);
        let ms = msamples(s, pid);
        let prev = msamples(s.drop_last(), pid);
        if matches_pilot(s.last(), pid) {
            assert(s[s.len() - 1].wf());
            assert forall|i: int| 0 <= i < ms.len() implies (#[trigger] ms[i]).wf()
                && matches_pilot(ms[i], pid) by {
                if i < prev.len() {
                    assert(ms[i] == prev[i]);
                } else {
                    assert(ms[i] == s.last());
                }
            }
        } else {
            assert(ms =~= prev);
        }
    }
}

/// The fold never shrinks the totals and grows them by at most the weight
/// of what it folds in.
pub proof fn lemma_agg_bound(st: AggState, s: Seq<SlotSample>)
    ensures
        agg_seq(st, s).total >= st.total,
        agg_seq(st, s).sessions >= st.sessions,
        agg_seq(st, s).total + agg_seq(st, s).sessions <= st.total + st.sessions + weight(s),
    decreases s.len(),
{
    if s.len() > 0 {
        lemma_agg_bound(st, s.drop_last());
    }
}

/// The lap total of the fold is the sum of the folded lap counts, and the
/// session count is the number of folded samples with laps.
pub proof fn lemma_agg_totals(st: AggState, s: Seq<SlotSample>)
    ensures
        agg_seq(st, s).total == st.total + sum_laps(s),
        agg_seq(st, s).sessions == st.sessions + count_with_laps(s),
    decreases s.len(),
{
    if s.len() > 0 {
        lemma_agg_totals(st, s.drop_last());
    }
}

/// What the fold's best lap means: it is absent exactly when no folded
/// sample carries a time (and none was inherited), and when present it is a
/// minimum over everything folded, attained by one of the folded samples
/// unless inherited.
pub proof fn lemma_agg_best(st: AggState, s: Seq<SlotSample>)
    ensures
        agg_seq(st, s).best is None <==> (st.best is None && forall|i: int|
            0 <= i < s.len() ==> (#[trigger] s[i]).time is None),
        agg_seq(st, s).best matches Some(b) ==> {
            &&& forall|i: int|
                0 <= i < s.len() ==> match (#[trigger] s[i]).time {
                    Some(u) => b.0 <= u,
                    None => true,
                }
            &&& (st.best matches Some(p) ==> b.0 <= p.0)
            &&& ((exists|i: int|
                0 <= i < s.len() && (#[trigger] s[i]).time == Some(b.0) && s[i].slot_id == b.1)
                || st.best == Some(b))
        },
    decreases s.len(),
{
    if s.len() > 0 {
        lemma_agg_best(st, s.drop_last());
        assert(forall|i: int| 0 <= i < s.len() - 1 ==> s.drop_last()[i] == s[i]);
        let cur = agg_seq(st, s);
        match cur.best {
            Some(b) => {
                match s.last().time {
                    Some(t) => {
                        if improves(t, agg_seq(st, s.drop_last()).best) {
                            assert(s[s.len() - 1].time == Some(b.0) && s[s.len() - 1].slot_id
                                == b.1);
                        }
                    },
                    None => {},
                }
            },
            None => {},
        }
    }
}

/// Which slots the fold's per-slot map covers: those already present plus
/// the slot ids of everything folded.
pub proof fn lemma_agg_dom(st: AggState, s: Seq<SlotSample>)
    ensures
        forall|k: u64|
            agg_seq(st, s).slots.contains_key(k) <==> (st.slots.contains_key(k) || exists|i: int|
                0 <= i < s.len() && (#[trigger] s[i]).slot_id == k),
    decreases s.len(),
{
    if s.len() > 0 {
        lemma_agg_dom(st, s.drop_last());
        let pre = agg_seq(st, s.drop_last());
        assert forall|k: u64|
            agg_seq(st, s).slots.contains_key(k) <==> (st.slots.contains_key(k) || exists|i: int|
                0 <= i < s.len() && (#[trigger] s[i]).slot_id == k) by {
            assert(pre.slots.contains_key(k) <==> (st.slots.contains_key(k) || exists|i: int|
                0 <= i < s.drop_last().len() && (#[trigger] s.drop_last()[i]).slot_id == k));
            if agg_seq(st, s).slots.contains_key(k) {
                if k == s.last().slot_id {
                    assert(s[s.len() - 1].slot_id == k);
                } else if !st.slots.contains_key(k) {
                    let i = choose|i: int|
                        0 <= i < s.drop_last().len() && (#[trigger] s.drop_last()[i]).slot_id == k;
                    assert(s[i].slot_id == k);
                }
            }
            if exists|i: int| 0 <= i < s.len() && (#[trigger] s[i]).slot_id == k {
                let i = choose|i: int| 0 <= i < s.len() && (#[trigger] s[i]).slot_id == k;
                if i == s.len() - 1 {
                    assert(agg_seq(st, s).slots.contains_key(k));
                } else {
                    assert(s.drop_last()[i].slot_id == k);
                    assert(pre.slots.contains_key(k));
                }
            }
            if st.slots.contains_key(k) {
                assert(pre.slots.contains_key(k));
            }
        }
    }
}

// --- Record-list bookkeeping ---

/// Replacing the one record of a slot id updates the mapping in place.
proof fn lemma_records_map_update(s: Seq<SlotRecord>, k: int, rec: SlotRecord)
    requires
        0 <= k < s.len(),
        records_unique(s),
        rec.slot_id == s[k].slot_id,
    ensures
        records_map(s.update(k, rec)) == records_map(s).insert(rec.slot_id, (rec.laps, rec.time)),
        records_unique(s.update(k, rec)),
    decreases s.len(),
{
    let u = s.update(k, rec);
    if k == s.len() - 1 {
        assert(u.drop_last() =~= s.drop_last());
        assert(records_map(u) =~= records_map(s).insert(rec.slot_id, (rec.laps, rec.time)));
    } else {
        assert(u.drop_last() =~= s.drop_last().update(k, rec));
        assert(records_unique(s.drop_last()));
        lemma_records_map_update(s.drop_last(), k, rec);
        assert(s.last().slot_id != rec.slot_id);
        assert(records_map(u) =~= records_map(s).insert(rec.slot_id, (rec.laps, rec.time)));
    }
}

/// What a unique record list says about its mapping: every record is in it,
/// and nothing else is.
pub proof fn lemma_records_map_props(s: Seq<SlotRecord>)
    requires
        records_unique(s),
    ensures
        forall|i: int|
            0 <= i < s.len() ==> records_map(s).contains_key(#[trigger] s[i].slot_id)
                && records_map(s)[s[i].slot_id] == (s[i].laps, s[i].time),
        forall|k: u64|
            records_map(s).contains_key(k) ==> exists|i: int| 0 <= i < s.len() && s[i].slot_id == k,
    decreases s.len(),
{
    if s.len() > 0 {
        assert(records_unique(s.drop_last()));
        lemma_records_map_props(s.drop_last());
        assert(forall|i: int| 0 <= i < s.len() - 1 ==> s.drop_last()[i] == s[i]);
        assert forall|i: int|
            0 <= i < s.len() implies records_map(s).contains_key(#[trigger] s[i].slot_id)
            && records_map(s)[s[i].slot_id] == (s[i].laps, s[i].time) by {
            if i < s.len() - 1 {
                assert(s.drop_last()[i].slot_id == s[i].slot_id);
                assert(s[i].slot_id != s.last().slot_id);
            }
        }
        assert forall|k: u64| records_map(s).contains_key(k) implies exists|i: int|
            0 <= i < s.len() && s[i].slot_id == k by {
            if k == s.last().slot_id {
                assert(s[s.len() - 1].slot_id == k);
            } else {
                assert(records_map(s.drop_last()).contains_key(k));
                let i = choose|i: int|
                    0 <= i < s.drop_last().len() && s.drop_last()[i].slot_id == k;
                assert(s[i].slot_id == k);
            }
        }
    }
}

// --- The aggregation pass ---

/// Finds the record of a slot id in a record list, if any.
fn find_record(v: &Vec<SlotRecord>, slot_id: u64) -> (r: Option<usize>)
    ensures
        match r {
            Some(j) => j < v@.len() && v@[j as int].slot_id == slot_id,
            None => forall|i: int| 0 <= i < v@.len() ==> v@[i].slot_id != slot_id,
        },
{
    let mut j: usize = 0;
    while j < v.len()
        invariant
            j <= v@.len(),
            forall|i: int| 0 <= i < j ==> v@[i].slot_id != slot_id,
        decreases v@.len() - j,
    {
        if v[j].slot_id == slot_id {
            return Some(j);
        }
        j += 1;
    }
    None
}

/// Walks every race, session and slot once and folds the slots occupied by
/// the pilot with id `pid` into lap total, session count, best lap and
/// per-slot records.
pub fn aggregate_pilot(m: &RaceDataModel, pid: &String) -> (r: PilotAgg)
    requires
        m.wf(),
    ensures
        r.is_state(pilot_agg(*m, pid@)),
{
    let mut total: u64 = 0;
    let mut sessions: u64 = 0;
    let mut best: Option<BestLap> = None;
    let mut records: Vec<SlotRecord> = Vec::new();

    let mut ri: usize = 0;
    while ri < m.races.len()
        invariant
            m.wf(),
            ri <= m.races@.len(),
            (PilotAgg { total_laps: total, sessions, best, slots: records }).is_state(
                agg_seq(
                    init_state(),
                    msamples(samples_of_races(m.races@.take(ri as int)), pid@),
                ),
            ),
        decreases m.races@.len() - ri,
    {
        let race = &m.races[ri];
        let mut si: usize = 0;
        while si < race.sessions.len()
            invariant
                m.wf(),
                ri < m.races@.len(),
                race == m.races@[ri as int],
                si <= race.sessions@.len(),
                (PilotAgg { total_laps: total, sessions, best, slots: records }).is_state(
                    agg_seq(
                        init_state(),
                        msamples(
                            samples_of_races(m.races@.take(ri as int)) + samples_of_sessions(
                                race.sessions@.take(si as int),
                            ),
                            pid@,
                        ),
                    ),
                ),
            decreases race.sessions@.len() - si,
        {
            let session = &race.sessions[si];
            let mut k: usize = 0;
            while k < session.slots.len()
                invariant
                    m.wf(),
                    ri < m.races@.len(),
                    race == m.races@[ri as int],
                    si < race.sessions@.len(),
                    session == race.sessions@[si as int],
                    k <= session.slots@.len(),
                    (PilotAgg { total_laps: total, sessions, best, slots: records }).is_state(
                        agg_seq(
                            init_state(),
                            msamples(
                                samples_of_races(m.races@.take(ri as int)) + samples_of_sessions(
                                    race.sessions@.take(si as int),
                                ) + session.slots@.take(k as int),
                                pid@,
                            ),
                        ),
                    ),
                decreases session.slots@.len() - k,
            {
                let ghost prefix = samples_of_races(m.races@.take(ri as int))
                    + samples_of_sessions(race.sessions@.take(si as int)) + session.slots@.take(
                    k as int,
                );
                let sample = &session.slots[k];
                let ghost next_prefix = samples_of_races(m.races@.take(ri as int))
                    + samples_of_sessions(race.sessions@.take(si as int)) + session.slots@.take(
                    k as int + 1,
                );
                proof {
                    assert(next_prefix =~= prefix.push(*sample));
                    assert(next_prefix.drop_last() =~= prefix);
                }
                if sample.pilot_id == *pid {
                    proof {
                        assert(matches_pilot(*sample, pid@));
                        let ms = msamples(prefix, pid@);
                        assert(msamples(next_prefix, pid@) =~= ms.push(*sample));
                        assert(msamples(next_prefix, pid@).drop_last() =~= ms);
                        assert(agg_seq(init_state(), msamples(next_prefix, pid@)) == agg_step(
                            agg_seq(init_state(), ms),
                            *sample,
                        ));
                        lemma_agg_bound(init_state(), msamples(next_prefix, pid@));
                        lemma_weight_msamples(next_prefix, pid@);
                        lemma_prefix_weight_bound(*m, ri as int, si as int, k as int + 1);
                    }
                    total = total + sample.laps;
                    if sample.laps > 0 {
                        sessions = sessions + 1;
                    }
                    match sample.time {
                        Some(t) => {
                            let replace = match best {
                                None => true,
                                Some(b) => t < b.time,
                            };
                            if replace {
                                best = Some(BestLap { time: t, slot_id: sample.slot_id });
                            }
                        },
                        None => {},
                    }
                    let rec = SlotRecord {
                        slot_id: sample.slot_id,
                        laps: sample.laps,
                        time: sample.time,
                    };
                    match find_record(&records, sample.slot_id) {
                        Some(j) => {
                            proof {
                                lemma_records_map_update(records@, j as int, rec);
                            }
                            records.set(j, rec);
                        },
                        None => {
                            proof {
                                assert(records@.push(rec).drop_last() =~= records@);
                            }
                            records.push(rec);
                        },
                    }
                } else {
                    proof {
                        assert(!matches_pilot(*sample, pid@));
                        assert(msamples(next_prefix, pid@) =~= msamples(prefix, pid@));
                    }
                }
                k += 1;
            }
            proof {
                lemma_step_session(*m, ri as int, si as int);
                assert(session.slots@.take(session.slots@.len() as int) =~= session.slots@);
                assert(samples_of_races(m.races@.take(ri as int)) + samples_of_sessions(
                    race.sessions@.take(si as int),
                ) + session.slots@ =~= samples_of_races(m.races@.take(ri as int))
                    + samples_of_sessions(race.sessions@.take(si as int + 1)));
            }
            si += 1;
        }
        proof {
            lemma_step_race(*m, ri as int);
            assert(race.sessions@.take(race.sessions@.len() as int) =~= race.sessions@);
            assert(samples_of_races(m.races@.take(ri as int)) + samples_of_sessions(race.sessions@)
                =~= samples_of_races(m.races@.take(ri as int + 1)));
            assert(samples_of_races(m.races@.take(ri as int)) + samples_of_sessions(
                race.sessions@.take(race.sessions@.len() as int),
            ) =~= samples_of_races(m.races@.take(ri as int + 1)));
        }
        ri += 1;
    }
    proof {
        assert(m.races@.take(m.races@.len() as int) =~= m.races@);
    }
    PilotAgg { total_laps: total, sessions, best, slots: records }
}

/// A finished session extends the flattened race prefix by its slots.
proof fn lemma_step_session(m: RaceDataModel, ri: int, si: int)
    requires
        0 <= ri < m.races@.len(),
        0 <= si < m.races@[ri].sessions@.len(),
    ensures
        samples_of_sessions(m.races@[ri].sessions@.take(si + 1)) == samples_of_sessions(
            m.races@[ri].sessions@.take(si),
        ) + m.races@[ri].sessions@[si].slots@,
{
    let ss = m.races@[ri].sessions@;
    assert(ss.take(si + 1).drop_last() =~= ss.take(si));
}

/// A finished race extends the flattened event prefix by its sessions.
proof fn lemma_step_race(m: RaceDataModel, ri: int)
    requires
        0 <= ri < m.races@.len(),
    ensures
        samples_of_races(m.races@.take(ri + 1)) == samples_of_races(m.races@.take(ri))
            + samples_of_sessions(m.races@[ri].sessions@),
{
    assert(m.races@.take(ri + 1).drop_last() =~= m.races@.take(ri));
}

/// Any traversal prefix weighs no more than the whole event.
pub proof fn lemma_prefix_weight_bound(m: RaceDataModel, ri: int, si: int, k: int)
    requires
        0 <= ri < m.races@.len(),
        0 <= si < m.races@[ri].sessions@.len(),
        0 <= k <= m.races@[ri].sessions@[si].slots@.len(),
    ensures
        weight(
            samples_of_races(m.races@.take(ri)) + samples_of_sessions(
                m.races@[ri].sessions@.take(si),
            ) + m.races@[ri].sessions@[si].slots@.take(k),
        ) <= weight(all_samples(m)),
{
    let rs = m.races@;
    let ss = rs[ri].sessions@;
    let sl = ss[si].slots@;
    // decompose the whole event around the current position
    assert(rs =~= rs.take(ri) + seq![rs[ri]] + rs.skip(ri + 1));
    lemma_races_concat(rs.take(ri) + seq![rs[ri]], rs.skip(ri + 1));
    lemma_races_concat(rs.take(ri), seq![rs[ri]]);
    assert(seq![rs[ri]].drop_last() =~= Seq::<Race>::empty());
    assert(seq![rs[ri]].len() == 1 && seq![rs[ri]].last() == rs[ri]);
    assert(samples_of_races(Seq::<Race>::empty()) =~= Seq::<SlotSample>::empty());
    assert(samples_of_races(seq![rs[ri]]) =~= samples_of_sessions(ss));
    assert(ss =~= ss.take(si) + seq![ss[si]] + ss.skip(si + 1));
    lemma_sessions_concat(ss.take(si) + seq![ss[si]], ss.skip(si + 1));
    lemma_sessions_concat(ss.take(si), seq![ss[si]]);
    assert(seq![ss[si]].drop_last() =~= Seq::<Session>::empty());
    assert(seq![ss[si]].len() == 1 && seq![ss[si]].last() == ss[si]);
    assert(samples_of_sessions(Seq::<Session>::empty()) =~= Seq::<SlotSample>::empty());
    assert(samples_of_sessions(seq![ss[si]]) =~= sl);
    assert(sl =~= sl.take(k) + sl.skip(k));
    // sum the weights of the pieces
    let a = samples_of_races(rs.take(ri));
    let b = samples_of_sessions(ss.take(si));
    let c = sl.take(k);
    let rest1 = sl.skip(k);
    let rest2 = samples_of_sessions(ss.skip(si + 1));
    let rest3 = samples_of_races(rs.skip(ri + 1));
    assert(all_samples(m) =~= a + b + c + rest1 + rest2 + rest3);
    lemma_weight_concat(a + b + c + rest1 + rest2, rest3);
    lemma_weight_concat(a + b + c + rest1, rest2);
    lemma_weight_concat(a + b + c, rest1);
    lemma_weight_nonneg(rest1);
    lemma_weight_nonneg(rest2);
    lemma_weight_nonneg(rest3);
}

} // verus!
