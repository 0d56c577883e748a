//! Per-slot bests across all pilots: for every slot where at least one
//! pilot recorded a valid time, the minimum such time. Slots with no valid
//! entry are left out entirely, never carried as a sentinel.

use vstd::prelude::*;
use vstd::pervasive::VecAdditionalExecFns;
use crate::aggregate::SlotRecord;
use crate::ranking::PilotSummary;

verus! {

/// Best time of one slot across all pilots.
#[derive(Clone, Copy)]
pub struct SlotBest {
    pub slot_id: u64,
    pub time: u64,
}

/// Folding one per-slot record into the per-slot minimum map.
pub open spec fn sb_step(mp: Map<u64, u64>, rec: SlotRecord) -> Map<u64, u64> {
    match rec.time {
        Some(t) => if mp.contains_key(rec.slot_id) && mp[rec.slot_id] <= t {
            mp
        } else {
            mp.insert(rec.slot_id, t)
        },
        None => mp,
    }
}

/// Folding one pilot's record list.
pub open spec fn sb_records(mp: Map<u64, u64>, s: Seq<SlotRecord>) -> Map<u64, u64>
    decreases s.len(),
{
    if s.len() == 0 {
        mp
    } else {
        sb_step(sb_records(mp, s.drop_last()), s.last())
    }
}

/// Folding every pilot of the ranking.
pub open spec fn sb_pilots(mp: Map<u64, u64>, ps: Seq<PilotSummary>) -> Map<u64, u64>
    decreases ps.len(),
{
    if ps.len() == 0 {
        mp
    } else {
        sb_records(sb_pilots(mp, ps.drop_last()), ps.last().slots@)
    }
}

/// The per-slot best map over a ranking.
pub open spec fn slot_bests_spec(ps: Seq<PilotSummary>) -> Map<u64, u64> {
    sb_pilots(Map::empty(), ps)
}

/// The mapping a best list stands for.
pub open spec fn bests_map(s: Seq<SlotBest>) -> Map<u64, u64>
    decreases s.len(),
{
    if s.len() == 0 {
        Map::empty()
    } else {
        bests_map(s.drop_last()).insert(s.last().slot_id, s.last().time)
    }
}

pub open spec fn bests_unique(s: Seq<SlotBest>) -> bool {
    forall|i: int, j: int| 0 <= i < j < s.len() ==> s[i].slot_id != s[j].slot_id
}

proof fn lemma_bests_map_update(s: Seq<SlotBest>, k: int, rec: SlotBest)
    requires
        0 <= k < s.len(),
        bests_unique(s),
        rec.slot_id == s[k].slot_id,
    ensures
        bests_map(s.update(k, rec)) == bests_map(s).insert(rec.slot_id, rec.time),
        bests_unique(s.update(k, rec)),
    decreases s.len(),
{
    let u = s.update(k, rec);
    if k == s.len() - 1 {
        assert(u.drop_last() =~= s.drop_last());
        assert(bests_map(u) =~= bests_map(s).insert(rec.slot_id, rec.time));
    } else {
        assert(u.drop_last() =~= s.drop_last().update(k, rec));
        assert(bests_unique(s.drop_last()));
        lemma_bests_map_update(s.drop_last(), k, rec);
        assert(s.last().slot_id != rec.slot_id);
        assert(bests_map(u) =~= bests_map(s).insert(rec.slot_id, rec.time));
    }
}

/// What a unique best list says about its mapping.
pub proof fn lemma_bests_map_props(s: Seq<SlotBest>)
    requires
        bests_unique(s),
    ensures
        forall|i: int|
            0 <= i < s.len() ==> bests_map(s).contains_key(#[trigger] s[i].slot_id) && bests_map(
                s,
            )[s[i].slot_id] == s[i].time,
        forall|k: u64|
            bests_map(s).contains_key(k) ==> exists|i: int| 0 <= i < s.len() && s[i].slot_id == k,
    decreases s.len(),
{
    if s.len() > 0 {
        assert(bests_unique(s.drop_last()));
        lemma_bests_map_props(s.drop_last());
        assert(forall|i: int| 0 <= i < s.len() - 1 ==> s.drop_last()[i] == s[i]);
        assert forall|i: int|
            0 <= i < s.len() implies bests_map(s).contains_key(#[trigger] s[i].slot_id)
            && bests_map(s)[s[i].slot_id] == s[i].time by {
            if i < s.len() - 1 {
                assert(s.drop_last()[i].slot_id == s[i].slot_id);
                assert(s[i].slot_id != s.last().slot_id);
            }
        }
        assert forall|k: u64| bests_map(s).contains_key(k) implies exists|i: int|
            0 <= i < s.len() && s[i].slot_id == k by {
            if k == s.last().slot_id {
                assert(s[s.len() - 1].slot_id == k);
            } else {
                assert(bests_map(s.drop_last()).contains_key(k));
                let i = choose|i: int|
                    0 <= i < s.drop_last().len() && s.drop_last()[i].slot_id == k;
                assert(s[i].slot_id == k);
            }
        }
    }
}

fn find_best(v: &Vec<SlotBest>, slot_id: u64) -> (r: Option<usize>)
    ensures
        match r {
            Some(j) => j < v@.len() && v@[j as int].slot_id == slot_id,
            None => forall|i: int| 0 <= i < v@.len() ==> v@[i].slot_id != slot_id,
        },
{
    let mut j: usize = 0;
    while j < v.len()
        invariant
            j <= v@.len(),
            forall|i: int| 0 <= i < j ==> v@[i].slot_id != slot_id,
        decreases v@.len() - j,
    {
        if v[j].slot_id == slot_id {
            return Some(j);
        }
        j += 1;
    }
    None
}

/// Computes, for each slot where any pilot recorded a valid time, the
/// minimum such time across all pilots.
pub fn slot_bests(ranking: &Vec<PilotSummary>) -> (v: Vec<SlotBest>)
    ensures
        bests_map(v@) == slot_bests_spec(ranking@),
        bests_unique(v@),
{
    let mut v: Vec<SlotBest> = Vec::new();
    let mut i: usize = 0;
    while i < ranking.len()
        invariant
            i <= ranking@.len(),
            bests_map(v@) == sb_pilots(Map::empty(), ranking@.take(i as int)),
            bests_unique(v@),
        decreases ranking@.len() - i,
    {
        let p = &ranking[i];
        let mut k: usize = 0;
        while k < p.slots.len()
            invariant
                i < ranking@.len(),
                p == ranking@[i as int],
                k <= p.slots@.len(),
                bests_map(v@) == sb_records(
                    sb_pilots(Map::empty(), ranking@.take(i as int)),
                    p.slots@.take(k as int),
                ),
                bests_unique(v@),
            decreases p.slots@.len() - k,
        {
            proof {
                assert(p.slots@.take(k as int + 1).drop_last() =~= p.slots@.take(k as int));
            }
            let rec = &p.slots[k];
            match rec.time {
                Some(t) => {
                    match find_best(&v, rec.slot_id) {
                        Some(j) => {
                            proof {
                                lemma_bests_map_props(v@);
                            }
                            if t < v[j].time {
                                proof {
                                    lemma_bests_map_update(
                                        v@,
                                        j as int,
                                        SlotBest { slot_id: rec.slot_id, time: t },
                                    );
                                }
                                v.set(j, SlotBest { slot_id: rec.slot_id, time: t });
                            }
                        },
                        None => {
                            proof {
                                lemma_bests_map_props(v@);
                                if bests_map(v@).contains_key(rec.slot_id) {
                                    let w = choose|w: int|
                                        0 <= w < v@.len() && v@[w].slot_id == rec.slot_id;
                                    assert(false);
                                }
                                assert(v@.push(
                                    SlotBest { slot_id: rec.slot_id, time: t },
                                ).drop_last() =~= v@);
                            }
                            v.push(SlotBest { slot_id: rec.slot_id, time: t });
                        },
                    }
                },
                None => {},
            }
            k += 1;
        }
        proof {
            assert(p.slots@.take(p.slots@.len() as int) =~= p.slots@);
            assert(ranking@.take(i as int + 1).drop_last() =~= ranking@.take(i as int));
        }
        i += 1;
    }
    proof {
        assert(ranking@.take(ranking@.len() as int) =~= ranking@);
    }
    v
}

// --- What the per-slot best map means ---

/// Pilot `i`'s record `j` is a valid time recorded at slot `k`.
pub open spec fn recorded_at(ps: Seq<PilotSummary>, i: int, j: int, k: u64) -> bool {
    &&& 0 <= i < ps.len()
    &&& 0 <= j < ps[i].slots@.len()
    &&& ps[i].slots@[j].slot_id == k
    &&& ps[i].slots@[j].time is Some
}

proof fn lemma_sb_records_props(mp: Map<u64, u64>, s: Seq<SlotRecord>)
    ensures
        forall|k: u64|
            #[trigger] sb_records(mp, s).contains_key(k) <==> (mp.contains_key(k) || exists|j: int|
                0 <= j < s.len() && (#[trigger] s[j]).slot_id == k && s[j].time is Some),
        forall|k: u64, j: int|
            #![trigger sb_records(mp, s).contains_key(k), s[j].slot_id]
            sb_records(mp, s).contains_key(k) && 0 <= j < s.len() && s[j].slot_id == k
                ==> match s[j].time {
                Some(u) => sb_records(mp, s)[k] <= u,
                None => true,
            },
        forall|k: u64|
            #[trigger] sb_records(mp, s).contains_key(k) && mp.contains_key(k) ==> sb_records(
                mp,
                s,
            )[k] <= mp[k],
        forall|k: u64|
            #[trigger] sb_records(mp, s).contains_key(k) ==> ((exists|j: int|
                0 <= j < s.len() && (#[trigger] s[j]).slot_id == k && s[j].time == Some(
                    sb_records(mp, s)[k],
                )) || (mp.contains_key(k) && mp[k] == sb_records(mp, s)[k])),
    decreases s.len(),
{
    if s.len() > 0 {
        lemma_sb_records_props(mp, s.drop_last());
        let pre = sb_records(mp, s.drop_last());
        let cur = sb_records(mp, s);
        assert(forall|j: int| 0 <= j < s.len() - 1 ==> s.drop_last()[j] == s[j]);
        assert forall|k: u64|
            #[trigger] cur.contains_key(k) <==> (mp.contains_key(k) || exists|j: int|
                0 <= j < s.len() && (#[trigger] s[j]).slot_id == k && s[j].time is Some) by {
            if cur.contains_key(k) {
                if pre.contains_key(k) {
                    if !mp.contains_key(k) {
                        let j = choose|j: int|
                            0 <= j < s.drop_last().len() && (#[trigger] s.drop_last()[j]).slot_id
                                == k && s.drop_last()[j].time is Some;
                        assert(s[j].slot_id == k && s[j].time is Some);
                    }
                } else {
                    assert(s[s.len() - 1].slot_id == k && s[s.len() - 1].time is Some);
                }
            }
            if exists|j: int|
                0 <= j < s.len() && (#[trigger] s[j]).slot_id == k && s[j].time is Some {
                let j = choose|j: int|
                    0 <= j < s.len() && (#[trigger] s[j]).slot_id == k && s[j].time is Some;
                if j == s.len() - 1 {
                    assert(cur.contains_key(k));
                } else {
                    assert(s.drop_last()[j].slot_id == k && s.drop_last()[j].time is Some);
                    assert(pre.contains_key(k));
                }
            }
        }
        assert forall|k: u64, j: int|
            cur.contains_key(k) && 0 <= j < s.len() && s[j].slot_id == k implies match s[j].time {
            Some(u) => cur[k] <= u,
            None => true,
        } by {
            if j < s.len() - 1 {
                assert(s.drop_last()[j] == s[j]);
                match s[j].time {
                    Some(u) => {
                        assert(s.drop_last()[j].slot_id == k && s.drop_last()[j].time is Some);
                        assert(pre.contains_key(k));
                        assert(pre[k] <= u);
                    },
                    None => {},
                }
            }
        }
        assert forall|k: u64|
            cur.contains_key(k) && mp.contains_key(k) implies cur[k] <= mp[k] by {
            assert(pre.contains_key(k));
        }
        assert forall|k: u64| #[trigger] cur.contains_key(k) implies ((exists|j: int|
            0 <= j < s.len() && (#[trigger] s[j]).slot_id == k && s[j].time == Some(cur[k])) || (
        mp.contains_key(k) && mp[k] == cur[k])) by {
            if pre.contains_key(k) && cur[k] == pre[k] {
                if !(mp.contains_key(k) && mp[k] == pre[k]) {
                    let j = choose|j: int|
                        0 <= j < s.drop_last().len() && (#[trigger] s.drop_last()[j]).slot_id == k
                            && s.drop_last()[j].time == Some(pre[k]);
                    assert(s[j].slot_id == k && s[j].time == Some(cur[k]));
                }
            } else {
                assert(s[s.len() - 1].slot_id == k && s[s.len() - 1].time == Some(cur[k]));
            }
        }
    }
}

/// What the ranking-wide fold yields, record by record.
proof fn lemma_sb_pilots_props(mp: Map<u64, u64>, ps: Seq<PilotSummary>)
    ensures
        forall|k: u64|
            #[trigger] sb_pilots(mp, ps).contains_key(k) <==> (mp.contains_key(k) || exists|
                i: int,
                j: int,
            | recorded_at(ps, i, j, k)),
        forall|k: u64, i: int, j: int|
            sb_pilots(mp, ps).contains_key(k) && #[trigger] recorded_at(ps, i, j, k)
                ==> match ps[i].slots@[j].time {
                Some(u) => sb_pilots(mp, ps)[k] <= u,
                None => true,
            },
        forall|k: u64|
            #[trigger] sb_pilots(mp, ps).contains_key(k) && mp.contains_key(k) ==> sb_pilots(
                mp,
                ps,
            )[k] <= mp[k],
        forall|k: u64|
            #[trigger] sb_pilots(mp, ps).contains_key(k) ==> ((exists|i: int, j: int|
                recorded_at(ps, i, j, k) && ps[i].slots@[j].time == Some(sb_pilots(mp, ps)[k]))
                || (mp.contains_key(k) && mp[k] == sb_pilots(mp, ps)[k])),
    decreases ps.len(),
{
    if ps.len() > 0 {
        lemma_sb_pilots_props(mp, ps.drop_last());
        let pre = sb_pilots(mp, ps.drop_last());
        let cur = sb_pilots(mp, ps);
        let lastrecs = ps.last().slots@;
        lemma_sb_records_props(pre, lastrecs);
        assert(cur == sb_records(pre, lastrecs));
        assert(forall|i: int| 0 <= i < ps.len() - 1 ==> ps.drop_last()[i] == ps[i]);
        assert forall|k: u64|
            #[trigger] cur.contains_key(k) <==> (mp.contains_key(k) || exists|i: int, j: int|
                recorded_at(ps, i, j, k)) by {
            if cur.contains_key(k) && !mp.contains_key(k) {
                if pre.contains_key(k) {
                    let (i, j) = choose|i: int, j: int| recorded_at(ps.drop_last(), i, j, k);
                    assert(ps.drop_last()[i] == ps[i]);
                    assert(recorded_at(ps, i, j, k));
                } else {
                    let j = choose|j: int|
                        0 <= j < lastrecs.len() && (#[trigger] lastrecs[j]).slot_id == k
                            && lastrecs[j].time is Some;
                    assert(ps[ps.len() - 1] == ps.last());
                    assert(recorded_at(ps, ps.len() - 1, j, k));
                }
            }
            if exists|i: int, j: int| recorded_at(ps, i, j, k) {
                let (i, j) = choose|i: int, j: int| recorded_at(ps, i, j, k);
                if i == ps.len() - 1 {
                    assert(ps[i] == ps.last());
                    assert(lastrecs[j].slot_id == k && lastrecs[j].time is Some);
                    assert(cur.contains_key(k));
                } else {
                    assert(ps.drop_last()[i] == ps[i]);
                    assert(recorded_at(ps.drop_last(), i, j, k));
                    assert(pre.contains_key(k));
                    assert(cur.contains_key(k));
                }
            }
        }
        assert forall|k: u64, i: int, j: int|
            cur.contains_key(k) && #[trigger] recorded_at(ps, i, j, k) implies match ps[i].slots@[j].time {
            Some(u) => cur[k] <= u,
            None => true,
        } by {
            if i == ps.len() - 1 {
                assert(ps[i] == ps.last());
                assert(lastrecs[j] == ps[i].slots@[j]);
                assert(lastrecs[j].slot_id == k);
            } else {
                assert(ps.drop_last()[i] == ps[i]);
                assert(ps.drop_last()[i].slots@[j] == ps[i].slots@[j]);
                assert(recorded_at(ps.drop_last(), i, j, k));
                assert(pre.contains_key(k));
                match ps[i].slots@[j].time {
                    Some(u) => {
                        assert(pre[k] <= u);
                        assert(cur[k] <= pre[k]);
                    },
                    None => {},
                }
            }
        }
        assert forall|k: u64|
            cur.contains_key(k) && mp.contains_key(k) implies cur[k] <= mp[k] by {
            assert(pre.contains_key(k));
        }
        assert forall|k: u64| #[trigger] cur.contains_key(k) implies ((exists|i: int, j: int|
            recorded_at(ps, i, j, k) && ps[i].slots@[j].time == Some(cur[k])) || (
        mp.contains_key(k) && mp[k] == cur[k])) by {
            if pre.contains_key(k) && pre[k] == cur[k] {
                if !(mp.contains_key(k) && mp[k] == cur[k]) {
                    assert((exists|i: int, j: int|
                        recorded_at(ps.drop_last(), i, j, k) && ps.drop_last()[i].slots@[j].time
                            == Some(pre[k])) || (mp.contains_key(k) && mp[k] == pre[k]));
                    let (i, j) = choose|i: int, j: int|
                        recorded_at(ps.drop_last(), i, j, k) && ps.drop_last()[i].slots@[j].time
                            == Some(pre[k]);
                    assert(ps.drop_last()[i] == ps[i]);
                    assert(ps.drop_last()[i].slots@[j] == ps[i].slots@[j]);
                    assert(recorded_at(ps, i, j, k) && ps[i].slots@[j].time == Some(cur[k]));
                }
            } else {
                let j = choose|j: int|
                    0 <= j < lastrecs.len() && (#[trigger] lastrecs[j]).slot_id == k
                        && lastrecs[j].time == Some(cur[k]);
                assert(ps[ps.len() - 1] == ps.last());
                assert(recorded_at(ps, ps.len() - 1, j, k) && ps[ps.len() - 1].slots@[j].time
                    == Some(cur[k]));
            }
        }
    }
}

/// The per-slot best map covers exactly the slots where some pilot recorded
/// a valid time, and holds the true minimum of those times.
pub proof fn lemma_slot_bests_minimal(ps: Seq<PilotSummary>)
    ensures
        forall|k: u64|
            #[trigger] slot_bests_spec(ps).contains_key(k) <==> exists|i: int, j: int|
                recorded_at(ps, i, j, k),
        forall|k: u64, i: int, j: int|
            slot_bests_spec(ps).contains_key(k) && #[trigger] recorded_at(ps, i, j, k)
                ==> match ps[i].slots@[j].time {
                Some(u) => slot_bests_spec(ps)[k] <= u,
                None => true,
            },
        forall|k: u64|
            #[trigger] slot_bests_spec(ps).contains_key(k) ==> exists|i: int, j: int|
                recorded_at(ps, i, j, k) && ps[i].slots@[j].time == Some(slot_bests_spec(ps)[k]),
{
    lemma_sb_pilots_props(Map::empty(), ps);
}

} // verus!
