//! Event-wide laws of the aggregation, stated and proved over the same
//! spec functions the executable contracts use.

use vstd::prelude::*;
use crate::model::{all_samples, Pilot, RaceDataModel};
use crate::aggregate::{
    best_time_of, init_state, lemma_agg_best, lemma_agg_totals, lemma_msamples_wf,
    matching_samples, pilot_agg, sum_laps,
};
use crate::ranking::{
    final_laps_of, find_official, min_opt, overall_best, overall_from, summary_ok, PilotSummary,
};
use crate::text::{best_time_text, lemma_zero_time_text};

verus! {

/// A pilot with no positive recorded time in any slot has no best lap: the
/// best time displays as "0.000" and the pilot is never flagged overall
/// best.
pub proof fn lemma_no_valid_time_never_best(m: RaceDataModel, pid: Seq<char>)
    requires
        m.wf(),
        forall|i: int|
            0 <= i < matching_samples(m, pid).len() ==> match (#[trigger] matching_samples(
                m,
                pid,
            )[i]).time {
                Some(t) => !(t > 0),
                None => true,
            },
    ensures
        pilot_agg(m, pid).best is None,
        best_time_text(best_time_of(m, pid)) == "0.000"@,
        forall|p: Pilot, s: PilotSummary|
            p.id@ == pid && #[trigger] summary_ok(m, p, s) ==> s.is_overall_best == false,
{
    lemma_msamples_wf(all_samples(m), pid);
    assert forall|i: int|
        0 <= i < matching_samples(m, pid).len() implies (#[trigger] matching_samples(m, pid)[i]).time
        is None by {
        assert(matching_samples(m, pid)[i].wf());
    }
    lemma_agg_best(init_state(), matching_samples(m, pid));
    lemma_zero_time_text();
}

/// A pilot's final lap total is the official override when an entry with a
/// matching id exists, else the raw sum of laps over every slot the pilot
/// occupied.
pub proof fn lemma_final_laps_reconciled(m: RaceDataModel, pid: Seq<char>)
    ensures
        find_official(m, pid) matches Some(e) ==> final_laps_of(m, pid) == e.laps,
        find_official(m, pid) is None ==> final_laps_of(m, pid) == sum_laps(
            matching_samples(m, pid),
        ),
{
    lemma_agg_totals(init_state(), matching_samples(m, pid));
}

proof fn lemma_overall_from_props(m: RaceDataModel, i: int, acc: Option<u64>)
    requires
        0 <= i <= m.pilots@.len(),
    ensures
        overall_from(m, i, acc) is None <==> (acc is None && forall|j: int|
            i <= j < m.pilots@.len() ==> best_time_of(m, (#[trigger] m.pilots@[j]).id@) is None),
        overall_from(m, i, acc) matches Some(v) ==> {
            &&& forall|j: int|
                i <= j < m.pilots@.len() ==> match best_time_of(
                    m,
                    (#[trigger] m.pilots@[j]).id@,
                ) {
                    Some(t) => v <= t,
                    None => true,
                }
            &&& (acc matches Some(a) ==> v <= a)
            &&& ((exists|j: int|
                i <= j < m.pilots@.len() && best_time_of(m, (#[trigger] m.pilots@[j]).id@)
                    == Some(v)) || acc == Some(v))
        },
    decreases m.pilots@.len() - i,
{
    if i < m.pilots@.len() {
        let bi = best_time_of(m, m.pilots@[i].id@);
        let acc2 = min_opt(acc, bi);
        lemma_overall_from_props(m, i + 1, acc2);
        let r = overall_from(m, i, acc);
        assert(r == overall_from(m, i + 1, acc2));
        if r is None {
            assert forall|j: int|
                i <= j < m.pilots@.len() implies best_time_of(m, (#[trigger] m.pilots@[j]).id@)
                is None by {
                if j == i {
                    assert(acc2 is None);
                } else {
                    assert(i + 1 <= j < m.pilots@.len());
                }
            }
        }
        match r {
            Some(v) => {
                assert forall|j: int|
                    i <= j < m.pilots@.len() implies match best_time_of(
                    m,
                    (#[trigger] m.pilots@[j]).id@,
                ) {
                    Some(t) => v <= t,
                    None => true,
                } by {
                    if j == i {
                        match bi {
                            Some(t) => {
                                assert(acc2 matches Some(a2) && a2 <= t);
                            },
                            None => {},
                        }
                    }
                }
                if !(exists|j: int|
                    i + 1 <= j < m.pilots@.len() && best_time_of(m, (#[trigger] m.pilots@[j]).id@)
                        == Some(v)) {
                    assert(acc2 == Some(v));
                    if acc != Some(v) {
                        assert(bi == Some(v));
                        assert(best_time_of(m, m.pilots@[i].id@) == Some(v));
                    }
                } else {
                    let j = choose|j: int|
                        i + 1 <= j < m.pilots@.len() && best_time_of(
                            m,
                            (#[trigger] m.pilots@[j]).id@,
                        ) == Some(v);
                    assert(i <= j < m.pilots@.len() && best_time_of(m, m.pilots@[j].id@) == Some(
                        v,
                    ));
                }
            },
            None => {},
        }
    }
}

/// The event-wide best time is a single value: the minimum of every pilot's
/// valid best time, attained by at least one pilot, absent exactly when no
/// pilot has a valid lap; and a summary is flagged overall-best exactly
/// when its best time equals that minimum, so ties are all flagged.
pub proof fn lemma_overall_best_ties(m: RaceDataModel)
    ensures
        overall_best(m) is None <==> forall|i: int|
            0 <= i < m.pilots@.len() ==> best_time_of(m, (#[trigger] m.pilots@[i]).id@) is None,
        overall_best(m) matches Some(v) ==> {
            &&& exists|i: int|
                0 <= i < m.pilots@.len() && best_time_of(m, (#[trigger] m.pilots@[i]).id@) == Some(
                    v,
                )
            &&& forall|i: int|
                0 <= i < m.pilots@.len() ==> match best_time_of(
                    m,
                    (#[trigger] m.pilots@[i]).id@,
                ) {
                    Some(t) => v <= t,
                    None => true,
                }
        },
        forall|p: Pilot, s: PilotSummary|
            #[trigger] summary_ok(m, p, s) ==> (s.is_overall_best <==> (overall_best(m) is Some
                && best_time_of(m, p.id@) == overall_best(m))),
{
    lemma_overall_from_props(m, 0, None);
}

} // verus!
