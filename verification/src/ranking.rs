//! Per-pilot summaries: the aggregation reconciled against the official
//! standings override, averages and display texts, and the event-wide best
//! lap with tie handling (every pilot whose best time equals the event
//! minimum is flagged).

use vstd::prelude::*;
use crate::model::{OfficialEntry, PenaltyEntry, Pilot, RaceDataModel, ZoneEntry};
use crate::aggregate::{
    aggregate_pilot, best_time_of, best_view, pilot_agg, records_map, records_unique, BestLap,
    PilotAgg, SlotRecord,
};
use crate::text::{avg_text, best_time_text, fmt_average, fmt_best_time};

verus! {

// --- Lookups by pilot id ---

/// The first official-ranking entry for a pilot, scanning from position `i`.
pub open spec fn official_from(es: Seq<OfficialEntry>, pid: Seq<char>, i: int) -> Option<
    OfficialEntry,
>
    decreases es.len() - i when 0 <= i <= es.len()
{
    if i < 0 || i >= es.len() {
        None
    } else if es[i].pilot_id@ == pid {
        Some(es[i])
    } else {
        official_from(es, pid, i + 1)
    }
}

/// The official-ranking entry for a pilot, if any.
pub open spec fn find_official(m: RaceDataModel, pid: Seq<char>) -> Option<OfficialEntry> {
    official_from(m.official_ranking@, pid, 0)
}

/// The penalty entry for a pilot, scanning from position `i`.
pub open spec fn penalty_from(es: Seq<PenaltyEntry>, pid: Seq<char>, i: int) -> Option<
    PenaltyEntry,
>
    decreases es.len() - i when 0 <= i <= es.len()
{
    if i < 0 || i >= es.len() {
        None
    } else if es[i].pilot_id@ == pid {
        Some(es[i])
    } else {
        penalty_from(es, pid, i + 1)
    }
}

/// The zone entry for a pilot, scanning from position `i`.
pub open spec fn zone_from(es: Seq<ZoneEntry>, pid: Seq<char>, i: int) -> Option<ZoneEntry>
    decreases es.len() - i when 0 <= i <= es.len()
{
    if i < 0 || i >= es.len() {
        None
    } else if es[i].pilot_id@ == pid {
        Some(es[i])
    } else {
        zone_from(es, pid, i + 1)
    }
}

// --- Derived per-pilot values ---

/// Final lap total: the official override when an entry with the pilot's id
/// exists, else the raw aggregated sum.
pub open spec fn final_laps_of(m: RaceDataModel, pid: Seq<char>) -> int {
    match find_official(m, pid) {
        Some(e) => e.laps as int,
        None => pilot_agg(m, pid).total,
    }
}

/// Gap to the leader: from the official entry, else "0".
pub open spec fn gap_of(m: RaceDataModel, pid: Seq<char>) -> Seq<char> {
    match find_official(m, pid) {
        Some(e) => e.gap@,
        None => "0"@,
    }
}

/// Penalties: from the penalties table, else 0.
pub open spec fn penalty_of(m: RaceDataModel, pid: Seq<char>) -> int {
    match penalty_from(m.penalties@, pid, 0) {
        Some(e) => e.value as int,
        None => 0,
    }
}

/// Zone: from the zones table, else "000".
pub open spec fn zone_of(m: RaceDataModel, pid: Seq<char>) -> Seq<char> {
    match zone_from(m.zones@, pid, 0) {
        Some(e) => e.zone@,
        None => "000"@,
    }
}

/// The fixed human-readable lane names for slots one to eight; beyond
/// those, the placeholder.
pub open spec fn lane_name(i: int) -> Seq<char> {
    if i == 1 {
        "Vermelha"@
    } else if i == 2 {
        "Branca"@
    } else if i == 3 {
        "Verde"@
    } else if i == 4 {
        "Laranja"@
    } else if i == 5 {
        "Azul"@
    } else if i == 6 {
        "Amarela"@
    } else if i == 7 {
        "Roxa"@
    } else if i == 8 {
        "Preta"@
    } else {
        "---"@
    }
}

/// The lane name of the pilot's best slot, or the placeholder when the
/// pilot has no valid lap.
pub open spec fn best_slot_name_of(m: RaceDataModel, pid: Seq<char>) -> Seq<char> {
    match pilot_agg(m, pid).best {
        Some(b) => lane_name(b.1 as int),
        None => "---"@,
    }
}

// --- Event-wide best lap ---

/// Minimum of two optional times; absent values never win.
pub open spec fn min_opt(a: Option<u64>, b: Option<u64>) -> Option<u64> {
    match (a, b) {
        (None, x) => x,
        (Some(u), None) => Some(u),
        (Some(u), Some(v)) => if u <= v {
            Some(u)
        } else {
            Some(v)
        },
    }
}

/// Folding the pilots' best times into the event minimum, from pilot `i` on.
pub open spec fn overall_from(m: RaceDataModel, i: int, acc: Option<u64>) -> Option<u64>
    decreases m.pilots@.len() - i when 0 <= i <= m.pilots@.len()
{
    if i < 0 || i >= m.pilots@.len() {
        acc
    } else {
        overall_from(m, i + 1, min_opt(acc, best_time_of(m, m.pilots@[i].id@)))
    }
}

/// The single event-wide best lap time: the minimum valid best time over
/// all pilots, absent when no pilot recorded a valid lap.
pub open spec fn overall_best(m: RaceDataModel) -> Option<u64> {
    overall_from(m, 0, None)
}

// --- The summary ---

/// Display-ready record of one pilot.
pub struct PilotSummary {
    pub id: String,
    pub name: String,
    pub total_laps: u64,
    pub penalties: i64,
    pub zone: String,
    pub gap: String,
    pub sessions: u64,
    pub best: Option<BestLap>,
    pub best_time_text: String,
    pub average_text: String,
    pub is_overall_best: bool,
    pub best_slot_name: String,
    pub slots: Vec<SlotRecord>,
}

/// Everything a pilot's summary must say, except the overall-best flag.
pub open spec fn summary_core_ok(m: RaceDataModel, p: Pilot, s: PilotSummary) -> bool {
    &&& s.id@ == p.id@
    &&& s.name@ == p.name@
    &&& s.total_laps == final_laps_of(m, p.id@)
    &&& s.gap@ == gap_of(m, p.id@)
    &&& s.penalties == penalty_of(m, p.id@)
    &&& s.zone@ == zone_of(m, p.id@)
    &&& s.sessions == pilot_agg(m, p.id@).sessions
    &&& best_view(s.best) == pilot_agg(m, p.id@).best
    &&& s.best_time_text@ == best_time_text(best_time_of(m, p.id@))
    &&& s.average_text@ == avg_text(
        final_laps_of(m, p.id@) as nat,
        pilot_agg(m, p.id@).sessions as nat,
    )
    &&& s.best_slot_name@ == best_slot_name_of(m, p.id@)
    &&& records_map(s.slots@) == pilot_agg(m, p.id@).slots
    &&& records_unique(s.slots@)
}

/// Everything a pilot's summary must say: the core plus the overall-best
/// flag, set exactly when the pilot's best time equals the event minimum.
pub open spec fn summary_ok(m: RaceDataModel, p: Pilot, s: PilotSummary) -> bool {
    &&& summary_core_ok(m, p, s)
    &&& s.is_overall_best == (overall_best(m) is Some && best_time_of(m, p.id@) == overall_best(m))
}

// --- Executable lookups ---

fn find_official_idx(es: &Vec<OfficialEntry>, pid: &String) -> (r: Option<usize>)
    ensures
        match r {
            Some(j) => j < es@.len() && official_from(es@, pid@, 0) == Some(es@[j as int]),
            None => official_from(es@, pid@, 0) is None,
        },
{
    let mut i: usize = 0;
    while i < es.len()
        invariant
            i <= es@.len(),
            official_from(es@, pid@, 0) == official_from(es@, pid@, i as int),
        decreases es@.len() - i,
    {
        if es[i].pilot_id == *pid {
            return Some(i);
        }
        i += 1;
    }
    None
}

fn find_penalty(es: &Vec<PenaltyEntry>, pid: &String) -> (r: i64)
    ensures
        r == penalty_of_entries(es@, pid@),
{
    let mut i: usize = 0;
    while i < es.len()
        invariant
            i <= es@.len(),
            penalty_from(es@, pid@, 0) == penalty_from(es@, pid@, i as int),
        decreases es@.len() - i,
    {
        if es[i].pilot_id == *pid {
            return es[i].value;
        }
        i += 1;
    }
    0
}

/// Penalty value resolved over an entry list, with its default.
pub open spec fn penalty_of_entries(es: Seq<PenaltyEntry>, pid: Seq<char>) -> int {
    match penalty_from(es, pid, 0) {
        Some(e) => e.value as int,
        None => 0,
    }
}

fn find_zone(es: &Vec<ZoneEntry>, pid: &String) -> (r: String)
    ensures
        r@ == match zone_from(es@, pid@, 0) {
            Some(e) => e.zone@,
            None => "000"@,
        },
{
    let mut i: usize = 0;
    while i < es.len()
        invariant
            i <= es@.len(),
            zone_from(es@, pid@, 0) == zone_from(es@, pid@, i as int),
        decreases es@.len() - i,
    {
        if es[i].pilot_id == *pid {
            return es[i].zone.clone();
        }
        i += 1;
    }
    "000".to_owned()
}

/// The lane name of a slot.
pub fn lane_name_of(slot_id: u64) -> (s: String)
    ensures
        s@ == lane_name(slot_id as int),
{
    let r = if slot_id == 1 {
        "Vermelha"
    } else if slot_id == 2 {
        "Branca"
    } else if slot_id == 3 {
        "Verde"
    } else if slot_id == 4 {
        "Laranja"
    } else if slot_id == 5 {
        "Azul"
    } else if slot_id == 6 {
        "Amarela"
    } else if slot_id == 7 {
        "Roxa"
    } else if slot_id == 8 {
        "Preta"
    } else {
        "---"
    };
    r.to_owned()
}

// --- Building the summaries ---

/// Builds one pilot's summary, with the overall-best flag still unset.
fn build_summary(m: &RaceDataModel, p: &Pilot) -> (s: PilotSummary)
    requires
        m.wf(),
    ensures
        summary_core_ok(*m, *p, s),
        s.is_overall_best == false,
{
    let agg: PilotAgg = aggregate_pilot(m, &p.id);
    let best_t: Option<u64> = match &agg.best {
        Some(b) => Some(b.time),
        None => None,
    };
    let (final_laps, gap): (u64, String) = match find_official_idx(&m.official_ranking, &p.id) {
        Some(j) => (m.official_ranking[j].laps, m.official_ranking[j].gap.clone()),
        None => (agg.total_laps, "0".to_owned()),
    };
    let best_slot_name: String = match &agg.best {
        Some(b) => lane_name_of(b.slot_id),
        None => "---".to_owned(),
    };
    PilotSummary {
        id: p.id.clone(),
        name: p.name.clone(),
        total_laps: final_laps,
        penalties: find_penalty(&m.penalties, &p.id),
        zone: find_zone(&m.zones, &p.id),
        gap,
        sessions: agg.sessions,
        best: agg.best,
        best_time_text: fmt_best_time(best_t),
        average_text: fmt_average(final_laps, agg.sessions),
        is_overall_best: false,
        best_slot_name,
        slots: agg.slots,
    }
}

/// Computes the event-wide minimum valid best time from built summaries.
pub fn compute_overall_best(m: &RaceDataModel, v: &Vec<PilotSummary>) -> (r: Option<u64>)
    requires
        v@.len() == m.pilots@.len(),
        forall|i: int| 0 <= i < v@.len() ==> summary_core_ok(*m, m.pilots@[i], #[trigger] v@[i]),
    ensures
        r == overall_best(*m),
{
    let mut cur: Option<u64> = None;
    let mut i: usize = 0;
    while i < v.len()
        invariant
            i <= v@.len(),
            v@.len() == m.pilots@.len(),
            forall|j: int| 0 <= j < v@.len() ==> summary_core_ok(*m, m.pilots@[j], #[trigger] v@[j]),
            overall_best(*m) == overall_from(*m, i as int, cur),
        decreases v@.len() - i,
    {
        let bt: Option<u64> = match &v[i].best {
            Some(b) => Some(b.time),
            None => None,
        };
        proof {
            assert(bt == best_time_of(*m, m.pilots@[i as int].id@));
        }
        cur = match (cur, bt) {
            (None, x) => x,
            (Some(u), None) => Some(u),
            (Some(u), Some(t)) => if u <= t {
                Some(u)
            } else {
                Some(t)
            },
        };
        i += 1;
    }
    cur
}

/// Builds the summaries of every pilot, in document order, with the
/// overall-best flags resolved against the event minimum.
pub fn build_summaries(m: &RaceDataModel) -> (v: Vec<PilotSummary>)
    requires
        m.wf(),
    ensures
        v@.len() == m.pilots@.len(),
        forall|i: int| 0 <= i < v@.len() ==> summary_ok(*m, m.pilots@[i], #[trigger] v@[i]),
{
    let mut core: Vec<PilotSummary> = Vec::new();
    let mut i: usize = 0;
    while i < m.pilots.len()
        invariant
            m.wf(),
            i <= m.pilots@.len(),
            core@.len() == i,
            forall|j: int|
                0 <= j < i ==> summary_core_ok(*m, m.pilots@[j], #[trigger] core@[j])
                    && core@[j].is_overall_best == false,
        decreases m.pilots@.len() - i,
    {
        let s = build_summary(m, &m.pilots[i]);
        core.push(s);
        i += 1;
    }
    let overall = compute_overall_best(m, &core);
    let ghost pre = core@;
    let n = core.len();
    let mut v: Vec<PilotSummary> = Vec::new();
    while v.len() < n
        invariant
            n == pre.len(),
            core@ == pre.skip(v@.len() as int),
            v@.len() <= n,
            overall == overall_best(*m),
            pre.len() == m.pilots@.len(),
            forall|j: int|
                0 <= j < pre.len() ==> summary_core_ok(*m, m.pilots@[j], #[trigger] pre[j]),
            forall|j: int| 0 <= j < v@.len() ==> summary_ok(*m, m.pilots@[j], #[trigger] v@[j]),
        decreases n - v@.len(),
    {
        let ghost done = v@.len() as int;
        proof {
            assert(core@.len() > 0);
            assert(pre.skip(done)[0] == pre[done]);
            assert(pre.skip(done).remove(0) =~= pre.skip(done + 1));
        }
        let s = core.remove(0);
        let bt: Option<u64> = match &s.best {
            Some(b) => Some(b.time),
            None => None,
        };
        let flag: bool = match (bt, overall) {
            (Some(a), Some(o)) => a == o,
            _ => false,
        };
        proof {
            assert(bt == best_time_of(*m, m.pilots@[done].id@));
        }
        v.push(
            PilotSummary {
                id: s.id,
                name: s.name,
                total_laps: s.total_laps,
                penalties: s.penalties,
                zone: s.zone,
                gap: s.gap,
                sessions: s.sessions,
                best: s.best,
                best_time_text: s.best_time_text,
                average_text: s.average_text,
                is_overall_best: flag,
                best_slot_name: s.best_slot_name,
                slots: s.slots,
            },
        );
    }
    v
}

} // verus!
