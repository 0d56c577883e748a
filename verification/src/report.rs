//! Report assembly: narrative highlight lines, the chart-ready per-pilot
//! lap series (one value per declared lane, zero where a pilot never sat),
//! and the packaged result handed to the rendering collaborator.

use vstd::prelude::*;
use vstd::string::StringExecFns;
use crate::model::RaceDataModel;
use crate::aggregate::records_map;
use crate::aggregate::records_unique;
use crate::ranking::{
    build_summaries, compute_overall_best, lane_name, lane_name_of, overall_best, summary_core_ok,
    summary_ok, PilotSummary,
};
use crate::slot_best::{bests_map, bests_unique, slot_bests, slot_bests_spec, SlotBest};
use crate::sort::{sort_ranking, stable_sort_desc, lemma_sort_permutes};
use crate::text::{best_time_text, dec_digits, fmt_best_time, fmt_thousandths, time_text};

verus! {

/// One pilot's chart series: name, laps per lane, and line color.
pub struct ChartDataset {
    pub label: String,
    pub data: Vec<u64>,
    pub color: String,
}

/// The chart: lane axis labels and one dataset per pilot in ranking order.
pub struct ChartSeries {
    pub labels: Vec<String>,
    pub datasets: Vec<ChartDataset>,
}

/// The fixed chart palette, cycled by ranking position.
pub open spec fn palette_color(i: int) -> Seq<char> {
    if i == 0 {
        "#FF6384"@
    } else if i == 1 {
        "#36A2EB"@
    } else if i == 2 {
        "#FFCE56"@
    } else if i == 3 {
        "#4BC0C0"@
    } else if i == 4 {
        "#9966FF"@
    } else if i == 5 {
        "#FF9F40"@
    } else if i == 6 {
        "#8BC34A"@
    } else if i == 7 {
        "#000000"@
    } else if i == 8 {
        "#E91E63"@
    } else if i == 9 {
        "#9C27B0"@
    } else if i == 10 {
        "#00BCD4"@
    } else if i == 11 {
        "#009688"@
    } else if i == 12 {
        "#CDDC39"@
    } else if i == 13 {
        "#FFEB3B"@
    } else if i == 14 {
        "#795548"@
    } else {
        "#607D8B"@
    }
}

fn palette_color_of(i: usize) -> (s: String)
    ensures
        s@ == palette_color(i as int % 16),
{
    let j = i % 16;
    let r = if j == 0 {
        "#FF6384"
    } else if j == 1 {
        "#36A2EB"
    } else if j == 2 {
        "#FFCE56"
    } else if j == 3 {
        "#4BC0C0"
    } else if j == 4 {
        "#9966FF"
    } else if j == 5 {
        "#FF9F40"
    } else if j == 6 {
        "#8BC34A"
    } else if j == 7 {
        "#000000"
    } else if j == 8 {
        "#E91E63"
    } else if j == 9 {
        "#9C27B0"
    } else if j == 10 {
        "#00BCD4"
    } else if j == 11 {
        "#009688"
    } else if j == 12 {
        "#CDDC39"
    } else if j == 13 {
        "#FFEB3B"
    } else if j == 14 {
        "#795548"
    } else {
        "#607D8B"
    };
    r.to_owned()
}

/// The laps a pilot recorded in one slot, zero when the pilot never sat
/// there.
pub open spec fn laps_at(p: PilotSummary, k: u64) -> u64 {
    if records_map(p.slots@).contains_key(k) {
        records_map(p.slots@)[k].0
    } else {
        0
    }
}

fn laps_for_slot(p: &PilotSummary, k: u64) -> (r: u64)
    requires
        records_unique(p.slots@),
    ensures
        r == laps_at(*p, k),
{
    proof {
        crate::aggregate::lemma_records_map_props(p.slots@);
    }
    let mut j: usize = 0;
    while j < p.slots.len()
        invariant
            j <= p.slots@.len(),
            records_unique(p.slots@),
            forall|i: int|
                0 <= i < p.slots@.len() ==> records_map(p.slots@).contains_key(
                    #[trigger] p.slots@[i].slot_id,
                ) && records_map(p.slots@)[p.slots@[i].slot_id] == (
                p.slots@[i].laps,
                p.slots@[i].time,
            ),
            forall|q: u64|
                records_map(p.slots@).contains_key(q) ==> exists|i: int|
                    0 <= i < p.slots@.len() && p.slots@[i].slot_id == q,
            forall|i: int| 0 <= i < j ==> p.slots@[i].slot_id != k,
        decreases p.slots@.len() - j,
    {
        if p.slots[j].slot_id == k {
            return p.slots[j].laps;
        }
        j += 1;
    }
    proof {
        if records_map(p.slots@).contains_key(k) {
            let i = choose|i: int| 0 <= i < p.slots@.len() && p.slots@[i].slot_id == k;
            assert(false);
        }
    }
    0
}

/// Builds the chart: one label per lane up to the eight named ones, and per
/// pilot one series of `slots_count` lap values, zero where the pilot has
/// no record.
pub fn build_chart(ranking: &Vec<PilotSummary>, slots_count: u64) -> (c: ChartSeries)
    requires
        slots_count <= usize::MAX,
        forall|i: int| 0 <= i < ranking@.len() ==> records_unique((#[trigger] ranking@[i]).slots@),
    ensures
        c.labels@.len() == if slots_count < 8 {
            slots_count as int
        } else {
            8int
        },
        forall|j: int| 0 <= j < c.labels@.len() ==> (#[trigger] c.labels@[j])@ == lane_name(j + 1),
        c.datasets@.len() == ranking@.len(),
        forall|i: int|
            0 <= i < ranking@.len() ==> {
                &&& (#[trigger] c.datasets@[i]).label@ == ranking@[i].name@
                &&& c.datasets@[i].color@ == palette_color(i % 16)
                &&& c.datasets@[i].data@.len() == slots_count
            },
        forall|i: int, j: int|
            0 <= i < ranking@.len() && 0 <= j < slots_count ==> (#[trigger] c.datasets@[i].data@[j])
                == laps_at(ranking@[i], (j + 1) as u64),
{
    let label_count: u64 = if slots_count < 8 {
        slots_count
    } else {
        8
    };
    let mut labels: Vec<String> = Vec::new();
    let mut j: u64 = 0;
    while j < label_count
        invariant
            j <= label_count,
            label_count <= 8,
            labels@.len() == j,
            forall|q: int| 0 <= q < j ==> (#[trigger] labels@[q])@ == lane_name(q + 1),
        decreases label_count - j,
    {
        labels.push(lane_name_of(j + 1));
        j += 1;
    }
    let mut datasets: Vec<ChartDataset> = Vec::new();
    let mut i: usize = 0;
    while i < ranking.len()
        invariant
            i <= ranking@.len(),
            slots_count <= usize::MAX,
            forall|q: int|
                0 <= q < ranking@.len() ==> records_unique((#[trigger] ranking@[q]).slots@),
            datasets@.len() == i,
            forall|q: int|
                0 <= q < i ==> {
                    &&& (#[trigger] datasets@[q]).label@ == ranking@[q].name@
                    &&& datasets@[q].color@ == palette_color(q % 16)
                    &&& datasets@[q].data@.len() == slots_count
                },
            forall|q: int, w: int|
                0 <= q < i && 0 <= w < slots_count ==> (#[trigger] datasets@[q].data@[w]) == laps_at(
                    ranking@[q],
                    (w + 1) as u64,
                ),
        decreases ranking@.len() - i,
    {
        let p = &ranking[i];
        let mut data: Vec<u64> = Vec::new();
        let mut s: u64 = 0;
        while s < slots_count
            invariant
                s <= slots_count,
                slots_count <= usize::MAX,
                p == ranking@[i as int],
                i < ranking@.len(),
                records_unique(p.slots@),
                data@.len() == s,
                forall|w: int| 0 <= w < s ==> (#[trigger] data@[w]) == laps_at(
                    ranking@[i as int],
                    (w + 1) as u64,
                ),
            decreases slots_count - s,
        {
            data.push(laps_for_slot(p, s + 1));
            s += 1;
        }
        datasets.push(
            ChartDataset { label: p.name.clone(), data, color: palette_color_of(i) },
        );
        i += 1;
    }
    ChartSeries { labels, datasets }
}

// --- Highlights ---

/// The first summary flagged overall-best, scanning from position `i`.
pub open spec fn flagged_from(ps: Seq<PilotSummary>, i: int) -> Option<PilotSummary>
    decreases ps.len() - i when 0 <= i <= ps.len()
{
    if i < 0 || i >= ps.len() {
        None
    } else if ps[i].is_overall_best {
        Some(ps[i])
    } else {
        flagged_from(ps, i + 1)
    }
}

/// The highlight line naming the overall-best pilot, their time and slot.
pub open spec fn best_insight(p: PilotSummary) -> Seq<char> {
    "Melhor Volta Absoluta: Performance de elite por "@ + p.name@ + " com o tempo de "@
        + p.best_time_text@ + "s na fenda "@ + p.best_slot_name@ + "."@
}

/// The highlight line naming the winner and their lap total.
pub open spec fn winner_insight(p: PilotSummary) -> Seq<char> {
    "Dominio tecnico: O vencedor "@ + p.name@ + " demonstrou consistencia extrema, completando "@
        + dec_digits(p.total_laps as nat) + " voltas."@
}

fn render_best_insight(p: &PilotSummary) -> (s: String)
    ensures
        s@ == best_insight(*p),
{
    let mut s = "Melhor Volta Absoluta: Performance de elite por ".to_owned();
    s.append(p.name.as_str());
    s.append(" com o tempo de ");
    s.append(p.best_time_text.as_str());
    s.append("s na fenda ");
    s.append(p.best_slot_name.as_str());
    s.append(".");
    proof {
        assert(s@ =~= best_insight(*p));
    }
    s
}

fn render_winner_insight(p: &PilotSummary) -> (s: String)
    ensures
        s@ == winner_insight(*p),
{
    let mut s = "Dominio tecnico: O vencedor ".to_owned();
    s.append(p.name.as_str());
    s.append(" demonstrou consistencia extrema, completando ");
    s.append(crate::text::u64_to_string(p.total_laps).as_str());
    s.append(" voltas.");
    proof {
        assert(s@ =~= winner_insight(*p));
    }
    s
}

/// Builds the highlight lines: one for the overall-best pilot when any
/// pilot is flagged, one for the winner when the ranking is not empty.
pub fn build_insights(ranking: &Vec<PilotSummary>) -> (v: Vec<String>)
    ensures
        v@.len() == (if flagged_from(ranking@, 0) is Some {
            1int
        } else {
            0int
        }) + (if ranking@.len() > 0 {
            1int
        } else {
            0int
        }),
        flagged_from(ranking@, 0) matches Some(p) ==> v@.len() >= 1 && v@[0]@ == best_insight(p),
        ranking@.len() > 0 ==> v@[v@.len() - 1]@ == winner_insight(ranking@[0]),
{
    let mut v: Vec<String> = Vec::new();
    match find_flagged(ranking) {
        Some(j) => {
            v.push(render_best_insight(&ranking[j]));
        },
        None => {},
    }
    if ranking.len() > 0 {
        v.push(render_winner_insight(&ranking[0]));
    }
    v
}

fn find_flagged(ranking: &Vec<PilotSummary>) -> (r: Option<usize>)
    ensures
        match r {
            Some(j) => j < ranking@.len() && flagged_from(ranking@, 0) == Some(
                ranking@[j as int],
            ),
            None => flagged_from(ranking@, 0) is None,
        },
{
    let mut i: usize = 0;
    while i < ranking.len()
        invariant
            i <= ranking@.len(),
            flagged_from(ranking@, 0) == flagged_from(ranking@, i as int),
        decreases ranking@.len() - i,
    {
        if ranking[i].is_overall_best {
            return Some(i);
        }
        i += 1;
    }
    None
}

// --- The packaged report ---

/// One slot's best time, display-ready.
pub struct SlotBestText {
    pub slot_id: u64,
    pub text: String,
}

/// Everything the rendering collaborator needs.
pub struct ReportData {
    pub insights: Vec<String>,
    pub slot_bests: Vec<SlotBest>,
    pub slot_best_texts: Vec<SlotBestText>,
    pub overall_best_text: String,
    pub ranking: Vec<PilotSummary>,
    pub chart: ChartSeries,
}

fn render_slot_bests(bests: &Vec<SlotBest>) -> (v: Vec<SlotBestText>)
    ensures
        v@.len() == bests@.len(),
        forall|i: int|
            0 <= i < bests@.len() ==> (#[trigger] v@[i]).slot_id == bests@[i].slot_id
                && v@[i].text@ == time_text(bests@[i].time as nat),
{
    let mut v: Vec<SlotBestText> = Vec::new();
    let mut i: usize = 0;
    while i < bests.len()
        invariant
            i <= bests@.len(),
            v@.len() == i,
            forall|q: int|
                0 <= q < i ==> (#[trigger] v@[q]).slot_id == bests@[q].slot_id && v@[q].text@
                    == time_text(bests@[q].time as nat),
        decreases bests@.len() - i,
    {
        v.push(SlotBestText { slot_id: bests[i].slot_id, text: fmt_thousandths(bests[i].time) });
        i += 1;
    }
    v
}

/// Runs the whole pipeline on a well-formed model: per-pilot aggregation,
/// override reconciliation and flags, the stable descending ranking, the
/// per-slot bests, the chart and the highlight lines.
pub fn assemble_report(m: &RaceDataModel) -> (r: ReportData)
    requires
        m.wf(),
        m.metadata.slots <= usize::MAX,
    ensures
        exists|s: Seq<PilotSummary>|
            {
                &&& s.len() == m.pilots@.len()
                &&& (forall|i: int|
                    0 <= i < s.len() ==> summary_ok(*m, m.pilots@[i], #[trigger] s[i]))
                &&& r.ranking@ == stable_sort_desc(s)
            },
        bests_map(r.slot_bests@) == slot_bests_spec(r.ranking@),
        bests_unique(r.slot_bests@),
        r.slot_best_texts@.len() == r.slot_bests@.len(),
        forall|i: int|
            0 <= i < r.slot_bests@.len() ==> (#[trigger] r.slot_best_texts@[i]).slot_id
                == r.slot_bests@[i].slot_id && r.slot_best_texts@[i].text@ == time_text(
                r.slot_bests@[i].time as nat,
            ),
        r.overall_best_text@ == best_time_text(overall_best(*m)),
        r.chart.datasets@.len() == r.ranking@.len(),
        forall|i: int|
            0 <= i < r.ranking@.len() ==> {
                &&& (#[trigger] r.chart.datasets@[i]).label@ == r.ranking@[i].name@
                &&& r.chart.datasets@[i].color@ == palette_color(i % 16)
                &&& r.chart.datasets@[i].data@.len() == m.metadata.slots
            },
        forall|i: int, j: int|
            0 <= i < r.ranking@.len() && 0 <= j < m.metadata.slots ==> (#[trigger] r.chart.datasets@[i].data@[j])
                == laps_at(r.ranking@[i], (j + 1) as u64),
        r.chart.labels@.len() == if m.metadata.slots < 8 {
            m.metadata.slots as int
        } else {
            8int
        },
        forall|j: int|
            0 <= j < r.chart.labels@.len() ==> (#[trigger] r.chart.labels@[j])@ == lane_name(j + 1),
        r.insights@.len() == (if flagged_from(r.ranking@, 0) is Some {
            1int
        } else {
            0int
        }) + (if r.ranking@.len() > 0 {
            1int
        } else {
            0int
        }),
        flagged_from(r.ranking@, 0) matches Some(p) ==> r.insights@.len() >= 1
            && r.insights@[0]@ == best_insight(p),
        r.ranking@.len() > 0 ==> r.insights@[r.insights@.len() - 1]@ == winner_insight(
            r.ranking@[0],
        ),
{
    broadcast use vstd::seq_lib::group_to_multiset_ensures;

    let summaries = build_summaries(m);
    proof {
        assert forall|i: int|
            0 <= i < summaries@.len() implies summary_core_ok(
            *m,
            m.pilots@[i],
            #[trigger] summaries@[i],
        ) by {
            assert(summary_ok(*m, m.pilots@[i], summaries@[i]));
        }
    }
    let overall = compute_overall_best(m, &summaries);
    let ghost s0 = summaries@;
    let ranking = sort_ranking(summaries);
    proof {
        lemma_sort_permutes(s0);
        assert forall|i: int|
            0 <= i < ranking@.len() implies records_unique((#[trigger] ranking@[i]).slots@) by {
            assert(ranking@.contains(ranking@[i]));
            assert(ranking@.to_multiset().count(ranking@[i]) > 0);
            assert(s0.to_multiset().count(ranking@[i]) > 0);
            assert(s0.contains(ranking@[i]));
            let w = choose|w: int| 0 <= w < s0.len() && s0[w] == ranking@[i];
            assert(summary_ok(*m, m.pilots@[w], s0[w]));
        }
    }
    let bests = slot_bests(&ranking);
    let texts = render_slot_bests(&bests);
    let chart = build_chart(&ranking, m.metadata.slots);
    let insights = build_insights(&ranking);
    let overall_text = fmt_best_time(overall);
    ReportData {
        insights,
        slot_bests: bests,
        slot_best_texts: texts,
        overall_best_text: overall_text,
        ranking,
        chart,
    }
}

} // verus!
