use raceday::aggregate::{aggregate_pilot, SlotRecord};
use raceday::ingest::{build_model, model_fits, RawDocument, RawOfficialEntry, RawPenaltyEntry, RawPilot, RawRace, RawSession, RawSlot, RawZoneEntry};
use raceday::model::{EventInfo, EventMeta, OfficialEntry, PenaltyEntry, Pilot, Race, RaceDataModel, Session, SlotSample, ZoneEntry};
use raceday::ranking::build_summaries;
use raceday::report::assemble_report;
use raceday::sort::sort_ranking;

fn slot(slot_id: u64, pilot: &str, laps: u64, time: Option<u64>) -> SlotSample {
    SlotSample { slot_id, pilot_id: pilot.to_string(), laps, time }
}

fn model(pilots: Vec<(&str, &str)>, races: Vec<Vec<Vec<SlotSample>>>) -> RaceDataModel {
    RaceDataModel {
        event: EventInfo { timestamp: "123".to_string(), slug: "gp".to_string() },
        metadata: EventMeta { slots: 6 },
        pilots: pilots
            .into_iter()
            .map(|(id, name)| Pilot { id: id.to_string(), name: name.to_string() })
            .collect(),
        races: races
            .into_iter()
            .map(|sessions| Race {
                sessions: sessions.into_iter().map(|slots| Session { slots }).collect(),
            })
            .collect(),
        official_ranking: Vec::new(),
        penalties: Vec::new(),
        zones: Vec::new(),
    }
}

fn laps_of(slots: &[SlotRecord], slot_id: u64) -> Option<u64> {
    slots.iter().find(|r| r.slot_id == slot_id).map(|r| r.laps)
}

#[test]
fn scenario_two_pilots() {
    // Pilot A: slot 1 laps 10 time 32.500, slot 2 laps 8 time 31.800.
    // Pilot B: slot 1 laps 12 time 33.000. No official entries.
    let m = model(
        vec![("a", "Alice"), ("b", "Bruno")],
        vec![vec![
            vec![slot(1, "a", 10, Some(32500))],
            vec![slot(2, "a", 8, Some(31800)), slot(1, "b", 12, Some(33000))],
        ]],
    );
    assert!(model_fits(&m));
    let rep = assemble_report(&m);
    assert_eq!(rep.ranking.len(), 2);
    assert_eq!(rep.ranking[0].name, "Alice");
    assert_eq!(rep.ranking[0].total_laps, 18);
    assert_eq!(rep.ranking[1].name, "Bruno");
    assert_eq!(rep.ranking[1].total_laps, 12);
    assert_eq!(rep.overall_best_text, "31.800");
    assert!(rep.ranking[0].is_overall_best);
    assert!(!rep.ranking[1].is_overall_best);
    assert_eq!(rep.ranking[0].average_text, "9,0");
    assert_eq!(rep.ranking[0].best_time_text, "31.800");
    assert_eq!(rep.ranking[0].best_slot_name, "Branca");
    assert_eq!(rep.ranking[0].sessions, 2);
    let s1 = rep.slot_best_texts.iter().find(|t| t.slot_id == 1).unwrap();
    assert_eq!(s1.text, "32.500");
    let s2 = rep.slot_best_texts.iter().find(|t| t.slot_id == 2).unwrap();
    assert_eq!(s2.text, "31.800");
    assert_eq!(rep.slot_bests.len(), 2);
}

#[test]
fn no_valid_time_displays_zero_and_never_flagged() {
    let m = model(
        vec![("a", "Alice"), ("b", "Bruno")],
        vec![vec![vec![slot(1, "a", 5, None), slot(2, "b", 3, Some(40000))]]],
    );
    let rep = assemble_report(&m);
    let alice = rep.ranking.iter().find(|p| p.name == "Alice").unwrap();
    assert_eq!(alice.best_time_text, "0.000");
    assert!(!alice.is_overall_best);
    assert!(alice.best.is_none());
    assert_eq!(alice.best_slot_name, "---");
    let bruno = rep.ranking.iter().find(|p| p.name == "Bruno").unwrap();
    assert!(bruno.is_overall_best);
    assert_eq!(rep.overall_best_text, "40.000");
}

#[test]
fn official_override_wins_over_raw_sum() {
    let mut m = model(
        vec![("a", "Alice"), ("b", "Bruno")],
        vec![vec![vec![slot(1, "a", 10, Some(30000)), slot(2, "b", 7, Some(31000))]]],
    );
    m.official_ranking.push(OfficialEntry {
        pilot_id: "a".to_string(),
        laps: 50,
        gap: "2 voltas".to_string(),
    });
    let summaries = build_summaries(&m);
    assert_eq!(summaries[0].total_laps, 50);
    assert_eq!(summaries[0].gap, "2 voltas");
    assert_eq!(summaries[1].total_laps, 7);
    assert_eq!(summaries[1].gap, "0");
    // the average uses the final (overridden) total: 50 / 1 session
    assert_eq!(summaries[0].average_text, "50,0");
}

#[test]
fn ranking_is_stable_for_equal_totals() {
    let m = model(
        vec![("a", "Alice"), ("b", "Bruno"), ("c", "Carla"), ("d", "Dora")],
        vec![vec![vec![
            slot(1, "a", 5, None),
            slot(2, "b", 9, None),
            slot(3, "c", 5, None),
            slot(4, "d", 5, None),
        ]]],
    );
    let ranking = sort_ranking(build_summaries(&m));
    let names: Vec<&str> = ranking.iter().map(|p| p.name.as_str()).collect();
    assert_eq!(names, vec!["Bruno", "Alice", "Carla", "Dora"]);
    assert!(ranking[0].total_laps >= ranking[1].total_laps);
    assert!(ranking[1].total_laps >= ranking[3].total_laps);
}

#[test]
fn shared_minimum_flags_every_holder() {
    let m = model(
        vec![("a", "Alice"), ("b", "Bruno"), ("c", "Carla")],
        vec![vec![vec![
            slot(1, "a", 5, Some(29750)),
            slot(2, "b", 6, Some(29750)),
            slot(3, "c", 7, Some(29900)),
        ]]],
    );
    let rep = assemble_report(&m);
    assert_eq!(rep.overall_best_text, "29.750");
    let flagged: Vec<&str> = rep
        .ranking
        .iter()
        .filter(|p| p.is_overall_best)
        .map(|p| p.name.as_str())
        .collect();
    assert_eq!(flagged.len(), 2);
    assert!(flagged.contains(&"Alice"));
    assert!(flagged.contains(&"Bruno"));
}

#[test]
fn slot_best_omits_slots_without_valid_times() {
    let m = model(
        vec![("a", "Alice"), ("b", "Bruno")],
        vec![vec![vec![
            slot(1, "a", 5, Some(31000)),
            slot(2, "b", 6, None),
            slot(3, "b", 2, Some(35000)),
        ]]],
    );
    let rep = assemble_report(&m);
    assert!(rep.slot_bests.iter().any(|b| b.slot_id == 1 && b.time == 31000));
    assert!(rep.slot_bests.iter().any(|b| b.slot_id == 3 && b.time == 35000));
    assert!(!rep.slot_bests.iter().any(|b| b.slot_id == 2));
    assert_eq!(rep.slot_bests.len(), 2);
}

#[test]
fn slot_best_takes_minimum_across_pilots() {
    let m = model(
        vec![("a", "Alice"), ("b", "Bruno")],
        vec![vec![
            vec![slot(1, "a", 5, Some(31000))],
            vec![slot(1, "b", 6, Some(30500))],
        ]],
    );
    let rep = assemble_report(&m);
    assert_eq!(rep.slot_bests.len(), 1);
    assert_eq!(rep.slot_bests[0].slot_id, 1);
    assert_eq!(rep.slot_bests[0].time, 30500);
    assert_eq!(rep.slot_best_texts[0].text, "30.500");
}

#[test]
fn chart_series_covers_every_declared_lane() {
    let mut m = model(
        vec![("a", "Alice"), ("b", "Bruno")],
        vec![vec![vec![slot(1, "a", 10, Some(32000)), slot(3, "b", 4, Some(33000))]]],
    );
    m.metadata.slots = 4;
    let rep = assemble_report(&m);
    assert_eq!(rep.chart.datasets.len(), 2);
    for d in &rep.chart.datasets {
        assert_eq!(d.data.len(), 4);
    }
    let alice = rep.chart.datasets.iter().find(|d| d.label == "Alice").unwrap();
    assert_eq!(alice.data, vec![10, 0, 0, 0]);
    let bruno = rep.chart.datasets.iter().find(|d| d.label == "Bruno").unwrap();
    assert_eq!(bruno.data, vec![0, 0, 4, 0]);
    assert_eq!(rep.chart.labels, vec!["Vermelha", "Branca", "Verde", "Laranja"]);
    assert_eq!(rep.chart.datasets[0].color, "#FF6384");
    assert_eq!(rep.chart.datasets[1].color, "#36A2EB");
}

#[test]
fn insights_name_best_pilot_and_winner() {
    let m = model(
        vec![("a", "Alice"), ("b", "Bruno")],
        vec![vec![vec![slot(1, "a", 10, Some(32500)), slot(2, "b", 12, Some(33000))]]],
    );
    let rep = assemble_report(&m);
    assert_eq!(rep.insights.len(), 2);
    assert_eq!(
        rep.insights[0],
        "Melhor Volta Absoluta: Performance de elite por Alice com o tempo de 32.500s na fenda Vermelha."
    );
    assert_eq!(
        rep.insights[1],
        "Dominio tecnico: O vencedor Bruno demonstrou consistencia extrema, completando 12 voltas."
    );
}

#[test]
fn aggregation_counts_matching_slots_only() {
    let m = model(
        vec![("a", "Alice"), ("b", "Bruno")],
        vec![
            vec![vec![slot(1, "a", 10, Some(32500)), slot(2, "b", 11, Some(31000))]],
            vec![vec![slot(1, "a", 0, None), slot(2, "a", 9, Some(32000))]],
        ],
    );
    let agg = aggregate_pilot(&m, &"a".to_string());
    assert_eq!(agg.total_laps, 19);
    assert_eq!(agg.sessions, 2); // the zero-lap occupation does not count
    let best = agg.best.unwrap();
    assert_eq!(best.time, 32000);
    assert_eq!(best.slot_id, 2);
    // the later occupation of slot 1 overwrites the record
    assert_eq!(laps_of(&agg.slots, 1), Some(0));
    assert_eq!(laps_of(&agg.slots, 2), Some(9));
}

#[test]
fn pilot_with_no_slots_aggregates_to_zero() {
    let m = model(
        vec![("a", "Alice"), ("x", "Xavier")],
        vec![vec![vec![slot(1, "a", 10, Some(32500))]]],
    );
    let agg = aggregate_pilot(&m, &"x".to_string());
    assert_eq!(agg.total_laps, 0);
    assert_eq!(agg.sessions, 0);
    assert!(agg.best.is_none());
    assert!(agg.slots.is_empty());
}

#[test]
fn ingestion_applies_documented_defaults() {
    let raw = RawDocument {
        timestamp: None,
        slug: None,
        slots: None,
        pilots: vec![RawPilot { id: "a".to_string(), name: None }],
        races: vec![RawRace {
            sessions: vec![RawSession {
                slots: vec![RawSlot { slot_id: 1, pilot_id: None, laps: None, time: Some(0) }],
            }],
        }],
        official_ranking: vec![RawOfficialEntry { pilot_id: "a".to_string(), laps: None, gap: None }],
        penalties: vec![RawPenaltyEntry { pilot_id: "a".to_string(), value: None }],
        zones: vec![RawZoneEntry { pilot_id: "a".to_string(), zone: None }],
    };
    let m = build_model(&raw);
    assert_eq!(m.event.timestamp, "000");
    assert_eq!(m.event.slug, "race");
    assert_eq!(m.metadata.slots, 6);
    assert_eq!(m.pilots[0].name, "---");
    assert_eq!(m.races[0].sessions[0].slots[0].pilot_id, "---");
    assert_eq!(m.races[0].sessions[0].slots[0].laps, 0);
    assert_eq!(m.races[0].sessions[0].slots[0].time, None);
    assert_eq!(m.official_ranking[0].laps, 0);
    assert_eq!(m.official_ranking[0].gap, "0");
    assert_eq!(m.penalties[0].value, 0);
    assert_eq!(m.zones[0].zone, "000");
    assert!(model_fits(&m));
}

#[test]
fn model_fits_rejects_zero_time_sentinel() {
    let m = model(vec![("a", "Alice")], vec![vec![vec![slot(1, "a", 5, Some(0))]]]);
    assert!(!model_fits(&m));
}

#[test]
fn penalties_and_zones_resolve_by_id() {
    let mut m = model(
        vec![("a", "Alice"), ("b", "Bruno")],
        vec![vec![vec![slot(1, "a", 3, Some(30000)), slot(2, "b", 4, Some(31000))]]],
    );
    m.penalties.push(PenaltyEntry { pilot_id: "b".to_string(), value: 2 });
    m.zones.push(ZoneEntry { pilot_id: "b".to_string(), zone: "Z4".to_string() });
    let summaries = build_summaries(&m);
    assert_eq!(summaries[0].penalties, 0);
    assert_eq!(summaries[0].zone, "000");
    assert_eq!(summaries[1].penalties, 2);
    assert_eq!(summaries[1].zone, "Z4");
}

#[test]
fn empty_event_yields_empty_report() {
    let m = model(vec![], vec![]);
    let rep = assemble_report(&m);
    assert!(rep.ranking.is_empty());
    assert!(rep.slot_bests.is_empty());
    assert!(rep.insights.is_empty());
    assert_eq!(rep.overall_best_text, "0.000");
}
