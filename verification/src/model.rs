//! Typed view of the ingested race-timing document.
//!
//! Lap times are carried as integral thousandths of a second: the document's
//! times are fixed to three decimals at the presentation boundary, so this
//! representation is exact for everything the aggregation compares or
//! displays. A slot with no valid lap carries `None`, never a sentinel.

use vstd::prelude::*;

verus! {

/// Event identification passed through from the document.
pub struct EventInfo {
    pub timestamp: String,
    pub slug: String,
}

/// Document metadata: the declared number of lanes (slots).
pub struct EventMeta {
    pub slots: u64,
}

/// A competitor, identified by the canonical id used as key everywhere in
/// the document.
pub struct Pilot {
    pub id: String,
    pub name: String,
}

/// One lane occupation inside a session: which pilot sat in which slot, how
/// many laps they completed there, and their best lap of that occupation in
/// thousandths of a second (`None`: no valid lap).
pub struct SlotSample {
    pub slot_id: u64,
    pub pilot_id: String,
    pub laps: u64,
    pub time: Option<u64>,
}

/// One timed heat: its lane occupations.
pub struct Session {
    pub slots: Vec<SlotSample>,
}

/// One race: its sessions.
pub struct Race {
    pub sessions: Vec<Session>,
}

/// Authoritative standings override: total laps and gap for one pilot.
pub struct OfficialEntry {
    pub pilot_id: String,
    pub laps: u64,
    pub gap: String,
}

/// Penalty count for one pilot.
pub struct PenaltyEntry {
    pub pilot_id: String,
    pub value: i64,
}

/// Zone string for one pilot.
pub struct ZoneEntry {
    pub pilot_id: String,
    pub zone: String,
}

/// The whole ingested document, fully typed and defaulted.
pub struct RaceDataModel {
    pub event: EventInfo,
    pub metadata: EventMeta,
    pub pilots: Vec<Pilot>,
    pub races: Vec<Race>,
    pub official_ranking: Vec<OfficialEntry>,
    pub penalties: Vec<PenaltyEntry>,
    pub zones: Vec<ZoneEntry>,
}

impl SlotSample {
    /// A recorded time is either absent or positive: zero never stands for
    /// "no lap" inside the model.
    pub open spec fn wf(self) -> bool {
        match self.time {
            Some(t) => t > 0,
            None => true,
        }
    }
}

/// The samples of a sequence of sessions, flattened in traversal order.
pub open spec fn samples_of_sessions(ss: Seq<Session>) -> Seq<SlotSample>
    decreases ss.len(),
{
    if ss.len() == 0 {
        Seq::empty()
    } else {
        samples_of_sessions(ss.drop_last()) + ss.last().slots@
    }
}

/// The samples of a sequence of races, flattened in traversal order.
pub open spec fn samples_of_races(rs: Seq<Race>) -> Seq<SlotSample>
    decreases rs.len(),
{
    if rs.len() == 0 {
        Seq::empty()
    } else {
        samples_of_races(rs.drop_last()) + samples_of_sessions(rs.last().sessions@)
    }
}

/// Every slot sample of the event, in traversal order (race by race,
/// session by session, slot by slot).
pub open spec fn all_samples(m: RaceDataModel) -> Seq<SlotSample> {
    samples_of_races(m.races@)
}

/// Sum of `laps + 1` over a sample sequence: one budget that bounds both a
/// lap total and a session count accumulated over any subsequence.
pub open spec fn weight(s: Seq<SlotSample>) -> int
    decreases s.len(),
{
    if s.len() == 0 {
        0
    } else {
        weight(s.drop_last()) + s.last().laps + 1
    }
}

impl RaceDataModel {
    /// Well-formedness: every recorded time is positive, and the lap counts
    /// are small enough that every total this library computes fits in a
    /// machine word.
    pub open spec fn wf(self) -> bool {
        &&& weight(all_samples(self)) <= u64::MAX
        &&& forall|i: int|
            0 <= i < all_samples(self).len() ==> (#[trigger] all_samples(self)[i]).wf()
    }
}

pub proof fn lemma_weight_nonneg(s: Seq<SlotSample>)
    ensures
        weight(s) >= 0,
    decreases s.len(),
{
    if s.len() > 0 {
        lemma_weight_nonneg(s.drop_last());
    }
}

pub proof fn lemma_weight_concat(a: Seq<SlotSample>, b: Seq<SlotSample>)
    ensures
        weight(a + b) == weight(a) + weight(b),
    decreases b.len(),
{
    if b.len() == 0 {
        assert(a + b =~= a);
    } else {
        assert((a + b).drop_last() =~= a + b.drop_last());
        lemma_weight_concat(a, b.drop_last());
    }
}

/// Flattening distributes over concatenation of session sequences.
pub proof fn lemma_sessions_concat(a: Seq<Session>, b: Seq<Session>)
    ensures
        samples_of_sessions(a + b) == samples_of_sessions(a) + samples_of_sessions(b),
    decreases b.len(),
{
    if b.len() == 0 {
        assert(a + b =~= a);
        assert(samples_of_sessions(a) + samples_of_sessions(b) =~= samples_of_sessions(a));
    } else {
        assert((a + b).drop_last() =~= a + b.drop_last());
        lemma_sessions_concat(a, b.drop_last());
        assert(samples_of_sessions(a + b) =~= samples_of_sessions(a) + samples_of_sessions(b));
    }
}

/// Flattening distributes over concatenation of race sequences.
pub proof fn lemma_races_concat(a: Seq<Race>, b: Seq<Race>)
    ensures
        samples_of_races(a + b) == samples_of_races(a) + samples_of_races(b),
    decreases b.len(),
{
    if b.len() == 0 {
        assert(a + b =~= a);
        assert(samples_of_races(a) + samples_of_races(b) =~= samples_of_races(a));
    } else {
        assert((a + b).drop_last() =~= a + b.drop_last());
        lemma_races_concat(a, b.drop_last());
        assert(samples_of_races(a + b) =~= samples_of_races(a) + samples_of_races(b));
    }
}

} // verus!
