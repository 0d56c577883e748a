//! Stable descending sort of the ranking by final lap total. The sorted
//! order is pinned exactly: repeatedly take the first summary holding the
//! maximum total among what is left, so equal totals keep their original
//! relative order.

use vstd::prelude::*;
use crate::ranking::PilotSummary;

verus! {

/// Index of the first maximum-total element, scanning from `i` with the
/// current candidate `cur` (a strictly greater total replaces it).
pub open spec fn first_max_from(s: Seq<PilotSummary>, i: int, cur: int) -> int
    decreases s.len() - i when 0 <= i <= s.len()
{
    if i < 0 || i >= s.len() {
        cur
    } else if s[i].total_laps > s[cur].total_laps {
        first_max_from(s, i + 1, i)
    } else {
        first_max_from(s, i + 1, cur)
    }
}

/// Index of the first element holding the maximum total.
pub open spec fn first_max(s: Seq<PilotSummary>) -> int {
    first_max_from(s, 1, 0)
}

/// `first_max`, clamped into range so the sort is well defined everywhere.
pub open spec fn pick(s: Seq<PilotSummary>) -> int {
    if 0 <= first_max(s) < s.len() {
        first_max(s)
    } else {
        0
    }
}

/// The stable descending order: the first maximal element, then the stable
/// order of the rest.
pub open spec fn stable_sort_desc(s: Seq<PilotSummary>) -> Seq<PilotSummary>
    decreases s.len(),
{
    if s.len() == 0 {
        Seq::empty()
    } else {
        seq![s[pick(s)]] + stable_sort_desc(s.remove(pick(s)))
    }
}

proof fn lemma_first_max_from(s: Seq<PilotSummary>, i: int, cur: int)
    requires
        0 <= cur < i <= s.len(),
        forall|j: int| 0 <= j < i ==> (#[trigger] s[j]).total_laps <= s[cur].total_laps,
        forall|j: int| 0 <= j < cur ==> (#[trigger] s[j]).total_laps < s[cur].total_laps,
    ensures
        0 <= first_max_from(s, i, cur) < s.len(),
        forall|j: int|
            0 <= j < s.len() ==> (#[trigger] s[j]).total_laps <= s[first_max_from(
                s,
                i,
                cur,
            )].total_laps,
        forall|j: int|
            0 <= j < first_max_from(s, i, cur) ==> (#[trigger] s[j]).total_laps < s[first_max_from(
                s,
                i,
                cur,
            )].total_laps,
    decreases s.len() - i,
{
    if i < s.len() {
        if s[i].total_laps > s[cur].total_laps {
            lemma_first_max_from(s, i + 1, i);
        } else {
            lemma_first_max_from(s, i + 1, cur);
        }
    }
}

/// The picked index is the first maximum: nothing is greater, and
/// everything before it is strictly smaller.
pub proof fn lemma_pick(s: Seq<PilotSummary>)
    requires
        s.len() > 0,
    ensures
        0 <= pick(s) < s.len(),
        pick(s) == first_max(s),
        forall|j: int| 0 <= j < s.len() ==> (#[trigger] s[j]).total_laps <= s[pick(s)].total_laps,
        forall|j: int| 0 <= j < pick(s) ==> (#[trigger] s[j]).total_laps < s[pick(s)].total_laps,
{
    lemma_first_max_from(s, 1, 0);
}

// --- The sorted order is a permutation ---

/// Sorting keeps exactly the original summaries, as a multiset.
pub proof fn lemma_sort_permutes(s: Seq<PilotSummary>)
    ensures
        stable_sort_desc(s).to_multiset() =~= s.to_multiset(),
    decreases s.len(),
{
    broadcast use vstd::seq_lib::group_to_multiset_ensures;

    if s.len() > 0 {
        lemma_pick(s);
        let k = pick(s);
        let rest = s.remove(k);
        lemma_sort_permutes(rest);
        vstd::seq_lib::lemma_multiset_commutative(seq![s[k]], stable_sort_desc(rest));
        assert(stable_sort_desc(rest) + seq![s[k]] =~= stable_sort_desc(rest).push(s[k]));
        assert(s.contains(s[k]));
        assert(rest.to_multiset() =~= s.to_multiset().remove(s[k]));
        assert(s.to_multiset().count(s[k]) > 0);
        assert(s.to_multiset().remove(s[k]).insert(s[k]) =~= s.to_multiset());
    }
}

// --- The sorted order is non-increasing ---

/// The sorted totals never increase.
pub proof fn lemma_sort_sorted(s: Seq<PilotSummary>)
    ensures
        stable_sort_desc(s).len() == s.len(),
        forall|i: int, j: int|
            0 <= i <= j < s.len() ==> stable_sort_desc(s)[i].total_laps >= stable_sort_desc(
                s,
            )[j].total_laps,
    decreases s.len(),
{
    broadcast use vstd::seq_lib::group_to_multiset_ensures;

    if s.len() > 0 {
        lemma_pick(s);
        let k = pick(s);
        let rest = s.remove(k);
        let tail = stable_sort_desc(rest);
        lemma_sort_sorted(rest);
        lemma_sort_permutes(rest);
        let out = stable_sort_desc(s);
        assert(out.len() == s.len());
        assert forall|i: int, j: int|
            0 <= i <= j < s.len() implies out[i].total_laps >= out[j].total_laps by {
            if i == 0 && j > 0 {
                assert(out[j] == tail[j - 1]);
                assert(tail.contains(tail[j - 1]));
                assert(tail.to_multiset().count(tail[j - 1]) > 0);
                assert(rest.contains(tail[j - 1]));
                let w = choose|w: int| 0 <= w < rest.len() && rest[w] == tail[j - 1];
                if w < k {
                    assert(rest[w] == s[w]);
                } else {
                    assert(rest[w] == s[w + 1]);
                }
            } else if i > 0 {
                assert(out[i] == tail[i - 1] && out[j] == tail[j - 1]);
            }
        }
    }
}

// --- The sorted order is stable ---

/// The subsequence of summaries holding one given total.
pub open spec fn with_total(s: Seq<PilotSummary>, t: u64) -> Seq<PilotSummary>
    decreases s.len(),
{
    if s.len() == 0 {
        Seq::empty()
    } else {
        with_total(s.drop_last(), t) + if s.last().total_laps == t {
            seq![s.last()]
        } else {
            Seq::empty()
        }
    }
}

proof fn lemma_with_total_concat(a: Seq<PilotSummary>, b: Seq<PilotSummary>, t: u64)
    ensures
        with_total(a + b, t) == with_total(a, t) + with_total(b, t),
    decreases b.len(),
{
    if b.len() == 0 {
        assert(a + b =~= a);
        assert(with_total(a, t) + with_total(b, t) =~= with_total(a, t));
    } else {
        assert((a + b).drop_last() =~= a + b.drop_last());
        lemma_with_total_concat(a, b.drop_last(), t);
        assert(with_total(a + b, t) =~= with_total(a, t) + with_total(b, t));
    }
}

proof fn lemma_with_total_none(s: Seq<PilotSummary>, t: u64)
    requires
        forall|j: int| 0 <= j < s.len() ==> (#[trigger] s[j]).total_laps != t,
    ensures
        with_total(s, t) == Seq::<PilotSummary>::empty(),
    decreases s.len(),
{
    if s.len() > 0 {
        assert(forall|j: int| 0 <= j < s.len() - 1 ==> s.drop_last()[j] == s[j]);
        lemma_with_total_none(s.drop_last(), t);
        assert(with_total(s, t) =~= Seq::<PilotSummary>::empty());
    }
}

/// Stability: for every total, the summaries holding it come out in their
/// original relative order.
pub proof fn lemma_sort_stable(s: Seq<PilotSummary>, t: u64)
    ensures
        with_total(stable_sort_desc(s), t) == with_total(s, t),
    decreases s.len(),
{
    if s.len() > 0 {
        lemma_pick(s);
        let k = pick(s);
        let rest = s.remove(k);
        lemma_sort_stable(rest, t);
        let head = seq![s[k]];
        let tail = stable_sort_desc(rest);
        assert(head.drop_last() =~= Seq::<PilotSummary>::empty());
        assert(head.len() == 1 && head.last() == s[k]);
        assert(with_total(Seq::<PilotSummary>::empty(), t) =~= Seq::<PilotSummary>::empty());
        lemma_with_total_concat(head, tail, t);
        // decompose the original around the picked element
        assert(s =~= s.take(k) + head + s.skip(k + 1));
        assert(rest =~= s.take(k) + s.skip(k + 1));
        lemma_with_total_concat(s.take(k) + head, s.skip(k + 1), t);
        lemma_with_total_concat(s.take(k), head, t);
        lemma_with_total_concat(s.take(k), s.skip(k + 1), t);
        if t == s[k].total_laps {
            // nothing before the first maximum holds the maximal total
            assert forall|j: int| 0 <= j < s.take(k).len() implies (#[trigger] s.take(
                k,
            )[j]).total_laps != t by {
                assert(s.take(k)[j] == s[j]);
            }
            lemma_with_total_none(s.take(k), t);
            assert(with_total(head, t) =~= head);
            assert(with_total(stable_sort_desc(s), t) =~= with_total(s, t));
        } else {
            assert(with_total(head, t) =~= Seq::<PilotSummary>::empty());
            assert(with_total(stable_sort_desc(s), t) =~= with_total(s, t));
        }
    }
}

// --- The sorting pass ---

/// Sorts the summaries into the stable descending ranking order.
pub fn sort_ranking(v: Vec<PilotSummary>) -> (r: Vec<PilotSummary>)
    ensures
        r@ == stable_sort_desc(v@),
{
    let ghost orig = v@;
    let mut rest = v;
    let mut out: Vec<PilotSummary> = Vec::new();
    while rest.len() > 0
        invariant
            stable_sort_desc(orig) == out@ + stable_sort_desc(rest@),
        decreases rest@.len(),
    {
        let ghost before = rest@;
        let mut best: usize = 0;
        let mut i: usize = 1;
        while i < rest.len()
            invariant
                rest@.len() > 0,
                0 <= best < i,
                i <= rest@.len(),
                first_max(rest@) == first_max_from(rest@, i as int, best as int),
            decreases rest@.len() - i,
        {
            if rest[i].total_laps > rest[best].total_laps {
                best = i;
            }
            i += 1;
        }
        proof {
            lemma_pick(before);
            assert(first_max_from(before, before.len() as int, best as int) == best);
            assert(pick(before) == best);
        }
        let x = rest.remove(best);
        out.push(x);
        proof {
            assert(out@ + stable_sort_desc(rest@) =~= out@.drop_last() + (seq![x]
                + stable_sort_desc(rest@)));
        }
    }
    proof {
        assert(stable_sort_desc(rest@) =~= Seq::<PilotSummary>::empty());
        assert(out@ + stable_sort_desc(rest@) =~= out@);
    }
    out
}

} // verus!
