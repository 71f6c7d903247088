//! Lap and turn analysis.
//!
//! A lap's samples are filtered into a turn's regions, each region's run of
//! samples is reduced to timing and speed statistics, and the laps are then
//! ranked against each other by total time through the turn.

use vstd::prelude::*;
use crate::turn::box_contains;
use crate::turn::in_box;
use crate::turn::lemma_filter_time_sorted;
use crate::turn::Turn;
use crate::turn::TurnSegment;
use crate::types::time_sorted;
use crate::types::Lap;
use crate::types::TelemetrySample;

verus! {

/// Time spent in a turn or segment.
#[derive(Debug, Clone, Copy, PartialEq, Eq, Structural)]
pub struct SegmentTime {
    /// Time in milliseconds
    pub time: u64,
    /// Entry speed (km/h)
    pub entry_speed: u16,
    /// Minimum speed in segment (km/h)
    pub min_speed: u16,
    /// Exit speed (km/h)
    pub exit_speed: u16,
}

/// The minimum speed over a run of samples (0 for the empty run).
pub open spec fn min_speed_in(s: Seq<TelemetrySample>) -> u16
    decreases s.len(),
{
    if s.len() == 0 {
        0
    } else if s.len() == 1 {
        s[0].speed
    } else {
        let m = min_speed_in(s.drop_last());
        if s.last().speed < m {
            s.last().speed
        } else {
            m
        }
    }
}

/// The statistics a run of samples yields: absent for fewer than two
/// samples; otherwise elapsed time from first to last sample, the first and
/// last speeds, and the minimum speed over the whole run.
pub open spec fn spec_segment_time(s: Seq<TelemetrySample>) -> Option<SegmentTime> {
    if s.len() < 2 {
        None
    } else {
        Some(
            SegmentTime {
                time: (s.last().time - s[0].time) as u64,
                entry_speed: s[0].speed,
                min_speed: min_speed_in(s),
                exit_speed: s.last().speed,
            },
        )
    }
}

/// Compute timing and speed data for a time-ascending run of samples.
pub fn compute_segment_time(samples: &Vec<TelemetrySample>) -> (r: Option<SegmentTime>)
    requires
        time_sorted(samples@),
    ensures
        r == spec_segment_time(samples@),
        samples@.len() < 2 ==> r is None,
        r matches Some(st) ==> samples@.len() >= 2 && st.entry_speed == samples@[0].speed
            && st.exit_speed == samples@.last().speed,
{
    let n = samples.len();
    if n < 2 {
        return None;
    }
    let first = samples[0];
    let last = samples[n - 1];
    assert(first.time <= last.time);
    let time = last.time - first.time;

    let mut min_speed = first.speed;
    let mut i: usize = 1;
    while i < n
        invariant
            n == samples@.len(),
            1 <= i <= n,
            min_speed == min_speed_in(samples@.take(i as int)),
        decreases n - i,
    {
        proof {
            let q = samples@.take(i + 1);
            assert(q.drop_last() =~= samples@.take(i as int));
            assert(q.last() == samples@[i as int]);
        }
        if samples[i].speed < min_speed {
            min_speed = samples[i].speed;
        }
        i += 1;
    }
    proof {
        assert(samples@.take(n as int) =~= samples@);
    }
    Some(SegmentTime { time, entry_speed: first.speed, min_speed, exit_speed: last.speed })
}

/// Complete turn analysis for a single lap.
#[derive(Debug, Clone, Copy, PartialEq, Eq)]
pub struct TurnAnalysis {
    pub lap_number: u32,
    /// Total time through the turn
    pub total_time: Option<SegmentTime>,
    /// Approach segment analysis
    pub approach: Option<SegmentTime>,
    /// Apex segment analysis
    pub apex: Option<SegmentTime>,
    /// Exit segment analysis
    pub exit: Option<SegmentTime>,
}

/// The analysis a lap yields against a turn: each of the four regions is
/// filtered out of the lap's samples independently and reduced to its
/// statistics independently.
pub open spec fn spec_analyze(lap: Lap, turn: Turn) -> TurnAnalysis {
    TurnAnalysis {
        lap_number: lap.number,
        total_time: spec_segment_time(lap.samples@.filter(in_box(turn.bounds))),
        approach: spec_segment_time(lap.samples@.filter(in_box(turn.approach))),
        apex: spec_segment_time(lap.samples@.filter(in_box(turn.apex))),
        exit: spec_segment_time(lap.samples@.filter(in_box(turn.exit))),
    }
}

impl TurnAnalysis {
    /// Analyze a lap through a specific turn.
    pub fn analyze(lap: &Lap, turn: &Turn) -> (r: Self)
        requires
            time_sorted(lap.samples@),
        ensures
            r == spec_analyze(*lap, *turn),
    {
        proof {
            lemma_filter_time_sorted(lap.samples@, in_box(turn.bounds));
            lemma_filter_time_sorted(lap.samples@, in_box(turn.approach));
            lemma_filter_time_sorted(lap.samples@, in_box(turn.apex));
            lemma_filter_time_sorted(lap.samples@, in_box(turn.exit));
        }
        let samples = turn.filter_samples(&lap.samples);
        let approach_samples = turn.filter_segment(&lap.samples, TurnSegment::Approach);
        let apex_samples = turn.filter_segment(&lap.samples, TurnSegment::Apex);
        let exit_samples = turn.filter_segment(&lap.samples, TurnSegment::Exit);

        Self {
            lap_number: lap.number,
            total_time: compute_segment_time(&samples),
            approach: compute_segment_time(&approach_samples),
            apex: compute_segment_time(&apex_samples),
            exit: compute_segment_time(&exit_samples),
        }
    }
}

/// A lap none of whose samples lies in any of a turn's regions yields an
/// analysis with all four statistics absent.
pub proof fn lemma_analyze_outside_regions(lap: Lap, turn: Turn)
    requires
        forall|i: int|
            #![auto]
            0 <= i < lap.samples@.len() ==> !box_contains(turn.bounds, lap.samples@[i].position)
                && !box_contains(turn.approach, lap.samples@[i].position) && !box_contains(
                turn.apex,
                lap.samples@[i].position,
            ) && !box_contains(turn.exit, lap.samples@[i].position),
    ensures
        spec_analyze(lap, turn).total_time is None,
        spec_analyze(lap, turn).approach is None,
        spec_analyze(lap, turn).apex is None,
        spec_analyze(lap, turn).exit is None,
{
    let s = lap.samples@;
    assert(forall|i: int| 0 <= i < s.len() ==> !(in_box(turn.bounds)(#[trigger] s[i])));
    assert(forall|i: int| 0 <= i < s.len() ==> !(in_box(turn.approach)(#[trigger] s[i])));
    assert(forall|i: int| 0 <= i < s.len() ==> !(in_box(turn.apex)(#[trigger] s[i])));
    assert(forall|i: int| 0 <= i < s.len() ==> !(in_box(turn.exit)(#[trigger] s[i])));
    s.lemma_all_neg_filter_empty(in_box(turn.bounds));
    s.lemma_all_neg_filter_empty(in_box(turn.approach));
    s.lemma_all_neg_filter_empty(in_box(turn.apex));
    s.lemma_all_neg_filter_empty(in_box(turn.exit));
}

/// Whether an analysis qualifies for comparison: its total time is present.
pub open spec fn has_total(a: TurnAnalysis) -> bool {
    a.total_time is Some
}

/// The total time an analysis is ranked by (0 if absent; every ranked
/// analysis has one).
pub open spec fn total_key(a: TurnAnalysis) -> u64 {
    match a.total_time {
        Some(st) => st.time,
        None => 0,
    }
}

/// The analyses of the laps that qualify (total time present), in the laps'
/// original order.
pub open spec fn qualifying_analyses(laps: Seq<Lap>, turn: Turn) -> Seq<TurnAnalysis>
    decreases laps.len(),
{
    if laps.len() == 0 {
        Seq::empty()
    } else {
        let prefix = qualifying_analyses(laps.drop_last(), turn);
        let a = spec_analyze(laps.last(), turn);
        if has_total(a) {
            prefix.push(a)
        } else {
            prefix
        }
    }
}

/// Every qualifying analysis has a total time.
pub proof fn lemma_qualifying_has_total(laps: Seq<Lap>, turn: Turn)
    ensures
        forall|i: int|
            0 <= i < qualifying_analyses(laps, turn).len() ==> has_total(
                #[trigger] qualifying_analyses(laps, turn)[i],
            ),
    decreases laps.len(),
{
    if laps.len() > 0 {
        lemma_qualifying_has_total(laps.drop_last(), turn);
        let prefix = qualifying_analyses(laps.drop_last(), turn);
        let a = spec_analyze(laps.last(), turn);
        let q = qualifying_analyses(laps, turn);
        assert forall|i: int| 0 <= i < q.len() implies has_total(q[i]) by {
            if has_total(a) {
                assert(q == prefix.push(a));
                if i < prefix.len() {
                    assert(q[i] == prefix[i]);
                } else {
                    assert(q[i] == a);
                }
            } else {
                assert(q == prefix);
            }
        }
    }
}

/// Insertion into a run sorted ascending by total time, after every entry
/// whose total does not exceed the new one: equal totals keep the earlier
/// entry first (stable insertion).
pub open spec fn sorted_insert(s: Seq<TurnAnalysis>, a: TurnAnalysis) -> Seq<TurnAnalysis>
    decreases s.len(),
{
    if s.len() == 0 {
        seq![a]
    } else if total_key(s[0]) <= total_key(a) {
        seq![s[0]] + sorted_insert(s.drop_first(), a)
    } else {
        seq![a] + s
    }
}

/// The stable ascending sort of a run of analyses by total time: each entry
/// is inserted, in original order, after all entries it does not beat.
pub open spec fn sort_by_total(s: Seq<TurnAnalysis>) -> Seq<TurnAnalysis>
    decreases s.len(),
{
    if s.len() == 0 {
        Seq::empty()
    } else {
        sorted_insert(sort_by_total(s.drop_last()), s.last())
    }
}

/// A run of analyses is sorted ascending by total time.
pub open spec fn sorted_by_total(s: Seq<TurnAnalysis>) -> bool {
    forall|i: int, j: int| 0 <= i <= j < s.len() ==> total_key(s[i]) <= total_key(s[j])
}

/// Stable insertion lands exactly at the first index whose entry beats the
/// new one.
proof fn lemma_sorted_insert_at(s: Seq<TurnAnalysis>, a: TurnAnalysis, j: int)
    requires
        0 <= j <= s.len(),
        forall|t: int| 0 <= t < j ==> total_key(#[trigger] s[t]) <= total_key(a),
        j < s.len() ==> total_key(s[j]) > total_key(a),
    ensures
        sorted_insert(s, a) == s.insert(j, a),
    decreases s.len(),
{
    if s.len() == 0 {
        assert(sorted_insert(s, a) =~= s.insert(0, a));
    } else if total_key(s[0]) <= total_key(a) {
        assert(j >= 1) by {
            assert(j < s.len() ==> total_key(s[j]) > total_key(a));
        }
        let df = s.drop_first();
        assert forall|t: int| 0 <= t < j - 1 implies total_key(#[trigger] df[t]) <= total_key(
            a,
        ) by {
            assert(df[t] == s[t + 1]);
        }
        assert(j - 1 < df.len() ==> total_key(df[j - 1]) > total_key(a));
        lemma_sorted_insert_at(df, a, j - 1);
        assert(seq![s[0]] + df.insert(j - 1, a) =~= s.insert(j, a));
    } else {
        assert(j == 0) by {
            if j > 0 {
                assert(total_key(s[0]) <= total_key(a));
            }
        }
        assert(seq![a] + s =~= s.insert(0, a));
    }
}

/// Inserting at the first index whose entry beats the new one keeps the run
/// sorted.
proof fn lemma_insert_keeps_sorted(s: Seq<TurnAnalysis>, a: TurnAnalysis, j: int)
    requires
        sorted_by_total(s),
        0 <= j <= s.len(),
        forall|t: int| 0 <= t < j ==> total_key(#[trigger] s[t]) <= total_key(a),
        j < s.len() ==> total_key(s[j]) > total_key(a),
    ensures
        sorted_by_total(s.insert(j, a)),
{
    let out = s.insert(j, a);
    assert forall|p: int, q: int| 0 <= p <= q < out.len() implies total_key(out[p]) <= total_key(
        out[q],
    ) by {
        if p < j {
            assert(out[p] == s[p]);
        } else if p == j {
            assert(out[p] == a);
        } else {
            assert(out[p] == s[p - 1]);
        }
        if q < j {
            assert(out[q] == s[q]);
        } else if q == j {
            assert(out[q] == a);
        } else {
            assert(out[q] == s[q - 1]);
        }
    }
}

/// Stable insertion adds the new entry and keeps every old one.
proof fn lemma_sorted_insert_multiset(s: Seq<TurnAnalysis>, a: TurnAnalysis)
    ensures
        sorted_insert(s, a).to_multiset() == s.to_multiset().insert(a),
    decreases s.len(),
{
    broadcast use vstd::seq_lib::group_to_multiset_ensures;
    broadcast use vstd::multiset::group_multiset_axioms;

    if s.len() == 0 {
        assert(seq![a] =~= Seq::<TurnAnalysis>::empty().push(a));
        assert(sorted_insert(s, a).to_multiset() =~= s.to_multiset().insert(a));
    } else if total_key(s[0]) <= total_key(a) {
        let df = s.drop_first();
        lemma_sorted_insert_multiset(df, a);
        vstd::seq_lib::lemma_multiset_commutative(seq![s[0]], sorted_insert(df, a));
        assert(s =~= seq![s[0]] + df);
        vstd::seq_lib::lemma_multiset_commutative(seq![s[0]], df);
        assert(sorted_insert(s, a).to_multiset() =~= s.to_multiset().insert(a));
    } else {
        vstd::seq_lib::lemma_multiset_commutative(seq![a], s);
        assert(seq![a] =~= Seq::<TurnAnalysis>::empty().push(a));
        assert(sorted_insert(s, a).to_multiset() =~= s.to_multiset().insert(a));
    }
}

/// Sorting rearranges: the ranked analyses are exactly the qualifying ones,
/// none lost, none invented.
pub proof fn lemma_sort_by_total_permutes(s: Seq<TurnAnalysis>)
    ensures
        sort_by_total(s).to_multiset() == s.to_multiset(),
    decreases s.len(),
{
    broadcast use vstd::seq_lib::group_to_multiset_ensures;

    if s.len() > 0 {
        lemma_sort_by_total_permutes(s.drop_last());
        lemma_sorted_insert_multiset(sort_by_total(s.drop_last()), s.last());
        assert(s =~= s.drop_last().push(s.last()));
    }
}

/// The segment statistics an analysis carries for a given segment tag.
pub open spec fn spec_segment_of(a: TurnAnalysis, segment: TurnSegment) -> Option<SegmentTime> {
    match segment {
        TurnSegment::Approach => a.approach,
        TurnSegment::Apex => a.apex,
        TurnSegment::Exit => a.exit,
    }
}

/// The best (lap number, time) pair for one segment over a run of analyses:
/// the first analysis attaining the minimum time among those that have a
/// value for the segment, or none if no analysis has one.
pub open spec fn best_pair(s: Seq<TurnAnalysis>, segment: TurnSegment) -> Option<(u32, u64)>
    decreases s.len(),
{
    if s.len() == 0 {
        None
    } else {
        let prev = best_pair(s.drop_last(), segment);
        match spec_segment_of(s.last(), segment) {
            None => prev,
            Some(st) => match prev {
                None => Some((s.last().lap_number, st.time)),
                Some(p) => if st.time < p.1 {
                    Some((s.last().lap_number, st.time))
                } else {
                    prev
                },
            },
        }
    }
}

/// The lap number that is best for one segment over a run of analyses.
pub open spec fn best_lap_for(s: Seq<TurnAnalysis>, segment: TurnSegment) -> Option<u32> {
    match best_pair(s, segment) {
        None => None,
        Some(p) => Some(p.0),
    }
}

/// Best lap numbers for each segment.
#[derive(Debug, Clone, Copy, PartialEq, Eq)]
pub struct SegmentBests {
    pub approach: Option<u32>,
    pub apex: Option<u32>,
    pub exit: Option<u32>,
}

impl Default for SegmentBests {
    fn default() -> (r: Self)
        ensures
            r.approach is None,
            r.apex is None,
            r.exit is None,
    {
        SegmentBests { approach: None, apex: None, exit: None }
    }
}

/// The per-segment best lap numbers a run of analyses yields.
pub open spec fn spec_segment_bests(s: Seq<TurnAnalysis>) -> SegmentBests {
    SegmentBests {
        approach: best_lap_for(s, TurnSegment::Approach),
        apex: best_lap_for(s, TurnSegment::Apex),
        exit: best_lap_for(s, TurnSegment::Exit),
    }
}

/// Whether the overall fastest lap (the first of the ranked analyses) is
/// also best in every segment that has a defined best; a segment without a
/// best agrees vacuously.  With no qualifying lap at all there is no fastest
/// lap to be uniform about, so the answer is false.
pub open spec fn spec_uniform_fastest(s: Seq<TurnAnalysis>) -> bool {
    if s.len() == 0 {
        false
    } else {
        let fl = s[0].lap_number;
        let b = spec_segment_bests(s);
        (match b.approach {
            None => true,
            Some(l) => l == fl,
        }) && (match b.apex {
            None => true,
            Some(l) => l == fl,
        }) && (match b.exit {
            None => true,
            Some(l) => l == fl,
        })
    }
}

/// The ranked analyses a comparison of laps against a turn yields: the
/// qualifying analyses, sorted ascending by total time, ties keeping the
/// laps' original order.
pub open spec fn spec_compare_analyses(laps: Seq<Lap>, turn: Turn) -> Seq<TurnAnalysis> {
    sort_by_total(qualifying_analyses(laps, turn))
}

/// Everything `compare` promises of its result: each output field is a
/// function of the laps and the turn alone.
pub open spec fn compare_post(laps: Seq<Lap>, turn: Turn, r: TurnComparison) -> bool {
    r.turn_name@ == turn.name@ && r.analyses@ == spec_compare_analyses(laps, turn)
        && r.segment_bests == spec_segment_bests(r.analyses@) && r.uniform_fastest
        == spec_uniform_fastest(r.analyses@)
}

/// Comparing the same laps against the same turn twice yields identical
/// output: any two results that `compare`'s contract admits agree on every
/// field.
pub proof fn lemma_compare_deterministic(
    laps: Seq<Lap>,
    turn: Turn,
    r1: TurnComparison,
    r2: TurnComparison,
)
    requires
        compare_post(laps, turn, r1),
        compare_post(laps, turn, r2),
    ensures
        r1.turn_name@ == r2.turn_name@,
        r1.analyses@ == r2.analyses@,
        r1.segment_bests == r2.segment_bests,
        r1.uniform_fastest == r2.uniform_fastest,
{
}

/// The lap number that is best for one segment, over a vector of analyses.
fn best_for_segment(analyses: &Vec<TurnAnalysis>, segment: TurnSegment) -> (r: Option<u32>)
    ensures
        r == best_lap_for(analyses@, segment),
{
    let n = analyses.len();
    let mut best: Option<(u32, u64)> = None;
    let mut i: usize = 0;
    while i < n
        invariant
            n == analyses@.len(),
            i <= n,
            best == best_pair(analyses@.take(i as int), segment),
        decreases n - i,
    {
        proof {
            let q = analyses@.take(i + 1);
            assert(q.drop_last() =~= analyses@.take(i as int));
            assert(q.last() == analyses@[i as int]);
        }
        let cur = match segment {
            TurnSegment::Approach => analyses[i].approach,
            TurnSegment::Apex => analyses[i].apex,
            TurnSegment::Exit => analyses[i].exit,
        };
        match cur {
            None => {},
            Some(st) => {
                match best {
                    None => {
                        best = Some((analyses[i].lap_number, st.time));
                    },
                    Some(p) => {
                        if st.time < p.1 {
                            best = Some((analyses[i].lap_number, st.time));
                        }
                    },
                }
            },
        }
        i += 1;
    }
    proof {
        assert(analyses@.take(n as int) =~= analyses@);
    }
    match best {
        None => None,
        Some(p) => Some(p.0),
    }
}

/// The per-segment best lap numbers over a vector of analyses.
fn compute_segment_bests(analyses: &Vec<TurnAnalysis>) -> (r: SegmentBests)
    ensures
        r == spec_segment_bests(analyses@),
{
    SegmentBests {
        approach: best_for_segment(analyses, TurnSegment::Approach),
        apex: best_for_segment(analyses, TurnSegment::Apex),
        exit: best_for_segment(analyses, TurnSegment::Exit),
    }
}

/// Result of comparing laps through a turn.
#[derive(Debug, Clone, PartialEq)]
pub struct TurnComparison {
    pub turn_name: String,
    /// Analyses sorted by total turn time (fastest first)
    pub analyses: Vec<TurnAnalysis>,
    /// Whether the fastest overall lap is also fastest in all segments
    pub uniform_fastest: bool,
    /// Fastest lap for each segment (if different from overall fastest)
    pub segment_bests: SegmentBests,
}

impl TurnComparison {
    /// Compare multiple laps through a turn.  Laps whose total time through
    /// the turn is absent are dropped; the rest are ranked ascending by
    /// total time, ties keeping the laps' original order.  Every output
    /// field is a function of the inputs alone.
    pub fn compare(laps: &Vec<Lap>, turn: &Turn) -> (r: TurnComparison)
        requires
            forall|i: int| 0 <= i < laps@.len() ==> time_sorted(#[trigger] laps@[i].samples@),
        ensures
            compare_post(laps@, *turn, r),
            sorted_by_total(r.analyses@),
            forall|i: int| 0 <= i < r.analyses@.len() ==> has_total(#[trigger] r.analyses@[i]),
    {
        let n = laps.len();
        let mut quals: Vec<TurnAnalysis> = Vec::new();
        let mut i: usize = 0;
        while i < n
            invariant
                n == laps@.len(),
                i <= n,
                forall|k: int| 0 <= k < laps@.len() ==> time_sorted(#[trigger] laps@[k].samples@),
                quals@ == qualifying_analyses(laps@.take(i as int), *turn),
            decreases n - i,
        {
            proof {
                let q = laps@.take(i + 1);
                assert(q.drop_last() =~= laps@.take(i as int));
                assert(q.last() == laps@[i as int]);
            }
            let a = TurnAnalysis::analyze(&laps[i], turn);
            if a.total_time.is_some() {
                quals.push(a);
            }
            i += 1;
        }
        proof {
            assert(laps@.take(n as int) =~= laps@);
            lemma_qualifying_has_total(laps@, *turn);
        }

        let m = quals.len();
        let mut sorted_v: Vec<TurnAnalysis> = Vec::new();
        let mut i: usize = 0;
        while i < m
            invariant
                m == quals@.len(),
                i <= m,
                forall|k: int| 0 <= k < m ==> has_total(#[trigger] quals@[k]),
                sorted_v@ == sort_by_total(quals@.take(i as int)),
                sorted_by_total(sorted_v@),
                forall|k: int| 0 <= k < sorted_v@.len() ==> has_total(#[trigger] sorted_v@[k]),
            decreases m - i,
        {
            let a = quals[i];
            let akey = match a.total_time {
                Some(st) => st.time,
                None => 0,
            };
            assert(akey == total_key(a));
            let sl = sorted_v.len();
            let mut j: usize = 0;
            while j < sl
                invariant_except_break
                    sl == sorted_v@.len(),
                    j <= sl,
                    forall|k: int| 0 <= k < sl ==> has_total(#[trigger] sorted_v@[k]),
                    forall|t: int| 0 <= t < j ==> total_key(#[trigger] sorted_v@[t]) <= akey,
                ensures
                    sl == sorted_v@.len(),
                    j <= sl,
                    forall|t: int| 0 <= t < j ==> total_key(#[trigger] sorted_v@[t]) <= akey,
                    j < sl ==> total_key(sorted_v@[j as int]) > akey,
                decreases sl - j,
            {
                let jkey = match sorted_v[j].total_time {
                    Some(st) => st.time,
                    None => 0,
                };
                assert(jkey == total_key(sorted_v@[j as int]));
                if jkey > akey {
                    break ;
                }
                j += 1;
            }
            proof {
                lemma_sorted_insert_at(sorted_v@, a, j as int);
                lemma_insert_keeps_sorted(sorted_v@, a, j as int);
                let q = quals@.take(i + 1);
                assert(q.drop_last() =~= quals@.take(i as int));
                assert(q.last() == quals@[i as int]);
            }
            sorted_v.insert(j, a);
            i += 1;
        }
        proof {
            assert(quals@.take(m as int) =~= quals@);
        }

        let segment_bests = compute_segment_bests(&sorted_v);

        let uniform_fastest = if sorted_v.len() == 0 {
            false
        } else {
            let fl = sorted_v[0].lap_number;
            let ok_approach = match segment_bests.approach {
                None => true,
                Some(l) => l == fl,
            };
            let ok_apex = match segment_bests.apex {
                None => true,
                Some(l) => l == fl,
            };
            let ok_exit = match segment_bests.exit {
                None => true,
                Some(l) => l == fl,
            };
            ok_approach && ok_apex && ok_exit
        };

        TurnComparison {
            turn_name: turn.name.clone(),
            analyses: sorted_v,
            uniform_fastest,
            segment_bests,
        }
    }
}

} // verus!
