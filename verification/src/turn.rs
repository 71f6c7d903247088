//! Turn definition and segmentation.
//!
//! A turn is defined by a bounding area on the track.  Each turn is divided
//! into three segments for analysis: approach, apex, and exit.

use vstd::prelude::*;
use crate::types::str_eq;
use crate::types::time_sorted;
use crate::types::TelemetrySample;

verus! {

/// A position in world coordinates, held as fixed-point integers so that the
/// region tests below are exact.  The second component (`y`) is elevation and
/// is ignored by every region test.
#[derive(Debug, Clone, Copy, PartialEq, Eq, Structural)]
pub struct Position {
    pub x: i64,
    pub y: i64,
    pub z: i64,
}

/// A 2D bounding box for defining track regions.
/// Uses the X and Z coordinates (Y is elevation and never examined).
#[derive(Debug, Clone, Copy, PartialEq, Eq, Structural)]
pub struct BoundingBox {
    /// Minimum X coordinate
    pub min_x: i64,
    /// Maximum X coordinate
    pub max_x: i64,
    /// Minimum Z coordinate
    pub min_z: i64,
    /// Maximum Z coordinate
    pub max_z: i64,
}

/// What it means for a position to lie inside a box: both horizontal
/// coordinates lie in the closed ranges; elevation plays no part.
pub open spec fn box_contains(b: BoundingBox, p: Position) -> bool {
    b.min_x <= p.x && p.x <= b.max_x && b.min_z <= p.z && p.z <= b.max_z
}

/// The box that two arbitrary corner points span: componentwise minimum and
/// maximum, whichever order the corners come in.
pub open spec fn spec_from_corners(c1: Position, c2: Position) -> BoundingBox {
    BoundingBox {
        min_x: if c1.x <= c2.x { c1.x } else { c2.x },
        max_x: if c1.x <= c2.x { c2.x } else { c1.x },
        min_z: if c1.z <= c2.z { c1.z } else { c2.z },
        max_z: if c1.z <= c2.z { c2.z } else { c1.z },
    }
}

impl BoundingBox {
    pub fn new(min_x: i64, max_x: i64, min_z: i64, max_z: i64) -> (r: Self)
        ensures
            r == (BoundingBox { min_x, max_x, min_z, max_z }),
    {
        Self { min_x, max_x, min_z, max_z }
    }

    /// Check if a position is within this bounding box (ignoring elevation).
    pub fn contains(&self, pos: Position) -> (r: bool)
        ensures
            r == box_contains(*self, pos),
    {
        pos.x >= self.min_x && pos.x <= self.max_x && pos.z >= self.min_z && pos.z <= self.max_z
    }

    /// Create from two corner points, normalizing so that `min <= max` holds
    /// on each axis regardless of corner order.
    pub fn from_corners(corner1: Position, corner2: Position) -> (r: Self)
        ensures
            r == spec_from_corners(corner1, corner2),
            r.min_x <= r.max_x,
            r.min_z <= r.max_z,
    {
        Self {
            min_x: if corner1.x <= corner2.x { corner1.x } else { corner2.x },
            max_x: if corner1.x <= corner2.x { corner2.x } else { corner1.x },
            min_z: if corner1.z <= corner2.z { corner1.z } else { corner2.z },
            max_z: if corner1.z <= corner2.z { corner2.z } else { corner1.z },
        }
    }
}

/// Swapping which corner is handed over first when building a box from two
/// corners never changes a containment answer.
pub proof fn lemma_from_corners_order_irrelevant(c1: Position, c2: Position, p: Position)
    ensures
        box_contains(spec_from_corners(c1, c2), p) == box_contains(spec_from_corners(c2, c1), p),
{
}

/// Segment of a turn for detailed analysis.
#[derive(Debug, Clone, Copy, PartialEq, Eq, Structural)]
pub enum TurnSegment {
    Approach,
    Apex,
    Exit,
}

/// A turn definition with its bounding boxes.
#[derive(Debug, Clone)]
pub struct Turn {
    /// Turn identifier (e.g., "T1", "Maggots")
    pub name: String,
    /// Overall turn bounding box
    pub bounds: BoundingBox,
    /// Approach segment bounds (entry into the turn)
    pub approach: BoundingBox,
    /// Apex segment bounds (middle of the turn)
    pub apex: BoundingBox,
    /// Exit segment bounds (exiting the turn)
    pub exit: BoundingBox,
}

/// The predicate a sample must satisfy to fall inside a box.
pub open spec fn in_box(b: BoundingBox) -> spec_fn(TelemetrySample) -> bool {
    |s: TelemetrySample| box_contains(b, s.position)
}

/// The box a turn uses for each of its three segments.
pub open spec fn segment_box(t: Turn, segment: TurnSegment) -> BoundingBox {
    match segment {
        TurnSegment::Approach => t.approach,
        TurnSegment::Apex => t.apex,
        TurnSegment::Exit => t.exit,
    }
}

/// Which segment a turn assigns to a position: the first of approach, apex,
/// exit whose box contains it, or none.
pub open spec fn spec_classify(t: Turn, pos: Position) -> Option<TurnSegment> {
    if box_contains(t.approach, pos) {
        Some(TurnSegment::Approach)
    } else if box_contains(t.apex, pos) {
        Some(TurnSegment::Apex)
    } else if box_contains(t.exit, pos) {
        Some(TurnSegment::Exit)
    } else {
        None
    }
}

/// Unfolding one step of `Seq::filter` along a growing prefix.
proof fn lemma_filter_take_step(
    s: Seq<TelemetrySample>,
    pred: spec_fn(TelemetrySample) -> bool,
    i: int,
)
    requires
        0 <= i < s.len(),
    ensures
        s.take(i + 1).filter(pred) == (if pred(s[i]) {
            s.take(i).filter(pred).push(s[i])
        } else {
            s.take(i).filter(pred)
        }),
{
    reveal(Seq::filter);
    let q = s.take(i + 1);
    assert(q.drop_last() =~= s.take(i));
    assert(q.last() == s[i]);
}

/// A stable filter of a time-ascending sample run is itself time-ascending.
pub proof fn lemma_filter_time_sorted(
    s: Seq<TelemetrySample>,
    pred: spec_fn(TelemetrySample) -> bool,
)
    requires
        time_sorted(s),
    ensures
        time_sorted(s.filter(pred)),
    decreases s.len(),
{
    reveal(Seq::filter);
    if s.len() > 0 {
        let dl = s.drop_last();
        assert(time_sorted(dl)) by {
            assert forall|i: int, j: int| 0 <= i <= j < dl.len() implies dl[i].time
                <= dl[j].time by {
                assert(dl[i] == s[i]);
                assert(dl[j] == s[j]);
            }
        }
        lemma_filter_time_sorted(dl, pred);
        let f = dl.filter(pred);
        if pred(s.last()) {
            let out = f.push(s.last());
            assert(s.filter(pred) == out);
            assert forall|i: int, j: int| 0 <= i <= j < out.len() implies out[i].time
                <= out[j].time by {
                if j == f.len() && i < f.len() {
                    assert(f.contains(f[i]));
                    dl.lemma_filter_contains_rev(pred, f[i]);
                    let k = choose|k: int| 0 <= k < dl.len() && dl[k] == f[i];
                    assert(dl[k] == s[k]);
                    assert(s[k].time <= s[s.len() - 1].time);
                }
            }
        }
    }
}

/// The subsequence of `samples`, in original order, whose positions lie in
/// box `b`.
fn filter_by_box(samples: &Vec<TelemetrySample>, b: BoundingBox) -> (r: Vec<TelemetrySample>)
    ensures
        r@ == samples@.filter(in_box(b)),
{
    let n = samples.len();
    let mut out: Vec<TelemetrySample> = Vec::new();
    let mut i: usize = 0;
    while i < n
        invariant
            n == samples@.len(),
            i <= n,
            out@ == samples@.take(i as int).filter(in_box(b)),
        decreases n - i,
    {
        proof {
            lemma_filter_take_step(samples@, in_box(b), i as int);
        }
        let s = samples[i];
        if s.position.x >= b.min_x && s.position.x <= b.max_x && s.position.z >= b.min_z
            && s.position.z <= b.max_z {
            out.push(s);
        }
        i += 1;
    }
    proof {
        assert(samples@.take(n as int) =~= samples@);
    }
    out
}

impl Turn {
    /// Filter samples that are within this turn's overall bounds, keeping
    /// their original order.
    pub fn filter_samples(&self, samples: &Vec<TelemetrySample>) -> (r: Vec<TelemetrySample>)
        ensures
            r@ == samples@.filter(in_box(self.bounds)),
    {
        filter_by_box(samples, self.bounds)
    }

    /// Get the samples that lie in a specific segment of the turn, keeping
    /// their original order.
    pub fn filter_segment(&self, samples: &Vec<TelemetrySample>, segment: TurnSegment) -> (r:
        Vec<TelemetrySample>)
        ensures
            r@ == samples@.filter(in_box(segment_box(*self, segment))),
    {
        let bounds = match segment {
            TurnSegment::Approach => self.approach,
            TurnSegment::Apex => self.apex,
            TurnSegment::Exit => self.exit,
        };
        filter_by_box(samples, bounds)
    }

    /// Determine which segment a position is in (if any), in fixed priority
    /// order: approach, then apex, then exit.
    pub fn classify_position(&self, pos: Position) -> (r: Option<TurnSegment>)
        ensures
            r == spec_classify(*self, pos),
    {
        if self.approach.contains(pos) {
            Some(TurnSegment::Approach)
        } else if self.apex.contains(pos) {
            Some(TurnSegment::Apex)
        } else if self.exit.contains(pos) {
            Some(TurnSegment::Exit)
        } else {
            None
        }
    }
}

/// A position lying in both the approach and the apex box is classified as
/// approach: the fixed precedence decides overlaps.
pub proof fn lemma_classify_overlap_precedence(t: Turn, pos: Position)
    requires
        box_contains(t.approach, pos),
        box_contains(t.apex, pos),
    ensures
        spec_classify(t, pos) == Some(TurnSegment::Approach),
{
}

/// Collection of turns for a circuit.
#[derive(Debug, Clone)]
pub struct CircuitTurns {
    pub circuit: String,
    pub turns: Vec<Turn>,
}

impl Default for CircuitTurns {
    fn default() -> (r: Self)
        ensures
            r.circuit@ == Seq::<char>::empty(),
            r.turns@ == Seq::<Turn>::empty(),
    {
        CircuitTurns { circuit: String::new(), turns: Vec::new() }
    }
}

impl CircuitTurns {
    /// Look a turn up by exact name match (case-sensitive, no trimming):
    /// the first stored turn with that name, if any.
    pub fn get_turn(&self, name: &str) -> (r: Option<&Turn>)
        ensures
            match r {
                Some(t) => exists|i: int|
                    #![auto]
                    0 <= i < self.turns@.len() && *t == self.turns@[i] && self.turns@[i].name@
                        == name@ && (forall|j: int|
                        0 <= j < i ==> self.turns@[j].name@ != name@),
                None => forall|i: int|
                    #![auto]
                    0 <= i < self.turns@.len() ==> self.turns@[i].name@ != name@,
            },
    {
        let n = self.turns.len();
        let mut i: usize = 0;
        while i < n
            invariant
                n == self.turns@.len(),
                i <= n,
                forall|j: int| #![auto] 0 <= j < i ==> self.turns@[j].name@ != name@,
            decreases n - i,
        {
            if str_eq(self.turns[i].name.as_str(), name) {
                return Some(&self.turns[i]);
            }
            i += 1;
        }
        None
    }
}

} // verus!
