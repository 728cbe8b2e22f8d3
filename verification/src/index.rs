//! An insertion-ordered 2-D point index backing merge and proximity
//! decisions: membership of a neighborhood, and the nearest point with ties
//! broken in favor of the earliest inserted point. Queries are read-only and
//! fully determined by the sequence of inserted points.

use vstd::prelude::*;
use crate::geometry::{coord_ok, dist_sq, dist_sq_exec, Point, COORD_LIMIT};

verus! {

/// Whether some indexed point lies within squared distance `rr` of `p`.
pub open spec fn has_within(s: Seq<Point>, p: Point, rr: int) -> bool {
    exists|i: int| 0 <= i < s.len() && dist_sq(s[i], p) <= rr
}

/// The first point of `s` at minimum squared distance from `p`: a later
/// point displaces the running best only when strictly closer, so the
/// earliest inserted point wins ties.
pub open spec fn nearest_in(s: Seq<Point>, p: Point) -> Point
    recommends
        s.len() > 0,
    decreases s.len(),
{
    if s.len() <= 1 {
        s[0]
    } else {
        let prev = nearest_in(s.drop_last(), p);
        if dist_sq(s.last(), p) < dist_sq(prev, p) {
            s.last()
        } else {
            prev
        }
    }
}

/// Witnesses that the nearest point sits at position `k`, with every point
/// stored before `k` strictly farther away: the tie-break in favor of the
/// earliest inserted point.
pub open spec fn nearest_first_at(s: Seq<Point>, p: Point, k: int) -> bool {
    &&& 0 <= k < s.len()
    &&& s[k] == nearest_in(s, p)
    &&& forall|j: int| 0 <= j < k ==> dist_sq(#[trigger] s[j], p) > dist_sq(nearest_in(s, p), p)
}

/// The nearest point is an indexed point, no indexed point is strictly
/// closer, and every point stored before its first occurrence is strictly
/// farther away.
pub proof fn lemma_nearest_in_props(s: Seq<Point>, p: Point)
    requires
        s.len() > 0,
    ensures
        s.contains(nearest_in(s, p)),
        forall|i: int| 0 <= i < s.len() ==> dist_sq(nearest_in(s, p), p) <= dist_sq(#[trigger] s[i], p),
        exists|k: int| nearest_first_at(s, p, k),
    decreases s.len(),
{
    if s.len() == 1 {
        assert(nearest_first_at(s, p, 0));
    } else {
        lemma_nearest_in_props(s.drop_last(), p);
        let prev = nearest_in(s.drop_last(), p);
        assert(s.drop_last().contains(prev));
        let j = choose|j: int| 0 <= j < s.drop_last().len() && s.drop_last()[j] == prev;
        assert(s[j] == prev);
        assert forall|i: int| 0 <= i < s.len() implies dist_sq(nearest_in(s, p), p) <= dist_sq(
            #[trigger] s[i],
            p,
        ) by {
            if i < s.len() - 1 {
                assert(s.drop_last()[i] == s[i]);
            }
        }
        if dist_sq(s.last(), p) < dist_sq(prev, p) {
            // the last point displaces the running best only when strictly
            // closer than everything before it
            assert forall|j2: int| 0 <= j2 < s.len() - 1 implies dist_sq(#[trigger] s[j2], p)
                > dist_sq(nearest_in(s, p), p) by {
                assert(s.drop_last()[j2] == s[j2]);
            }
            assert(nearest_first_at(s, p, s.len() - 1));
        } else {
            let k = choose|k: int| nearest_first_at(s.drop_last(), p, k);
            assert forall|j2: int| 0 <= j2 < k implies dist_sq(#[trigger] s[j2], p) > dist_sq(
                nearest_in(s, p),
                p,
            ) by {
                assert(s.drop_last()[j2] == s[j2]);
            }
            assert(s[k] == s.drop_last()[k]);
            assert(nearest_first_at(s, p, k));
        }
    }
}

/// An insertion-ordered index of points in the plane.
pub struct SpatialIndex {
    points: Vec<Point>,
}

impl View for SpatialIndex {
    type V = Seq<Point>;

    closed spec fn view(&self) -> Seq<Point> {
        self.points@
    }
}

impl SpatialIndex {
    /// Every stored point has coordinates within the global limit.
    pub closed spec fn wf(&self) -> bool {
        forall|i: int| 0 <= i < self.points@.len() ==> coord_ok(#[trigger] self.points@[i])
    }

    /// An empty index.
    pub fn new() -> (r: SpatialIndex)
        ensures
            r@.len() == 0,
            r.wf(),
    {
        SpatialIndex { points: Vec::new() }
    }

    /// The number of stored points.
    pub fn len(&self) -> (r: usize)
        ensures
            r == self@.len(),
    {
        self.points.len()
    }

    /// Append a point; earlier points keep their positions.
    pub fn insert_node(&mut self, p: Point)
        requires
            old(self).wf(),
            coord_ok(p),
        ensures
            final(self)@ == old(self)@.push(p),
            final(self).wf(),
    {
        self.points.push(p);
    }

    /// Whether some stored point lies within Euclidean distance `range`
    /// of `p` (compared on squared distances, exactly).
    pub fn has_neighbor_in_range(&self, p: &Point, range: i64) -> (r: bool)
        requires
            self.wf(),
            coord_ok(*p),
            0 <= range <= COORD_LIMIT,
        ensures
            r == has_within(self@, *p, (range as int) * (range as int)),
    {
        proof {
            assert(0 <= range * range <= 1_000_000_000_000_000_000) by (nonlinear_arith)
                requires 0 <= range <= 1_000_000_000;
        }
        let rr: i64 = range * range;
        let n = self.points.len();
        let mut i: usize = 0;
        while i < n
            invariant
                0 <= i <= n,
                n == self@.len(),
                self.wf(),
                coord_ok(*p),
                rr == (range as int) * (range as int),
                forall|j: int| 0 <= j < i ==> dist_sq(#[trigger] self@[j], *p) > rr,
            decreases n - i,
        {
            let d = dist_sq_exec(&self.points[i], p);
            if d <= rr {
                return true;
            }
            i = i + 1;
        }
        false
    }

    /// The stored point nearest to `p`, with ties broken in favor of the
    /// earliest inserted point. A pure function of the stored sequence and
    /// the query: the index is never changed by a query.
    pub fn nearest_search(&self, p: &Point) -> (r: Point)
        requires
            self.wf(),
            coord_ok(*p),
            self@.len() > 0,
        ensures
            r == nearest_in(self@, *p),
    {
        let n = self.points.len();
        let mut best: Point = self.points[0];
        let mut best_d: i64 = dist_sq_exec(&best, p);
        let mut i: usize = 1;
        proof {
            assert(self@.subrange(0, 1) =~= seq![self@[0]]);
        }
        while i < n
            invariant
                1 <= i <= n,
                n == self@.len(),
                self.wf(),
                coord_ok(*p),
                coord_ok(best),
                best == nearest_in(self@.subrange(0, i as int), *p),
                best_d == dist_sq(best, *p),
            decreases n - i,
        {
            let d = dist_sq_exec(&self.points[i], p);
            proof {
                let pre = self@.subrange(0, i as int);
                let cur = self@.subrange(0, i + 1 as int);
                assert(cur.drop_last() =~= pre);
                assert(cur.last() == self@[i as int]);
            }
            if d < best_d {
                best = self.points[i];
                best_d = d;
            }
            i = i + 1;
        }
        proof {
            assert(self@.subrange(0, n as int) =~= self@);
        }
        best
    }
}

/// Queries never mutate the index, so with a fixed set of stored points and
/// a fixed query point any two nearest-point results are the same point.
pub proof fn lemma_nearest_deterministic(s: Seq<Point>, p: Point, r1: Point, r2: Point)
    requires
        s.len() > 0,
        r1 == nearest_in(s, p),
        r2 == nearest_in(s, p),
    ensures
        r1 == r2,
{
}

} // verus!
