//! The road segment type and the growth engine: a frontier queue of
//! candidate segments is popped one at a time, held to the local constraints
//! (bounds, merging onto nearby existing endpoints), asked for children
//! through the proposal rules, and committed to the accepted list and the
//! spatial index.

use vstd::prelude::*;
use std::collections::VecDeque;
use crate::config::{config_ok, generation_spec, Config, GenerationConfig};
use crate::geometry::{
    coord_ok, offset_between, offset_within, Point, COORD_LIMIT, MAX_DIM, MAX_LEN,
};
use crate::index::{has_within, nearest_in, SpatialIndex};
use crate::rng::{random_in_range, rng_from_seed};
use crate::rules::{
    candidate_dir_ok, eff_angle, propose_roads, proposed_road_ok, rule_for, sibling_road_of,
};
use crate::{class_rank, lemma_class_refinement_strict, next_type_spec, RoadError, RoadType, RoadmapSettings};
use vstd::arithmetic::power::{pow, lemma_pow_positive};

verus! {

/// A directed road segment: a pair of endpoints, a road class, and a fuel
/// counter. Fuel budgets how many straight continuations a growth chain
/// takes before it becomes eligible to branch; it never affects whether the
/// segment itself is committed.
#[derive(Debug, Copy, Clone, PartialEq, Eq, Structural)]
pub struct Road {
    pub from: Point,
    pub to: Point,
    pub road_type: RoadType,
    pub fuel: u32,
}

/// Whether a point lies in the growth area: the range check admits
/// coordinates up to and including the width and height.
pub open spec fn in_range_pt(p: Point, w: int, h: int) -> bool {
    0 <= p.x <= w && 0 <= p.y <= h
}

/// Whether both endpoints of a road lie in the growth area.
pub open spec fn road_in_range(r: Road, w: int, h: int) -> bool {
    in_range_pt(r.from, w, h) && in_range_pt(r.to, w, h)
}

/// Whether both endpoints have representable coordinates.
pub open spec fn road_coord_ok(r: Road) -> bool {
    coord_ok(r.from) && coord_ok(r.to)
}

impl Road {
    /// A road with both endpoints populated atomically; no partially-built
    /// segment ever exists. Fuel starts at 1 until assigned.
    pub fn new_with_points(road_type: RoadType, from: Point, to: Point) -> (r: Road)
        ensures
            r.road_type == road_type,
            r.from == from,
            r.to == to,
            r.fuel == 1,
    {
        Road { road_type, from, to, fuel: 1 }
    }

    /// Both endpoints, origin first.
    pub fn points(&self) -> (r: (Point, Point))
        ensures
            r.0 == self.from,
            r.1 == self.to,
    {
        (self.from, self.to)
    }

    /// The endpoint the segment grows towards.
    pub fn to(&self) -> (r: Point)
        ensures
            r == self.to,
    {
        self.to
    }

    /// The endpoint the segment grows from.
    pub fn from(&self) -> (r: Point)
        ensures
            r == self.from,
    {
        self.from
    }

    pub fn road_type(&self) -> (r: RoadType)
        ensures
            r == self.road_type,
    {
        self.road_type
    }

    pub fn fuel(&self) -> (r: u32)
        ensures
            r == self.fuel,
    {
        self.fuel
    }

    pub fn set_fuel(&mut self, fuel: u32)
        ensures
            *final(self) == (Road { fuel, ..*old(self) }),
    {
        self.fuel = fuel;
    }

    /// Consume one unit of fuel without ever going below zero, and report
    /// whether the budget is now exhausted: `true` is the signal to branch.
    /// On a segment whose fuel is already 0 this returns `true` and leaves
    /// the fuel at 0.
    pub fn take_fuel(&mut self) -> (exhausted: bool)
        ensures
            final(self).fuel == if old(self).fuel > 0 { (old(self).fuel - 1) as u32 } else { 0u32 },
            exhausted == (final(self).fuel == 0),
            final(self).from == old(self).from,
            final(self).to == old(self).to,
            final(self).road_type == old(self).road_type,
    {
        if self.fuel > 0 {
            self.fuel = self.fuel - 1;
        }
        self.fuel == 0
    }
}

/// What a road must satisfy to sit in the frontier: representable endpoints
/// and a non-degenerate direction.
pub open spec fn frontier_road_ok(r: Road) -> bool {
    road_coord_ok(r) && r.from != r.to
}

/// The fuel counter after one `take_fuel`: decremented, never below zero.
pub open spec fn fuel_after(f: u32) -> u32 {
    if f > 0 {
        (f - 1) as u32
    } else {
        0u32
    }
}

/// The local-acceptance decision for one candidate, as a pure function of
/// the indexed points, the class parameters, the bounds and the candidate:
/// `(accepted, merged, candidate after any merge rewrite)`.
///
/// A candidate with an endpoint out of bounds is rejected outright. An
/// in-bounds candidate whose tip has an indexed neighbor within the merge
/// radius is snapped onto the nearest indexed point — unless that nearest
/// point is the candidate's own tip (a duplicate) or its own origin (a
/// self-merge): those merge targets are not valid, and the candidate is
/// accepted unchanged.
pub open spec fn accept_local_spec(
    idx: Seq<Point>,
    cfg: GenerationConfig,
    w: int,
    h: int,
    road: Road,
) -> (bool, bool, Road) {
    if !road_in_range(road, w, h) {
        (false, false, road)
    } else if has_within(idx, road.to, cfg.merge_range * cfg.merge_range) {
        let n = nearest_in(idx, road.to);
        if n != road.to && n != road.from {
            (true, true, Road { to: n, ..road })
        } else {
            (true, false, road)
        }
    } else {
        (true, false, road)
    }
}

/// A committed child as the growth step hands it to the frontier: anchored
/// at the parent's tip, of the parent's class or the next finer class,
/// non-degenerate, with a representable endpoint and a step whose components
/// stay within twice the class's road length, and fuel freshly drawn from
/// the class's fuel range when the parent branched and inherited unchanged
/// otherwise.
pub open spec fn child_road_ok(c: Road, parent: Road, cfg: GenerationConfig, branch: bool) -> bool {
    &&& c.from == parent.to
    &&& (c.road_type == parent.road_type || Some(c.road_type) == next_type_spec(parent.road_type))
    &&& c.from != c.to
    &&& coord_ok(c.to)
    &&& offset_within(offset_between(c.from, c.to), 2 * cfg.road_length as int)
    &&& (branch ==> cfg.fuel_lo <= c.fuel < cfg.fuel_hi)
    &&& (!branch ==> c.fuel == parent.fuel)
}

/// What one growth step may append to the frontier for a committed,
/// unmerged segment (branching exactly when its fuel was exhausted by this
/// step): at most six children, each a well-formed child; none when
/// branching with a zero branch chance; when continuing straight, first the
/// straight continuation of the parent's class, then at most one strictly
/// finer sibling, and exactly the continuation alone when the sibling
/// chance is zero.
pub open spec fn step_children_ok(pushed: Seq<Road>, committed: Road, cfg: GenerationConfig) -> bool {
    let branch = committed.fuel == 0;
    &&& pushed.len() <= 6
    &&& forall|i: int| 0 <= i < pushed.len() ==> child_road_ok(#[trigger] pushed[i], committed, cfg, branch)
    &&& (branch && cfg.road_chance == 0 ==> pushed.len() == 0)
    &&& (!branch ==> 1 <= pushed.len() <= 2 && pushed[0].road_type == committed.road_type && (
        pushed.len() == 2 ==> Some(pushed[1].road_type) == next_type_spec(committed.road_type)))
    &&& (!branch && cfg.child_chance == 0 ==> pushed.len() == 1)
    &&& (cfg.child_chance == 0 ==> forall|i: int|
        0 <= i < pushed.len() ==> (#[trigger] pushed[i]).road_type == committed.road_type)
    &&& (forall|i: int|
        #![trigger pushed[i], pushed[i - 1]]
        0 <= i < pushed.len() && pushed[i].road_type != committed.road_type ==> i > 0
            && pushed[i - 1].road_type == committed.road_type && sibling_road_of(
            pushed[i],
            pushed[i - 1],
        ))
}

/// How one growth step relates the engine state after processing the front
/// frontier segment to the state before. The popped segment is held to the
/// local constraints; a rejected segment (out of bounds before or after the
/// merge rewrite) is dropped without any other change; a merged segment is
/// committed as rewritten, with its fuel untouched, and proposes no
/// children; an accepted unmerged segment consumes one unit of fuel, is
/// committed, and its children are appended to the back of the frontier.
pub open spec fn step_rel(pre: RoadMap, post: RoadMap) -> bool {
    let w = pre.config_view().window.width as int;
    let h = pre.config_view().window.height as int;
    let popped = pre.frontier_view()[0];
    let rest = pre.frontier_view().skip(1);
    let cfg = generation_spec(pre.config_view(), popped.road_type);
    let tri = accept_local_spec(pre.index_view(), cfg, w, h, popped);
    let adj = tri.2;
    &&& post.config_view() == pre.config_view()
    &&& if !tri.0 || !road_in_range(adj, w, h) {
        &&& post.roads_view() == pre.roads_view()
        &&& post.index_view() == pre.index_view()
        &&& post.frontier_view() == rest
    } else if tri.1 {
        &&& post.roads_view() == pre.roads_view().push(adj)
        &&& post.index_view() == pre.index_view().push(adj.from).push(adj.to)
        &&& post.frontier_view() == rest
    } else {
        let committed = Road { fuel: fuel_after(adj.fuel), ..adj };
        &&& post.roads_view() == pre.roads_view().push(committed)
        &&& post.index_view() == pre.index_view().push(committed.from).push(committed.to)
        &&& post.frontier_view().len() >= rest.len()
        &&& post.frontier_view().subrange(0, rest.len() as int) == rest
        &&& step_children_ok(post.frontier_view().skip(rest.len() as int), committed, cfg)
    }
}

/// Re-assigning fuel to the proposal rules' children preserves everything
/// the growth step needs of them: with `pre` the children as proposed and
/// `cur` the same children with fuel overwritten per the branch decision,
/// `cur` satisfies the step's children contract and keeps the per-candidate
/// geometry.
proof fn lemma_refueled_children_ok(
    pre: Seq<Road>,
    cur: Seq<Road>,
    road: Road,
    cfg: GenerationConfig,
    zone_lo: int,
    zone_hi: int,
    branch: bool,
)
    requires
        branch == (road.fuel == 0),
        cur.len() == pre.len(),
        forall|j: int|
            0 <= j < cur.len() ==> #[trigger] cur[j] == (Road { fuel: cur[j].fuel, ..pre[j] }),
        branch ==> forall|j: int|
            0 <= j < cur.len() ==> cfg.fuel_lo <= (#[trigger] cur[j]).fuel < cfg.fuel_hi,
        !branch ==> forall|j: int| 0 <= j < cur.len() ==> (#[trigger] cur[j]).fuel == road.fuel,
        crate::rules::proposals_ok(pre, road, cfg, zone_lo, zone_hi, branch),
    ensures
        step_children_ok(cur, road, cfg),
        forall|j: int|
            0 <= j < cur.len() && (#[trigger] cur[j]).road_type == road.road_type
                ==> candidate_dir_ok(
                offset_between(cur[j].from, cur[j].to),
                offset_between(road.from, road.to),
                cfg.road_length as int,
                eff_angle(rule_for(road.to, zone_lo, zone_hi), cfg),
            ),
{
    reveal(crate::rules::proposals_ok);
    assert forall|j: int| 0 <= j < cur.len() implies child_road_ok(
        #[trigger] cur[j],
        road,
        cfg,
        branch,
    ) by {
        assert(proposed_road_ok(pre[j], road, cfg.road_length as int));
        assert(cur[j] == (Road { fuel: cur[j].fuel, ..pre[j] }));
    }
    assert forall|j: int|
        0 <= j < cur.len() && (#[trigger] cur[j]).road_type == road.road_type
        implies candidate_dir_ok(
        offset_between(cur[j].from, cur[j].to),
        offset_between(road.from, road.to),
        cfg.road_length as int,
        eff_angle(rule_for(road.to, zone_lo, zone_hi), cfg),
    ) by {
        assert(cur[j] == (Road { fuel: cur[j].fuel, ..pre[j] }));
        assert(pre[j].road_type == road.road_type);
    }
    assert forall|j: int|
        #![trigger cur[j], cur[j - 1]]
        0 <= j < cur.len() && cur[j].road_type != road.road_type implies j > 0 && cur[j
        - 1].road_type == road.road_type && sibling_road_of(cur[j], cur[j - 1]) by {
        assert(cur[j] == (Road { fuel: cur[j].fuel, ..pre[j] }));
        assert(pre[j].road_type != road.road_type);
        assert(cur[j - 1] == (Road { fuel: cur[j - 1].fuel, ..pre[j - 1] }));
        assert(sibling_road_of(pre[j], pre[j - 1]));
    }
    assert(step_children_ok(cur, road, cfg));
}

/// Collect the zone rule's candidates for one committed segment and assign
/// their fuel; the whole randomized child computation, verified for every
/// draw the generator can return.
fn propose_children(
    rng: &mut rand::rngs::StdRng,
    cfg: &GenerationConfig,
    zone_lo: i64,
    zone_hi: i64,
    road: &Road,
    branch: bool,
) -> (v: Vec<Road>)
    requires
        crate::config::gen_config_ok(*cfg),
        crate::rules::road_within_area(*road),
        road.from != road.to,
        branch == (road.fuel == 0),
    ensures
        step_children_ok(v@, *road, *cfg),
        forall|i: int|
            0 <= i < v@.len() && (#[trigger] v@[i]).road_type == road.road_type
                ==> candidate_dir_ok(
                offset_between(v@[i].from, v@[i].to),
                offset_between(road.from, road.to),
                cfg.road_length as int,
                eff_angle(rule_for(road.to, zone_lo as int, zone_hi as int), *cfg),
            ),
{
    let mut vec: Vec<Road> = Vec::new();
    propose_roads(cfg, zone_lo, zone_hi, road, branch, rng, &mut vec);
    let ghost pre = vec@;
    proof {
        assert(pre.skip(0) =~= pre);
    }
    assign_fuel(rng, &mut vec, branch, road.fuel(), cfg.fuel_lo, cfg.fuel_hi);
    proof {
        lemma_refueled_children_ok(pre, vec@, *road, *cfg, zone_lo as int, zone_hi as int, branch);
    }
    vec
}

/// Overwrite every proposed child's fuel: drawn uniformly from the class's
/// fuel range when the parent branched, inherited unchanged otherwise.
/// Everything but the fuel counters is left untouched.
fn assign_fuel(
    rng: &mut rand::rngs::StdRng,
    vec: &mut Vec<Road>,
    branch: bool,
    parent_fuel: u32,
    fuel_lo: u32,
    fuel_hi: u32,
)
    requires
        fuel_lo < fuel_hi,
    ensures
        final(vec)@.len() == old(vec)@.len(),
        forall|j: int|
            0 <= j < final(vec)@.len() ==> #[trigger] final(vec)@[j] == (Road {
                fuel: final(vec)@[j].fuel,
                ..old(vec)@[j]
            }),
        branch ==> forall|j: int|
            0 <= j < final(vec)@.len() ==> fuel_lo <= (#[trigger] final(vec)@[j]).fuel < fuel_hi,
        !branch ==> forall|j: int|
            0 <= j < final(vec)@.len() ==> (#[trigger] final(vec)@[j]).fuel == parent_fuel,
{
    let ghost pre = vec@;
    let n = vec.len();
    let mut i: usize = 0;
    if branch {
        while i < n
            invariant
                0 <= i <= n,
                n == vec@.len(),
                n == pre.len(),
                fuel_lo < fuel_hi,
                forall|j: int| i <= j < n ==> vec@[j] == pre[j],
                forall|j: int| 0 <= j < i ==> fuel_lo <= (#[trigger] vec@[j]).fuel < fuel_hi,
                forall|j: int|
                    0 <= j < i ==> #[trigger] vec@[j] == (Road { fuel: vec@[j].fuel, ..pre[j] }),
            decreases n - i,
        {
            let f = random_in_range(rng, fuel_lo as u64, fuel_hi as u64);
            let mut r = vec[i];
            r.set_fuel(f as u32);
            vec.set(i, r);
            i = i + 1;
        }
    } else {
        while i < n
            invariant
                0 <= i <= n,
                n == vec@.len(),
                n == pre.len(),
                forall|j: int| i <= j < n ==> vec@[j] == pre[j],
                forall|j: int| 0 <= j < i ==> (#[trigger] vec@[j]).fuel == parent_fuel,
                forall|j: int|
                    0 <= j < i ==> #[trigger] vec@[j] == (Road { fuel: vec@[j].fuel, ..pre[j] }),
            decreases n - i,
        {
            let mut r = vec[i];
            r.set_fuel(parent_fuel);
            vec.set(i, r);
            i = i + 1;
        }
    }
}

/// The observable state of two engines agrees: same accepted roads, same
/// indexed points, same frontier, same configuration.
pub open spec fn views_eq(a: RoadMap, b: RoadMap) -> bool {
    &&& a.roads_view() == b.roads_view()
    &&& a.index_view() == b.index_view()
    &&& a.frontier_view() == b.frontier_view()
    &&& a.config_view() == b.config_view()
}

/// `post` follows from `pre` by exactly `k` growth steps, each popping one
/// frontier segment: the k-fold chaining of `step_rel`. This is what a whole
/// run is — every candidate present at entry is processed in queue order,
/// dropped or committed exactly once, before any child proposed during the
/// run.
pub open spec fn run_rel(pre: RoadMap, post: RoadMap, k: nat) -> bool
    decreases k,
{
    if k == 0 {
        views_eq(pre, post)
    } else {
        exists|mid: RoadMap|
            run_rel(pre, mid, (k - 1) as nat) && mid.frontier_view().len() > 0
                && #[trigger] step_rel(mid, post)
    }
}

/// The step relation only reads the observable state of the later engine.
proof fn lemma_step_rel_views(pre: RoadMap, a: RoadMap, b: RoadMap)
    requires
        step_rel(pre, a),
        views_eq(a, b),
    ensures
        step_rel(pre, b),
{
}

/// The run relation only reads the observable state of the later engine.
proof fn lemma_run_rel_views(pre: RoadMap, a: RoadMap, b: RoadMap, k: nat)
    requires
        run_rel(pre, a, k),
        views_eq(a, b),
    ensures
        run_rel(pre, b, k),
    decreases k,
{
    if k > 0 {
        let mid = choose|mid: RoadMap|
            run_rel(pre, mid, (k - 1) as nat) && mid.frontier_view().len() > 0 && #[trigger] step_rel(
                mid,
                a,
            );
        lemma_step_rel_views(mid, a, b);
        assert(run_rel(pre, mid, (k - 1) as nat) && mid.frontier_view().len() > 0 && step_rel(
            mid,
            b,
        ));
    }
}

/// Extend a run by one more step.
proof fn lemma_run_rel_step(pre: RoadMap, mid: RoadMap, post: RoadMap, k: nat)
    requires
        run_rel(pre, mid, k),
        mid.frontier_view().len() > 0,
        step_rel(mid, post),
    ensures
        run_rel(pre, post, k + 1),
{
    assert(((k + 1) - 1) as nat == k);
}

/// A run from an empty frontier takes no steps and changes nothing.
proof fn lemma_run_rel_empty(pre: RoadMap, post: RoadMap, k: nat)
    requires
        run_rel(pre, post, k),
        pre.frontier_view().len() == 0,
    ensures
        k == 0,
        views_eq(pre, post),
    decreases k,
{
    if k > 0 {
        let mid = choose|mid: RoadMap|
            run_rel(pre, mid, (k - 1) as nat) && mid.frontier_view().len() > 0 && #[trigger] step_rel(
                mid,
                post,
            );
        lemma_run_rel_empty(pre, mid, (k - 1) as nat);
    }
}

/// The accepted list is append-only across a run: the roads at the start of
/// the run are an unchanged prefix of the roads at its end, and the
/// configuration is never written. No committed segment is ever mutated or
/// removed.
pub proof fn lemma_run_append_only(pre: RoadMap, post: RoadMap, k: nat)
    requires
        run_rel(pre, post, k),
    ensures
        pre.roads_view().is_prefix_of(post.roads_view()),
        pre.config_view() == post.config_view(),
    decreases k,
{
    if k == 0 {
        assert(pre.roads_view() =~= post.roads_view().subrange(0, pre.roads_view().len() as int));
    } else {
        let mid = choose|mid: RoadMap|
            run_rel(pre, mid, (k - 1) as nat) && mid.frontier_view().len() > 0 && #[trigger] step_rel(
                mid,
                post,
            );
        lemma_run_append_only(pre, mid, (k - 1) as nat);
        let pr = pre.roads_view();
        let mr = mid.roads_view();
        let po = post.roads_view();
        assert(pr =~= mr.subrange(0, pr.len() as int));
        assert(po == mr || po.len() == mr.len() + 1 && po.subrange(0, mr.len() as int) =~= mr);
        assert(pr =~= po.subrange(0, pr.len() as int));
    }
}

/// The endpoints of a sequence of roads, in order: origin then tip of each.
pub open spec fn endpoints_of(fr: Seq<Road>) -> Seq<Point>
    decreases fr.len(),
{
    if fr.len() == 0 {
        Seq::empty()
    } else {
        endpoints_of(fr.drop_last()) + seq![fr.last().from, fr.last().to]
    }
}

/// The points pre-loaded into the spatial index for an initial frontier:
/// every endpoint except the very last one, which is left out so the seed's
/// own tip can still be matched against by the first merge check.
pub open spec fn seed_points(fr: Seq<Road>) -> Seq<Point> {
    if fr.len() == 0 {
        Seq::empty()
    } else {
        endpoints_of(fr).drop_last()
    }
}

/// The growth engine: the spatial index of committed endpoints, the
/// accepted road list, the frontier queue of candidates awaiting
/// processing, the configuration, and the seeded random generator.
pub struct RoadMap {
    index: SpatialIndex,
    roads: Vec<Road>,
    frontier: VecDeque<Road>,
    config: Config,
    rng: rand::rngs::StdRng,
}

impl RoadMap {
    /// The committed roads, in acceptance order.
    pub closed spec fn roads_view(&self) -> Seq<Road> {
        self.roads@
    }

    /// The pending candidates, front first.
    pub closed spec fn frontier_view(&self) -> Seq<Road> {
        self.frontier@
    }

    /// The indexed points, in insertion order.
    pub closed spec fn index_view(&self) -> Seq<Point> {
        self.index@
    }

    /// The configuration the engine was built with.
    pub closed spec fn config_view(&self) -> Config {
        self.config
    }

    /// The engine's invariant: a valid configuration; a well-formed index;
    /// every accepted road inside the bounds with both endpoints indexed;
    /// and every frontier candidate representable and non-degenerate.
    pub closed spec fn wf(&self) -> bool {
        let w = self.config.window.width as int;
        let h = self.config.window.height as int;
        &&& config_ok(self.config)
        &&& self.index.wf()
        &&& forall|i: int|
            0 <= i < self.roads@.len() ==> road_in_range(#[trigger] self.roads@[i], w, h)
        &&& forall|i: int|
            0 <= i < self.roads@.len() ==> self.index@.contains((#[trigger] self.roads@[i]).from)
                && self.index@.contains(self.roads@[i].to)
        &&& forall|i: int| 0 <= i < self.frontier@.len() ==> frontier_road_ok(#[trigger] self.frontier@[i])
    }

    /// The accepted roads.
    pub fn roads(&self) -> (r: &Vec<Road>)
        ensures
            r@ == self.roads_view(),
    {
        &self.roads
    }

    pub fn width(&self) -> (r: u32)
        ensures
            r == self.config_view().window.width,
    {
        self.config.window.width
    }

    pub fn height(&self) -> (r: u32)
        ensures
            r == self.config_view().window.height,
    {
        self.config.window.height
    }

    /// How many candidates still await processing.
    pub fn frontier_len(&self) -> (r: usize)
        ensures
            r == self.frontier_view().len(),
    {
        self.frontier.len()
    }

    /// Whether both endpoints lie in the growth area; the range check admits
    /// coordinates up to and including the width and height.
    pub fn is_in_range(&self, road: &Road) -> (r: bool)
        ensures
            r == road_in_range(
                *road,
                self.config_view().window.width as int,
                self.config_view().window.height as int,
            ),
    {
        let w = self.config.window.width as i64;
        let h = self.config.window.height as i64;
        road.from.x >= 0 && road.from.x <= w && road.from.y >= 0 && road.from.y <= h
            && road.to.x >= 0 && road.to.x <= w && road.to.y >= 0 && road.to.y <= h
    }

    /// Hold one candidate to the local constraints: reject it if out of
    /// bounds, otherwise snap its tip onto the nearest indexed point within
    /// the class's merge radius — unless that nearest point is the
    /// candidate's own tip or its own origin, which are not valid merge
    /// targets. Returns `(accepted, merged, candidate after any rewrite)`;
    /// a read-only decision, fully determined by the current state.
    pub fn accept_local_constraints(&self, road: Road) -> (r: (bool, bool, Road))
        requires
            self.wf(),
            road_coord_ok(road),
        ensures
            r == accept_local_spec(
                self.index_view(),
                generation_spec(self.config_view(), road.road_type),
                self.config_view().window.width as int,
                self.config_view().window.height as int,
                road,
            ),
    {
        if !self.is_in_range(&road) {
            return (false, false, road);
        }
        let cfg = self.config.generation(&road.road_type);
        if self.index.has_neighbor_in_range(&road.to, cfg.merge_range) {
            proof {
                let rr = cfg.merge_range * cfg.merge_range;
                let i = choose|i: int| 0 <= i < self.index_view().len()
                    && crate::geometry::dist_sq(self.index_view()[i], road.to) <= rr;
                assert(self.index_view().len() > 0);
            }
            let nearest = self.index.nearest_search(&road.to);
            if nearest != road.to && nearest != road.from {
                let adjusted = Road {
                    from: road.from,
                    to: nearest,
                    road_type: road.road_type,
                    fuel: road.fuel,
                };
                return (true, true, adjusted);
            }
            (true, false, road)
        } else {
            (true, false, road)
        }
    }

    /// Commit a segment: insert both endpoints into the spatial index and
    /// append it to the accepted list.
    fn add_road(&mut self, road: Road)
        requires
            old(self).wf(),
            road_in_range(
                road,
                old(self).config_view().window.width as int,
                old(self).config_view().window.height as int,
            ),
        ensures
            final(self).wf(),
            final(self).roads_view() == old(self).roads_view().push(road),
            final(self).index_view() == old(self).index_view().push(road.from).push(road.to),
            final(self).frontier_view() == old(self).frontier_view(),
            final(self).config_view() == old(self).config_view(),
    {
        self.index.insert_node(road.from);
        self.index.insert_node(road.to);
        self.roads.push(road);
        proof {
            let idx = self.index@;
            assert forall|i: int| 0 <= i < self.roads@.len() implies idx.contains(
                (#[trigger] self.roads@[i]).from,
            ) && idx.contains(self.roads@[i].to) by {
                if i < self.roads@.len() - 1 {
                    let r = self.roads@[i];
                    let j = choose|j: int| 0 <= j < old(self).index_view().len()
                        && old(self).index_view()[j] == r.from;
                    assert(idx[j] == r.from);
                    let k = choose|k: int| 0 <= k < old(self).index_view().len()
                        && old(self).index_view()[k] == r.to;
                    assert(idx[k] == r.to);
                } else {
                    assert(idx[idx.len() - 2] == road.from);
                    assert(idx[idx.len() - 1] == road.to);
                }
            }
        }
    }

    /// Invoke the zone's proposal rule for a committed segment and assign
    /// fuel to every child: freshly drawn from the class's fuel range when
    /// the segment branched, inherited unchanged otherwise. Only the random
    /// generator's state changes besides the returned children.
    fn propose_with_global_goals(&mut self, road: &Road, branch: bool) -> (v: Vec<Road>)
        requires
            old(self).wf(),
            road_in_range(
                *road,
                old(self).config_view().window.width as int,
                old(self).config_view().window.height as int,
            ),
            road.from != road.to,
            branch == (road.fuel == 0),
        ensures
            final(self).wf(),
            final(self).roads_view() == old(self).roads_view(),
            final(self).index_view() == old(self).index_view(),
            final(self).frontier_view() == old(self).frontier_view(),
            final(self).config_view() == old(self).config_view(),
            step_children_ok(v@, *road, generation_spec(old(self).config_view(), road.road_type)),
            forall|i: int|
                0 <= i < v@.len() && (#[trigger] v@[i]).road_type == road.road_type
                    ==> candidate_dir_ok(
                    offset_between(v@[i].from, v@[i].to),
                    offset_between(road.from, road.to),
                    generation_spec(old(self).config_view(), road.road_type).road_length as int,
                    eff_angle(
                        rule_for(
                            road.to,
                            old(self).config_view().organic_zone_lo as int,
                            old(self).config_view().organic_zone_hi as int,
                        ),
                        generation_spec(old(self).config_view(), road.road_type),
                    ),
                ),
    {
        let cfg = self.config.generation(&road.road_type);
        proof {
            crate::config::lemma_generation_ok(self.config, road.road_type);
            assert(crate::rules::road_within_area(*road));
        }
        propose_children(
            &mut self.rng,
            &cfg,
            self.config.organic_zone_lo,
            self.config.organic_zone_hi,
            road,
            branch,
        )
    }

    /// Process the front frontier segment, if any: hold it to the local
    /// constraints, re-check the bounds after any merge rewrite, consume one
    /// unit of fuel and propose children only when it did not merge, and
    /// commit it. Returns whether a segment was processed; `false` means the
    /// frontier was empty and nothing changed.
    pub fn step(&mut self) -> (progressed: bool)
        requires
            old(self).wf(),
        ensures
            final(self).wf(),
            final(self).config_view() == old(self).config_view(),
            progressed == (old(self).frontier_view().len() > 0),
            !progressed ==> final(self).roads_view() == old(self).roads_view()
                && final(self).index_view() == old(self).index_view()
                && final(self).frontier_view() == old(self).frontier_view(),
            progressed ==> step_rel(*old(self), *final(self)),
    {
        let popped = self.frontier.pop_front();
        let road = match popped {
            None => {
                return false;
            },
            Some(road) => road,
        };
        proof {
            assert(road == old(self).frontier_view()[0]);
            assert(frontier_road_ok(old(self).frontier@[0]));
            assert forall|i: int| 0 <= i < self.frontier@.len() implies frontier_road_ok(
                #[trigger] self.frontier@[i],
            ) by {
                assert(self.frontier@[i] == old(self).frontier@[i + 1]);
            }
            assert(self.wf());
        }
        let ghost rest = self.frontier@;
        let tri = self.accept_local_constraints(road);
        let accepted = tri.0;
        let merged = tri.1;
        let road2 = tri.2;
        if !accepted {
            proof {
                assert(step_rel(*old(self), *self));
            }
            return true;
        }
        if !self.is_in_range(&road2) {
            proof {
                assert(step_rel(*old(self), *self));
            }
            return true;
        }
        let mut road3 = road2;
        if !merged {
            let branch = road3.take_fuel();
            let children = self.propose_with_global_goals(&road3, branch);
            let n = children.len();
            let mut k: usize = 0;
            while k < n
                invariant
                    0 <= k <= n,
                    n == children@.len(),
                    self.wf(),
                    self.roads@ == old(self).roads@,
                    self.index_view() == old(self).index_view(),
                    self.config_view() == old(self).config_view(),
                    self.frontier@ == rest + children@.subrange(0, k as int),
                    forall|i: int| 0 <= i < rest.len() ==> frontier_road_ok(#[trigger] rest[i]),
                    forall|i: int|
                        0 <= i < n ==> child_road_ok(
                            #[trigger] children@[i],
                            road3,
                            generation_spec(self.config_view(), road3.road_type),
                            branch,
                        ),
                    road_in_range(
                        road3,
                        self.config_view().window.width as int,
                        self.config_view().window.height as int,
                    ),
                    config_ok(self.config_view()),
                decreases n - k,
            {
                let c = children[k];
                proof {
                    assert(child_road_ok(
                        children@[k as int],
                        road3,
                        generation_spec(self.config_view(), road3.road_type),
                        branch,
                    ));
                    assert(coord_ok(road3.to));
                    assert(frontier_road_ok(c));
                    assert((rest + children@.subrange(0, k as int)).push(c) =~= rest
                        + children@.subrange(0, k + 1 as int));
                }
                self.frontier.push_back(c);
                proof {
                    assert forall|i: int| 0 <= i < self.frontier@.len() implies frontier_road_ok(
                        #[trigger] self.frontier@[i],
                    ) by {
                        let fr = rest + children@.subrange(0, k + 1 as int);
                        if i < rest.len() {
                            assert(fr[i] == rest[i]);
                        } else {
                            assert(fr[i] == children@[i - rest.len()]);
                            assert(child_road_ok(
                                children@[i - rest.len()],
                                road3,
                                generation_spec(self.config_view(), road3.road_type),
                                branch,
                            ));
                        }
                    }
                    assert(self.wf());
                }
                k = k + 1;
            }
            self.add_road(road3);
            proof {
                assert(self.frontier@.subrange(0, rest.len() as int) =~= rest);
                assert(self.frontier@.skip(rest.len() as int) =~= children@.subrange(0, n as int));
                assert(children@.subrange(0, n as int) =~= children@);
                assert(road3 == (Road { fuel: fuel_after(road.fuel), ..road }));
                assert(step_rel(*old(self), *self));
            }
            true
        } else {
            self.add_road(road3);
            proof {
                assert(step_rel(*old(self), *self));
            }
            true
        }
    }

    /// Run steps until the frontier empties, up to an enormous safety budget
    /// of steps; only an aborted run returns an error, and an already-empty
    /// frontier succeeds immediately. The whole run is a chain of growth
    /// steps.
    fn exhaust(&mut self) -> (r: Result<(), RoadError>)
        requires
            old(self).wf(),
        ensures
            final(self).wf(),
            final(self).config_view() == old(self).config_view(),
            exists|k: nat| run_rel(*old(self), *final(self), k),
            old(self).roads_view().is_prefix_of(final(self).roads_view()),
            old(self).frontier_view().len() == 0 ==> r is Ok && views_eq(*old(self), *final(self)),
            r is Ok ==> final(self).frontier_view().len() == 0,
            r is Err ==> final(self).frontier_view().len() > 0 && r->Err_0 is Unknown,
    {
        if self.frontier.len() == 0 {
            proof {
                assert(views_eq(*old(self), *self));
                assert(run_rel(*old(self), *self, 0));
                lemma_run_append_only(*old(self), *self, 0);
            }
            return Ok(());
        }
        let ghost mut steps: nat = 0;
        let mut count: u64 = u64::MAX;
        while count > 0
            invariant
                self.wf(),
                self.config_view() == old(self).config_view(),
                run_rel(*old(self), *self, steps),
                old(self).frontier_view().len() > 0,
            decreases count,
        {
            count = count - 1;
            let ghost mid = *self;
            let progressed = self.step();
            proof {
                if progressed {
                    lemma_run_rel_step(*old(self), mid, *self, steps);
                    steps = steps + 1;
                } else {
                    lemma_run_rel_views(*old(self), mid, *self, steps);
                }
                lemma_run_append_only(*old(self), *self, steps);
            }
            if !progressed {
                return Ok(());
            }
        }
        proof {
            lemma_run_append_only(*old(self), *self, steps);
        }
        if self.frontier.len() == 0 {
            Ok(())
        } else {
            Err(RoadError::Unknown("growth step budget exhausted"))
        }
    }

    /// Advance the growth: with a growth increment, process up to that many
    /// frontier items and stop with success; without one, run until the
    /// frontier empties. An already-empty frontier is a successful no-op, a
    /// rejected candidate never surfaces as an error, and the whole call is
    /// a chain of growth steps — at most the increment's worth of them — so
    /// repeated calls resume exactly where the previous one stopped.
    pub fn advance(&mut self) -> (r: Result<(), RoadError>)
        requires
            old(self).wf(),
        ensures
            final(self).wf(),
            final(self).config_view() == old(self).config_view(),
            exists|k: nat|
                run_rel(*old(self), *final(self), k) && (old(
                    self,
                ).config_view().window.growth_increment is Some ==> k <= old(
                    self,
                ).config_view().window.growth_increment->0),
            old(self).roads_view().is_prefix_of(final(self).roads_view()),
            old(self).frontier_view().len() == 0 ==> r is Ok && views_eq(*old(self), *final(self)),
            old(self).config_view().window.growth_increment is Some ==> r is Ok,
            old(self).config_view().window.growth_increment is None && r is Ok
                ==> final(self).frontier_view().len() == 0,
            r is Err ==> r->Err_0 is Unknown,
    {
        let increment = self.config.window.growth_increment;
        match increment {
            None => {
                let r = self.exhaust();
                proof {
                    let k = choose|k: nat| run_rel(*old(self), *self, k);
                    assert(run_rel(*old(self), *self, k) && (old(
                        self,
                    ).config_view().window.growth_increment is Some ==> k <= old(
                        self,
                    ).config_view().window.growth_increment->0));
                }
                r
            },
            Some(n) => {
                if self.frontier.len() == 0 {
                    proof {
                        assert(views_eq(*old(self), *self));
                        assert(run_rel(*old(self), *self, 0));
                        lemma_run_append_only(*old(self), *self, 0);
                        assert(run_rel(*old(self), *self, 0) && 0 <= n);
                    }
                    return Ok(());
                }
                let ghost mut steps: nat = 0;
                let mut count: u32 = n;
                while count > 0
                    invariant
                        self.wf(),
                        self.config_view() == old(self).config_view(),
                        run_rel(*old(self), *self, steps),
                        steps + count <= n,
                        old(self).frontier_view().len() > 0,
                        old(self).config_view().window.growth_increment == Some(n),
                    decreases count,
                {
                    count = count - 1;
                    let ghost mid = *self;
                    let progressed = self.step();
                    proof {
                        if progressed {
                            lemma_run_rel_step(*old(self), mid, *self, steps);
                            steps = steps + 1;
                        } else {
                            lemma_run_rel_views(*old(self), mid, *self, steps);
                        }
                        lemma_run_append_only(*old(self), *self, steps);
                        assert(run_rel(*old(self), *self, steps) && (old(
                            self,
                        ).config_view().window.growth_increment is Some ==> steps <= old(
                            self,
                        ).config_view().window.growth_increment->0));
                    }
                    if !progressed {
                        return Ok(());
                    }
                }
                proof {
                    lemma_run_append_only(*old(self), *self, steps);
                    assert(run_rel(*old(self), *self, steps) && (old(
                        self,
                    ).config_view().window.growth_increment is Some ==> steps <= old(
                        self,
                    ).config_view().window.growth_increment->0));
                }
                Ok(())
            },
        }
    }

    /// Build an engine over a validated configuration and a caller-supplied
    /// initial frontier, seeding the random generator with `seed`. The
    /// spatial index starts with every frontier endpoint except the very
    /// last, so the seed's own tip can still be matched against by the first
    /// merge check. Construction fails exactly when the configuration or
    /// some frontier segment is unusable.
    pub fn with_frontier(config: Config, frontier: Vec<Road>, seed: u64) -> (r: Result<
        RoadMap,
        RoadError,
    >)
        ensures
            r is Ok <==> config_ok(config) && (forall|i: int|
                0 <= i < frontier@.len() ==> frontier_road_ok(#[trigger] frontier@[i])),
            r is Err ==> r->Err_0 is Settings,
            r is Ok ==> {
                let m = r->Ok_0;
                &&& m.wf()
                &&& m.roads_view().len() == 0
                &&& m.frontier_view() == frontier@
                &&& m.index_view() == seed_points(frontier@)
                &&& m.config_view() == config
            },
    {
        match config.validate() {
            Err(e) => {
                return Err(e);
            },
            Ok(()) => {},
        }
        let n = frontier.len();
        let mut i: usize = 0;
        while i < n
            invariant
                0 <= i <= n,
                n == frontier@.len(),
                forall|j: int| 0 <= j < i ==> frontier_road_ok(#[trigger] frontier@[j]),
            decreases n - i,
        {
            let r = frontier[i];
            let coords_ok = r.from.x >= -COORD_LIMIT && r.from.x <= COORD_LIMIT && r.from.y
                >= -COORD_LIMIT && r.from.y <= COORD_LIMIT && r.to.x >= -COORD_LIMIT && r.to.x
                <= COORD_LIMIT && r.to.y >= -COORD_LIMIT && r.to.y <= COORD_LIMIT;
            if !coords_ok || r.from == r.to {
                return Err(RoadError::Settings("an initial frontier segment is unusable"));
            }
            i = i + 1;
        }
        let mut pts: Vec<Point> = Vec::new();
        i = 0;
        while i < n
            invariant
                0 <= i <= n,
                n == frontier@.len(),
                pts@ == endpoints_of(frontier@.subrange(0, i as int)),
                pts@.len() == 2 * i,
                forall|j: int| 0 <= j < frontier@.len() ==> frontier_road_ok(#[trigger] frontier@[j]),
                forall|j: int| 0 <= j < pts@.len() ==> coord_ok(#[trigger] pts@[j]),
            decreases n - i,
        {
            let r = frontier[i];
            pts.push(r.from);
            pts.push(r.to);
            proof {
                let pre = frontier@.subrange(0, i as int);
                let cur = frontier@.subrange(0, i + 1 as int);
                assert(cur.drop_last() =~= pre);
                assert(cur.last() == frontier@[i as int]);
                assert(pts@ =~= endpoints_of(pre) + seq![r.from, r.to]);
            }
            i = i + 1;
        }
        proof {
            assert(frontier@.subrange(0, n as int) =~= frontier@);
        }
        if pts.len() > 0 {
            pts.pop();
        }
        proof {
            assert(pts@ =~= seed_points(frontier@));
        }
        let mut index = SpatialIndex::new();
        let m = pts.len();
        i = 0;
        while i < m
            invariant
                0 <= i <= m,
                m == pts@.len(),
                index.wf(),
                index@ == pts@.subrange(0, i as int),
                forall|j: int| 0 <= j < pts@.len() ==> coord_ok(#[trigger] pts@[j]),
            decreases m - i,
        {
            index.insert_node(pts[i]);
            proof {
                assert(pts@.subrange(0, i as int).push(pts@[i as int]) =~= pts@.subrange(
                    0,
                    i + 1 as int,
                ));
            }
            i = i + 1;
        }
        proof {
            assert(pts@.subrange(0, m as int) =~= pts@);
        }
        let mut fq: VecDeque<Road> = VecDeque::new();
        i = 0;
        while i < n
            invariant
                0 <= i <= n,
                n == frontier@.len(),
                fq@ == frontier@.subrange(0, i as int),
            decreases n - i,
        {
            fq.push_back(frontier[i]);
            proof {
                assert(frontier@.subrange(0, i as int).push(frontier@[i as int])
                    =~= frontier@.subrange(0, i + 1 as int));
            }
            i = i + 1;
        }
        let rng = rng_from_seed(seed);
        let map = RoadMap { index, roads: Vec::new(), frontier: fq, config, rng };
        proof {
            assert(map.frontier@ =~= frontier@);
            assert(map.wf());
        }
        Ok(map)
    }

    /// Build an engine over a validated configuration, seeding the frontier
    /// with one Large segment whose origin is drawn uniformly inside the
    /// bounds and which points one road length along the x axis.
    /// Construction fails exactly when the configuration is unusable.
    pub fn new(config: Config, seed: u64) -> (r: Result<RoadMap, RoadError>)
        ensures
            r is Ok <==> config_ok(config),
            r is Err ==> r->Err_0 is Settings,
            r is Ok ==> {
                let m = r->Ok_0;
                &&& m.wf()
                &&& m.roads_view().len() == 0
                &&& m.frontier_view().len() == 1
                &&& m.config_view() == config
                &&& m.frontier_view()[0].road_type == RoadType::Large
                &&& m.frontier_view()[0].fuel == 1
                &&& 0 <= m.frontier_view()[0].from.x < config.window.width
                &&& 0 <= m.frontier_view()[0].from.y < config.window.height
                &&& m.frontier_view()[0].to.x == m.frontier_view()[0].from.x
                    + generation_spec(config, RoadType::Large).road_length
                &&& m.frontier_view()[0].to.y == m.frontier_view()[0].from.y
                &&& m.index_view() == seq![m.frontier_view()[0].from]
            },
    {
        match config.validate() {
            Err(e) => {
                return Err(e);
            },
            Ok(()) => {},
        }
        let mut rng = rng_from_seed(seed);
        let gen = config.generation(&RoadType::Large);
        let ax = random_in_range(&mut rng, 0, config.window.width as u64) as i64;
        let ay = random_in_range(&mut rng, 0, config.window.height as u64) as i64;
        let a = Point::new(ax, ay);
        let b = Point::new(ax + gen.road_length, ay);
        let road = Road::new_with_points(RoadType::Large, a, b);
        let mut index = SpatialIndex::new();
        index.insert_node(a);
        let mut fq: VecDeque<Road> = VecDeque::new();
        fq.push_back(road);
        let map = RoadMap { index, roads: Vec::new(), frontier: fq, config, rng };
        proof {
            assert(map.index@ =~= seq![a]);
            assert(map.wf());
        }
        Ok(map)
    }

    /// Validate the settings, seed a fixed Large segment, and run the whole
    /// generation to exhaustion.
    pub fn generate(settings: RoadmapSettings, seed: u64) -> (r: Result<RoadMap, RoadError>)
        ensures
            (r is Err && r->Err_0 is Settings) <==> (settings.width < 50 || settings.height < 50
                || settings.width > MAX_DIM || settings.height > MAX_DIM),
            r is Err ==> (r->Err_0 is Settings || r->Err_0 is Unknown),
            r is Ok ==> (r->Ok_0).wf() && (r->Ok_0).frontier_view().len() == 0,
            r is Ok ==> (r->Ok_0).config_view().window.width == settings.width as u32
                && (r->Ok_0).config_view().window.height == settings.height as u32,
    {
        if settings.width < 50 {
            return Err(RoadError::Settings("Width must be at least 50"));
        }
        if settings.height < 50 {
            return Err(RoadError::Settings("Height must be at least 50"));
        }
        let increment: Option<u32> = match settings.increment {
            None => None,
            Some(k) => if k < 0 {
                Some(0u32)
            } else {
                Some(k as u32)
            },
        };
        let config = Config::with_window(settings.width as u32, settings.height as u32, increment);
        let seed_road = Road::new_with_points(
            RoadType::Large,
            Point::new(100, 100),
            Point::new(100, 120),
        );
        let mut v: Vec<Road> = Vec::new();
        v.push(seed_road);
        proof {
            assert(frontier_road_ok(seed_road));
            assert(forall|i: int| 0 <= i < v@.len() ==> frontier_road_ok(#[trigger] v@[i]));
        }
        match Self::with_frontier(config, v, seed) {
            Err(e) => Err(e),
            Ok(mut map) => match map.exhaust() {
                Ok(()) => Ok(map),
                Err(e) => Err(e),
            },
        }
    }
}

/// Every accepted segment of a well-formed engine lies inside the bounds:
/// both endpoints have coordinates within `[0, width]` and `[0, height]`.
pub proof fn lemma_accepted_roads_in_bounds(m: &RoadMap, i: int)
    requires
        m.wf(),
        0 <= i < m.roads_view().len(),
    ensures
        road_in_range(
            m.roads_view()[i],
            m.config_view().window.width as int,
            m.config_view().window.height as int,
        ),
{
}

/// Both endpoints of every accepted segment of a well-formed engine are
/// present in the spatial index.
pub proof fn lemma_accepted_endpoints_indexed(m: &RoadMap, i: int)
    requires
        m.wf(),
        0 <= i < m.roads_view().len(),
    ensures
        m.index_view().contains(m.roads_view()[i].from),
        m.index_view().contains(m.roads_view()[i].to),
{
}

/// A candidate whose nearest indexed point is its own tip or its own origin
/// is not treated as a valid merge target: it is accepted unchanged, without
/// a merge.
pub proof fn lemma_no_self_merge(idx: Seq<Point>, cfg: GenerationConfig, w: int, h: int, road: Road)
    requires
        road_in_range(road, w, h),
        nearest_in(idx, road.to) == road.to || nearest_in(idx, road.to) == road.from,
    ensures
        accept_local_spec(idx, cfg, w, h, road) == (true, false, road),
{
}

/// Class refinement is monotonic and strict: every child a growth step
/// appends to the frontier keeps the popped segment's class or takes exactly
/// the next finer class, and a child of a different class is strictly finer;
/// a Small segment never spawns anything finer than Small.
pub proof fn lemma_spawned_children_refine(pre: RoadMap, post: RoadMap, i: int)
    requires
        pre.frontier_view().len() > 0,
        step_rel(pre, post),
        post.frontier_view().len() > pre.frontier_view().len() - 1,
        pre.frontier_view().len() - 1 <= i < post.frontier_view().len(),
    ensures
        class_rank(post.frontier_view()[i].road_type) <= class_rank(
            pre.frontier_view()[0].road_type,
        ),
        post.frontier_view()[i].road_type != pre.frontier_view()[0].road_type ==> Some(
            post.frontier_view()[i].road_type,
        ) == next_type_spec(pre.frontier_view()[0].road_type) && class_rank(
            post.frontier_view()[i].road_type,
        ) < class_rank(pre.frontier_view()[0].road_type),
        pre.frontier_view()[0].road_type == RoadType::Small ==> post.frontier_view()[i].road_type
            == RoadType::Small,
{
    let popped = pre.frontier_view()[0];
    let rest = pre.frontier_view().skip(1);
    let pushed = post.frontier_view().skip(rest.len() as int);
    let child = post.frontier_view()[i];
    assert(child == pushed[i - rest.len()]);
    let w = pre.config_view().window.width as int;
    let h = pre.config_view().window.height as int;
    let cfg = generation_spec(pre.config_view(), popped.road_type);
    let tri = accept_local_spec(pre.index_view(), cfg, w, h, popped);
    let adj = tri.2;
    let committed = Road { fuel: fuel_after(adj.fuel), ..adj };
    assert(committed.road_type == popped.road_type);
    assert(child_road_ok(child, committed, cfg, committed.fuel == 0));
    lemma_class_refinement_strict(popped.road_type);
}

/// The termination weight of one frontier segment: its remaining fuel plus
/// one, amplified exponentially by how coarse its class is.
pub open spec fn road_weight(r: Road, base: int) -> int {
    (r.fuel + 1) * pow(base, class_rank(r.road_type))
}

/// The termination measure of a frontier: the sum of its segments' weights.
pub open spec fn frontier_measure(s: Seq<Road>, base: int) -> int
    decreases s.len(),
{
    if s.len() == 0 {
        0
    } else {
        road_weight(s[0], base) + frontier_measure(s.skip(1), base)
    }
}

/// Every segment weighs at least 1 for a positive base.
proof fn lemma_weight_positive(r: Road, base: int)
    requires
        base >= 1,
    ensures
        road_weight(r, base) >= 1,
{
    lemma_pow_positive(base, class_rank(r.road_type));
    assert((r.fuel + 1) * pow(base, class_rank(r.road_type)) >= 1) by (nonlinear_arith)
        requires r.fuel + 1 >= 1, pow(base, class_rank(r.road_type)) >= 1;
}

/// The measure of a concatenation is the sum of the measures.
proof fn lemma_measure_concat(a: Seq<Road>, b: Seq<Road>, base: int)
    ensures
        frontier_measure(a + b, base) == frontier_measure(a, base) + frontier_measure(b, base),
    decreases a.len(),
{
    if a.len() == 0 {
        assert(a + b =~= b);
    } else {
        assert((a + b).skip(1) =~= a.skip(1) + b);
        lemma_measure_concat(a.skip(1), b, base);
    }
}

/// The next finer class sits exactly one rank below its parent.
proof fn lemma_next_rank(t: RoadType)
    requires
        next_type_spec(t) is Some,
    ensures
        class_rank(next_type_spec(t)->Some_0) + 1 == class_rank(t),
{
}

/// With a zero branch chance for the popped segment's class, and all
/// frontier fuels bounded by `fmax`, one growth step strictly decreases the
/// frontier measure taken to base `fmax + 2`, and keeps all fuels bounded.
/// The measure is a non-negative integer, so a run over such a
/// configuration pops the frontier empty within the initial measure's worth
/// of steps: straight-line growth exits the area and is rejected rather
/// than looping forever.
pub proof fn lemma_step_measure_decreases(pre: RoadMap, post: RoadMap, fmax: int)
    requires
        pre.frontier_view().len() > 0,
        step_rel(pre, post),
        fmax >= 0,
        generation_spec(pre.config_view(), pre.frontier_view()[0].road_type).road_chance == 0,
        forall|i: int|
            0 <= i < pre.frontier_view().len() ==> (#[trigger] pre.frontier_view()[i]).fuel
                <= fmax,
    ensures
        frontier_measure(post.frontier_view(), fmax + 2) < frontier_measure(
            pre.frontier_view(),
            fmax + 2,
        ),
        frontier_measure(post.frontier_view(), fmax + 2) >= 0,
        forall|i: int|
            0 <= i < post.frontier_view().len() ==> (#[trigger] post.frontier_view()[i]).fuel
                <= fmax,
{
    let base = fmax + 2;
    let fr = pre.frontier_view();
    let popped = fr[0];
    let rest = fr.skip(1);
    let w = pre.config_view().window.width as int;
    let h = pre.config_view().window.height as int;
    let cfg = generation_spec(pre.config_view(), popped.road_type);
    let tri = accept_local_spec(pre.index_view(), cfg, w, h, popped);
    let adj = tri.2;
    assert(adj.fuel == popped.fuel && adj.road_type == popped.road_type);
    assert(frontier_measure(fr, base) == road_weight(popped, base) + frontier_measure(rest, base));
    lemma_weight_positive(popped, base);
    assert(forall|i: int| 0 <= i < rest.len() ==> (#[trigger] rest[i]).fuel <= fmax);
    if !tri.0 || !road_in_range(adj, w, h) || tri.1 {
        assert(post.frontier_view() == rest);
        lemma_measure_bounded_fuel(rest, base);
    } else {
        let committed = Road { fuel: fuel_after(adj.fuel), ..adj };
        let pushed = post.frontier_view().skip(rest.len() as int);
        assert(step_children_ok(pushed, committed, cfg));
        assert(post.frontier_view() =~= rest + pushed) by {
            assert(post.frontier_view().subrange(0, rest.len() as int) == rest);
            assert forall|i: int| 0 <= i < post.frontier_view().len() implies (rest + pushed)[i]
                == post.frontier_view()[i] by {
                if i < rest.len() {
                    assert(post.frontier_view().subrange(0, rest.len() as int)[i]
                        == post.frontier_view()[i]);
                }
            }
        }
        lemma_measure_concat(rest, pushed, base);
        lemma_measure_bounded_fuel(rest, base);
        let branch = committed.fuel == 0;
        let c = class_rank(committed.road_type);
        let wc = pow(base, c);
        lemma_pow_positive(base, c);
        if branch {
            assert(pushed.len() == 0);
            assert(frontier_measure(pushed, base) == 0);
        } else {
            let g = committed.fuel as int;
            assert(1 <= g <= fmax - 1);
            let child0 = pushed[0];
            assert(child_road_ok(child0, committed, cfg, branch));
            assert(child0.fuel == g && child0.road_type == committed.road_type);
            assert(road_weight(child0, base) == (g + 1) * wc);
            if pushed.len() == 1 {
                assert(pushed.skip(1) =~= Seq::<Road>::empty());
                assert(pushed.skip(1).len() == 0);
                assert(frontier_measure(pushed.skip(1), base) == 0);
                assert(frontier_measure(pushed, base) == road_weight(pushed[0], base)
                    + frontier_measure(pushed.skip(1), base));
                assert((g + 1) * wc < (g + 2) * wc) by (nonlinear_arith)
                    requires wc >= 1, g >= 0;
                assert(road_weight(popped, base) == (g + 2) * wc);
            } else {
                assert(pushed.len() == 2);
                let child1 = pushed[1];
                assert(child_road_ok(child1, committed, cfg, branch));
                assert(Some(child1.road_type) == next_type_spec(committed.road_type));
                lemma_next_rank(committed.road_type);
                let c1 = class_rank(child1.road_type);
                assert(c1 + 1 == c);
                let wc1 = pow(base, c1);
                lemma_pow_positive(base, c1);
                assert(wc == base * wc1) by {
                    vstd::arithmetic::power::lemma_pow1(base);
                    vstd::arithmetic::power::lemma_pow_adds(base, c1, 1nat);
                    assert(pow(base, c1) * pow(base, 1nat) == base * wc1) by (nonlinear_arith)
                        requires pow(base, 1nat) == base, wc1 == pow(base, c1);
                }
                assert(child1.fuel == g);
                assert(road_weight(child1, base) == (g + 1) * wc1);
                let tail = pushed.skip(1);
                assert(tail[0] == child1);
                assert(tail.len() == 1);
                assert(tail.skip(1) =~= Seq::<Road>::empty());
                assert(tail.skip(1).len() == 0);
                assert(frontier_measure(tail.skip(1), base) == 0);
                assert(frontier_measure(tail, base) == road_weight(tail[0], base)
                    + frontier_measure(tail.skip(1), base));
                assert(frontier_measure(pushed, base) == road_weight(pushed[0], base)
                    + frontier_measure(tail, base));
                assert((g + 1) * wc + (g + 1) * wc1 < (g + 2) * wc) by (nonlinear_arith)
                    requires
                        wc == base * wc1,
                        wc1 >= 1,
                        g + 1 < base,
                        g >= 0,
                        base >= 2;
                assert(road_weight(popped, base) == (g + 2) * wc);
            }
            assert forall|i: int| 0 <= i < pushed.len() implies (#[trigger] pushed[i]).fuel
                <= fmax by {
                assert(child_road_ok(pushed[i], committed, cfg, branch));
            }
        }
        assert forall|i: int| 0 <= i < post.frontier_view().len() implies (
        #[trigger] post.frontier_view()[i]).fuel <= fmax by {
            if i < rest.len() {
                assert(post.frontier_view()[i] == rest[i]);
            } else {
                assert(post.frontier_view()[i] == pushed[i - rest.len()]);
            }
        }
    }
}

/// A measure over bounded-fuel segments is non-negative.
proof fn lemma_measure_bounded_fuel(s: Seq<Road>, base: int)
    requires
        base >= 1,
    ensures
        frontier_measure(s, base) >= 0,
    decreases s.len(),
{
    if s.len() > 0 {
        lemma_weight_positive(s[0], base);
        lemma_measure_bounded_fuel(s.skip(1), base);
    }
}

} // verus!
