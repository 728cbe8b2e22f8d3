//! Proposal rules: from an accepted segment, produce candidate children.
//! The rule is chosen per growth point by a configurable zone of the x axis;
//! the grid rule emits axis-relative left/straight/right candidates, the
//! organic rule delegates to the grid rule and then jitters every surviving
//! candidate's heading. Every surviving candidate may also spawn one
//! finer-class sibling rotated a quarter turn.

use vstd::prelude::*;
use crate::config::{gen_config_ok, GenerationConfig, CHANCE_SCALE};
use crate::generator::Road;
use crate::geometry::{
    coord_ok, jitter_spec, offset_between, offset_within, point_plus, rot_ccw, rot_ccw_spec,
    rot_cw_spec, scale_spec, Offset, Point, MAX_DIM, MAX_LEN,
};
use crate::rng::random_in_range;
use crate::{next_type_spec, get_next_type, RoadType};

pub mod grid;
pub mod organic;

verus! {

/// The closed set of proposal rules.
#[derive(Debug, Copy, Clone, PartialEq, Eq, Structural)]
pub enum GenerationRule {
    Grid,
    Organic,
}

/// A candidate child segment before it becomes a road: its class, its
/// origin, and its displacement.
#[derive(Debug, Copy, Clone, PartialEq, Eq, Structural)]
pub struct Proposal {
    pub road_type: RoadType,
    pub from: Point,
    pub dir: Offset,
}

/// Which rule governs a growth point: outside the organic zone of the x
/// axis, the grid rule; inside it, the organic rule.
pub open spec fn rule_for(p: Point, zone_lo: int, zone_hi: int) -> GenerationRule {
    if p.x < zone_lo || p.x > zone_hi {
        GenerationRule::Grid
    } else {
        GenerationRule::Organic
    }
}

/// Select the rule for a growth point.
pub fn get_rule(point: &Point, zone_lo: i64, zone_hi: i64) -> (r: GenerationRule)
    ensures
        r == rule_for(*point, zone_lo as int, zone_hi as int),
{
    if point.x < zone_lo || point.x > zone_hi {
        GenerationRule::Grid
    } else {
        GenerationRule::Organic
    }
}

/// A well-formed candidate: anchored at the growth point, of the given
/// class, with a non-zero displacement within `max_len` per component.
pub open spec fn proposal_elem_ok(p: Proposal, origin: Point, rt: RoadType, max_len: int) -> bool {
    &&& p.from == origin
    &&& p.road_type == rt
    &&& offset_within(p.dir, max_len)
    &&& !(p.dir.dx == 0 && p.dir.dy == 0)
}

/// The straight continuation candidate: the parent heading rescaled to the
/// class's road length.
pub open spec fn straight_of(origin: Point, rt: RoadType, parent_dir: Offset, len: int) -> Proposal {
    Proposal { road_type: rt, from: origin, dir: scale_spec(parent_dir, len) }
}

/// The candidates the grid rule keeps when branching: for each of the
/// relative headings right, straight, left (in that order) the candidate
/// survives exactly when its independent draw falls below the branch chance.
pub open spec fn grid_picks(
    origin: Point,
    rt: RoadType,
    u: Offset,
    chance: u32,
    d0: u32,
    d1: u32,
    d2: u32,
) -> Seq<Proposal> {
    let s0: Seq<Proposal> = if d0 < chance {
        seq![Proposal { road_type: rt, from: origin, dir: rot_cw_spec(u) }]
    } else {
        Seq::empty()
    };
    let s1: Seq<Proposal> = if d1 < chance {
        seq![Proposal { road_type: rt, from: origin, dir: u }]
    } else {
        Seq::empty()
    };
    let s2: Seq<Proposal> = if d2 < chance {
        seq![Proposal { road_type: rt, from: origin, dir: rot_ccw_spec(u) }]
    } else {
        Seq::empty()
    };
    s0 + s1 + s2
}

/// One candidate is a bounded-jitter deflection of another: same origin and
/// class, heading deflected by at most `max_t` jitter units.
pub open spec fn jitter_elem(a: Proposal, b: Proposal, max_t: int) -> bool {
    &&& a.from == b.from
    &&& a.road_type == b.road_type
    &&& exists|t: int| -max_t <= t <= max_t && a.dir == jitter_spec(b.dir, t)
}

/// A candidate list is a per-element bounded-jitter deflection of another:
/// the organic rule never changes which candidates survive, only their
/// headings.
pub open spec fn jitter_of(new: Seq<Proposal>, base: Seq<Proposal>, max_t: int) -> bool {
    &&& new.len() == base.len()
    &&& forall|i: int| 0 <= i < new.len() ==> jitter_elem(#[trigger] new[i], base[i], max_t)
}

/// The finer-class sibling of a surviving candidate: same origin, heading
/// rotated a quarter turn counterclockwise.
pub open spec fn sibling_of(p: Proposal, nt: RoadType) -> Proposal {
    Proposal { road_type: nt, from: p.from, dir: rot_ccw_spec(p.dir) }
}

/// The road a candidate becomes: from the growth point to the point its
/// displacement reaches, fuel 1 until assigned.
pub open spec fn proposal_to_road_spec(p: Proposal) -> Road {
    Road { road_type: p.road_type, from: p.from, to: point_plus(p.from, p.dir), fuel: 1 }
}

impl Proposal {
    /// Turn a candidate into a road segment.
    pub fn to_road(self) -> (r: Road)
        requires
            -MAX_DIM <= self.from.x <= 2 * MAX_DIM,
            -MAX_DIM <= self.from.y <= 2 * MAX_DIM,
            offset_within(self.dir, 2 * MAX_LEN as int),
        ensures
            r == proposal_to_road_spec(self),
            coord_ok(r.to),
    {
        let to = Point { x: self.from.x + self.dir.dx, y: self.from.y + self.dir.dy };
        Road { road_type: self.road_type, from: self.from, to, fuel: 1 }
    }
}

/// A proposed child road: anchored at the parent's tip, of the parent's
/// class or the next finer class, non-degenerate, with a representable
/// endpoint, a step whose components stay within twice the class's road
/// length, and fuel still unassigned.
pub open spec fn proposed_road_ok(r: Road, parent: Road, max_step: int) -> bool {
    &&& r.from == parent.to
    &&& (r.road_type == parent.road_type || Some(r.road_type) == next_type_spec(
        parent.road_type,
    ))
    &&& r.fuel == 1
    &&& r.from != r.to
    &&& coord_ok(r.to)
    &&& offset_within(offset_between(r.from, r.to), 2 * max_step)
}

/// `s` is the finer-class sibling road of `p`: same origin, displacement
/// rotated a quarter turn counterclockwise — and hence of the same length.
pub open spec fn sibling_road_of(s: Road, p: Road) -> bool {
    &&& s.from == p.from
    &&& offset_between(s.from, s.to) == rot_ccw_spec(offset_between(p.from, p.to))
}

/// The jitter bound a rule may apply: none for the grid rule, the class's
/// organic angle for the organic rule.
pub open spec fn eff_angle(rule: GenerationRule, cfg: GenerationConfig) -> int {
    match rule {
        GenerationRule::Grid => 0,
        GenerationRule::Organic => cfg.organic_angle as int,
    }
}

/// A primary candidate's displacement: one of the three relative headings
/// (right, straight, left) of the parent heading rescaled to the class's
/// road length, deflected by at most `max_t` jitter units.
#[verifier::opaque]
pub open spec fn candidate_dir_ok(d: Offset, parent_dir: Offset, len: int, max_t: int) -> bool {
    exists|t: int|
        #![trigger jitter_spec(rot_cw_spec(scale_spec(parent_dir, len)), t)]
        #![trigger jitter_spec(scale_spec(parent_dir, len), t)]
        #![trigger jitter_spec(rot_ccw_spec(scale_spec(parent_dir, len)), t)]
        -max_t <= t <= max_t && {
            ||| d == jitter_spec(rot_cw_spec(scale_spec(parent_dir, len)), t)
            ||| d == jitter_spec(scale_spec(parent_dir, len), t)
            ||| d == jitter_spec(rot_ccw_spec(scale_spec(parent_dir, len)), t)
        }
}

/// Everything the proposal dispatch promises of the roads it appends, as a
/// function of the parent, the class parameters, the zone and the branch
/// decision. `news` is the appended suffix, oldest first.
///
/// At most six children; every one a well-formed child of the parent; every
/// child of the parent's class carries one of the rule's three relative
/// headings, deflected by at most the rule's jitter bound; every child of a
/// different class is exactly the next finer class and the quarter-turn
/// sibling of the same-class child pushed immediately before it; a branching
/// segment with a zero branch chance appends nothing; with a zero sibling
/// chance all children keep the parent's class; and a non-branching segment
/// appends its straight continuation first, exactly as the zone's rule
/// shapes it, followed by at most one sibling.
#[verifier::opaque]
pub open spec fn proposals_ok(
    news: Seq<Road>,
    road: Road,
    cfg: GenerationConfig,
    zone_lo: int,
    zone_hi: int,
    branch: bool,
) -> bool {
    &&& news.len() <= 6
    &&& forall|i: int|
        0 <= i < news.len() ==> proposed_road_ok(#[trigger] news[i], road, cfg.road_length as int)
    &&& forall|i: int|
        0 <= i < news.len() && (#[trigger] news[i]).road_type == road.road_type
            ==> candidate_dir_ok(
            offset_between(news[i].from, news[i].to),
            offset_between(road.from, road.to),
            cfg.road_length as int,
            eff_angle(rule_for(road.to, zone_lo, zone_hi), cfg),
        )
    &&& forall|i: int|
        #![trigger news[i], news[i - 1]]
        0 <= i < news.len() && news[i].road_type != road.road_type ==> i > 0
            && news[i - 1].road_type == road.road_type && Some(news[i].road_type)
            == next_type_spec(road.road_type) && sibling_road_of(news[i], news[i - 1])
    &&& (branch && cfg.road_chance == 0 ==> news.len() == 0)
    &&& (cfg.child_chance == 0 ==> forall|i: int|
        0 <= i < news.len() ==> (#[trigger] news[i]).road_type == road.road_type)
    &&& (!branch ==> {
        let pdir = offset_between(road.from, road.to);
        let len = cfg.road_length as int;
        &&& 1 <= news.len() <= 2
        &&& news[0].road_type == road.road_type
        &&& (rule_for(road.to, zone_lo, zone_hi) == GenerationRule::Grid ==> news[0].to
            == point_plus(road.to, scale_spec(pdir, len)))
        &&& (rule_for(road.to, zone_lo, zone_hi) == GenerationRule::Organic ==> exists|t: int|
            -cfg.organic_angle <= t <= cfg.organic_angle && news[0].to == point_plus(
                road.to,
                #[trigger] jitter_spec(scale_spec(pdir, len), t),
            ))
        &&& (news.len() == 2 ==> {
            &&& Some(news[1].road_type) == next_type_spec(road.road_type)
            &&& news[1].from == road.to
            &&& offset_between(news[1].from, news[1].to) == rot_ccw_spec(
                offset_between(news[0].from, news[0].to),
            )
        })
    })
    &&& (!branch && cfg.child_chance == 0 ==> news.len() == 1)
}

/// Emit roads for a list of surviving candidates: each candidate's road,
/// followed — with probability `child_chance` and only while a finer class
/// exists — by its quarter-turn finer-class sibling.
fn emit_children(
    proposals: &Vec<Proposal>,
    road: &Road,
    config: &GenerationConfig,
    rng: &mut rand::rngs::StdRng,
    out: &mut Vec<Road>,
    Ghost(max_t): Ghost<int>,
)
    requires
        gen_config_ok(*config),
        road_within_area(*road),
        road.from != road.to,
        proposals@.len() <= 3,
        forall|i: int|
            0 <= i < proposals@.len() ==> proposal_elem_ok(
                #[trigger] proposals@[i],
                road.to,
                road.road_type,
                2 * config.road_length as int,
            ),
        forall|i: int|
            0 <= i < proposals@.len() ==> candidate_dir_ok(
                (#[trigger] proposals@[i]).dir,
                offset_between(road.from, road.to),
                config.road_length as int,
                max_t,
            ),
    ensures
        final(out)@.len() >= old(out)@.len() + proposals@.len(),
        final(out)@.len() <= old(out)@.len() + 2 * proposals@.len(),
        final(out)@.subrange(0, old(out)@.len() as int) == old(out)@,
        forall|i: int|
            old(out)@.len() <= i < final(out)@.len() ==> proposed_road_ok(
                #[trigger] final(out)@[i],
                *road,
                config.road_length as int,
            ),
        forall|i: int|
            old(out)@.len() <= i < final(out)@.len() && (#[trigger] final(out)@[i]).road_type
                == road.road_type ==> candidate_dir_ok(
                offset_between(final(out)@[i].from, final(out)@[i].to),
                offset_between(road.from, road.to),
                config.road_length as int,
                max_t,
            ),
        forall|i: int|
            #![trigger final(out)@[i], final(out)@[i - 1]]
            old(out)@.len() <= i < final(out)@.len() && final(out)@[i].road_type
                != road.road_type ==> i > old(out)@.len() && final(out)@[i - 1].road_type
                == road.road_type && Some(final(out)@[i].road_type) == next_type_spec(
                road.road_type,
            ) && sibling_road_of(final(out)@[i], final(out)@[i - 1]),
        config.child_chance == 0 ==> final(out)@.len() == old(out)@.len() + proposals@.len(),
        config.child_chance == 0 ==> forall|i: int|
            old(out)@.len() <= i < final(out)@.len() ==> (#[trigger] final(out)@[i]).road_type
                == road.road_type,
        proposals@.len() >= 1 ==> final(out)@[old(out)@.len() as int] == proposal_to_road_spec(
            proposals@[0],
        ),
        proposals@.len() == 1 && final(out)@.len() == old(out)@.len() + 2 ==> final(out)@[old(
            out,
        )@.len() as int + 1] == proposal_to_road_spec(
            sibling_of(proposals@[0], next_type_spec(road.road_type)->Some_0),
        ) && next_type_spec(road.road_type) is Some,
{
    let child_type = get_next_type(road.road_type);
    let ghost oldlen = out@.len() as int;
    let n = proposals.len();
    let mut j: usize = 0;
    while j < n
        invariant
            n == proposals@.len(),
            0 <= j <= n,
            n <= 3,
            gen_config_ok(*config),
            road_within_area(*road),
            road.from != road.to,
            child_type == next_type_spec(road.road_type),
            oldlen == old(out)@.len(),
            forall|i: int|
                0 <= i < n ==> proposal_elem_ok(
                    #[trigger] proposals@[i],
                    road.to,
                    road.road_type,
                    2 * config.road_length as int,
                ),
            forall|i: int|
                0 <= i < n ==> candidate_dir_ok(
                    (#[trigger] proposals@[i]).dir,
                    offset_between(road.from, road.to),
                    config.road_length as int,
                    max_t,
                ),
            out@.subrange(0, oldlen) == old(out)@,
            oldlen + j <= out@.len() <= oldlen + 2 * j,
            forall|i: int|
                oldlen <= i < out@.len() ==> proposed_road_ok(
                    #[trigger] out@[i],
                    *road,
                    config.road_length as int,
                ),
            forall|i: int|
                oldlen <= i < out@.len() && (#[trigger] out@[i]).road_type == road.road_type
                    ==> candidate_dir_ok(
                    offset_between(out@[i].from, out@[i].to),
                    offset_between(road.from, road.to),
                    config.road_length as int,
                    max_t,
                ),
            forall|i: int|
                #![trigger out@[i], out@[i - 1]]
                oldlen <= i < out@.len() && out@[i].road_type != road.road_type ==> i
                    > oldlen && out@[i - 1].road_type == road.road_type && Some(
                    out@[i].road_type,
                ) == next_type_spec(road.road_type) && sibling_road_of(out@[i], out@[i - 1]),
            config.child_chance == 0 ==> out@.len() == oldlen + j,
            config.child_chance == 0 ==> forall|i: int|
                oldlen <= i < out@.len() ==> (#[trigger] out@[i]).road_type == road.road_type,
            j >= 1 ==> out@[oldlen] == proposal_to_road_spec(proposals@[0]),
            n == 1 && j == 1 && out@.len() == oldlen + 2 ==> out@[oldlen + 1]
                == proposal_to_road_spec(sibling_of(proposals@[0], next_type_spec(road.road_type)->Some_0))
                && next_type_spec(road.road_type) is Some,
        decreases n - j,
    {
        let p = proposals[j];
        proof {
            assert(proposal_elem_ok(
                proposals@[j as int],
                road.to,
                road.road_type,
                2 * config.road_length as int,
            ));
            assert(candidate_dir_ok(
                proposals@[j as int].dir,
                offset_between(road.from, road.to),
                config.road_length as int,
                max_t,
            ));
        }
        let r = p.to_road();
        out.push(r);
        proof {
            assert(out@.subrange(0, oldlen) =~= old(out)@);
            assert(offset_between(r.from, r.to) == p.dir);
        }
        match child_type {
            Some(next) => {
                let draw = random_in_range(rng, 0, CHANCE_SCALE as u64);
                if (draw as u32) < config.child_chance {
                    let sib = Proposal { road_type: next, from: p.from, dir: rot_ccw(&p.dir) };
                    let sr = sib.to_road();
                    out.push(sr);
                    proof {
                        assert(out@.subrange(0, oldlen) =~= old(out)@);
                        lemma_rot_ccw_between(sr.from, p.dir, r.from, r.to);
                        assert(sr.road_type != road.road_type);
                        assert(sibling_road_of(sr, r));
                    }
                }
            },
            None => {},
        }
        j = j + 1;
    }
}

/// Run the growth point's zone rule and hand back its surviving candidates.
fn collect_candidates(
    config: &GenerationConfig,
    zone_lo: i64,
    zone_hi: i64,
    road: &Road,
    branch: bool,
    rng: &mut rand::rngs::StdRng,
) -> (p: Vec<Proposal>)
    requires
        gen_config_ok(*config),
        road_within_area(*road),
        road.from != road.to,
    ensures
        p@.len() <= 3,
        forall|i: int|
            0 <= i < p@.len() ==> proposal_elem_ok(
                #[trigger] p@[i],
                road.to,
                road.road_type,
                2 * config.road_length as int,
            ),
        forall|i: int|
            0 <= i < p@.len() ==> candidate_dir_ok(
                (#[trigger] p@[i]).dir,
                offset_between(road.from, road.to),
                config.road_length as int,
                eff_angle(rule_for(road.to, zone_lo as int, zone_hi as int), *config),
            ),
        branch && config.road_chance == 0 ==> p@.len() == 0,
        !branch ==> p@.len() == 1,
        !branch && rule_for(road.to, zone_lo as int, zone_hi as int) == GenerationRule::Grid
            ==> p@[0].dir == scale_spec(
            offset_between(road.from, road.to),
            config.road_length as int,
        ),
        !branch && rule_for(road.to, zone_lo as int, zone_hi as int) == GenerationRule::Organic
            ==> exists|t: int|
            -config.organic_angle <= t <= config.organic_angle && p@[0].dir == #[trigger] jitter_spec(
                scale_spec(offset_between(road.from, road.to), config.road_length as int),
                t,
            ),
{
    let dir = Offset { dx: road.to.x - road.from.x, dy: road.to.y - road.from.y };
    let rule = get_rule(&road.to, zone_lo, zone_hi);
    let mut proposals: Vec<Proposal> = Vec::new();
    match rule {
        GenerationRule::Grid => grid::propose(
            &road.to,
            &dir,
            road.road_type,
            branch,
            config,
            rng,
            &mut proposals,
        ),
        GenerationRule::Organic => organic::propose(
            &road.to,
            &dir,
            road.road_type,
            branch,
            config,
            rng,
            &mut proposals,
        ),
    }
    proof {
        let pdir = offset_between(road.from, road.to);
        let len = config.road_length as int;
        assert(dir == pdir);
        if rule == GenerationRule::Grid {
            // exact grid candidates are zero-jitter deflections
            reveal(candidate_dir_ok);
            let u = scale_spec(dir, len);
            crate::geometry::lemma_jitter_zero(rot_cw_spec(u));
            crate::geometry::lemma_jitter_zero(u);
            crate::geometry::lemma_jitter_zero(rot_ccw_spec(u));
            assert forall|i: int| 0 <= i < proposals@.len() implies candidate_dir_ok(
                (#[trigger] proposals@[i]).dir,
                dir,
                len,
                eff_angle(rule_for(road.to, zone_lo as int, zone_hi as int), *config),
            ) by {
                let d = proposals@[i].dir;
                if d == rot_cw_spec(u) {
                    assert(d == jitter_spec(rot_cw_spec(u), 0));
                } else if d == u {
                    assert(d == jitter_spec(u, 0));
                } else {
                    assert(d == jitter_spec(rot_ccw_spec(u), 0));
                }
            }
            if !branch {
                assert(proposals@[0] == straight_of(road.to, road.road_type, pdir, len));
            }
        } else {
            if !branch {
                let aa = config.organic_angle as int;
                let jnews = proposals@.skip(0);
                assert(jnews =~= proposals@);
                assert(jitter_elem(jnews[0], straight_of(road.to, road.road_type, pdir, len), aa));
                let t = choose|t: int|
                    -aa <= t <= aa && proposals@[0].dir == jitter_spec(
                        straight_of(road.to, road.road_type, pdir, len).dir,
                        t,
                    );
                assert(-aa <= t <= aa && proposals@[0].dir == jitter_spec(
                    scale_spec(pdir, len),
                    t,
                ));
            }
        }
    }
    proposals
}

/// Facts about the elements of an appended suffix, re-indexed from the
/// whole sequence to the suffix.
proof fn lemma_news_elems(
    out_seq: Seq<Road>,
    oldlen: int,
    road: Road,
    len: int,
    max_t: int,
    pdir: Offset,
)
    requires
        0 <= oldlen <= out_seq.len(),
        pdir == offset_between(road.from, road.to),
        forall|i: int|
            oldlen <= i < out_seq.len() ==> proposed_road_ok(#[trigger] out_seq[i], road, len),
        forall|i: int|
            oldlen <= i < out_seq.len() && (#[trigger] out_seq[i]).road_type == road.road_type
                ==> candidate_dir_ok(
                offset_between(out_seq[i].from, out_seq[i].to),
                pdir,
                len,
                max_t,
            ),
        forall|i: int|
            #![trigger out_seq[i], out_seq[i - 1]]
            oldlen <= i < out_seq.len() && out_seq[i].road_type != road.road_type
                ==> i > oldlen && out_seq[i - 1].road_type == road.road_type && Some(
                out_seq[i].road_type,
            ) == next_type_spec(road.road_type) && sibling_road_of(out_seq[i], out_seq[i - 1]),
    ensures
        forall|i: int|
            0 <= i < out_seq.skip(oldlen).len() ==> proposed_road_ok(
                #[trigger] out_seq.skip(oldlen)[i],
                road,
                len,
            ),
        forall|i: int|
            0 <= i < out_seq.skip(oldlen).len() && (#[trigger] out_seq.skip(oldlen)[i]).road_type
                == road.road_type ==> candidate_dir_ok(
                offset_between(out_seq.skip(oldlen)[i].from, out_seq.skip(oldlen)[i].to),
                pdir,
                len,
                max_t,
            ),
        forall|i: int|
            #![trigger out_seq.skip(oldlen)[i], out_seq.skip(oldlen)[i - 1]]
            0 <= i < out_seq.skip(oldlen).len() && out_seq.skip(oldlen)[i].road_type
                != road.road_type ==> i > 0 && out_seq.skip(oldlen)[i - 1].road_type
                == road.road_type && Some(out_seq.skip(oldlen)[i].road_type) == next_type_spec(
                road.road_type,
            ) && sibling_road_of(out_seq.skip(oldlen)[i], out_seq.skip(oldlen)[i - 1]),
{
    let news = out_seq.skip(oldlen);
    assert forall|i: int| 0 <= i < news.len() implies proposed_road_ok(
        #[trigger] news[i],
        road,
        len,
    ) by {
        assert(news[i] == out_seq[oldlen + i]);
    }
    assert forall|i: int|
        0 <= i < news.len() && (#[trigger] news[i]).road_type == road.road_type
        implies candidate_dir_ok(
        offset_between(news[i].from, news[i].to),
        pdir,
        len,
        max_t,
    ) by {
        assert(news[i] == out_seq[oldlen + i]);
    }
    assert forall|i: int|
        #![trigger news[i], news[i - 1]]
        0 <= i < news.len() && news[i].road_type != road.road_type implies i > 0
        && news[i - 1].road_type == road.road_type && Some(news[i].road_type) == next_type_spec(
        road.road_type,
    ) && sibling_road_of(news[i], news[i - 1]) by {
        assert(news[i] == out_seq[oldlen + i]);
        assert(out_seq[oldlen + i].road_type != road.road_type);
        assert(news[i - 1] == out_seq[oldlen + i - 1]);
    }
}

/// Propose the children of an accepted segment: select the rule by the
/// growth point's zone, collect its surviving candidates, and for each
/// surviving candidate emit its road plus, with probability `child_chance`
/// and only while a finer class exists, a quarter-turn finer-class sibling.
///
/// Every appended road is a well-formed child of `road`; a spawned child of
/// a different class is exactly the next finer class; with a zero branch
/// chance a branching segment appends nothing; with a zero sibling chance
/// all children keep the parent's class; a non-branching segment always
/// appends its straight continuation first, exactly as the zone's rule
/// shapes it.
pub fn propose_roads(
    config: &GenerationConfig,
    zone_lo: i64,
    zone_hi: i64,
    road: &Road,
    branch: bool,
    rng: &mut rand::rngs::StdRng,
    out: &mut Vec<Road>,
)
    requires
        gen_config_ok(*config),
        road_within_area(*road),
        road.from != road.to,
    ensures
        final(out)@.len() >= old(out)@.len(),
        final(out)@.len() <= old(out)@.len() + 6,
        final(out)@.subrange(0, old(out)@.len() as int) == old(out)@,
        proposals_ok(
            final(out)@.skip(old(out)@.len() as int),
            *road,
            *config,
            zone_lo as int,
            zone_hi as int,
            branch,
        ),
{
    let proposals = collect_candidates(config, zone_lo, zone_hi, road, branch, rng);
    let ghost oldlen = out@.len() as int;
    emit_children(
        &proposals,
        road,
        config,
        rng,
        out,
        Ghost(eff_angle(rule_for(road.to, zone_lo as int, zone_hi as int), *config)),
    );
    proof {
        let news = out@.skip(oldlen);
        let pdir = offset_between(road.from, road.to);
        let len = config.road_length as int;
        lemma_news_elems(
            out@,
            oldlen,
            *road,
            len,
            eff_angle(rule_for(road.to, zone_lo as int, zone_hi as int), *config),
            pdir,
        );
        if !branch {
            assert(proposals@.len() == 1);
            let p0 = proposals@[0];
            assert(proposal_elem_ok(p0, road.to, road.road_type, 2 * config.road_length as int));
            assert(news[0] == out@[oldlen]);
            assert(out@[oldlen] == proposal_to_road_spec(p0));
            if rule_for(road.to, zone_lo as int, zone_hi as int) == GenerationRule::Grid {
                assert(news[0].to == point_plus(road.to, scale_spec(pdir, len)));
            } else {
                let aa = config.organic_angle as int;
                let t = choose|t: int|
                    -aa <= t <= aa && p0.dir == jitter_spec(scale_spec(pdir, len), t);
                assert(-aa <= t <= aa && news[0].to == point_plus(
                    road.to,
                    jitter_spec(scale_spec(pdir, len), t),
                ));
            }
            if out@.len() == oldlen + 2 {
                let second = out@[oldlen + 1];
                let nt = next_type_spec(road.road_type)->Some_0;
                assert(news[1] == second);
                assert(second == proposal_to_road_spec(sibling_of(p0, nt)));
                assert(second.from == p0.from);
                assert(second.to == point_plus(p0.from, rot_ccw_spec(p0.dir)));
                assert(offset_between(second.from, second.to) == rot_ccw_spec(p0.dir));
                assert(offset_between(news[0].from, news[0].to) == p0.dir);
            }
        }
        assert(proposals_ok(news, *road, *config, zone_lo as int, zone_hi as int, branch)) by {
            reveal(proposals_ok);
        }
    }
}

/// Both endpoints of an in-area road have coordinates within the dimension
/// limit; what the growth loop guarantees before proposing children.
pub open spec fn road_within_area(r: Road) -> bool {
    &&& 0 <= r.from.x <= MAX_DIM && 0 <= r.from.y <= MAX_DIM
    &&& 0 <= r.to.x <= MAX_DIM && 0 <= r.to.y <= MAX_DIM
}

/// Rotating a candidate's displacement rotates the displacement between the
/// endpoints of the road it becomes.
proof fn lemma_rot_ccw_between(origin: Point, d: Offset, f: Point, t: Point)
    requires
        offset_within(d, 2 * MAX_LEN as int),
        -MAX_DIM <= origin.x <= 2 * MAX_DIM,
        -MAX_DIM <= origin.y <= 2 * MAX_DIM,
        f == origin,
        t == point_plus(origin, d),
    ensures
        offset_between(origin, point_plus(origin, rot_ccw_spec(d))) == rot_ccw_spec(
            offset_between(f, t),
        ),
{
}

} // verus!
