//! The organic rule: delegate entirely to the grid rule to obtain the same
//! independently-filtered candidate set, then deflect every surviving
//! candidate's heading by an independent uniform jitter bounded by the
//! class's organic angle. The composition never changes which candidates
//! survive, only their headings.

use vstd::prelude::*;
use crate::config::{gen_config_ok, GenerationConfig};
use crate::geometry::{jitter, jitter_spec, offset_within, scale_spec, Offset, Point, MAX_DIM};
use crate::rng::random_in_range;
use crate::rules::{
    candidate_dir_ok, grid, grid_picks, jitter_elem, jitter_of, proposal_elem_ok, straight_of,
    Proposal,
};
use crate::geometry::{rot_ccw_spec, rot_cw_spec};
use crate::RoadType;

verus! {

/// Append the organic rule's candidates for one segment: the grid rule's
/// candidates, each with its heading deflected by an independent jitter of
/// at most the class's organic angle in either direction.
pub fn propose(
    point: &Point,
    dir: &Offset,
    road_type: RoadType,
    branch: bool,
    config: &GenerationConfig,
    rng: &mut rand::rngs::StdRng,
    out: &mut Vec<Proposal>,
)
    requires
        gen_config_ok(*config),
        offset_within(*dir, MAX_DIM as int),
        !(dir.dx == 0 && dir.dy == 0),
    ensures
        final(out)@.len() >= old(out)@.len(),
        final(out)@.len() <= old(out)@.len() + 3,
        final(out)@.subrange(0, old(out)@.len() as int) == old(out)@,
        forall|i: int|
            old(out)@.len() <= i < final(out)@.len() ==> proposal_elem_ok(
                #[trigger] final(out)@[i],
                *point,
                road_type,
                2 * config.road_length as int,
            ),
        !branch ==> final(out)@.len() == old(out)@.len() + 1 && jitter_of(
            final(out)@.skip(old(out)@.len() as int),
            seq![straight_of(*point, road_type, *dir, config.road_length as int)],
            config.organic_angle as int,
        ),
        branch ==> exists|d0: u32, d1: u32, d2: u32|
            jitter_of(
                final(out)@.skip(old(out)@.len() as int),
                grid_picks(
                    *point,
                    road_type,
                    scale_spec(*dir, config.road_length as int),
                    config.road_chance,
                    d0,
                    d1,
                    d2,
                ),
                config.organic_angle as int,
            ),
        branch && config.road_chance == 0 ==> final(out)@.len() == old(out)@.len(),
        forall|i: int|
            old(out)@.len() <= i < final(out)@.len() ==> candidate_dir_ok(
                (#[trigger] final(out)@[i]).dir,
                *dir,
                config.road_length as int,
                config.organic_angle as int,
            ),
{
    let start = out.len();
    grid::propose(point, dir, road_type, branch, config, rng, out);
    let ghost base = out@;
    let n = out.len();
    let mut k: usize = start;
    while k < n
        invariant
            gen_config_ok(*config),
            start <= k <= n,
            n == out@.len(),
            n == base.len(),
            start as int == old(out)@.len(),
            base.subrange(0, start as int) == old(out)@,
            forall|i: int| 0 <= i < start ==> out@[i] == base[i],
            forall|i: int|
                start <= i < n ==> proposal_elem_ok(
                    #[trigger] base[i],
                    *point,
                    road_type,
                    config.road_length as int,
                ),
            forall|i: int|
                start <= i < k ==> jitter_elem(
                    #[trigger] out@[i],
                    base[i],
                    config.organic_angle as int,
                ),
            forall|i: int|
                start <= i < k ==> proposal_elem_ok(
                    #[trigger] out@[i],
                    *point,
                    road_type,
                    2 * config.road_length as int,
                ),
            forall|i: int|
                start <= i < n ==> {
                    let u = scale_spec(*dir, config.road_length as int);
                    let d = (#[trigger] base[i]).dir;
                    d == rot_cw_spec(u) || d == u || d == rot_ccw_spec(u)
                },
            forall|i: int|
                start <= i < k ==> candidate_dir_ok(
                    (#[trigger] out@[i]).dir,
                    *dir,
                    config.road_length as int,
                    config.organic_angle as int,
                ),
            forall|i: int| k <= i < n ==> out@[i] == base[i],
        decreases n - k,
    {
        let p = out[k];
        proof {
            assert(out@[k as int] == base[k as int]);
            assert(proposal_elem_ok(base[k as int], *point, road_type, config.road_length as int));
        }
        let span: u64 = (2 * config.organic_angle + 1) as u64;
        let draw = random_in_range(rng, 0, span);
        let t: i64 = (draw as i64) - config.organic_angle;
        let nd = jitter(&p.dir, t);
        out.set(k, Proposal { road_type: p.road_type, from: p.from, dir: nd });
        proof {
            assert(jitter_elem(out@[k as int], base[k as int], config.organic_angle as int));
            reveal(candidate_dir_ok);
            let u = scale_spec(*dir, config.road_length as int);
            let bd = base[k as int].dir;
            if bd == rot_cw_spec(u) {
                assert(out@[k as int].dir == jitter_spec(rot_cw_spec(u), t as int));
            } else if bd == u {
                assert(out@[k as int].dir == jitter_spec(u, t as int));
            } else {
                assert(out@[k as int].dir == jitter_spec(rot_ccw_spec(u), t as int));
            }
            assert(candidate_dir_ok(
                out@[k as int].dir,
                *dir,
                config.road_length as int,
                config.organic_angle as int,
            ));
        }
        k = k + 1;
    }
    proof {
        assert(out@.subrange(0, start as int) =~= base.subrange(0, start as int));
        let news = out@.skip(start as int);
        let bases = base.skip(start as int);
        assert forall|i: int| 0 <= i < news.len() implies jitter_elem(
            #[trigger] news[i],
            bases[i],
            config.organic_angle as int,
        ) by {
            assert(news[i] == out@[start + i]);
            assert(bases[i] == base[start + i]);
        }
        assert(jitter_of(news, bases, config.organic_angle as int));
        if !branch {
            assert(bases =~= seq![
                straight_of(*point, road_type, *dir, config.road_length as int),
            ]);
        } else {
            let (d0, d1, d2) = choose|d0: u32, d1: u32, d2: u32|
                base == old(out)@ + grid_picks(
                    *point,
                    road_type,
                    scale_spec(*dir, config.road_length as int),
                    config.road_chance,
                    d0,
                    d1,
                    d2,
                );
            assert(bases =~= grid_picks(
                *point,
                road_type,
                scale_spec(*dir, config.road_length as int),
                config.road_chance,
                d0,
                d1,
                d2,
            ));
        }
    }
}

} // verus!
