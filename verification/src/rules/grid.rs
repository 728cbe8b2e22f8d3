//! The grid rule: from a growth point and a heading, a non-branching
//! segment continues straight ahead at the class's road length; a branching
//! segment draws once per relative heading (right, straight, left) and
//! keeps each candidate exactly when its draw falls below the branch
//! chance.

use vstd::prelude::*;
use crate::config::{gen_config_ok, GenerationConfig, CHANCE_SCALE};
use crate::geometry::{
    offset_within, rot_ccw, rot_ccw_spec, rot_cw, rot_cw_spec, scale_spec, scale_to_length,
    Offset, Point, MAX_DIM,
};
use crate::rng::random_in_range;
use crate::rules::{grid_picks, proposal_elem_ok, straight_of, Proposal};
use crate::RoadType;

verus! {

/// Append the grid rule's candidates for one segment. Non-branching: exactly
/// the straight continuation. Branching: the right, straight and left
/// candidates, each kept exactly when an independent uniform draw falls
/// below the branch chance, so a zero chance keeps none and a full chance
/// keeps all three.
pub fn propose(
    point: &Point,
    dir: &Offset,
    road_type: RoadType,
    branch: bool,
    config: &GenerationConfig,
    rng: &mut rand::rngs::StdRng,
    out: &mut Vec<Proposal>,
)
    requires
        gen_config_ok(*config),
        offset_within(*dir, MAX_DIM as int),
        !(dir.dx == 0 && dir.dy == 0),
    ensures
        final(out)@.len() >= old(out)@.len(),
        final(out)@.len() <= old(out)@.len() + 3,
        final(out)@.subrange(0, old(out)@.len() as int) == old(out)@,
        forall|i: int|
            old(out)@.len() <= i < final(out)@.len() ==> proposal_elem_ok(
                #[trigger] final(out)@[i],
                *point,
                road_type,
                config.road_length as int,
            ),
        !branch ==> final(out)@ == old(out)@.push(
            straight_of(*point, road_type, *dir, config.road_length as int),
        ),
        branch ==> exists|d0: u32, d1: u32, d2: u32|
            final(out)@ == old(out)@ + grid_picks(
                *point,
                road_type,
                scale_spec(*dir, config.road_length as int),
                config.road_chance,
                d0,
                d1,
                d2,
            ),
        branch && config.road_chance == 0 ==> final(out)@.len() == old(out)@.len(),
        branch && config.road_chance == CHANCE_SCALE ==> final(out)@.len() == old(out)@.len()
            + 3,
        forall|i: int|
            old(out)@.len() <= i < final(out)@.len() ==> {
                let u = scale_spec(*dir, config.road_length as int);
                let d = (#[trigger] final(out)@[i]).dir;
                d == rot_cw_spec(u) || d == u || d == rot_ccw_spec(u)
            },
{
    let u = scale_to_length(dir, config.road_length);
    if !branch {
        out.push(Proposal { road_type, from: *point, dir: u });
        proof {
            assert(out@ =~= old(out)@.push(
                straight_of(*point, road_type, *dir, config.road_length as int),
            ));
            assert(out@.subrange(0, old(out)@.len() as int) =~= old(out)@);
        }
    } else {
        let d0 = random_in_range(rng, 0, CHANCE_SCALE as u64) as u32;
        if d0 < config.road_chance {
            out.push(Proposal { road_type, from: *point, dir: rot_cw(&u) });
        }
        let d1 = random_in_range(rng, 0, CHANCE_SCALE as u64) as u32;
        if d1 < config.road_chance {
            out.push(Proposal { road_type, from: *point, dir: u });
        }
        let d2 = random_in_range(rng, 0, CHANCE_SCALE as u64) as u32;
        if d2 < config.road_chance {
            out.push(Proposal { road_type, from: *point, dir: rot_ccw(&u) });
        }
        proof {
            assert(out@ =~= old(out)@ + grid_picks(
                *point,
                road_type,
                scale_spec(*dir, config.road_length as int),
                config.road_chance,
                d0,
                d1,
                d2,
            ));
            assert(out@.subrange(0, old(out)@.len() as int) =~= old(out)@);
        }
    }
}

} // verus!
