use rusty_roads::config::{
    Config, GenerationConfig, GenerationConfigs, WindowConfig, CHANCE_SCALE,
};
use rusty_roads::generator::{Road, RoadMap};
use rusty_roads::geometry::Point;
use rusty_roads::{get_next_type, RoadError, RoadType, RoadmapBuilder};

fn gen_config(road_chance: u32, child_chance: u32, merge_range: i64, organic_angle: i64) -> GenerationConfig {
    GenerationConfig {
        road_length: 20,
        road_chance,
        merge_range,
        fuel_lo: 1,
        fuel_hi: 4,
        child_chance,
        organic_angle,
    }
}

fn config(width: u32, height: u32, large: GenerationConfig) -> Config {
    Config {
        window: WindowConfig { width, height, growth_increment: None },
        generation: GenerationConfigs { large, medium: None, small: None },
        organic_zone_lo: 400,
        organic_zone_hi: 600,
    }
}

#[test]
fn take_fuel_decrements_and_reports_exhaustion() {
    let mut r = Road::new_with_points(RoadType::Large, Point::new(0, 0), Point::new(10, 0));
    r.set_fuel(3);
    assert!(!r.take_fuel());
    assert_eq!(r.fuel(), 2);
    assert!(!r.take_fuel());
    assert!(r.take_fuel());
    assert_eq!(r.fuel(), 0);
}

#[test]
fn take_fuel_at_zero_stays_at_zero() {
    let mut r = Road::new_with_points(RoadType::Small, Point::new(0, 0), Point::new(10, 0));
    r.set_fuel(0);
    assert!(r.take_fuel());
    assert_eq!(r.fuel(), 0);
    assert!(r.take_fuel());
    assert_eq!(r.fuel(), 0);
}

#[test]
fn class_refinement_is_strictly_finer() {
    assert!(matches!(get_next_type(RoadType::Large), Some(RoadType::Medium)));
    assert!(matches!(get_next_type(RoadType::Medium), Some(RoadType::Small)));
    assert!(matches!(get_next_type(RoadType::Small), None));
}

#[test]
fn scenario_a_straight_chain_to_the_edge() {
    // width 960, height 600, a seed fully inside bounds, zero branch
    // probability, zero sibling chance, zero jitter: the run produces one
    // straight chain that stops at the boundary.
    let cfg = config(960, 600, gen_config(0, 0, 5, 0));
    let mut seed = Road::new_with_points(RoadType::Large, Point::new(100, 100), Point::new(120, 100));
    seed.set_fuel(100);
    let mut map = RoadMap::with_frontier(cfg, vec![seed], 7).unwrap();
    map.advance().unwrap();
    let roads = map.roads();
    assert_eq!(roads.len(), 43);
    assert_eq!(roads[0].from(), Point::new(100, 100));
    for k in 0..roads.len() {
        let r = &roads[k];
        assert!(matches!(r.road_type(), RoadType::Large));
        assert_eq!(r.from(), Point::new(100 + 20 * k as i64, 100));
        assert_eq!(r.to(), Point::new(120 + 20 * k as i64, 100));
        if k + 1 < roads.len() {
            assert_eq!(roads[k + 1].from(), r.to());
        }
    }
    assert_eq!(roads[roads.len() - 1].to(), Point::new(960, 100));
    assert_eq!(map.frontier_len(), 0);
}

#[test]
fn scenario_a_bounds_invariant_holds() {
    let cfg = config(960, 600, gen_config(0, 0, 5, 0));
    let mut seed = Road::new_with_points(RoadType::Large, Point::new(100, 100), Point::new(120, 100));
    seed.set_fuel(100);
    let mut map = RoadMap::with_frontier(cfg, vec![seed], 7).unwrap();
    map.advance().unwrap();
    for r in map.roads() {
        for p in [r.from(), r.to()] {
            assert!(0 <= p.x && p.x <= 960);
            assert!(0 <= p.y && p.y <= 600);
        }
    }
}

fn run_scenario_b(tail_from: Point, tail_to: Point) -> RoadMap {
    // seed A -> B commits A and B; the tail segment's tip lands within the
    // merge radius of B and must snap onto it, producing no children.
    let cfg = config(960, 600, gen_config(0, 0, 18, 0));
    let a = Point::new(100, 100);
    let b = Point::new(120, 100);
    let seed = Road::new_with_points(RoadType::Large, a, b);
    let tail = Road::new_with_points(RoadType::Large, tail_from, tail_to);
    let mut map = RoadMap::with_frontier(cfg, vec![seed, tail], 11).unwrap();
    map.advance().unwrap();
    map
}

#[test]
fn scenario_b_candidates_merge_onto_existing_point() {
    let b = Point::new(120, 100);
    let first = run_scenario_b(Point::new(200, 200), Point::new(117, 103));
    assert_eq!(first.roads().len(), 2);
    assert_eq!(first.roads()[1].from(), Point::new(200, 200));
    assert_eq!(first.roads()[1].to(), b);
    // a merged segment proposes no children: the frontier emptied right away
    assert_eq!(first.frontier_len(), 0);

    let second = run_scenario_b(Point::new(300, 300), Point::new(123, 98));
    assert_eq!(second.roads().len(), 2);
    assert_eq!(second.roads()[1].to(), b);
    assert_eq!(second.frontier_len(), 0);
}

#[test]
fn scenario_b_merge_decision_is_deterministic() {
    let map = run_scenario_b(Point::new(200, 200), Point::new(117, 103));
    let candidate = Road::new_with_points(RoadType::Large, Point::new(150, 150), Point::new(118, 97));
    let first = map.accept_local_constraints(candidate);
    let second = map.accept_local_constraints(candidate);
    assert_eq!(first, second);
    let (accepted, merged, adjusted) = first;
    assert!(accepted);
    assert!(merged);
    assert_eq!(adjusted.to(), Point::new(120, 100));
    assert_eq!(adjusted.from(), Point::new(150, 150));
}

#[test]
fn scenario_c_empty_fuel_range_is_rejected() {
    let mut bad = gen_config(0, 0, 18, 0);
    bad.fuel_lo = 1;
    bad.fuel_hi = 1;
    let cfg = config(960, 600, bad);
    assert!(matches!(cfg.validate(), Err(RoadError::Settings(_))));
    assert!(matches!(RoadMap::new(cfg, 3), Err(RoadError::Settings(_))));
    let seed = Road::new_with_points(RoadType::Large, Point::new(100, 100), Point::new(120, 100));
    assert!(matches!(RoadMap::with_frontier(cfg, vec![seed], 3), Err(RoadError::Settings(_))));
}

#[test]
fn config_validation_rejects_each_unusable_field() {
    let good = config(960, 600, gen_config(0, 0, 18, 0));
    assert!(good.validate().is_ok());

    let mut c = good;
    c.window.width = 10;
    assert!(matches!(c.validate(), Err(RoadError::Settings(_))));

    c = good;
    c.window.height = 49;
    assert!(matches!(c.validate(), Err(RoadError::Settings(_))));

    c = good;
    c.generation.large.road_length = 1;
    assert!(matches!(c.validate(), Err(RoadError::Settings(_))));

    c = good;
    c.generation.large.road_chance = CHANCE_SCALE + 1;
    assert!(matches!(c.validate(), Err(RoadError::Settings(_))));

    c = good;
    c.generation.large.merge_range = -1;
    assert!(matches!(c.validate(), Err(RoadError::Settings(_))));

    c = good;
    c.generation.large.organic_angle = 1000;
    assert!(matches!(c.validate(), Err(RoadError::Settings(_))));

    c = good;
    c.generation.medium = Some(gen_config(2_000_000, 0, 18, 0));
    assert!(matches!(c.validate(), Err(RoadError::Settings(_))));
}

#[test]
fn self_merge_target_is_not_valid() {
    // the seed's tip is the only unindexed endpoint; with a huge merge
    // radius its nearest indexed point is its own origin, which must not be
    // treated as a merge target: the segment is accepted unchanged.
    let cfg = config(960, 600, gen_config(0, 0, 300, 0));
    let a = Point::new(100, 100);
    let b = Point::new(120, 100);
    let seed = Road::new_with_points(RoadType::Large, a, b);
    let mut map = RoadMap::with_frontier(cfg, vec![seed], 5).unwrap();
    map.advance().unwrap();
    assert_eq!(map.roads().len(), 1);
    assert_eq!(map.roads()[0].to(), b);
}

#[test]
fn duplicate_merge_target_is_not_valid() {
    // the tail's tip coincides with an indexed point: its nearest indexed
    // point is itself, which must not be treated as a merge target.
    let cfg = config(960, 600, gen_config(0, 0, 300, 0));
    let a = Point::new(100, 100);
    let b = Point::new(120, 100);
    let seed = Road::new_with_points(RoadType::Large, a, b);
    let tail = Road::new_with_points(RoadType::Large, Point::new(500, 500), b);
    let mut map = RoadMap::with_frontier(cfg, vec![seed, tail], 5).unwrap();
    map.advance().unwrap();
    assert_eq!(map.roads().len(), 2);
    assert_eq!(map.roads()[1].to(), b);
}

#[test]
fn finer_class_children_appear_with_full_sibling_chance() {
    // always spawn the finer sibling; zero branch chance keeps the run small.
    let cfg = config(960, 600, gen_config(0, CHANCE_SCALE, 5, 0));
    let mut seed = Road::new_with_points(RoadType::Large, Point::new(100, 100), Point::new(120, 100));
    seed.set_fuel(4);
    let mut map = RoadMap::with_frontier(cfg, vec![seed], 13).unwrap();
    map.advance().unwrap();
    let mut large = 0;
    let mut medium = 0;
    let mut small = 0;
    for r in map.roads() {
        match r.road_type() {
            RoadType::Large => large += 1,
            RoadType::Medium => medium += 1,
            RoadType::Small => small += 1,
        }
    }
    assert!(large > 0);
    assert!(medium > 0);
    assert!(small > 0);
}

/// A full random profile: organic jitter everywhere, bounded to 3000 steps
/// per advance so the test stays total whatever the draws do.
fn random_profile(width: u32, height: u32) -> Config {
    let mut cfg = config(width, height, gen_config(800_000, 100_000, 18, 577));
    cfg.organic_zone_lo = -1_000_000_000;
    cfg.organic_zone_hi = 1_000_000_000;
    cfg.window.growth_increment = Some(3000);
    cfg
}

#[test]
fn same_seed_reproduces_the_same_network() {
    let cfg = random_profile(300, 300);
    let mut first = RoadMap::new(cfg, 42).unwrap();
    first.advance().unwrap();
    let mut second = RoadMap::new(cfg, 42).unwrap();
    second.advance().unwrap();
    assert_eq!(first.roads(), second.roads());
    assert_eq!(first.frontier_len(), second.frontier_len());
}

#[test]
fn generated_roads_stay_in_bounds() {
    let mut map = RoadMap::new(random_profile(300, 300), 99).unwrap();
    map.advance().unwrap();
    assert!(map.roads().len() > 0);
    for r in map.roads() {
        for p in [r.from(), r.to()] {
            assert!(0 <= p.x && p.x <= 300);
            assert!(0 <= p.y && p.y <= 300);
        }
    }
}

#[test]
fn growth_increment_limits_each_advance() {
    let mut cfg = config(960, 600, gen_config(0, 0, 5, 0));
    cfg.window.growth_increment = Some(1);
    let mut seed = Road::new_with_points(RoadType::Large, Point::new(100, 100), Point::new(120, 100));
    seed.set_fuel(100);
    let mut map = RoadMap::with_frontier(cfg, vec![seed], 7).unwrap();
    map.advance().unwrap();
    assert_eq!(map.roads().len(), 1);
    assert_eq!(map.frontier_len(), 1);
    for _ in 0..100 {
        map.advance().unwrap();
    }
    assert_eq!(map.roads().len(), 43);
    assert_eq!(map.frontier_len(), 0);
}

#[test]
fn organic_with_zero_jitter_matches_grid() {
    // the organic rule is the grid rule plus jitter: with a zero jitter
    // bound the two rules keep the same candidates at the same headings,
    // so runs differing only in the zone produce the same network.
    let mut organic_everywhere = config(960, 600, gen_config(0, 0, 5, 0));
    organic_everywhere.organic_zone_lo = -1_000_000_000;
    organic_everywhere.organic_zone_hi = 1_000_000_000;
    let mut grid_everywhere = config(960, 600, gen_config(0, 0, 5, 0));
    grid_everywhere.organic_zone_lo = 1;
    grid_everywhere.organic_zone_hi = 0;

    let mut seed = Road::new_with_points(RoadType::Large, Point::new(100, 100), Point::new(120, 100));
    seed.set_fuel(100);
    let mut first = RoadMap::with_frontier(organic_everywhere, vec![seed], 3).unwrap();
    first.advance().unwrap();
    let mut second = RoadMap::with_frontier(grid_everywhere, vec![seed], 3).unwrap();
    second.advance().unwrap();
    assert_eq!(first.roads(), second.roads());
    assert_eq!(first.roads().len(), 43);
}

#[test]
fn empty_frontier_is_a_valid_start() {
    let cfg = config(960, 600, gen_config(0, 0, 5, 0));
    let mut map = RoadMap::with_frontier(cfg, Vec::new(), 1).unwrap();
    map.advance().unwrap();
    assert_eq!(map.roads().len(), 0);
    assert_eq!(map.frontier_len(), 0);
}

#[test]
fn degenerate_frontier_segment_is_rejected() {
    let cfg = config(960, 600, gen_config(0, 0, 5, 0));
    let p = Point::new(100, 100);
    let seed = Road::new_with_points(RoadType::Large, p, p);
    assert!(matches!(
        RoadMap::with_frontier(cfg, vec![seed], 1),
        Err(RoadError::Settings(_))
    ));
}

#[test]
fn builder_defaults_and_validation() {
    let mut b = RoadmapBuilder::new();
    assert_eq!(b.settings.width, 256);
    assert_eq!(b.settings.height, 256);
    assert!(b.settings.increment.is_none());
    b.size(10, 300);
    assert!(matches!(b.create(1), Err(RoadError::Settings(_))));
    b.size(300, 10);
    assert!(matches!(b.create(1), Err(RoadError::Settings(_))));
    // dimensions above the integer model's cap are settings errors too
    b.size(200_000_000, 300);
    assert!(matches!(b.create(1), Err(RoadError::Settings(_))));
    b.size(200, 200);
    b.increment(Some(5));
    let map = b.create(21).unwrap();
    assert!(map.roads().len() > 0);
    for r in map.roads() {
        for p in [r.from(), r.to()] {
            assert!(0 <= p.x && p.x <= 200);
            assert!(0 <= p.y && p.y <= 200);
        }
    }
}
