//! Per-road-class generation parameters and the overall window bounds. The
//! core only reads a fully-resolved configuration; loading and defaulting
//! from files belong to the caller. Validation happens once, before any
//! growth begins: inside the growth loop there are no error conditions.

use vstd::prelude::*;
use crate::geometry::{COORD_LIMIT, JITTER_SCALE, MAX_DIM, MAX_LEN};
use crate::{RoadError, RoadType};

verus! {

/// Probabilities are integers out of this scale: 0 means never,
/// `CHANCE_SCALE` means always.
pub const CHANCE_SCALE: u32 = 1_000_000;

/// Overall bounds of the growth area, and how many frontier items one call
/// to `advance` may process (`None` runs to exhaustion).
#[derive(Debug, Copy, Clone)]
pub struct WindowConfig {
    pub width: u32,
    pub height: u32,
    pub growth_increment: Option<u32>,
}

/// Parameters of one road class.
#[derive(Debug, Copy, Clone)]
pub struct GenerationConfig {
    /// Step size of one growth segment.
    pub road_length: i64,
    /// Chance (out of `CHANCE_SCALE`) that each branching candidate survives.
    pub road_chance: u32,
    /// Snap radius for merging a new endpoint onto existing geometry.
    pub merge_range: i64,
    /// Freshly-branched fuel is drawn uniformly from `fuel_lo..fuel_hi`.
    pub fuel_lo: u32,
    pub fuel_hi: u32,
    /// Chance (out of `CHANCE_SCALE`) of also spawning a finer-class sibling.
    pub child_chance: u32,
    /// Maximum heading jitter of the organic rule, in jitter units: a value
    /// of `t` deflects the heading by roughly `atan(t / JITTER_SCALE)`.
    pub organic_angle: i64,
}

/// The per-class parameter table; classes without an entry fall back to the
/// Large entry.
#[derive(Debug, Copy, Clone)]
pub struct GenerationConfigs {
    pub large: GenerationConfig,
    pub medium: Option<GenerationConfig>,
    pub small: Option<GenerationConfig>,
}

/// A fully-resolved configuration.
#[derive(Debug, Copy, Clone)]
pub struct Config {
    pub window: WindowConfig,
    pub generation: GenerationConfigs,
    /// Growth points with `organic_zone_lo <= x <= organic_zone_hi` use the
    /// organic proposal rule; all others use the grid rule.
    pub organic_zone_lo: i64,
    pub organic_zone_hi: i64,
}

/// A usable per-class parameter set: lengths and radii within the global
/// limits, probabilities within scale, a non-empty fuel range, and a jitter
/// bound below the jitter scale.
pub open spec fn gen_config_ok(g: GenerationConfig) -> bool {
    &&& 2 <= g.road_length <= MAX_LEN
    &&& g.road_chance <= CHANCE_SCALE
    &&& g.child_chance <= CHANCE_SCALE
    &&& 0 <= g.merge_range <= MAX_DIM
    &&& g.fuel_lo < g.fuel_hi
    &&& 0 <= g.organic_angle < JITTER_SCALE
}

/// A per-class entry that is either absent or usable.
pub open spec fn opt_gen_ok(o: Option<GenerationConfig>) -> bool {
    match o {
        Some(g) => gen_config_ok(g),
        None => true,
    }
}

/// A usable configuration: bounds of at least 50 by 50 and within the
/// global dimension limit, every present class entry usable, and a zone
/// boundary within representable coordinates.
pub open spec fn config_ok(c: Config) -> bool {
    &&& 50 <= c.window.width <= MAX_DIM
    &&& 50 <= c.window.height <= MAX_DIM
    &&& gen_config_ok(c.generation.large)
    &&& opt_gen_ok(c.generation.medium)
    &&& opt_gen_ok(c.generation.small)
    &&& -COORD_LIMIT <= c.organic_zone_lo <= COORD_LIMIT
    &&& -COORD_LIMIT <= c.organic_zone_hi <= COORD_LIMIT
}

/// The parameters governing a road class: its own entry where present,
/// the Large entry otherwise.
pub open spec fn generation_spec(c: Config, t: RoadType) -> GenerationConfig {
    match t {
        RoadType::Large => c.generation.large,
        RoadType::Medium => match c.generation.medium {
            Some(g) => g,
            None => c.generation.large,
        },
        RoadType::Small => match c.generation.small {
            Some(g) => g,
            None => c.generation.large,
        },
    }
}

/// Whether one per-class entry is usable.
fn check_gen(g: &GenerationConfig) -> (r: bool)
    ensures
        r == gen_config_ok(*g),
{
    2 <= g.road_length && g.road_length <= MAX_LEN && g.road_chance <= CHANCE_SCALE
        && g.child_chance <= CHANCE_SCALE && 0 <= g.merge_range && g.merge_range <= MAX_DIM
        && g.fuel_lo < g.fuel_hi && 0 <= g.organic_angle && g.organic_angle < JITTER_SCALE
}

impl Config {
    /// The parameters of `road_type`, falling back to the Large entry for a
    /// class without its own entry.
    pub fn generation(&self, road_type: &RoadType) -> (r: GenerationConfig)
        ensures
            r == generation_spec(*self, *road_type),
    {
        match road_type {
            RoadType::Large => self.generation.large,
            RoadType::Medium => match self.generation.medium {
                Some(g) => g,
                None => self.generation.large,
            },
            RoadType::Small => match self.generation.small {
                Some(g) => g,
                None => self.generation.large,
            },
        }
    }

    /// Check the whole configuration before growth starts. Returns an error
    /// exactly when some bound, probability, fuel range or jitter bound is
    /// unusable; an empty fuel range (`fuel_lo >= fuel_hi`) is rejected here.
    pub fn validate(&self) -> (r: Result<(), RoadError>)
        ensures
            r is Ok <==> config_ok(*self),
            r is Err ==> r->Err_0 is Settings,
    {
        if self.window.width < 50 || self.window.width > MAX_DIM as u32 {
            return Err(RoadError::Settings("width must be between 50 and the dimension limit"));
        }
        if self.window.height < 50 || self.window.height > MAX_DIM as u32 {
            return Err(RoadError::Settings("height must be between 50 and the dimension limit"));
        }
        if !check_gen(&self.generation.large) {
            return Err(RoadError::Settings("large road class parameters are unusable"));
        }
        match &self.generation.medium {
            Some(g) => {
                if !check_gen(g) {
                    return Err(RoadError::Settings("medium road class parameters are unusable"));
                }
            },
            None => {},
        }
        match &self.generation.small {
            Some(g) => {
                if !check_gen(g) {
                    return Err(RoadError::Settings("small road class parameters are unusable"));
                }
            },
            None => {},
        }
        if self.organic_zone_lo < -COORD_LIMIT || self.organic_zone_lo > COORD_LIMIT
            || self.organic_zone_hi < -COORD_LIMIT || self.organic_zone_hi > COORD_LIMIT {
            return Err(RoadError::Settings("organic zone boundary is out of range"));
        }
        Ok(())
    }

    /// The built-in generation profile over a given window: steps of length
    /// 20, an 80% branch survival chance, a merge radius of 18, fuel drawn
    /// from 1..4, a 10% finer-class sibling chance, and the organic rule
    /// everywhere with a jitter of roughly 30 degrees. The jitter keeps
    /// candidates from retracing existing geometry exactly, so near misses
    /// merge and the growth saturates the area instead of cycling.
    pub fn with_window(width: u32, height: u32, growth_increment: Option<u32>) -> (c: Config)
        ensures
            c.window.width == width,
            c.window.height == height,
            c.window.growth_increment == growth_increment,
            50 <= width <= MAX_DIM && 50 <= height <= MAX_DIM ==> config_ok(c),
            c.generation.large.road_length == 20,
            c.generation.large.road_chance == 800_000,
            c.generation.large.merge_range == 18,
            c.generation.large.fuel_lo == 1,
            c.generation.large.fuel_hi == 4,
            c.generation.large.child_chance == 100_000,
            c.generation.large.organic_angle == 577,
            c.generation.medium is None,
            c.generation.small is None,
            c.organic_zone_lo == -COORD_LIMIT,
            c.organic_zone_hi == COORD_LIMIT,
    {
        Config {
            window: WindowConfig { width, height, growth_increment },
            generation: GenerationConfigs {
                large: GenerationConfig {
                    road_length: 20,
                    road_chance: 800_000,
                    merge_range: 18,
                    fuel_lo: 1,
                    fuel_hi: 4,
                    child_chance: 100_000,
                    organic_angle: 577,
                },
                medium: None,
                small: None,
            },
            organic_zone_lo: -COORD_LIMIT,
            organic_zone_hi: COORD_LIMIT,
        }
    }
}

/// A valid configuration hands every road class usable parameters,
/// whether the class has its own entry or falls back to the Large entry.
pub proof fn lemma_generation_ok(c: Config, t: RoadType)
    requires
        config_ok(c),
    ensures
        gen_config_ok(generation_spec(c, t)),
{
}

} // verus!
