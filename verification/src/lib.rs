//! Procedural growth of a 2-D road network inside a bounded rectangular area.
//!
//! Starting from a seed segment, the engine repeatedly pops a candidate road
//! from a frontier queue, checks it against local constraints (bounds, merging
//! onto nearby existing endpoints), proposes child candidates through a
//! pluggable rule (grid-aligned or organically jittered), and commits the
//! accepted segment to the output list and the spatial index.
//!
//! All geometry is exact integer arithmetic: coordinates are fixed-point
//! values, distances are compared by their squares, and headings are carried
//! as displacement vectors, so every acceptance and merge decision is fully
//! deterministic given the drawn random values.

use vstd::prelude::*;

pub mod config;
pub mod generator;
pub mod geometry;
pub mod index;
pub mod rng;
pub mod rules;

pub use config::Config;
pub use generator::{Road, RoadMap};
pub use geometry::Point;

verus! {

/// Errors reported while setting up a generation run. The growth loop itself
/// never fails: malformed candidates are silently dropped by the constraint
/// checks, not surfaced as errors.
#[derive(Debug)]
pub enum RoadError {
    /// A command-line argument could not be understood (used by callers).
    Args(String),
    /// The configuration or the bounds are unusable.
    Settings(&'static str),
    /// An internal limit was hit.
    Unknown(&'static str),
}

/// Road classes, ordered from coarse to fine: Large, Medium, Small.
#[derive(Debug, Copy, Clone, PartialEq, Eq, Structural)]
pub enum RoadType {
    Small,
    Medium,
    Large,
}

/// How coarse a road class is: Small is 0, Medium 1, Large 2.
pub open spec fn class_rank(t: RoadType) -> nat {
    match t {
        RoadType::Small => 0,
        RoadType::Medium => 1,
        RoadType::Large => 2,
    }
}

/// The next finer class: Large -> Medium, Medium -> Small, Small -> none.
pub open spec fn next_type_spec(t: RoadType) -> Option<RoadType> {
    match t {
        RoadType::Large => Some(RoadType::Medium),
        RoadType::Medium => Some(RoadType::Small),
        RoadType::Small => None,
    }
}

/// The next finer road class, if any.
pub fn get_next_type(road_type: RoadType) -> (r: Option<RoadType>)
    ensures
        r == next_type_spec(road_type),
{
    match road_type {
        RoadType::Large => Some(RoadType::Medium),
        RoadType::Medium => Some(RoadType::Small),
        RoadType::Small => None,
    }
}

/// Refining a class always goes strictly finer: whenever a class has a next
/// finer class, that class has strictly smaller rank, and the finest class
/// has no finer class at all.
pub proof fn lemma_class_refinement_strict(t: RoadType)
    ensures
        next_type_spec(t) is Some ==> class_rank(next_type_spec(t)->Some_0) < class_rank(t),
        t == RoadType::Small ==> next_type_spec(t) is None,
{
}

/// The overall bounds handed to the builder, and how many frontier items one
/// call to `advance` may process (`None` runs to exhaustion).
#[derive(Debug, Copy, Clone)]
pub struct RoadmapSettings {
    pub width: i32,
    pub height: i32,
    pub increment: Option<i32>,
}

/// A small builder over the settings; `create` runs a whole generation.
pub struct RoadmapBuilder {
    pub settings: RoadmapSettings,
}

impl RoadmapBuilder {
    /// A builder with a 256 by 256 area and no growth increment.
    pub fn new() -> (r: RoadmapBuilder)
        ensures
            r.settings.width == 256,
            r.settings.height == 256,
            r.settings.increment is None,
    {
        RoadmapBuilder { settings: RoadmapSettings { width: 256, height: 256, increment: None } }
    }

    /// Set the area bounds.
    pub fn size(&mut self, w: i32, h: i32)
        ensures
            final(self).settings.width == w,
            final(self).settings.height == h,
            final(self).settings.increment == old(self).settings.increment,
    {
        self.settings.width = w;
        self.settings.height = h;
    }

    /// Set the per-call growth increment.
    pub fn increment(&mut self, increment: Option<i32>)
        ensures
            final(self).settings.increment == increment,
            final(self).settings.width == old(self).settings.width,
            final(self).settings.height == old(self).settings.height,
    {
        self.settings.increment = increment;
    }

    /// Run a whole generation over the current settings, seeding the random
    /// generator with `seed`. Fails with a settings error exactly when the
    /// bounds are unusable; fails otherwise only when the run's safety
    /// budget of steps is exhausted.
    pub fn create(&self, seed: u64) -> (r: Result<generator::RoadMap, RoadError>)
        ensures
            (r is Err && r->Err_0 is Settings) <==> (self.settings.width < 50
                || self.settings.height < 50 || self.settings.width > geometry::MAX_DIM
                || self.settings.height > geometry::MAX_DIM),
            r is Err ==> (r->Err_0 is Settings || r->Err_0 is Unknown),
            r is Ok ==> r->Ok_0.wf() && (r->Ok_0).frontier_view().len() == 0
                && (r->Ok_0).config_view().window.width == self.settings.width as u32
                && (r->Ok_0).config_view().window.height == self.settings.height as u32,
    {
        generator::RoadMap::generate(self.settings, seed)
    }
}

} // verus!
