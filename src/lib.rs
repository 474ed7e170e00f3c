//! A fixed population of 2-D particles on a bounded square, moved by a
//! bounded random walk and checked for pairwise proximity, with the work of
//! each cycle split into disjoint contiguous slices for a pool of workers.
//!
//! Positions are fixed-point: one unit of length is `UNITS_PER_LENGTH`
//! integer steps, so the square `[0, 10]` is `[0, DOMAIN_SIZE]`.
mod collide;
mod engine;
mod particle;
mod partition;
mod random;
mod system;

pub use particle::{
    clamp_coord, colliding, in_domain, lemma_collision_symmetric, lemma_self_collision, sq,
    Particle, COLLISION_THRESHOLD, DOMAIN_SIZE, UNITS_PER_LENGTH,
};
pub use collide::{
    accumulate, all_wf, check_collisions, distinct_hits, distinct_pairs, hits, isolated,
    lemma_isolated_slice_no_collisions, lemma_isolated_store_no_collisions,
    lemma_pair_hits_split, lemma_slice_count_is_distinct_pairs, pair_hits, slice_collisions,
};
pub use partition::{lemma_partition_covers, slice_end, slice_start, split_ranges};
pub use random::{random_below, random_coord, random_delta, HALF_STEP, STEP_SPAN};
pub use system::{
    all_below_edge, all_moved_one_step, move_slice, move_slice_by, moved_by, moved_one_step,
    reached_in_steps, stepped, ParticleSystem, NUM_OF_CYCLES, NUM_OF_PARTICLES,
    NUM_OF_THREADS,
};
pub use engine::{Engine, Phase};
