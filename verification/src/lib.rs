//! Gravitational N-body simulation with a Barnes-Hut quadtree.
//!
//! The simulation works on fixed-point integers in milli-units (the value
//! 1000 stands for one domain unit), so every computation is exact integer
//! arithmetic and the stated contracts pin down each result exactly.
//!
//! The core is the mass-aggregating quadtree ([`MassQuadtree`]): every node
//! carries the exact mass total and mass-weighted coordinate sums of its
//! subtree, the Barnes-Hut traversal ([`MassQuadtreeIterator`]) yields the
//! admissible cut for a query point, and two interchangeable force
//! evaluators ([`nbody_direct`] and [`nbody_barnes_hut`]) feed the
//! semi-implicit Euler integrator with its black-hole absorption and
//! out-of-domain recycling ([`NBodySimulation`]).
use vstd::prelude::*;

mod math;
mod msum;
mod nbody;
mod quadtree;
mod vector;

pub use math::{
    clamp_i64, isqrt_u128, sm_step, COORD_LIMIT, DIST_LIMIT, DT_LIMIT, MASS_LIMIT, MASS_SUM_CAP,
    N_LIMIT, SCALE, THETA_LIMIT, VEL_LIMIT,
};
pub use nbody::{
    absorbed, accel_term, escaped, integrate_post, integrated_r, integrated_v,
    lemma_bh_zero_accels_are_direct, lemma_integrate_rest_fixed, slot_done, slot_integrated,
    slot_recycled, bh_accels_set, bh_sum_x, bh_sum_y, built_tree, compute_direct_accels,
    direct_accels_set, gen_blackhole, generate_blackhole, generate_galaxy, generate_satellite,
    init_simulation, is_satellite_of, lemma_theta_zero_is_direct, nbody_barnes_hut, nbody_direct,
    reseed_from_entropy, run_timestep, run_timestep_barnes_hut, satellite_from_draws, step, Body,
    ConfigError, MovingBody, MovingBody3D, NBodyConfig, NBodyConfig3D, NBodySimulation,
    NBodySimulation3D, BLACKHOLE_MASS,
};
pub use quadtree::{lemma_build_order_independent, lemma_mass_conservation, lemma_theta_zero_exact, Agg, BoundingBox2D, MassQuadtree, MassQuadtreeIterator, EPSILON};
pub use vector::Vector3D;

verus! {

} // verus!
