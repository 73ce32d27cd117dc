//! N-body simulation: bodies, state, generators and force evaluators.
mod accel;
mod barnes_hut;
mod bodies;
mod direct;
mod driver;
mod generators;
mod simulation;

pub use accel::{accel_term, accel_term_x, accel_term_y};
pub use direct::{compute_direct_accels, direct_accels_set, direct_ax, direct_ay, direct_sum_x, direct_sum_y, nbody_direct};
pub use barnes_hut::{bh_accels_set, lemma_bh_zero_accels_are_direct, bh_sum_x, bh_sum_y, built_tree, domain_bb, lemma_theta_zero_is_direct, nbody_barnes_hut};
pub use driver::{gen_blackhole, init_simulation, reseed_from_entropy, run_timestep, run_timestep_barnes_hut, step, BLACKHOLE_MASS};
pub use bodies::{Body, MovingBody, MovingBody3D};
pub use generators::{generate_blackhole, generate_galaxy, generate_satellite, is_satellite_of, sat_from_draws, satellite_from_draws};
pub use simulation::{absorbed, lemma_integrate_rest_fixed, escaped, in_box, integrate_post, integrated_r, integrated_v, next_sat, pos_comp_after, rng_after3, slot_done, slot_integrated, slot_recycled, sq_dist3, vel_comp_after, ConfigError, NBodyConfig, NBodyConfig3D, NBodySimulation, NBodySimulation3D};
