//! Top-level entry points for an external driver: build a galaxy, advance
//! one time step with either force evaluator, and inject a black hole.
use vstd::prelude::*;

use crate::math::{COORD_LIMIT, DT_LIMIT, MASS_LIMIT, THETA_LIMIT};
use crate::nbody::barnes_hut::{bh_accels_set, built_tree, nbody_barnes_hut};
use crate::nbody::bodies::MovingBody;
use crate::nbody::direct::{direct_accels_set, nbody_direct};
use crate::nbody::generators::{generate_blackhole, generate_galaxy, is_satellite_of};
use crate::nbody::simulation::{integrate_post, ConfigError, NBodyConfig, NBodySimulation};
use crate::quadtree::tree::MassQuadtree;
use crate::vector::Vector3D;

verus! {

/// Mass given to a black hole injected at a click, in milli-units.
pub const BLACKHOLE_MASS: i64 = 5_000_000_000;

/// Relies on `rand::random`: draws a value from the thread-local
/// generator, seeded by the operating system.  Nothing can be promised of
/// the drawn value.
pub assume_specification<T>[ rand::random::<T> ]() -> (r: T)
    where
        rand::distributions::Standard: rand::distributions::Distribution<T>,
;

/// Initializes a fresh simulation: one central massive body at `center`
/// and `n - 1` generated satellites orbiting it, over the domain
/// `[min_r, max_r]` with the given softening distance and random seed.
pub fn init_simulation(
    n: usize,
    center: &MovingBody,
    min_dist: i64,
    min_r: Vector3D,
    max_r: Vector3D,
    seed: u64,
) -> (res: Result<NBodySimulation, ConfigError>)
    requires
        center.valid(),
    ensures
        match res {
            Result::Ok(s) => {
                &&& s.wf()
                &&& s.n == n
                &&& s.config.num_blackholes == 1
                &&& s.config.min_dist == min_dist
                &&& s.config.min_r == min_r
                &&& s.config.max_r == max_r
                &&& s.body_at(0) == *center
                &&& forall|i: int|
                    1 <= i < s.n ==> is_satellite_of(#[trigger] s.body_at(i), *center)
            },
            Result::Err(_) => !NBodyConfig::acceptable(min_dist, min_r, max_r) || !(1 <= n
                <= crate::math::N_LIMIT),
        },
{
    let config = match NBodyConfig::new(min_dist, min_r, max_r) {
        Ok(c) => c,
        Err(e) => {
            return Err(e);
        },
    };
    let mut sim = match NBodySimulation::empty(n, config) {
        Ok(s) => s,
        Err(e) => {
            return Err(e);
        },
    };
    sim.set_seed(seed);
    generate_galaxy(&mut sim, center);
    Ok(sim)
}

/// Reseeds the simulation's pseudo-random stream from the operating
/// system's entropy; everything else is untouched.
pub fn reseed_from_entropy(sim: &mut NBodySimulation)
    ensures
        final(sim).n == old(sim).n,
        final(sim).m@ == old(sim).m@,
        final(sim).r@ == old(sim).r@,
        final(sim).v@ == old(sim).v@,
        final(sim).a@ == old(sim).a@,
        final(sim).config == old(sim).config,
{
    let seed: u64 = rand::random::<u64>();
    sim.rng = seed;
}

/// Runs a timestep of the simulation with the direct (all-pairs)
/// evaluator.
pub fn run_timestep(sim: &mut NBodySimulation, dt: i64)
    requires
        old(sim).wf(),
        0 <= dt <= DT_LIMIT,
    ensures
        exists|mid: NBodySimulation|
            #[trigger] direct_accels_set(*old(sim), mid) && integrate_post(
                mid,
                *final(sim),
                dt as int,
            ),
{
    nbody_direct(sim, dt);
}

/// Runs a timestep of the simulation with the Barnes-Hut evaluator.
pub fn run_timestep_barnes_hut(sim: &mut NBodySimulation, dt: i64, theta: i64)
    requires
        old(sim).wf(),
        0 <= dt <= DT_LIMIT,
        0 <= theta <= THETA_LIMIT,
    ensures
        exists|t: MassQuadtree, mid: NBodySimulation|
            #[trigger] built_tree(*old(sim), t) && #[trigger] bh_accels_set(
                *old(sim),
                t,
                theta as int,
                mid,
            ) && integrate_post(mid, *final(sim), dt as int),
{
    nbody_barnes_hut(sim, dt, theta);
}

/// Advances the simulation by one time tick: `theta == 0` selects the
/// direct algorithm, any other accuracy the Barnes-Hut algorithm.
pub fn step(sim: &mut NBodySimulation, dt: i64, theta: i64)
    requires
        old(sim).wf(),
        0 <= dt <= DT_LIMIT,
        0 <= theta <= THETA_LIMIT,
    ensures
        theta == 0 ==> exists|mid: NBodySimulation|
            #[trigger] direct_accels_set(*old(sim), mid) && integrate_post(
                mid,
                *final(sim),
                dt as int,
            ),
        theta != 0 ==> exists|t: MassQuadtree, mid: NBodySimulation|
            #[trigger] built_tree(*old(sim), t) && #[trigger] bh_accels_set(
                *old(sim),
                t,
                theta as int,
                mid,
            ) && integrate_post(mid, *final(sim), dt as int),
{
    if theta == 0 {
        nbody_direct(sim, dt);
    } else {
        nbody_barnes_hut(sim, dt, theta);
    }
}

/// Creates a black hole of the standard injected mass at the given
/// position in world space.
pub fn gen_blackhole(sim: &mut NBodySimulation, x: i64, y: i64)
    requires
        old(sim).wf(),
        old(sim).config.num_blackholes < old(sim).n,
        -COORD_LIMIT <= x <= COORD_LIMIT,
        -COORD_LIMIT <= y <= COORD_LIMIT,
    ensures
        final(sim).wf(),
        final(sim).n == old(sim).n,
        final(sim).rng == old(sim).rng,
        final(sim).config.num_blackholes == old(sim).config.num_blackholes + 1,
        final(sim).m@ == old(sim).m@.update(
            old(sim).config.num_blackholes as int,
            BLACKHOLE_MASS,
        ),
        final(sim).r@ == old(sim).r@.update(
            old(sim).config.num_blackholes as int,
            Vector3D { x, y, z: 0 },
        ),
        final(sim).v@ == old(sim).v@.update(
            old(sim).config.num_blackholes as int,
            Vector3D { x: 0, y: 0, z: 0 },
        ),
        final(sim).body_at(old(sim).config.num_blackholes as int) == (MovingBody {
            m: BLACKHOLE_MASS,
            r: Vector3D { x, y, z: 0 },
            v: Vector3D { x: 0, y: 0, z: 0 },
        }),
{
    let c = MovingBody { m: BLACKHOLE_MASS, r: Vector3D::from_xy(x, y), v: Vector3D::zero() };
    generate_blackhole(sim, &c);
}

} // verus!
