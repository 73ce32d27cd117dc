//! The long-lived simulation aggregate: parallel body arrays plus domain
//! configuration, with in-place recycling of absorbed and escaped bodies.
use vstd::prelude::*;

use crate::math::{clamp_i64, clamp_spec, sm_out, sm_state, sm_step, tdiv, tdiv_i128, COORD_LIMIT, DIST_LIMIT, DT_LIMIT, MASS_LIMIT, N_LIMIT, VEL_LIMIT};
use crate::nbody::bodies::{Body, MovingBody};
use crate::nbody::generators::generate_satellite;
use crate::vector::Vector3D;

verus! {

/// Why a simulation or its configuration was refused at construction.
#[derive(Clone, Copy, Debug, PartialEq, Eq, Structural)]
pub enum ConfigError {
    /// The softening distance is not positive, or beyond the largest
    /// representable one.
    BadSoftening,
    /// The domain box has no area, is inverted, lies outside the
    /// nonnegative coordinate range, or its third components are not zero.
    BadBounds,
    /// The body count is zero or beyond the largest supported one.
    BadBodyCount,
}

/// Configuration of a simulation.
#[derive(Clone, Copy, Debug, PartialEq, Eq, Structural)]
pub struct NBodyConfig {
    /// Softening distance (milli-units): bodies closer than this to a
    /// black hole are absorbed, and force contributions from closer
    /// sources are discarded.
    pub min_dist: i64,
    /// The square of `min_dist`, cached.
    pub min_dist_sqrd: i64,
    /// Lower corner of the domain.
    pub min_r: Vector3D,
    /// Upper corner of the domain.
    pub max_r: Vector3D,
    /// Indices below this count are black holes: permanently tracked
    /// absorbers, never respawned for leaving the domain.
    pub num_blackholes: usize,
}

/// The concrete plane simulation names its configuration in 3D form too.
pub type NBodyConfig3D = NBodyConfig;

impl NBodyConfig {
    /// A usable configuration: positive softening with its square cached,
    /// and a proper domain box in the nonnegative coordinate quarter with
    /// zero third components.
    pub open spec fn wf(self) -> bool {
        &&& 0 < self.min_dist <= DIST_LIMIT
        &&& self.min_dist_sqrd == self.min_dist * self.min_dist
        &&& 0 <= self.min_r.x < self.max_r.x <= COORD_LIMIT
        &&& 0 <= self.min_r.y < self.max_r.y <= COORD_LIMIT
        &&& self.min_r.z == 0
        &&& self.max_r.z == 0
    }

    /// The inputs that `new` accepts.
    pub open spec fn acceptable(min_dist: i64, min_r: Vector3D, max_r: Vector3D) -> bool {
        &&& 0 < min_dist <= DIST_LIMIT
        &&& 0 <= min_r.x < max_r.x <= COORD_LIMIT
        &&& 0 <= min_r.y < max_r.y <= COORD_LIMIT
        &&& min_r.z == 0
        &&& max_r.z == 0
    }

    /// Builds a configuration with no black holes yet, rejecting a
    /// non-positive (or too large) softening distance and a degenerate
    /// domain box.
    pub fn new(min_dist: i64, min_r: Vector3D, max_r: Vector3D) -> (r: Result<Self, ConfigError>)
        ensures
            match r {
                Result::Ok(c) => {
                    &&& Self::acceptable(min_dist, min_r, max_r)
                    &&& c.wf()
                    &&& c.min_dist == min_dist
                    &&& c.min_r == min_r
                    &&& c.max_r == max_r
                    &&& c.num_blackholes == 0
                },
                Result::Err(e) => {
                    &&& !Self::acceptable(min_dist, min_r, max_r)
                    &&& (e == ConfigError::BadSoftening <==> !(0 < min_dist <= DIST_LIMIT))
                    &&& (e == ConfigError::BadBounds <==> (0 < min_dist <= DIST_LIMIT))
                },
            },
    {
        if !(min_dist > 0 && min_dist <= DIST_LIMIT) {
            return Err(ConfigError::BadSoftening);
        }
        if !(min_r.x >= 0 && min_r.x < max_r.x && max_r.x <= COORD_LIMIT && min_r.y >= 0
            && min_r.y < max_r.y && max_r.y <= COORD_LIMIT && min_r.z == 0 && max_r.z == 0) {
            return Err(ConfigError::BadBounds);
        }
        proof {
            assert(0 < min_dist * min_dist <= DIST_LIMIT * DIST_LIMIT) by (nonlinear_arith)
                requires
                    0 < min_dist <= DIST_LIMIT,
            ;
        }
        Ok(
            Self {
                min_dist,
                min_dist_sqrd: min_dist * min_dist,
                min_r,
                max_r,
                num_blackholes: 0,
            },
        )
    }
}

/// The simulation state: parallel arrays of mass, position, velocity and
/// acceleration, indexed by body slot, plus the domain configuration and
/// the seed of the deterministic pseudo-random stream used for recycling.
pub struct NBodySimulation {
    /// Number of body slots; fixed for the simulation's lifetime.
    pub n: usize,
    /// Mass of each body (milli-units; 0 is the "no body" sentinel).
    pub m: Vec<i64>,
    /// Position of each body.
    pub r: Vec<Vector3D>,
    /// Velocity of each body.
    pub v: Vec<Vector3D>,
    /// Acceleration of each body, as the force evaluators left it.
    pub a: Vec<Vector3D>,
    /// Domain configuration.
    pub config: NBodyConfig,
    /// Seed of the pseudo-random stream; advancing it is the only
    /// stochastic effect, so a simulation is a function of its seed.
    pub rng: u64,
}

/// The concrete plane simulation names its state in 3D form too.
pub type NBodySimulation3D = NBodySimulation;

impl NBodySimulation {
    /// The slot `i` holds values inside the representable ranges.
    pub open spec fn body_ok(self, i: int) -> bool {
        &&& 0 <= self.m[i] <= MASS_LIMIT
        &&& -COORD_LIMIT <= self.r[i].x <= COORD_LIMIT
        &&& -COORD_LIMIT <= self.r[i].y <= COORD_LIMIT
        &&& -COORD_LIMIT <= self.r[i].z <= COORD_LIMIT
        &&& -VEL_LIMIT <= self.v[i].x <= VEL_LIMIT
        &&& -VEL_LIMIT <= self.v[i].y <= VEL_LIMIT
        &&& -VEL_LIMIT <= self.v[i].z <= VEL_LIMIT
    }

    /// Well-formedness of the whole simulation: arrays of equal length
    /// `n`, a usable configuration, no more black holes than bodies, and
    /// every slot inside the representable ranges.
    pub open spec fn wf(self) -> bool {
        &&& self.m.len() == self.n
        &&& self.r.len() == self.n
        &&& self.v.len() == self.n
        &&& self.a.len() == self.n
        &&& 1 <= self.n <= N_LIMIT
        &&& self.config.wf()
        &&& self.config.num_blackholes <= self.n
        &&& forall|i: int| 0 <= i < self.n ==> self.body_ok(i)
    }

    /// The slot `i` as a body value.
    pub open spec fn body_at(self, i: int) -> MovingBody {
        MovingBody { m: self.m[i], r: self.r[i], v: self.v[i] }
    }

    /// Constructs an `NBodySimulation` with `n` zeroed bodies, rejecting a
    /// zero (or too large) body count.  The pseudo-random stream starts at
    /// seed 0; see [`Self::set_seed`].
    pub fn empty(n: usize, config: NBodyConfig) -> (r: Result<Self, ConfigError>)
        requires
            config.wf(),
            config.num_blackholes == 0,
        ensures
            match r {
                Result::Ok(s) => {
                    &&& 1 <= n <= N_LIMIT
                    &&& s.wf()
                    &&& s.n == n
                    &&& s.config == config
                    &&& s.rng == 0
                    &&& forall|i: int|
                        0 <= i < n ==> s.m[i] == 0 && s.r[i] == (Vector3D { x: 0, y: 0, z: 0 })
                            && s.v[i] == (Vector3D { x: 0, y: 0, z: 0 }) && s.a[i] == (Vector3D {
                            x: 0,
                            y: 0,
                            z: 0,
                        })
                },
                Result::Err(e) => {
                    &&& !(1 <= n <= N_LIMIT)
                    &&& e == ConfigError::BadBodyCount
                },
            },
    {
        if n == 0 || n > N_LIMIT {
            return Err(ConfigError::BadBodyCount);
        }
        let mut m: Vec<i64> = Vec::new();
        let mut r: Vec<Vector3D> = Vec::new();
        let mut v: Vec<Vector3D> = Vec::new();
        let mut a: Vec<Vector3D> = Vec::new();
        let mut i: usize = 0;
        while i < n
            invariant
                i <= n,
                m.len() == i && r.len() == i && v.len() == i && a.len() == i,
                forall|j: int|
                    0 <= j < i ==> m[j] == 0 && r[j] == (Vector3D { x: 0, y: 0, z: 0 }) && v[j]
                        == (Vector3D { x: 0, y: 0, z: 0 }) && a[j] == (Vector3D {
                        x: 0,
                        y: 0,
                        z: 0,
                    }),
            decreases n - i,
        {
            m.push(0);
            r.push(Vector3D::zero());
            v.push(Vector3D::zero());
            a.push(Vector3D::zero());
            i = i + 1;
        }
        Ok(Self { n, m, r, v, a, config, rng: 0 })
    }

    /// Reseeds the pseudo-random stream, making the simulation's
    /// stochastic choices reproducible from the given seed.
    pub fn set_seed(&mut self, seed: u64)
        ensures
            *final(self) == (NBodySimulation { rng: seed, ..*old(self) }),
    {
        self.rng = seed;
    }

    /// Sets a body in the simulation: the slot takes the body's mass,
    /// position and velocity, and its acceleration is zeroed.
    pub fn set(&mut self, i: usize, body: &MovingBody)
        requires
            old(self).wf(),
            i < old(self).n,
            body.valid(),
        ensures
            final(self).wf(),
            final(self).n == old(self).n,
            final(self).config == old(self).config,
            final(self).rng == old(self).rng,
            final(self).m@ == old(self).m@.update(i as int, body.m),
            final(self).r@ == old(self).r@.update(i as int, body.r),
            final(self).v@ == old(self).v@.update(i as int, body.v),
            final(self).a@ == old(self).a@.update(i as int, Vector3D { x: 0, y: 0, z: 0 }),
    {
        self.m.set(i, body.m);
        self.r.set(i, body.r);
        self.v.set(i, body.v);
        self.a.set(i, Vector3D::zero());
        proof {
            assert forall|j: int| 0 <= j < self.n implies self.body_ok(j) by {
                if j != i {
                    assert(old(self).body_ok(j));
                }
            }
        }
    }

    /// Gets a body from the simulation.
    pub fn get(&self, i: usize) -> (b: MovingBody)
        requires
            self.wf(),
            i < self.n,
        ensures
            b == self.body_at(i as int),
            b.valid(),
    {
        proof {
            assert(self.body_ok(i as int));
        }
        MovingBody { m: self.m[i], r: self.r[i], v: self.v[i] }
    }

    /// A read-only copy of every (mass, position) pair, for rendering and
    /// export collaborators; no internal references escape.
    pub fn snapshot(&self) -> (out: Vec<Body>)
        requires
            self.wf(),
        ensures
            out.len() == self.n,
            forall|i: int|
                0 <= i < self.n ==> out[i] == (Body { m: self.m[i], r: self.r[i] }),
    {
        let mut out: Vec<Body> = Vec::new();
        let mut i: usize = 0;
        while i < self.n
            invariant
                self.wf(),
                i <= self.n,
                out.len() == i,
                forall|j: int|
                    0 <= j < i ==> out[j] == (Body { m: self.m[j], r: self.r[j] }),
            decreases self.n - i,
        {
            out.push(Body { m: self.m[i], r: self.r[i] });
            i = i + 1;
        }
        out
    }
}

/// The pseudo-random stream's state after the three draws one satellite
/// takes.
pub open spec fn rng_after3(s: u64) -> u64 {
    sm_state(sm_state(sm_state(s)))
}

/// The satellite that the next three draws of `s`'s stream generate
/// around the body in slot `ci`.
pub open spec fn next_sat(s: NBodySimulation, ci: int) -> MovingBody {
    crate::nbody::generators::sat_from_draws(
        s.body_at(ci),
        sm_out(s.rng),
        sm_out(sm_state(s.rng)),
        sm_out(sm_state(sm_state(s.rng))),
    )
}

/// One velocity component after a semi-implicit Euler step: the
/// acceleration times the time step (rescaled from milli-units, rounded
/// toward zero) is added and the result clamped into the velocity range.
pub open spec fn vel_comp_after(v: int, a: int, dt: int) -> int {
    clamp_spec(-VEL_LIMIT as int, VEL_LIMIT as int, v + tdiv(a * dt, 1000))
}

/// One position component after the step: the updated velocity times the
/// time step is added and the result clamped into the coordinate range.
pub open spec fn pos_comp_after(r: int, v1: int, dt: int) -> int {
    clamp_spec(-COORD_LIMIT as int, COORD_LIMIT as int, r + tdiv(v1 * dt, 1000))
}

/// The velocity of slot `i` after the step.
pub open spec fn integrated_v(s: NBodySimulation, dt: int, i: int) -> Vector3D {
    Vector3D {
        x: vel_comp_after(s.v[i].x as int, s.a[i].x as int, dt) as i64,
        y: vel_comp_after(s.v[i].y as int, s.a[i].y as int, dt) as i64,
        z: vel_comp_after(s.v[i].z as int, s.a[i].z as int, dt) as i64,
    }
}

/// The position of slot `i` after the step.
pub open spec fn integrated_r(s: NBodySimulation, dt: int, i: int) -> Vector3D {
    Vector3D {
        x: pos_comp_after(s.r[i].x as int, integrated_v(s, dt, i).x as int, dt) as i64,
        y: pos_comp_after(s.r[i].y as int, integrated_v(s, dt, i).y as int, dt) as i64,
        z: pos_comp_after(s.r[i].z as int, integrated_v(s, dt, i).z as int, dt) as i64,
    }
}

/// Squared Euclidean distance of two positions.
pub open spec fn sq_dist3(a: Vector3D, b: Vector3D) -> int {
    (a.x - b.x) * (a.x - b.x) + (a.y - b.y) * (a.y - b.y) + (a.z - b.z) * (a.z - b.z)
}

/// The position lies in the closed box `[lo, hi]`, componentwise.
pub open spec fn in_box(p: Vector3D, lo: Vector3D, hi: Vector3D) -> bool {
    &&& lo.x <= p.x <= hi.x
    &&& lo.y <= p.y <= hi.y
    &&& lo.z <= p.z <= hi.z
}

/// After the step, body `i` sits closer than the softening distance to
/// some black hole and is considered absorbed.
pub open spec fn absorbed(s: NBodySimulation, dt: int, i: int) -> bool {
    exists|ci: int|
        0 <= ci < s.config.num_blackholes && sq_dist3(
            integrated_r(s, dt, i),
            integrated_r(s, dt, ci),
        ) < s.config.min_dist_sqrd
}

/// After the step, body `i` has left the domain box.
pub open spec fn escaped(s: NBodySimulation, dt: int, i: int) -> bool {
    !in_box(integrated_r(s, dt, i), s.config.min_r, s.config.max_r)
}

/// Slot `i` of `post` holds exactly the integrated values of slot `i` of
/// `pre`, with mass and acceleration untouched.
pub open spec fn slot_integrated(pre: NBodySimulation, post: NBodySimulation, dt: int, i: int) -> bool {
    &&& post.m[i] == pre.m[i]
    &&& post.v[i] == integrated_v(pre, dt, i)
    &&& post.r[i] == integrated_r(pre, dt, i)
    &&& post.a[i] == pre.a[i]
}

/// Slot `i` of `post` holds a freshly generated satellite orbiting one of
/// the (integrated) black holes, with its acceleration zeroed.
pub open spec fn slot_recycled(pre: NBodySimulation, post: NBodySimulation, dt: int, i: int) -> bool {
    exists|ci: int|
        0 <= ci < pre.config.num_blackholes && crate::nbody::generators::is_satellite_of(
            post.body_at(i),
            MovingBody { m: pre.m[ci], r: integrated_r(pre, dt, ci), v: integrated_v(pre, dt, ci) },
        ) && post.a[i] == (Vector3D { x: 0, y: 0, z: 0 })
}

/// One velocity component update.
fn vel1(v: i64, a: i64, dt: i64) -> (r: i64)
    requires
        -VEL_LIMIT <= v <= VEL_LIMIT,
        0 <= dt <= DT_LIMIT,
    ensures
        r == vel_comp_after(v as int, a as int, dt as int),
        -VEL_LIMIT <= r <= VEL_LIMIT,
{
    proof {
        assert(-0x8000_0000_0000_0000_0010_0000 <= (a as i128) * (dt as i128)
            <= 0x8000_0000_0000_0000_0010_0000) by (nonlinear_arith)
            requires
                i64::MIN <= a <= i64::MAX,
                0 <= dt <= DT_LIMIT,
        ;
    }
    let t: i128 = (a as i128) * (dt as i128);
    let vd: i128 = tdiv_i128(t, 1000);
    proof {
        if t >= 0 {
            vstd::arithmetic::div_mod::lemma_div_nonincreasing(t as int, 1000);
            vstd::arithmetic::div_mod::lemma_div_pos_is_pos(t as int, 1000);
            assert(0 <= vd <= t);
        } else {
            vstd::arithmetic::div_mod::lemma_div_nonincreasing(-t as int, 1000);
            vstd::arithmetic::div_mod::lemma_div_pos_is_pos(-t as int, 1000);
            assert(t <= vd <= 0);
        }
    }
    clamp_i64(-VEL_LIMIT, VEL_LIMIT, (v as i128) + vd)
}

/// One position component update.
fn pos1(p: i64, v1: i64, dt: i64) -> (r: i64)
    requires
        -COORD_LIMIT <= p <= COORD_LIMIT,
        -VEL_LIMIT <= v1 <= VEL_LIMIT,
        0 <= dt <= DT_LIMIT,
    ensures
        r == pos_comp_after(p as int, v1 as int, dt as int),
        -COORD_LIMIT <= r <= COORD_LIMIT,
{
    proof {
        assert(-0x1_0000_0000_0000_0000 <= (v1 as i128) * (dt as i128) <= 0x1_0000_0000_0000_0000)
            by (nonlinear_arith)
            requires
                -VEL_LIMIT <= v1 <= VEL_LIMIT,
                0 <= dt <= DT_LIMIT,
                VEL_LIMIT == 0x100_0000_0000,
        ;
    }
    let t: i128 = (v1 as i128) * (dt as i128);
    let vd: i128 = tdiv_i128(t, 1000);
    proof {
        if t >= 0 {
            vstd::arithmetic::div_mod::lemma_div_nonincreasing(t as int, 1000);
            vstd::arithmetic::div_mod::lemma_div_pos_is_pos(t as int, 1000);
            assert(0 <= vd <= t);
        } else {
            vstd::arithmetic::div_mod::lemma_div_nonincreasing(-t as int, 1000);
            vstd::arithmetic::div_mod::lemma_div_pos_is_pos(-t as int, 1000);
            assert(t <= vd <= 0);
        }
    }
    clamp_i64(-COORD_LIMIT, COORD_LIMIT, (p as i128) + vd)
}

/// The fate of satellite slot `i` over one step: it keeps its integrated
/// values if and only if it is neither absorbed nor out of the domain
/// (an escaped satellite with no black hole to orbit also stays); any
/// other satellite is recycled.
pub open spec fn slot_done(pre: NBodySimulation, post: NBodySimulation, dt: int, i: int) -> bool {
    if !absorbed(pre, dt, i) && (!escaped(pre, dt, i) || pre.config.num_blackholes == 0) {
        slot_integrated(pre, post, dt, i)
    } else {
        slot_recycled(pre, post, dt, i)
    }
}

/// What one integration step does.
///
/// Every body receives the semi-implicit Euler update.  A black hole
/// keeps its updated values unconditionally.  A satellite keeps them if
/// and only if it was neither absorbed by a black hole nor out of the
/// domain; an absorbed satellite is recycled, and one that left the
/// domain is recycled when at least one black hole exists and is left
/// untouched otherwise (with no black hole there is nothing to orbit, an
/// explicit policy for the zero-black-hole edge).
pub open spec fn integrate_post(pre: NBodySimulation, post: NBodySimulation, dt: int) -> bool {
    &&& post.wf()
    &&& post.n == pre.n
    &&& post.config == pre.config
    &&& forall|i: int|
        0 <= i < pre.config.num_blackholes ==> #[trigger] slot_integrated(pre, post, dt, i)
    &&& forall|i: int|
        pre.config.num_blackholes <= i < pre.n ==> #[trigger] slot_done(pre, post, dt, i)
}

impl NBodySimulation {
    /// Recycles a body: slot `i` is replaced, with a fresh satellite
    /// orbiting the body in slot `ci` entering the arrays.
    ///
    /// If `i` is itself a black hole, the last black hole is moved into
    /// its slot, the black-hole count shrinks by one, and the freed slot
    /// is repopulated with the fresh satellite; otherwise slot `i` simply
    /// becomes the fresh satellite.  Either way the total body count
    /// stays constant; recycling is the only creation mechanism.
    pub fn reset(&mut self, i: usize, ci: usize)
        requires
            old(self).wf(),
            i < old(self).n,
            ci < old(self).n,
        ensures
            final(self).wf(),
            final(self).n == old(self).n,
            final(self).rng == rng_after3(old(self).rng),
            final(self).config.min_dist == old(self).config.min_dist,
            final(self).config.min_dist_sqrd == old(self).config.min_dist_sqrd,
            final(self).config.min_r == old(self).config.min_r,
            final(self).config.max_r == old(self).config.max_r,
            next_sat(*old(self), ci as int).valid(),
            if i < old(self).config.num_blackholes {
                ({
                    let last = old(self).config.num_blackholes - 1;
                    let sat = next_sat(*old(self), ci as int);
                    &&& final(self).config.num_blackholes == last
                    &&& final(self).m@ == old(self).m@.update(i as int, old(self).m[last]).update(
                        last,
                        sat.m,
                    )
                    &&& final(self).r@ == old(self).r@.update(i as int, old(self).r[last]).update(
                        last,
                        sat.r,
                    )
                    &&& final(self).v@ == old(self).v@.update(i as int, old(self).v[last]).update(
                        last,
                        sat.v,
                    )
                    &&& final(self).a@ == old(self).a@.update(
                        i as int,
                        Vector3D { x: 0, y: 0, z: 0 },
                    ).update(last, Vector3D { x: 0, y: 0, z: 0 })
                })
            } else {
                ({
                    let sat = next_sat(*old(self), ci as int);
                    &&& final(self).config.num_blackholes == old(self).config.num_blackholes
                    &&& final(self).m@ == old(self).m@.update(i as int, sat.m)
                    &&& final(self).r@ == old(self).r@.update(i as int, sat.r)
                    &&& final(self).v@ == old(self).v@.update(i as int, sat.v)
                    &&& final(self).a@ == old(self).a@.update(
                        i as int,
                        Vector3D { x: 0, y: 0, z: 0 },
                    )
                })
            },
    {
        let c = self.get(ci);
        let (b, s) = generate_satellite(&c, self.rng);
        let ghost pre = *self;
        self.rng = s;
        proof {
            assert forall|j: int| 0 <= j < self.n implies self.body_ok(j) by {
                assert(pre.body_ok(j));
            }
            assert(self.wf());
            assert(b == next_sat(pre, ci as int));
        }
        if i < self.config.num_blackholes {
            let last = self.config.num_blackholes - 1;
            let ghost mid0 = *self;
            self.config.num_blackholes = last;
            proof {
                assert forall|j: int| 0 <= j < self.n implies self.body_ok(j) by {
                    assert(mid0.body_ok(j));
                }
                assert(self.wf());
            }
            let moved = self.get(last);
            self.set(i, &moved);
            self.set(last, &b);
        } else {
            self.set(i, &b);
        }
    }
}

impl NBodySimulation {
    /// Integrates velocity and position over one time step and recycles
    /// absorbed and escaped satellites; see [`integrate_post`] for the
    /// complete step relation.
    #[verifier::rlimit(100)]
    pub fn integrate(&mut self, dt: i64)
        requires
            old(self).wf(),
            0 <= dt <= DT_LIMIT,
        ensures
            integrate_post(*old(self), *final(self), dt as int),
    {
        let ghost pre = *old(self);
        let n = self.n;
        let mut i: usize = 0;
        while i < n
            invariant
                pre.wf(),
                0 <= dt <= DT_LIMIT,
                i <= n,
                n == pre.n,
                self.n == pre.n,
                self.config == pre.config,
                self.rng == pre.rng,
                self.m@ == pre.m@,
                self.a@ == pre.a@,
                self.v.len() == n,
                self.r.len() == n,
                forall|j: int|
                    0 <= j < i ==> self.v[j] == integrated_v(pre, dt as int, j) && self.r[j]
                        == integrated_r(pre, dt as int, j),
                forall|j: int| i <= j < n ==> self.v[j] == pre.v[j] && self.r[j] == pre.r[j],
                self.wf(),
            decreases n - i,
        {
            let ghost prei = *self;
            proof {
                assert(pre.body_ok(i as int));
                assert(prei.body_ok(i as int));
            }
            let vv = self.v[i];
            let aa = self.a[i];
            let rr = self.r[i];
            let v1 = Vector3D {
                x: vel1(vv.x, aa.x, dt),
                y: vel1(vv.y, aa.y, dt),
                z: vel1(vv.z, aa.z, dt),
            };
            let r1 = Vector3D {
                x: pos1(rr.x, v1.x, dt),
                y: pos1(rr.y, v1.y, dt),
                z: pos1(rr.z, v1.z, dt),
            };
            self.v.set(i, v1);
            self.r.set(i, r1);
            proof {
                assert(v1 == integrated_v(pre, dt as int, i as int));
                assert(r1 == integrated_r(pre, dt as int, i as int));
                assert forall|j: int| 0 <= j < self.n implies self.body_ok(j) by {
                    if j != i {
                        assert(prei.body_ok(j));
                    }
                }
            }
            i = i + 1;
        }
        let ghost mid = *self;
        let nbh = self.config.num_blackholes;
        let mut i: usize = nbh;
        while i < n
            invariant
                pre.wf(),
                mid.wf(),
                0 <= dt <= DT_LIMIT,
                nbh == pre.config.num_blackholes,
                nbh <= i <= n,
                n == pre.n,
                mid.n == pre.n,
                mid.config == pre.config,
                mid.m@ == pre.m@,
                mid.a@ == pre.a@,
                forall|j: int|
                    0 <= j < n ==> mid.v[j] == integrated_v(pre, dt as int, j) && mid.r[j]
                        == integrated_r(pre, dt as int, j),
                self.wf(),
                self.n == pre.n,
                self.config == pre.config,
                forall|j: int|
                    (0 <= j < nbh || i <= j < n) ==> self.m[j] == pre.m[j] && self.v[j]
                        == mid.v[j] && self.r[j] == mid.r[j] && self.a[j] == pre.a[j],
                forall|j: int| nbh <= j < i ==> #[trigger] slot_done(pre, *self, dt as int, j),
            decreases n - i,
        {
            let ghost at_i = *self;
            let mut ci: usize = 0;
            let mut hit: bool = false;
            let mut hit_ci: usize = 0;
            while ci < nbh
                invariant
                    pre.wf(),
                    self.wf(),
                    *self == at_i,
                    self.config == pre.config,
                    0 <= dt <= DT_LIMIT,
                    nbh == pre.config.num_blackholes,
                    nbh <= self.n,
                    nbh <= i < n,
                    n == pre.n,
                    self.n == pre.n,
                    ci <= nbh,
                    forall|j: int|
                        (0 <= j < nbh || i <= j < n) ==> self.v[j] == integrated_v(
                            pre,
                            dt as int,
                            j,
                        ) && self.r[j] == integrated_r(pre, dt as int, j),
                    !hit ==> forall|cj: int|
                        0 <= cj < ci ==> sq_dist3(
                            integrated_r(pre, dt as int, i as int),
                            #[trigger] integrated_r(pre, dt as int, cj),
                        ) >= pre.config.min_dist_sqrd,
                    hit ==> hit_ci < nbh && sq_dist3(
                        integrated_r(pre, dt as int, i as int),
                        integrated_r(pre, dt as int, hit_ci as int),
                    ) < pre.config.min_dist_sqrd,
                decreases nbh - ci,
            {
                if !hit {
                    proof {
                        assert(self.body_ok(ci as int));
                        assert(self.body_ok(i as int));
                    }
                    let d = self.r[i].sub(self.r[ci]);
                    let d_sqrd: i128 = d.l2_sqrd();
                    proof {
                        assert(d_sqrd == sq_dist3(
                            integrated_r(pre, dt as int, i as int),
                            integrated_r(pre, dt as int, ci as int),
                        ));
                    }
                    if d_sqrd < self.config.min_dist_sqrd as i128 {
                        hit = true;
                        hit_ci = ci;
                    }
                }
                ci = ci + 1;
            }
            if hit {
                let ghost pre_reset = *self;
                proof {
                    assert(pre_reset.m[hit_ci as int] == pre.m[hit_ci as int]);
                }
                self.reset(i, hit_ci);
                proof {
                    lemma_reset_recycles(
                        pre,
                        pre_reset,
                        *self,
                        dt as int,
                        i as int,
                        hit_ci as int,
                        nbh as int,
                    );
                    assert(absorbed(pre, dt as int, i as int));
                    assert forall|j: int| nbh <= j < i + 1 implies #[trigger] slot_done(
                        pre,
                        *self,
                        dt as int,
                        j,
                    ) by {
                        if j < i {
                            assert(slot_done(pre, pre_reset, dt as int, j));
                            lemma_slot_done_frame(pre, pre_reset, *self, dt as int, j);
                        } else {
                            assert(slot_recycled(pre, *self, dt as int, j));
                        }
                    }
                }
            } else {
                proof {
                    assert(!absorbed(pre, dt as int, i as int)) by {
                        if absorbed(pre, dt as int, i as int) {
                            let cj = choose|cj: int|
                                0 <= cj < pre.config.num_blackholes && sq_dist3(
                                    integrated_r(pre, dt as int, i as int),
                                    integrated_r(pre, dt as int, cj),
                                ) < pre.config.min_dist_sqrd;
                            assert(sq_dist3(
                                integrated_r(pre, dt as int, i as int),
                                integrated_r(pre, dt as int, cj),
                            ) >= pre.config.min_dist_sqrd);
                        }
                    }
                }
                let p = self.r[i];
                let inside = p.in_bounds(&self.config.min_r, &self.config.max_r);
                proof {
                    assert(self.r[i as int] == integrated_r(pre, dt as int, i as int));
                    assert(inside == !escaped(pre, dt as int, i as int));
                }
                if !inside && nbh > 0 {
                    let (d, s) = sm_step(self.rng);
                    let ghost pre_rng = *self;
                    self.rng = s;
                    proof {
                        assert forall|j: int| 0 <= j < self.n implies self.body_ok(j) by {
                            assert(pre_rng.body_ok(j));
                        }
                        assert(self.wf());
                    }
                    let ridx: usize = (d % (nbh as u64)) as usize;
                    proof {
                        assert(d % (nbh as u64) < (nbh as u64));
                    }
                    let ghost pre_reset = *self;
                    proof {
                        assert(pre_reset.m[ridx as int] == pre.m[ridx as int]);
                        assert(pre_reset.v[ridx as int] == integrated_v(pre, dt as int, ridx as int)
                            && pre_reset.r[ridx as int] == integrated_r(pre, dt as int, ridx as int));
                    }
                    self.reset(i, ridx);
                    proof {
                        lemma_reset_recycles(
                            pre,
                            pre_reset,
                            *self,
                            dt as int,
                            i as int,
                            ridx as int,
                            nbh as int,
                        );
                        assert forall|j: int| nbh <= j < i + 1 implies #[trigger] slot_done(
                            pre,
                            *self,
                            dt as int,
                            j,
                        ) by {
                            if j < i {
                                assert(slot_done(pre, at_i, dt as int, j));
                                assert(self.m[j] == at_i.m[j] && self.v[j] == at_i.v[j]
                                    && self.r[j] == at_i.r[j] && self.a[j] == at_i.a[j]);
                                lemma_slot_done_frame(pre, at_i, *self, dt as int, j);
                            } else {
                                assert(slot_recycled(pre, *self, dt as int, j));
                            }
                        }
                    }
                } else {
                    proof {
                        assert(self.m[i as int] == pre.m[i as int] && self.a[i as int]
                            == pre.a[i as int]);
                        assert(self.v[i as int] == integrated_v(pre, dt as int, i as int)
                            && self.r[i as int] == integrated_r(pre, dt as int, i as int));
                        assert(slot_integrated(pre, *self, dt as int, i as int));
                        assert forall|j: int| nbh <= j < i + 1 implies #[trigger] slot_done(
                            pre,
                            *self,
                            dt as int,
                            j,
                        ) by {
                            if j < i {
                                assert(slot_done(pre, at_i, dt as int, j));
                                lemma_slot_done_frame(pre, at_i, *self, dt as int, j);
                            }
                        }
                    }
                }
            }
            i = i + 1;
        }
        proof {
            assert forall|j: int| 0 <= j < pre.config.num_blackholes implies #[trigger]
                slot_integrated(pre, *self, dt as int, j) by {
                assert(self.m[j] == pre.m[j] && self.v[j] == mid.v[j] && self.r[j] == mid.r[j]
                    && self.a[j] == pre.a[j]);
            }
            assert(integrate_post(pre, *self, dt as int));
        }
    }
}

/// A slot's fate is a property of its values alone: it transfers to any
/// state that holds the same values in that slot.
proof fn lemma_slot_done_frame(
    pre: NBodySimulation,
    s1: NBodySimulation,
    s2: NBodySimulation,
    dt: int,
    j: int,
)
    requires
        slot_done(pre, s1, dt, j),
        s2.m[j] == s1.m[j],
        s2.v[j] == s1.v[j],
        s2.r[j] == s1.r[j],
        s2.a[j] == s1.a[j],
    ensures
        slot_done(pre, s2, dt, j),
{
    if !absorbed(pre, dt, j) && (!escaped(pre, dt, j) || pre.config.num_blackholes == 0) {
        assert(slot_integrated(pre, s2, dt, j));
    } else {
        let cw = choose|cw: int|
            0 <= cw < pre.config.num_blackholes && crate::nbody::generators::is_satellite_of(
                s1.body_at(j),
                MovingBody { m: pre.m[cw], r: integrated_r(pre, dt, cw), v: integrated_v(pre, dt, cw) },
            ) && s1.a[j] == (Vector3D { x: 0, y: 0, z: 0 });
        assert(s2.body_at(j) == s1.body_at(j));
        assert(slot_recycled(pre, s2, dt, j));
    }
}

/// After the first integration phase, a `reset` of satellite slot `i`
/// about the black hole `ci` leaves that slot recycled in the sense of
/// [`slot_recycled`], and every other slot untouched.
proof fn lemma_reset_recycles(
    pre: NBodySimulation,
    before: NBodySimulation,
    after: NBodySimulation,
    dt: int,
    i: int,
    ci: int,
    nbh: int,
)
    requires
        pre.wf(),
        before.wf(),
        after.wf(),
        nbh == pre.config.num_blackholes,
        before.config == pre.config,
        before.n == pre.n,
        after.n == before.n,
        nbh <= i < pre.n,
        0 <= ci < nbh,
        before.m[ci] == pre.m[ci],
        before.v[ci] == integrated_v(pre, dt, ci),
        before.r[ci] == integrated_r(pre, dt, ci),
        after.config.num_blackholes == before.config.num_blackholes,
        after.m@ == before.m@.update(i, next_sat(before, ci).m),
        after.r@ == before.r@.update(i, next_sat(before, ci).r),
        after.v@ == before.v@.update(i, next_sat(before, ci).v),
        after.a@ == before.a@.update(i, Vector3D { x: 0, y: 0, z: 0 }),
    ensures
        slot_recycled(pre, after, dt, i),
        forall|j: int|
            0 <= j < pre.n && j != i ==> after.m[j] == before.m[j] && after.v[j] == before.v[j]
                && after.r[j] == before.r[j] && after.a[j] == before.a[j],
{
    let c = before.body_at(ci);
    assert(c == MovingBody { m: pre.m[ci], r: integrated_r(pre, dt, ci), v: integrated_v(pre, dt, ci) });
    let sat = next_sat(before, ci);
    assert(after.body_at(i) == sat);
    assert(sat == crate::nbody::generators::sat_from_draws(
        c,
        sm_out(before.rng),
        sm_out(sm_state(before.rng)),
        sm_out(sm_state(sm_state(before.rng))),
    ));
    assert(crate::nbody::generators::is_satellite_of(after.body_at(i), c));
    assert(after.a[i] == (Vector3D { x: 0, y: 0, z: 0 }));
}

/// Integration is idempotent at rest: a body with zero velocity and zero
/// acceleration keeps exactly its position (and stays at rest) over a
/// step.  A stationary satellite that sits within the softening distance
/// of a black hole, or outside the domain while black holes exist, is
/// recycled instead and is excluded here.
pub proof fn lemma_integrate_rest_fixed(
    pre: NBodySimulation,
    post: NBodySimulation,
    dt: int,
    i: int,
)
    requires
        pre.wf(),
        integrate_post(pre, post, dt),
        0 <= dt <= DT_LIMIT,
        0 <= i < pre.n,
        pre.v[i] == (Vector3D { x: 0, y: 0, z: 0 }),
        pre.a[i] == (Vector3D { x: 0, y: 0, z: 0 }),
        i >= pre.config.num_blackholes ==> !absorbed(pre, dt, i) && (!escaped(pre, dt, i)
            || pre.config.num_blackholes == 0),
    ensures
        post.r[i] == pre.r[i],
        post.v[i] == pre.v[i],
{
    assert(pre.body_ok(i));
    assert(vel_comp_after(0, 0, dt) == 0) by {
        assert(0 * dt == 0) by (nonlinear_arith);
        assert(tdiv(0, 1000) == 0) by {
            vstd::arithmetic::div_mod::lemma_div_of0(1000);
        }
    }
    assert(integrated_v(pre, dt, i) == pre.v[i]);
    assert(pos_comp_after(pre.r[i].x as int, 0, dt) == pre.r[i].x) by {
        assert(0 * dt == 0) by (nonlinear_arith);
        assert(tdiv(0, 1000) == 0) by {
            vstd::arithmetic::div_mod::lemma_div_of0(1000);
        }
    }
    assert(pos_comp_after(pre.r[i].y as int, 0, dt) == pre.r[i].y) by {
        assert(0 * dt == 0) by (nonlinear_arith);
        assert(tdiv(0, 1000) == 0) by {
            vstd::arithmetic::div_mod::lemma_div_of0(1000);
        }
    }
    assert(pos_comp_after(pre.r[i].z as int, 0, dt) == pre.r[i].z) by {
        assert(0 * dt == 0) by (nonlinear_arith);
        assert(tdiv(0, 1000) == 0) by {
            vstd::arithmetic::div_mod::lemma_div_of0(1000);
        }
    }
    assert(integrated_r(pre, dt, i) == pre.r[i]);
    if i < pre.config.num_blackholes {
        assert(slot_integrated(pre, post, dt, i));
    } else {
        assert(slot_done(pre, post, dt, i));
        assert(slot_integrated(pre, post, dt, i));
    }
}

} // verus!
