//! Initial-condition generators: orbiting satellites around a galaxy
//! center, and black-hole injection.
//!
//! A satellite is a deterministic function of its center and three draws
//! from the crate's pseudo-random stream: a polar angle, a radius and a
//! mass.  Randomness is therefore injectable and every generated state is
//! reproducible from a seed.  The normal-ish radius and mass shapes come
//! from a sum of twelve uniform 5-bit chunks of one draw (a central-limit
//! approximation), folded to its absolute value.
use vstd::prelude::*;

use crate::math::{
    clamp_i64, clamp_spec, isqrt_u128, lemma_div_bounds, sm_out, sm_state, sm_step,
    sqrt_floor, tdiv, tdiv_i128, COORD_LIMIT, MASS_LIMIT, VEL_LIMIT,
};
use crate::nbody::bodies::MovingBody;
use crate::nbody::simulation::NBodySimulation;
use crate::vector::Vector3D;

verus! {

/// A full turn in milli-radians.
pub const TAU_MILLI: i64 = 6283;

/// Half a turn in milli-radians.
pub const PI_MILLI: i64 = 3142;

/// A quarter turn in milli-radians.
pub const HALF_PI_MILLI: i64 = 1571;

/// Five times the square of `PI_MILLI`.
pub const FIVE_PI_SQ: i64 = 49_360_820;

/// Smallest orbit radius of a generated satellite (milli-units).
pub const R_BASE: i64 = 20_000;

/// Largest orbit radius of a generated satellite (milli-units).
pub const R_MAX: i64 = 250_000;

/// Largest mass of a generated satellite (milli-units).
pub const M_MAX: i64 = 3000;

/// Orbit speed constant: about `1.00025 * 1000 * sqrt(1000)`, which
/// rescales `sqrt(mass) / radius^2` from milli-units to an approximate
/// circular-orbit speed in milli-units.
pub const V_CONST: i64 = 31_631;

/// The rational sine approximation on a half turn, in milli-units:
/// `16 x (pi - x) / (5 pi^2 - 4 x (pi - x))` for `x` in `[0, PI_MILLI]`,
/// capped into `[0, 1000]`.
pub open spec fn half_sine(x: int) -> int {
    let p = x * (PI_MILLI - x);
    clamp_spec(0, 1000, (16_000 * p) / (FIVE_PI_SQ - 4 * p))
}

/// Sine of an angle in `[0, TAU_MILLI)`, in milli-units.
pub open spec fn sin_milli_spec(a: int) -> int {
    if a <= PI_MILLI {
        half_sine(a)
    } else {
        -half_sine(a - PI_MILLI)
    }
}

/// Cosine of an angle in `[0, TAU_MILLI)`, in milli-units.
pub open spec fn cos_milli_spec(a: int) -> int {
    sin_milli_spec(
        if a + HALF_PI_MILLI < TAU_MILLI {
            a + HALF_PI_MILLI
        } else {
            a + HALF_PI_MILLI - TAU_MILLI
        },
    )
}

/// Sum of the twelve 5-bit chunks of a draw: a value in `[0, 372]` whose
/// distribution approaches a normal one with mean 186.
pub open spec fn chunk_sum(d: u64) -> int {
    ((d & 31) as int) + (((d >> 5) & 31) as int) + (((d >> 10) & 31) as int) + (((d >> 15)
        & 31) as int) + (((d >> 20) & 31) as int) + (((d >> 25) & 31) as int) + (((d >> 30)
        & 31) as int) + (((d >> 35) & 31) as int) + (((d >> 40) & 31) as int) + (((d >> 45)
        & 31) as int) + (((d >> 50) & 31) as int) + (((d >> 55) & 31) as int)
}

/// A signed, approximately normal value in milli-units (standard
/// deviation near 1000), derived from one draw.
pub open spec fn gauss_milli(d: u64) -> int {
    (chunk_sum(d) - 186) * 31
}

/// The orbit radius derived from one draw: thirty times the folded normal
/// plus the base radius, capped at the maximum radius.
pub open spec fn radius_from(d: u64) -> int {
    vstd::math::min(30 * (vstd::math::abs(gauss_milli(d)) as int) + R_BASE, R_MAX as int)
}

/// The satellite mass derived from one draw: the folded normal plus a
/// hundredth of a unit, capped at the maximum mass.
pub open spec fn mass_from(d: u64) -> int {
    vstd::math::min((vstd::math::abs(gauss_milli(d)) as int) + 10, M_MAX as int)
}

/// The satellite generated around the center `c` from three draws: a
/// polar offset at the drawn angle and radius, a drawn mass, and a
/// velocity of magnitude `V_CONST * sqrt(c.m) / radius^2` directed
/// perpendicular to the offset (an approximate circular orbit), with
/// position and velocity clamped into the representable ranges.
#[verifier::opaque]
pub open spec fn sat_from_draws(c: MovingBody, d1: u64, d2: u64, d3: u64) -> MovingBody {
    let ang = (d1 % (TAU_MILLI as u64)) as int;
    let radius = radius_from(d2);
    let mass = mass_from(d3);
    let cosv = cos_milli_spec(ang);
    let sinv = sin_milli_spec(ang);
    let ox = tdiv(radius * cosv, 1000);
    let oy = tdiv(radius * sinv, 1000);
    let rx = clamp_spec(-COORD_LIMIT as int, COORD_LIMIT as int, c.r.x + ox);
    let ry = clamp_spec(-COORD_LIMIT as int, COORD_LIMIT as int, c.r.y + oy);
    let sv = tdiv(V_CONST * sqrt_floor(c.m as int) * 1000, radius * radius);
    let dd = sqrt_floor(ox * ox + oy * oy);
    let vx = if dd == 0 {
        0int
    } else {
        clamp_spec(-VEL_LIMIT as int, VEL_LIMIT as int, tdiv(sv * -oy, dd))
    };
    let vy = if dd == 0 {
        0int
    } else {
        clamp_spec(-VEL_LIMIT as int, VEL_LIMIT as int, tdiv(sv * ox, dd))
    };
    MovingBody {
        m: mass as i64,
        r: Vector3D { x: rx as i64, y: ry as i64, z: 0 },
        v: Vector3D { x: vx as i64, y: vy as i64, z: 0 },
    }
}

/// `b` is a satellite that some three draws generate around `c`.
pub open spec fn is_satellite_of(b: MovingBody, c: MovingBody) -> bool {
    exists|d1: u64, d2: u64, d3: u64| b == sat_from_draws(c, d1, d2, d3)
}

/// Sine of an angle in `[0, TAU_MILLI)`, in milli-units.
fn sin_milli(a: i64) -> (r: i64)
    requires
        0 <= a < TAU_MILLI,
    ensures
        r == sin_milli_spec(a as int),
        -1000 <= r <= 1000,
{
    if a <= PI_MILLI {
        half_sine_exec(a)
    } else {
        -half_sine_exec(a - PI_MILLI)
    }
}

/// The rational half-turn sine approximation.
fn half_sine_exec(x: i64) -> (r: i64)
    requires
        0 <= x <= PI_MILLI,
    ensures
        r == half_sine(x as int),
        0 <= r <= 1000,
{
    proof {
        assert(0 <= x * (PI_MILLI - x) <= PI_MILLI * PI_MILLI) by (nonlinear_arith)
            requires
                0 <= x <= PI_MILLI,
        ;
    }
    let p: i64 = x * (PI_MILLI - x);
    let num: i64 = 16_000 * p;
    let den: i64 = FIVE_PI_SQ - 4 * p;
    proof {
        vstd::arithmetic::div_mod::lemma_div_pos_is_pos(num as int, den as int);
    }
    let q: i64 = num / den;
    clamp_i64(0, 1000, q as i128)
}

/// Cosine of an angle in `[0, TAU_MILLI)`, in milli-units.
fn cos_milli(a: i64) -> (r: i64)
    requires
        0 <= a < TAU_MILLI,
    ensures
        r == cos_milli_spec(a as int),
        -1000 <= r <= 1000,
{
    let mut b: i64 = a + HALF_PI_MILLI;
    if b >= TAU_MILLI {
        b = b - TAU_MILLI;
    }
    sin_milli(b)
}

/// Sum of the twelve 5-bit chunks of a draw.
fn chunk_sum_exec(d: u64) -> (r: i64)
    ensures
        r == chunk_sum(d),
        0 <= r <= 372,
{
    proof {
        assert((d & 31) <= 31 && ((d >> 5) & 31) <= 31 && ((d >> 10) & 31) <= 31 && ((d >> 15)
            & 31) <= 31 && ((d >> 20) & 31) <= 31 && ((d >> 25) & 31) <= 31 && ((d >> 30) & 31)
            <= 31 && ((d >> 35) & 31) <= 31 && ((d >> 40) & 31) <= 31 && ((d >> 45) & 31) <= 31
            && ((d >> 50) & 31) <= 31 && ((d >> 55) & 31) <= 31) by (bit_vector);
    }
    let c0: i64 = (d & 31) as i64;
    let c1: i64 = ((d >> 5) & 31) as i64;
    let c2: i64 = ((d >> 10) & 31) as i64;
    let c3: i64 = ((d >> 15) & 31) as i64;
    let c4: i64 = ((d >> 20) & 31) as i64;
    let c5: i64 = ((d >> 25) & 31) as i64;
    let c6: i64 = ((d >> 30) & 31) as i64;
    let c7: i64 = ((d >> 35) & 31) as i64;
    let c8: i64 = ((d >> 40) & 31) as i64;
    let c9: i64 = ((d >> 45) & 31) as i64;
    let c10: i64 = ((d >> 50) & 31) as i64;
    let c11: i64 = ((d >> 55) & 31) as i64;
    c0 + c1 + c2 + c3 + c4 + c5 + c6 + c7 + c8 + c9 + c10 + c11
}

/// A folded pseudo-normal value in milli-units.
fn gauss_abs(d: u64) -> (r: i64)
    ensures
        r == vstd::math::abs(gauss_milli(d)) as int,
        0 <= r <= 5766,
{
    let s: i64 = chunk_sum_exec(d);
    let z: i64 = (s - 186) * 31;
    if z < 0 {
        -z
    } else {
        z
    }
}

/// Multiplies a nonnegative radius by a milli-unit factor and rescales,
/// rounding toward zero.
fn mul_milli(a: i64, b: i64) -> (r: i64)
    requires
        0 <= a <= R_MAX,
        -1000 <= b <= 1000,
    ensures
        r == tdiv(a * b, 1000),
        -a <= r <= a,
{
    if b >= 0 {
        proof {
            assert(0 <= a * b <= a * 1000) by (nonlinear_arith)
                requires
                    0 <= a,
                    0 <= b <= 1000,
            ;
            lemma_div_bounds(a * b, 1000, 0, a as int);
        }
        (a * b) / 1000
    } else {
        proof {
            assert(0 <= a * -b <= a * 1000) by (nonlinear_arith)
                requires
                    0 <= a,
                    0 <= -b <= 1000,
            ;
            lemma_div_bounds(a * -b, 1000, 0, a as int);
            assert(a * -b == -(a * b)) by (nonlinear_arith);
        }
        -((a * -b) / 1000)
    }
}

/// Generates a satellite around the center `c` from three explicit draws.
/// This is the deterministic core of the generator: same center and same
/// draws give the same satellite on every run.
pub fn satellite_from_draws(c: &MovingBody, d1: u64, d2: u64, d3: u64) -> (b: MovingBody)
    requires
        c.valid(),
    ensures
        b == sat_from_draws(*c, d1, d2, d3),
        b.valid(),
        10 <= b.m <= M_MAX,
        b.r.z == 0 && b.v.z == 0,
        -COORD_LIMIT + R_MAX <= c.r.x <= COORD_LIMIT - R_MAX ==> -R_MAX <= b.r.x - c.r.x
            <= R_MAX,
        -COORD_LIMIT + R_MAX <= c.r.y <= COORD_LIMIT - R_MAX ==> -R_MAX <= b.r.y - c.r.y
            <= R_MAX,
{
    let ang: i64 = (d1 % (TAU_MILLI as u64)) as i64;
    proof {
        assert(d1 % (TAU_MILLI as u64) < (TAU_MILLI as u64));
    }
    let ga: i64 = gauss_abs(d2);
    let mut radius: i64 = 30 * ga + R_BASE;
    if radius > R_MAX {
        radius = R_MAX;
    }
    let gm: i64 = gauss_abs(d3);
    let mut mass: i64 = gm + 10;
    if mass > M_MAX {
        mass = M_MAX;
    }
    let cosv: i64 = cos_milli(ang);
    let sinv: i64 = sin_milli(ang);
    let ox: i64 = mul_milli(radius, cosv);
    let oy: i64 = mul_milli(radius, sinv);
    let rx: i64 = clamp_i64(-COORD_LIMIT, COORD_LIMIT, (c.r.x + ox) as i128);
    let ry: i64 = clamp_i64(-COORD_LIMIT, COORD_LIMIT, (c.r.y + oy) as i128);
    let sqm: u128 = isqrt_u128(c.m as u128);
    proof {
        assert(sqm * sqm <= MASS_LIMIT ==> sqm <= 0x100_0000) by (nonlinear_arith);
        assert(sqm <= 0x100_0000);
        assert(0 < (radius as i128) * (radius as i128) <= 62_500_000_000int)
            by (nonlinear_arith)
            requires
                20_000 <= radius <= 250_000,
        ;
    }
    let rad2: i128 = (radius as i128) * (radius as i128);
    proof {
        assert(0 <= (V_CONST as i128) * (sqm as i128) <= 530_579_424_608_256int)
            by (nonlinear_arith)
            requires
                0 <= sqm <= 0x100_0000,
                V_CONST == 31_631,
        ;
    }
    let svn: i128 = (V_CONST as i128) * (sqm as i128);
    let svn1000: i128 = svn * 1000;
    let sv: i128 = tdiv_i128(svn1000, rad2);
    proof {
        vstd::arithmetic::div_mod::lemma_div_pos_is_pos(svn1000 as int, rad2 as int);
        assert(sv <= svn1000) by {
            vstd::arithmetic::div_mod::lemma_div_nonincreasing(svn1000 as int, rad2 as int);
        }
        assert(0 <= (ox as i128) * (ox as i128) <= 62_500_000_000int && 0 <= (oy as i128) * (
        oy as i128) <= 62_500_000_000int) by (nonlinear_arith)
            requires
                -250_000 <= ox <= 250_000,
                -250_000 <= oy <= 250_000,
        ;
    }
    let d2o: i128 = (ox as i128) * (ox as i128) + (oy as i128) * (oy as i128);
    let dd: u128 = isqrt_u128(d2o as u128);
    let (vx, vy) = if dd == 0 {
        (0i64, 0i64)
    } else {
        proof {
            assert((sv * -(oy as i128) > i128::MIN) && (sv * (ox as i128) > i128::MIN) && (sv * -(
            oy as i128) < i128::MAX) && (sv * (ox as i128) < i128::MAX)) by (nonlinear_arith)
                requires
                    0 <= sv <= 530_579_424_608_256_000int,
                    -250_000 <= ox <= 250_000,
                    -250_000 <= oy <= 250_000,
            ;
        }
        let vx0: i128 = tdiv_i128(sv * -(oy as i128), dd as i128);
        let vy0: i128 = tdiv_i128(sv * (ox as i128), dd as i128);
        (clamp_i64(-VEL_LIMIT, VEL_LIMIT, vx0), clamp_i64(-VEL_LIMIT, VEL_LIMIT, vy0))
    };
    let b = MovingBody {
        m: mass,
        r: Vector3D { x: rx, y: ry, z: 0 },
        v: Vector3D { x: vx, y: vy, z: 0 },
    };
    proof {
        reveal(sat_from_draws);
        assert(b == sat_from_draws(*c, d1, d2, d3));
    }
    b
}

/// Generates a satellite around the center `c`, drawing angle, radius and
/// mass from the pseudo-random stream at `seed`; returns the satellite
/// and the seed that follows.
pub fn generate_satellite(c: &MovingBody, seed: u64) -> (r: (MovingBody, u64))
    requires
        c.valid(),
    ensures
        r.0 == sat_from_draws(
            *c,
            sm_out(seed),
            sm_out(sm_state(seed)),
            sm_out(sm_state(sm_state(seed))),
        ),
        r.1 == sm_state(sm_state(sm_state(seed))),
        is_satellite_of(r.0, *c),
        r.0.valid(),
        10 <= r.0.m <= M_MAX,
{
    let (d1, s1) = sm_step(seed);
    let (d2, s2) = sm_step(s1);
    let (d3, s3) = sm_step(s2);
    let b = satellite_from_draws(c, d1, d2, d3);
    proof {
        assert(b == sat_from_draws(*c, d1, d2, d3));
    }
    (b, s3)
}

/// Converts the next free leading slot into a black hole: the body is
/// stored there and the black-hole count grows by one.
pub fn generate_blackhole(sim: &mut NBodySimulation, c: &MovingBody)
    requires
        old(sim).wf(),
        c.valid(),
        old(sim).config.num_blackholes < old(sim).n,
    ensures
        final(sim).wf(),
        final(sim).n == old(sim).n,
        final(sim).rng == old(sim).rng,
        final(sim).config.num_blackholes == old(sim).config.num_blackholes + 1,
        final(sim).config.min_dist == old(sim).config.min_dist,
        final(sim).config.min_dist_sqrd == old(sim).config.min_dist_sqrd,
        final(sim).config.min_r == old(sim).config.min_r,
        final(sim).config.max_r == old(sim).config.max_r,
        final(sim).m@ == old(sim).m@.update(old(sim).config.num_blackholes as int, c.m),
        final(sim).r@ == old(sim).r@.update(old(sim).config.num_blackholes as int, c.r),
        final(sim).v@ == old(sim).v@.update(old(sim).config.num_blackholes as int, c.v),
        final(sim).a@ == old(sim).a@.update(
            old(sim).config.num_blackholes as int,
            Vector3D { x: 0, y: 0, z: 0 },
        ),
{
    let i = sim.config.num_blackholes;
    sim.set(i, c);
    let ghost mid = *sim;
    sim.config.num_blackholes = i + 1;
    proof {
        assert forall|j: int| 0 <= j < sim.n implies sim.body_ok(j) by {
            assert(mid.body_ok(j));
        }
        assert(sim.wf());
    }
}

/// Generates a simple galaxy: the center becomes the single black hole in
/// slot 0 and every other slot becomes a fresh satellite orbiting it.
#[verifier::rlimit(50)]
pub fn generate_galaxy(sim: &mut NBodySimulation, c: &MovingBody)
    requires
        old(sim).wf(),
        c.valid(),
    ensures
        final(sim).wf(),
        final(sim).n == old(sim).n,
        final(sim).config.num_blackholes == 1,
        final(sim).config.min_dist == old(sim).config.min_dist,
        final(sim).config.min_dist_sqrd == old(sim).config.min_dist_sqrd,
        final(sim).config.min_r == old(sim).config.min_r,
        final(sim).config.max_r == old(sim).config.max_r,
        final(sim).body_at(0) == *c,
        forall|i: int|
            1 <= i < final(sim).n ==> is_satellite_of(#[trigger] final(sim).body_at(i), *c),
{
    sim.set(0, c);
    let ghost mid = *sim;
    sim.config.num_blackholes = 1;
    proof {
        assert forall|j: int| 0 <= j < sim.n implies sim.body_ok(j) by {
            assert(mid.body_ok(j));
        }
        assert(sim.wf());
    }
    let n = sim.n;
    let mut i: usize = 1;
    while i < n
        invariant
            1 <= i <= n,
            n == sim.n,
            sim.wf(),
            sim.config.num_blackholes == 1,
            sim.config.min_dist == old(sim).config.min_dist,
            sim.config.min_dist_sqrd == old(sim).config.min_dist_sqrd,
            sim.config.min_r == old(sim).config.min_r,
            sim.config.max_r == old(sim).config.max_r,
            sim.n == old(sim).n,
            c.valid(),
            sim.body_at(0) == *c,
            forall|j: int| 1 <= j < i ==> is_satellite_of(#[trigger] sim.body_at(j), *c),
        decreases n - i,
    {
        let ghost pre = *sim;
        let (b, s) = generate_satellite(c, sim.rng);
        sim.rng = s;
        proof {
            assert forall|j: int| 0 <= j < sim.n implies sim.body_ok(j) by {
                assert(pre.body_ok(j));
            }
            assert(sim.wf());
        }
        let ghost pre2 = *sim;
        sim.set(i, &b);
        proof {
            assert(sim.body_at(i as int) == b);
            assert(sim.body_at(0) == *c);
            assert forall|j: int| 1 <= j < i + 1 implies is_satellite_of(
                #[trigger] sim.body_at(j),
                *c,
            ) by {
                if j < i {
                    assert(sim.body_at(j) == pre.body_at(j));
                    assert(is_satellite_of(pre.body_at(j), *c));
                } else {
                    assert(sim.body_at(j) == b);
                }
            }
        }
        i = i + 1;
    }
}

} // verus!
