//! Fixed-point arithmetic helpers shared by the whole crate.
//!
//! Every physical quantity in this crate is an `i64` in milli-units: the
//! value 1000 stands for one unit of the simulation domain.  Wide
//! intermediates use `i128`/`u128`, and the helpers here give each operation
//! an exact integer contract.
use vstd::prelude::*;

verus! {

/// Fixed-point scale: 1000 milli-units per domain unit.
pub const SCALE: i64 = 1000;

/// Largest admissible coordinate (milli-units), about 1.1e12.
pub const COORD_LIMIT: i64 = 0x100_0000_0000;

/// Largest admissible per-body mass (milli-units).
pub const MASS_LIMIT: i64 = 0x100_0000_0000;

/// Largest admissible total mass in one quadtree.
pub const MASS_SUM_CAP: i64 = 0x4000_0000_0000_0000;

/// Largest admissible velocity component (milli-units per time unit).
pub const VEL_LIMIT: i64 = 0x100_0000_0000;

/// Largest admissible body count in one simulation.
pub const N_LIMIT: usize = 0x10_0000;

/// Largest admissible time step (milli-units of time).
pub const DT_LIMIT: i64 = 0x10_0000;

/// Largest admissible softening distance (milli-units).
pub const DIST_LIMIT: i64 = 0x8000_0000;

/// Largest admissible accuracy parameter theta (milli-units).
pub const THETA_LIMIT: i64 = 0x10_0000;

/// Clamps `v` into the inclusive range `[lo, hi]`.
pub open spec fn clamp_spec(lo: int, hi: int, v: int) -> int {
    if v < lo {
        lo
    } else if v > hi {
        hi
    } else {
        v
    }
}

/// Truncating (round-toward-zero) division, the meaning of machine division
/// on possibly negative dividends.  Only used with positive divisors.
pub open spec fn tdiv(a: int, b: int) -> int {
    if a >= 0 {
        a / b
    } else {
        -((-a) / b)
    }
}

/// `r` is the integer square root of `n` rounded down.
pub open spec fn is_sqrt(n: int, r: int) -> bool {
    &&& 0 <= r
    &&& r * r <= n
    &&& n < (r + 1) * (r + 1)
}

/// The integer square root of `n`, rounded down.
pub open spec fn sqrt_floor(n: int) -> int {
    choose|r: int| is_sqrt(n, r)
}

/// The rounded-down square root is unique, so `sqrt_floor` returns exactly
/// the witness that `is_sqrt` describes.
pub proof fn lemma_sqrt_floor_unique(n: int, r: int)
    requires
        is_sqrt(n, r),
    ensures
        sqrt_floor(n) == r,
{
    assert(exists|q: int| is_sqrt(n, q)) by {
        assert(is_sqrt(n, r));
    }
    let q = sqrt_floor(n);
    assert(is_sqrt(n, q));
    assert(q == r) by (nonlinear_arith)
        requires
            is_sqrt(n, q),
            is_sqrt(n, r),
    ;
}

/// A quotient is bounded by any bounds on the dividend given as multiples
/// of the divisor.
pub proof fn lemma_div_bounds(a: int, b: int, lo: int, hi: int)
    requires
        b > 0,
        b * lo <= a,
        a <= b * hi,
    ensures
        lo <= a / b <= hi,
{
    broadcast use vstd::arithmetic::div_mod::lemma_fundamental_div_mod;
    broadcast use vstd::arithmetic::div_mod::lemma_mod_division_less_than_divisor;

    assert(a == b * (a / b) + a % b);
    if a / b < lo {
        assert(a / b <= lo - 1);
        assert(b * (a / b) <= b * (lo - 1)) by (nonlinear_arith)
            requires
                b > 0,
                a / b <= lo - 1,
        ;
        assert(b * (lo - 1) == b * lo - b) by (nonlinear_arith);
        assert(a < b * lo);
    }
    if a / b > hi {
        assert(a / b >= hi + 1);
        assert(b * (a / b) >= b * (hi + 1)) by (nonlinear_arith)
            requires
                b > 0,
                a / b >= hi + 1,
        ;
        assert(b * (hi + 1) == b * hi + b) by (nonlinear_arith);
        assert(a > b * hi);
    }
}

/// A lower bound on a quotient gives a lower bound on the dividend.
pub proof fn lemma_div_ge_mul(a: int, b: int, c: int)
    requires
        b > 0,
        a / b >= c,
    ensures
        a >= b * c,
{
    broadcast use vstd::arithmetic::div_mod::lemma_fundamental_div_mod;
    broadcast use vstd::arithmetic::div_mod::lemma_mod_division_less_than_divisor;

    assert(a == b * (a / b) + a % b);
    assert(b * (a / b) >= b * c) by (nonlinear_arith)
        requires
            b > 0,
            a / b >= c,
    ;
}

/// An upper bound on a quotient bounds the dividend within one divisor.
pub proof fn lemma_div_le_mul(a: int, b: int, c: int)
    requires
        b > 0,
        a / b <= c,
    ensures
        a <= b * c + b - 1,
{
    broadcast use vstd::arithmetic::div_mod::lemma_fundamental_div_mod;
    broadcast use vstd::arithmetic::div_mod::lemma_mod_division_less_than_divisor;

    assert(a == b * (a / b) + a % b);
    assert(b * (a / b) <= b * c) by (nonlinear_arith)
        requires
            b > 0,
            a / b <= c,
    ;
}

/// Clamps a wide intermediate value into an `i64` range.
pub fn clamp_i64(lo: i64, hi: i64, v: i128) -> (r: i64)
    requires
        lo <= hi,
    ensures
        r == clamp_spec(lo as int, hi as int, v as int),
{
    if v < lo as i128 {
        lo
    } else if v > hi as i128 {
        hi
    } else {
        v as i64
    }
}

/// Unsigned division with an exact quotient contract.
pub fn div_u128(a: u128, b: u128) -> (r: u128)
    requires
        b > 0,
    ensures
        r == a as int / b as int,
{
    a / b
}

/// Truncating division of a wide signed value by a positive divisor.
pub fn tdiv_i128(a: i128, b: i128) -> (r: i128)
    requires
        b > 0,
        a > i128::MIN,
    ensures
        r == tdiv(a as int, b as int),
{
    if a >= 0 {
        ((a as u128) / (b as u128)) as i128
    } else {
        let q: u128 = ((-a) as u128) / (b as u128);
        assert(q <= (-a) as u128) by (nonlinear_arith)
            requires
                q == ((-a) as u128) as int / (b as u128) as int,
                b > 0,
        ;
        -(q as i128)
    }
}

/// Integer square root, rounded down.
pub fn isqrt_u128(n: u128) -> (r: u128)
    ensures
        is_sqrt(n as int, r as int),
        r == sqrt_floor(n as int),
        r <= 0xFFFF_FFFF_FFFF_FFFF,
{
    let mut lo: u128 = 0;
    let mut hi: u128 = 0x1_0000_0000_0000_0000;
    assert(hi * hi > n as int) by (nonlinear_arith)
        requires
            hi == 0x1_0000_0000_0000_0000,
            n <= u128::MAX,
    ;
    while lo + 1 < hi
        invariant
            lo < hi <= 0x1_0000_0000_0000_0000,
            lo * lo <= n as int,
            hi * hi > n as int,
        decreases hi - lo,
    {
        let mid: u128 = lo + (hi - lo) / 2;
        assert(mid * mid < 0x1_0000_0000_0000_0000_0000_0000_0000_0000) by (nonlinear_arith)
            requires
                mid < 0x1_0000_0000_0000_0000,
        ;
        if mid * mid <= n {
            lo = mid;
        } else {
            hi = mid;
        }
    }
    assert((lo + 1) * (lo + 1) > n as int);
    proof {
        lemma_sqrt_floor_unique(n as int, lo as int);
    }
    lo
}

/// 64-bit wrapping addition.
pub open spec fn wrap_add64(a: u64, b: u64) -> u64 {
    if a + b > u64::MAX {
        (a + b - 0x1_0000_0000_0000_0000) as u64
    } else {
        (a + b) as u64
    }
}

/// 64-bit wrapping multiplication.
pub open spec fn wrap_mul64(a: u64, b: u64) -> u64 {
    ((a as nat * b as nat) % 0x1_0000_0000_0000_0000nat) as u64
}

/// The seed that follows `s` in the deterministic pseudo-random stream
/// (an additive Weyl sequence).
pub open spec fn sm_state(s: u64) -> u64 {
    wrap_add64(s, 0x9E37_79B9_7F4A_7C15)
}

/// The pseudo-random output drawn at seed `s`: the new Weyl state passed
/// through two xor-shift-multiply mixing rounds.
pub open spec fn sm_out(s: u64) -> u64 {
    let z0 = sm_state(s);
    let z1 = wrap_mul64(z0 ^ (z0 >> 30), 0xBF58_476D_1CE4_E5B9);
    let z2 = wrap_mul64(z1 ^ (z1 >> 27), 0x94D0_49BB_1331_11EB);
    z2 ^ (z2 >> 31)
}

/// One step of the deterministic pseudo-random stream: the drawn value
/// and the state that follows.  The stream is a plain function of the
/// seed, so simulations are reproducible from their seed alone.
pub fn sm_step(s: u64) -> (r: (u64, u64))
    ensures
        r.0 == sm_out(s),
        r.1 == sm_state(s),
{
    let z0: u64 = s.wrapping_add(0x9E37_79B9_7F4A_7C15);
    let z1: u64 = (z0 ^ (z0 >> 30)).wrapping_mul(0xBF58_476D_1CE4_E5B9);
    let z2: u64 = (z1 ^ (z1 >> 27)).wrapping_mul(0x94D0_49BB_1331_11EB);
    (z2 ^ (z2 >> 31), z0)
}

} // verus!
