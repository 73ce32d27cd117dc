//! The gravitational acceleration contribution of one mass aggregate.
//!
//! Both force evaluators accumulate the same term: for a source of mass
//! `m` at `(cx, cy)` seen from `(xi, yi)`, the contribution is
//! `m * d * SCALE^2 / (d2 * sqrt(d2))` componentwise, where `d` is the
//! coordinate difference and `d2` its squared length -- the fixed-point
//! form of `m * d / |d|^3`.  Contributions from closer than the softening
//! distance are discarded (the minimum-distance cutoff policy; the same
//! cutoff stands in for the self-interaction guard, since a source at the
//! query point itself has `d2 == 0`).
use vstd::prelude::*;

use crate::math::{
    clamp_spec, is_sqrt, isqrt_u128, sqrt_floor, tdiv, tdiv_i128, COORD_LIMIT, MASS_SUM_CAP,
};

verus! {

/// The X component of one acceleration contribution.
pub open spec fn accel_term_x(m: int, cx: int, cy: int, xi: int, yi: int, min_d2: int) -> int {
    let dx = cx - xi;
    let dy = cy - yi;
    let d2 = dx * dx + dy * dy;
    if d2 < min_d2 || d2 == 0 {
        0
    } else {
        clamp_spec(
            i64::MIN as int,
            i64::MAX as int,
            tdiv(m * dx * 1_000_000, d2 * sqrt_floor(d2)),
        )
    }
}

/// The Y component of one acceleration contribution.
pub open spec fn accel_term_y(m: int, cx: int, cy: int, xi: int, yi: int, min_d2: int) -> int {
    let dx = cx - xi;
    let dy = cy - yi;
    let d2 = dx * dx + dy * dy;
    if d2 < min_d2 || d2 == 0 {
        0
    } else {
        clamp_spec(
            i64::MIN as int,
            i64::MAX as int,
            tdiv(m * dy * 1_000_000, d2 * sqrt_floor(d2)),
        )
    }
}

/// Computes one acceleration contribution, exactly as the term spec says.
pub fn accel_term(m: i64, cx: i64, cy: i64, xi: i64, yi: i64, min_d2: i64) -> (r: (i64, i64))
    requires
        0 <= m <= MASS_SUM_CAP,
        -COORD_LIMIT <= cx <= COORD_LIMIT,
        -COORD_LIMIT <= cy <= COORD_LIMIT,
        -COORD_LIMIT <= xi <= COORD_LIMIT,
        -COORD_LIMIT <= yi <= COORD_LIMIT,
        0 <= min_d2,
    ensures
        r.0 == accel_term_x(m as int, cx as int, cy as int, xi as int, yi as int, min_d2 as int),
        r.1 == accel_term_y(m as int, cx as int, cy as int, xi as int, yi as int, min_d2 as int),
{
    let dx: i128 = (cx as i128) - (xi as i128);
    let dy: i128 = (cy as i128) - (yi as i128);
    proof {
        assert(0 <= dx * dx <= 0x4_0000_0000_0000_0000_0000 && 0 <= dy * dy
            <= 0x4_0000_0000_0000_0000_0000) by (nonlinear_arith)
            requires
                -0x200_0000_0000 <= dx <= 0x200_0000_0000,
                -0x200_0000_0000 <= dy <= 0x200_0000_0000,
        ;
    }
    let d2: i128 = dx * dx + dy * dy;
    if d2 < min_d2 as i128 || d2 == 0 {
        (0, 0)
    } else {
        let sq: u128 = isqrt_u128(d2 as u128);
        proof {
            assert(is_sqrt(d2 as int, sq as int));
            assert(1 <= sq <= 0x400_0000_0000) by (nonlinear_arith)
                requires
                    (sq as int) * (sq as int) <= (d2 as int),
                    (d2 as int) < ((sq as int) + 1) * ((sq as int) + 1),
                    1 <= d2 <= 0x8_0000_0000_0000_0000_0000,
            ;
            assert(0 < (d2 as int) * (sq as int) <= 0x8_0000_0000_0000_0000_0000int
                * 0x400_0000_0000int) by (nonlinear_arith)
                requires
                    0 < d2 <= 0x8_0000_0000_0000_0000_0000,
                    0 < sq <= 0x400_0000_0000,
            ;
        }
        let d3: i128 = d2 * (sq as i128);
        proof {
            assert(-0x80_0000_0000_0000_0000_0000_0000 <= (m as i128) * dx
                <= 0x80_0000_0000_0000_0000_0000_0000 && -0x80_0000_0000_0000_0000_0000_0000
                <= (m as i128) * dy <= 0x80_0000_0000_0000_0000_0000_0000) by (nonlinear_arith)
                requires
                    0 <= m <= MASS_SUM_CAP,
                    -0x200_0000_0000 <= dx <= 0x200_0000_0000,
                    -0x200_0000_0000 <= dy <= 0x200_0000_0000,
                    MASS_SUM_CAP == 0x4000_0000_0000_0000,
            ;
        }
        let numx: i128 = (m as i128) * dx * 1_000_000;
        let numy: i128 = (m as i128) * dy * 1_000_000;
        let qx: i128 = tdiv_i128(numx, d3);
        let qy: i128 = tdiv_i128(numy, d3);
        let rx = crate::math::clamp_i64(i64::MIN, i64::MAX, qx);
        let ry = crate::math::clamp_i64(i64::MIN, i64::MAX, qy);
        (rx, ry)
    }
}

} // verus!
