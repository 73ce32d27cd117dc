//! Direct algorithm using all-pairs force accumulation.
use vstd::prelude::*;

use crate::math::{clamp_i64, clamp_spec, DT_LIMIT, MASS_LIMIT, MASS_SUM_CAP, N_LIMIT};
use crate::nbody::accel::{accel_term, accel_term_x, accel_term_y};
use crate::nbody::simulation::{integrate_post, NBodySimulation};
use crate::vector::Vector3D;

verus! {

/// The exact (unclamped) X acceleration on the query point `(xi, yi)`
/// from the first `n` bodies: the sum of every body's contribution.
/// A body at the query point itself contributes nothing (its squared
/// distance is zero), which stands in for the self-interaction guard.
pub open spec fn direct_sum_x(
    ms: Seq<i64>,
    rs: Seq<Vector3D>,
    xi: int,
    yi: int,
    min_d2: int,
    n: int,
) -> int
    decreases n,
{
    if n <= 0 {
        0
    } else {
        direct_sum_x(ms, rs, xi, yi, min_d2, n - 1) + accel_term_x(
            ms[n - 1] as int,
            rs[n - 1].x as int,
            rs[n - 1].y as int,
            xi,
            yi,
            min_d2,
        )
    }
}

/// The exact (unclamped) Y acceleration on the query point.
pub open spec fn direct_sum_y(
    ms: Seq<i64>,
    rs: Seq<Vector3D>,
    xi: int,
    yi: int,
    min_d2: int,
    n: int,
) -> int
    decreases n,
{
    if n <= 0 {
        0
    } else {
        direct_sum_y(ms, rs, xi, yi, min_d2, n - 1) + accel_term_y(
            ms[n - 1] as int,
            rs[n - 1].x as int,
            rs[n - 1].y as int,
            xi,
            yi,
            min_d2,
        )
    }
}

/// The stored X acceleration: the exact sum clamped into `i64`.
pub open spec fn direct_ax(ms: Seq<i64>, rs: Seq<Vector3D>, xi: int, yi: int, min_d2: int, n: int) -> int {
    clamp_spec(i64::MIN as int, i64::MAX as int, direct_sum_x(ms, rs, xi, yi, min_d2, n))
}

/// The stored Y acceleration: the exact sum clamped into `i64`.
pub open spec fn direct_ay(ms: Seq<i64>, rs: Seq<Vector3D>, xi: int, yi: int, min_d2: int, n: int) -> int {
    clamp_spec(i64::MIN as int, i64::MAX as int, direct_sum_y(ms, rs, xi, yi, min_d2, n))
}

/// `mid` is `pre` with every acceleration replaced by the all-pairs
/// gravitational acceleration of the corresponding body.
pub open spec fn direct_accels_set(pre: NBodySimulation, mid: NBodySimulation) -> bool {
    &&& mid.wf()
    &&& mid.n == pre.n
    &&& mid.m@ == pre.m@
    &&& mid.r@ == pre.r@
    &&& mid.v@ == pre.v@
    &&& mid.config == pre.config
    &&& mid.rng == pre.rng
    &&& mid.a@.len() == pre.n
    &&& forall|i: int|
        0 <= i < pre.n ==> #[trigger] mid.a[i] == (Vector3D {
            x: direct_ax(
                pre.m@,
                pre.r@,
                pre.r[i].x as int,
                pre.r[i].y as int,
                pre.config.min_dist_sqrd as int,
                pre.n as int,
            ) as i64,
            y: direct_ay(
                pre.m@,
                pre.r@,
                pre.r[i].x as int,
                pre.r[i].y as int,
                pre.config.min_dist_sqrd as int,
                pre.n as int,
            ) as i64,
            z: 0,
        })
}

/// Computes into every slot the net all-pairs acceleration on that body.
pub fn compute_direct_accels(sim: &mut NBodySimulation)
    requires
        old(sim).wf(),
    ensures
        direct_accels_set(*old(sim), *final(sim)),
{
    let ghost pre = *old(sim);
    let n = sim.n;
    let min_d2 = sim.config.min_dist_sqrd;
    proof {
        assert(min_d2 > 0) by (nonlinear_arith)
            requires
                min_d2 == pre.config.min_dist * pre.config.min_dist,
                pre.config.min_dist > 0,
        ;
    }
    let mut i: usize = 0;
    while i < n
        invariant
            pre.wf(),
            i <= n,
            n == pre.n,
            min_d2 == pre.config.min_dist_sqrd,
            min_d2 > 0,
            sim.n == pre.n,
            sim.config == pre.config,
            sim.rng == pre.rng,
            sim.m@ == pre.m@,
            sim.r@ == pre.r@,
            sim.v@ == pre.v@,
            sim.a.len() == n,
            sim.wf(),
            forall|k: int|
                0 <= k < i ==> #[trigger] sim.a[k] == (Vector3D {
                    x: direct_ax(
                        pre.m@,
                        pre.r@,
                        pre.r[k].x as int,
                        pre.r[k].y as int,
                        min_d2 as int,
                        n as int,
                    ) as i64,
                    y: direct_ay(
                        pre.m@,
                        pre.r@,
                        pre.r[k].x as int,
                        pre.r[k].y as int,
                        min_d2 as int,
                        n as int,
                    ) as i64,
                    z: 0,
                }),
        decreases n - i,
    {
        proof {
            assert(pre.body_ok(i as int));
        }
        let xi = sim.r[i].x;
        let yi = sim.r[i].y;
        let mut ax: i128 = 0;
        let mut ay: i128 = 0;
        let mut j: usize = 0;
        while j < n
            invariant
                pre.wf(),
                j <= n,
                n == pre.n,
                min_d2 > 0,
                sim.m@ == pre.m@,
                sim.r@ == pre.r@,
                0 <= i < n,
                xi == pre.r[i as int].x,
                yi == pre.r[i as int].y,
                ax == direct_sum_x(pre.m@, pre.r@, xi as int, yi as int, min_d2 as int, j as int),
                ay == direct_sum_y(pre.m@, pre.r@, xi as int, yi as int, min_d2 as int, j as int),
                -(j as int) * 0x8000_0000_0000_0000 <= ax <= (j as int) * 0x8000_0000_0000_0000,
                -(j as int) * 0x8000_0000_0000_0000 <= ay <= (j as int) * 0x8000_0000_0000_0000,
            decreases n - j,
        {
            proof {
                assert(pre.body_ok(j as int));
                assert(pre.body_ok(i as int));
                assert(((j as int) + 1) * 0x8000_0000_0000_0000 == (j as int)
                    * 0x8000_0000_0000_0000 + 0x8000_0000_0000_0000) by (nonlinear_arith);
                assert(((j as int) + 1) * 0x8000_0000_0000_0000 <= (N_LIMIT as int)
                    * 0x8000_0000_0000_0000) by (nonlinear_arith)
                    requires
                        (j as int) + 1 <= N_LIMIT as int,
                ;
            }
            let t = accel_term(sim.m[j], sim.r[j].x, sim.r[j].y, xi, yi, min_d2);
            ax = ax + (t.0 as i128);
            ay = ay + (t.1 as i128);
            j = j + 1;
        }
        let ghost prei = *sim;
        let av = Vector3D { x: clamp_i64(i64::MIN, i64::MAX, ax), y: clamp_i64(i64::MIN, i64::MAX, ay), z: 0 };
        sim.a.set(i, av);
        proof {
            assert forall|k: int| 0 <= k < sim.n implies sim.body_ok(k) by {
                assert(prei.body_ok(k));
            }
        }
        i = i + 1;
    }
}

/// Runs a single timestep of the simulation using the all-pairs
/// calculation: the net acceleration of every body is computed from all
/// other mass, then velocity and position are integrated (with absorbed
/// and escaped satellites recycled).
pub fn nbody_direct(sim: &mut NBodySimulation, dt: i64)
    requires
        old(sim).wf(),
        0 <= dt <= DT_LIMIT,
    ensures
        exists|mid: NBodySimulation|
            #[trigger] direct_accels_set(*old(sim), mid) && integrate_post(
                mid,
                *final(sim),
                dt as int,
            ),
{
    let ghost pre = *old(sim);
    compute_direct_accels(sim);
    let ghost mid = *sim;
    sim.integrate(dt);
    proof {
        assert(direct_accels_set(pre, mid) && integrate_post(mid, *final(sim), dt as int));
    }
}

} // verus!
