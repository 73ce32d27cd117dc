//! Barnes-Hut algorithm: tree-accelerated force evaluation.
use vstd::prelude::*;

use crate::math::{
    clamp_i64, clamp_spec, DT_LIMIT, MASS_LIMIT, MASS_SUM_CAP, THETA_LIMIT,
};
use crate::msum::{lemma_len_le_msum, lemma_msum_insert, msum};
use crate::nbody::accel::{accel_term, accel_term_x, accel_term_y};
use crate::nbody::direct::{direct_sum_x, direct_sum_y};
use crate::nbody::simulation::{integrate_post, NBodySimulation};
use crate::quadtree::bb::BoundingBox2D;
use crate::quadtree::tree::{
    bh_nodes, built_leaves, eligible, lemma_bh_mass, lemma_of_point_com, lemma_theta_zero_exact,
    total_m, total_sx, total_sy, well_separated, Agg, MassQuadtree, MassQuadtreeIterator,
};
use crate::vector::Vector3D;

verus! {

use vstd::multiset::Multiset;

/// The X acceleration that a collection of aggregates exerts on the
/// query point: the sum of their contributions.
pub open spec fn bh_sum_x(nodes: Multiset<Agg>, xi: int, yi: int, min_d2: int) -> int {
    msum(nodes, |a: Agg| accel_term_x(a.m, a.cx(), a.cy(), xi, yi, min_d2))
}

/// The Y acceleration that a collection of aggregates exerts on the
/// query point.
pub open spec fn bh_sum_y(nodes: Multiset<Agg>, xi: int, yi: int, min_d2: int) -> int {
    msum(nodes, |a: Agg| accel_term_y(a.m, a.cx(), a.cy(), xi, yi, min_d2))
}

/// The simulation's domain box, as the quadtree's bounding box.
pub open spec fn domain_bb(s: NBodySimulation) -> BoundingBox2D {
    BoundingBox2D {
        min_x: s.config.min_r.x,
        max_x: s.config.max_r.x,
        min_y: s.config.min_r.y,
        max_y: s.config.max_r.y,
    }
}

/// `t` is the mass quadtree built over `pre`'s domain from `pre`'s
/// bodies: its root carries the exact totals of every contributing body
/// (positive mass, inside the domain), and when those bodies are pairwise
/// separated its leaves are exactly their aggregates.
pub open spec fn built_tree(pre: NBodySimulation, t: MassQuadtree) -> bool {
    &&& t.wf_in(domain_bb(pre))
    &&& t.m == total_m(pre.r@, pre.m@, domain_bb(pre), pre.n as int)
    &&& t.sx == total_sx(pre.r@, pre.m@, domain_bb(pre), pre.n as int)
    &&& t.sy == total_sy(pre.r@, pre.m@, domain_bb(pre), pre.n as int)
    &&& well_separated(pre.r@, pre.m@, domain_bb(pre)) ==> t.leaves() == built_leaves(
        pre.r@,
        pre.m@,
        domain_bb(pre),
        pre.n as int,
    )
}

/// `mid` is `pre` with every acceleration replaced by the Barnes-Hut
/// acceleration of the corresponding body: the sum of the contributions
/// of the admissible cut of `t` seen from that body, clamped into `i64`.
pub open spec fn bh_accels_set(
    pre: NBodySimulation,
    t: MassQuadtree,
    theta: int,
    mid: NBodySimulation,
) -> bool {
    &&& mid.wf()
    &&& mid.n == pre.n
    &&& mid.m@ == pre.m@
    &&& mid.r@ == pre.r@
    &&& mid.v@ == pre.v@
    &&& mid.config == pre.config
    &&& mid.rng == pre.rng
    &&& mid.a@.len() == pre.n
    &&& forall|i: int|
        0 <= i < pre.n ==> #[trigger] mid.a[i] == (Vector3D {
            x: clamp_spec(
                i64::MIN as int,
                i64::MAX as int,
                bh_sum_x(
                    bh_nodes(t, domain_bb(pre), pre.r[i].x as int, pre.r[i].y as int, theta),
                    pre.r[i].x as int,
                    pre.r[i].y as int,
                    pre.config.min_dist_sqrd as int,
                ),
            ) as i64,
            y: clamp_spec(
                i64::MIN as int,
                i64::MAX as int,
                bh_sum_y(
                    bh_nodes(t, domain_bb(pre), pre.r[i].x as int, pre.r[i].y as int, theta),
                    pre.r[i].x as int,
                    pre.r[i].y as int,
                    pre.config.min_dist_sqrd as int,
                ),
            ) as i64,
            z: 0,
        })
}

/// Runs a single timestep of the simulation using the Barnes-Hut
/// algorithm: a mass quadtree is built over the domain from the current
/// bodies, each body accumulates the contributions of the tree's
/// admissible cut for the configured accuracy `theta`, and the simulation
/// is integrated (with absorbed and escaped satellites recycled).
pub fn nbody_barnes_hut(sim: &mut NBodySimulation, dt: i64, theta: i64)
    requires
        old(sim).wf(),
        0 <= dt <= DT_LIMIT,
        0 <= theta <= THETA_LIMIT,
    ensures
        exists|t: MassQuadtree, mid: NBodySimulation|
            #[trigger] built_tree(*old(sim), t) && #[trigger] bh_accels_set(
                *old(sim),
                t,
                theta as int,
                mid,
            ) && integrate_post(mid, *final(sim), dt as int),
{
    let ghost pre = *old(sim);
    let bb = BoundingBox2D {
        min_x: sim.config.min_r.x,
        max_x: sim.config.max_r.x,
        min_y: sim.config.min_r.y,
        max_y: sim.config.max_r.y,
    };
    proof {
        assert(bb == domain_bb(pre));
        assert(bb.wf());
        assert forall|j: int| 0 <= j < sim.m.len() implies 0 <= #[trigger] sim.m[j]
            <= MASS_LIMIT by {
            assert(pre.body_ok(j));
        }
        assert(sim.config.min_dist_sqrd > 0) by (nonlinear_arith)
            requires
                sim.config.min_dist_sqrd == sim.config.min_dist * sim.config.min_dist,
                sim.config.min_dist > 0,
        ;
    }
    let tree = MassQuadtree::new(&sim.r, &sim.m, bb);
    let min_d2 = sim.config.min_dist_sqrd;
    let n = sim.n;
    let mut i: usize = 0;
    while i < n
        invariant
            pre.wf(),
            i <= n,
            n == pre.n,
            bb == domain_bb(pre),
            bb.wf(),
            tree.wf_in(bb),
            built_tree(pre, tree),
            0 <= theta <= THETA_LIMIT,
            min_d2 == pre.config.min_dist_sqrd,
            min_d2 > 0,
            sim.n == pre.n,
            sim.config == pre.config,
            sim.rng == pre.rng,
            sim.m@ == pre.m@,
            sim.r@ == pre.r@,
            sim.v@ == pre.v@,
            sim.a.len() == n,
            sim.wf(),
            forall|k: int|
                0 <= k < i ==> #[trigger] sim.a[k] == (Vector3D {
                    x: clamp_spec(
                        i64::MIN as int,
                        i64::MAX as int,
                        bh_sum_x(
                            bh_nodes(tree, bb, pre.r[k].x as int, pre.r[k].y as int, theta as int),
                            pre.r[k].x as int,
                            pre.r[k].y as int,
                            min_d2 as int,
                        ),
                    ) as i64,
                    y: clamp_spec(
                        i64::MIN as int,
                        i64::MAX as int,
                        bh_sum_y(
                            bh_nodes(tree, bb, pre.r[k].x as int, pre.r[k].y as int, theta as int),
                            pre.r[k].x as int,
                            pre.r[k].y as int,
                            min_d2 as int,
                        ),
                    ) as i64,
                    z: 0,
                }),
        decreases n - i,
    {
        proof {
            assert(pre.body_ok(i as int));
        }
        let xi = sim.r[i].x;
        let yi = sim.r[i].y;
        let ghost cut = bh_nodes(tree, bb, xi as int, yi as int, theta as int);
        let ghost fx = |a: Agg| accel_term_x(a.m, a.cx(), a.cy(), xi as int, yi as int, min_d2 as int);
        let ghost fy = |a: Agg| accel_term_y(a.m, a.cx(), a.cy(), xi as int, yi as int, min_d2 as int);
        proof {
            lemma_bh_mass(tree, bb, xi as int, yi as int, theta as int);
            lemma_len_le_msum(cut, |a: Agg| a.m);
            assert(cut.len() <= MASS_SUM_CAP);
        }
        let mut it = MassQuadtreeIterator::new(xi, yi, theta, &tree, bb);
        let mut ax: i128 = 0;
        let mut ay: i128 = 0;
        loop
            invariant
                it.inv(),
                it.x == xi && it.y == yi && it.theta == theta,
                it.total@ == cut,
                cut.len() <= MASS_SUM_CAP,
                min_d2 > 0,
                -0x8000_0000_0000_0000 * it.covered@.len() <= ax <= 0x8000_0000_0000_0000 * (
                it.covered@.len() as int),
                -0x8000_0000_0000_0000 * it.covered@.len() <= ay <= 0x8000_0000_0000_0000 * (
                it.covered@.len() as int),
                it.covered@.len() <= cut.len(),
                ax == msum(it.covered@, fx),
                ay == msum(it.covered@, fy),
                fx == (|a: Agg|
                    accel_term_x(a.m, a.cx(), a.cy(), xi as int, yi as int, min_d2 as int)),
                fy == (|a: Agg|
                    accel_term_y(a.m, a.cx(), a.cy(), xi as int, yi as int, min_d2 as int)),
                -0x200_0000_0000 <= xi <= 0x200_0000_0000,
                -0x200_0000_0000 <= yi <= 0x200_0000_0000,
            ensures
                ax == msum(cut, fx),
                ay == msum(cut, fy),
            decreases cut.len() - it.covered@.len(),
        {
            broadcast use vstd::multiset::group_multiset_axioms;

            let ghost covered0 = it.covered@;
            let nxt = it.next();
            match nxt {
                Some(node) => {
                    let cx = node.com_x();
                    let cy = node.com_y();
                    let t = accel_term(node.m, cx, cy, xi, yi, min_d2);
                    proof {
                        lemma_msum_insert(covered0, fx, node.agg());
                        lemma_msum_insert(covered0, fy, node.agg());
                        assert(covered0.insert(node.agg()).len() == covered0.len() + 1);
                        assert(it.covered@.len() <= cut.len()) by {
                            assert(it.total@ == it.covered@.add(
                                crate::quadtree::tree::stack_nodes(
                                    it.stack@,
                                    it.x as int,
                                    it.y as int,
                                    it.theta as int,
                                ),
                            ));
                        }
                        assert(0x8000_0000_0000_0000 * (it.covered@.len() as int)
                            == 0x8000_0000_0000_0000 * (covered0.len() as int)
                            + 0x8000_0000_0000_0000) by (nonlinear_arith)
                            requires
                                it.covered@.len() == covered0.len() + 1,
                        ;
                        assert(0x8000_0000_0000_0000 * (it.covered@.len() as int)
                            <= 0x8000_0000_0000_0000 * MASS_SUM_CAP) by (nonlinear_arith)
                            requires
                                it.covered@.len() <= MASS_SUM_CAP,
                        ;
                    }
                    ax = ax + (t.0 as i128);
                    ay = ay + (t.1 as i128);
                },
                None => {
                    break ;
                },
            }
        }
        let ghost prei = *sim;
        let av = Vector3D {
            x: clamp_i64(i64::MIN, i64::MAX, ax),
            y: clamp_i64(i64::MIN, i64::MAX, ay),
            z: 0,
        };
        sim.a.set(i, av);
        proof {
            assert forall|k: int| 0 <= k < sim.n implies sim.body_ok(k) by {
                assert(prei.body_ok(k));
            }
        }
        i = i + 1;
    }
    let ghost mid = *sim;
    sim.integrate(dt);
    proof {
        assert(built_tree(pre, tree) && bh_accels_set(pre, tree, theta as int, mid)
            && integrate_post(mid, *final(sim), dt as int));
    }
}

/// With every body contributing (positive mass, inside the domain,
/// pairwise separated) and `theta == 0`, the Barnes-Hut cut sum equals
/// the all-pairs sum exactly, for every query point: the approximation
/// degenerates to the direct algorithm.
pub proof fn lemma_theta_zero_is_direct(
    ms: Seq<i64>,
    rs: Seq<Vector3D>,
    t: MassQuadtree,
    bb: BoundingBox2D,
    xi: int,
    yi: int,
    min_d2: int,
)
    requires
        bb.wf(),
        t.wf_in(bb),
        ms.len() == rs.len(),
        t.leaves() == built_leaves(rs, ms, bb, rs.len() as int),
        forall|j: int| 0 <= j < rs.len() ==> #[trigger] eligible(rs, ms, bb, j),
    ensures
        bh_sum_x(bh_nodes(t, bb, xi, yi, 0), xi, yi, min_d2) == direct_sum_x(
            ms,
            rs,
            xi,
            yi,
            min_d2,
            rs.len() as int,
        ),
        bh_sum_y(bh_nodes(t, bb, xi, yi, 0), xi, yi, min_d2) == direct_sum_y(
            ms,
            rs,
            xi,
            yi,
            min_d2,
            rs.len() as int,
        ),
{
    lemma_theta_zero_exact(t, bb, xi, yi);
    lemma_built_term_sum(ms, rs, bb, xi, yi, min_d2, rs.len() as int);
}

/// The crate-level form of the degeneration law: over a simulation whose
/// bodies all contribute (positive mass, inside the domain) and are
/// pairwise separated, an acceleration pass of the Barnes-Hut evaluator
/// with `theta == 0` stores exactly the accelerations of the direct
/// (all-pairs) evaluator, body for body.
pub proof fn lemma_bh_zero_accels_are_direct(
    pre: NBodySimulation,
    t: MassQuadtree,
    mid_d: NBodySimulation,
    mid_b: NBodySimulation,
)
    requires
        pre.wf(),
        built_tree(pre, t),
        well_separated(pre.r@, pre.m@, domain_bb(pre)),
        forall|j: int| 0 <= j < pre.n ==> #[trigger] eligible(pre.r@, pre.m@, domain_bb(pre), j),
        crate::nbody::direct::direct_accels_set(pre, mid_d),
        bh_accels_set(pre, t, 0, mid_b),
    ensures
        forall|i: int| 0 <= i < pre.n ==> #[trigger] mid_b.a[i] == mid_d.a[i],
{
    let bb = domain_bb(pre);
    assert forall|i: int| 0 <= i < pre.n implies #[trigger] mid_b.a[i] == mid_d.a[i] by {
        lemma_theta_zero_is_direct(
            pre.m@,
            pre.r@,
            t,
            bb,
            pre.r[i].x as int,
            pre.r[i].y as int,
            pre.config.min_dist_sqrd as int,
        );
    }
}

/// The term sum over the aggregates of the first `n` bodies equals the
/// direct sum over those bodies.
proof fn lemma_built_term_sum(
    ms: Seq<i64>,
    rs: Seq<Vector3D>,
    bb: BoundingBox2D,
    xi: int,
    yi: int,
    min_d2: int,
    n: int,
)
    requires
        ms.len() == rs.len(),
        0 <= n <= rs.len(),
        forall|j: int| 0 <= j < rs.len() ==> #[trigger] eligible(rs, ms, bb, j),
    ensures
        bh_sum_x(built_leaves(rs, ms, bb, n), xi, yi, min_d2) == direct_sum_x(
            ms,
            rs,
            xi,
            yi,
            min_d2,
            n,
        ),
        bh_sum_y(built_leaves(rs, ms, bb, n), xi, yi, min_d2) == direct_sum_y(
            ms,
            rs,
            xi,
            yi,
            min_d2,
            n,
        ),
    decreases n,
{
    let fx = |a: Agg| accel_term_x(a.m, a.cx(), a.cy(), xi, yi, min_d2);
    let fy = |a: Agg| accel_term_y(a.m, a.cx(), a.cy(), xi, yi, min_d2);
    if n <= 0 {
        assert(Multiset::<Agg>::empty().len() == 0);
    } else {
        lemma_built_term_sum(ms, rs, bb, xi, yi, min_d2, n - 1);
        assert(eligible(rs, ms, bb, n - 1));
        let a = Agg::of_point(rs[n - 1].x as int, rs[n - 1].y as int, ms[n - 1] as int);
        lemma_of_point_com(rs[n - 1].x as int, rs[n - 1].y as int, ms[n - 1] as int);
        lemma_msum_insert(built_leaves(rs, ms, bb, n - 1), fx, a);
        lemma_msum_insert(built_leaves(rs, ms, bb, n - 1), fy, a);
        assert(fx(a) == accel_term_x(ms[n - 1] as int, rs[n - 1].x as int, rs[n - 1].y as int, xi, yi, min_d2));
    }
}

} // verus!
