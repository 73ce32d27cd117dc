//! Quadtree that keeps track of centers of mass.
//!
//! Every node stores the total mass of its subtree together with the exact
//! mass-weighted coordinate sums, so the center of mass is the stored sum
//! divided by the stored mass and no precision is lost on the way up the
//! tree.  Aggregation is therefore exact: a node's numbers are always the
//! componentwise totals over the points inserted below it, whatever the
//! insertion order.
use vstd::prelude::*;

use crate::math::{
    lemma_div_bounds, lemma_div_ge_mul, lemma_div_le_mul, tdiv_i128, COORD_LIMIT,
    MASS_LIMIT, MASS_SUM_CAP, N_LIMIT, SCALE, THETA_LIMIT,
};
use crate::msum::{lemma_msum_add, lemma_msum_insert, lemma_seq_sum_is_msum, msum, seq_sum};
use crate::vector::Vector3D;
use crate::quadtree::bb::{lemma_child_contains, lemma_child_shrinks, lemma_child_sub, BoundingBox2D};

verus! {

use vstd::multiset::Multiset;

/// Two points whose coordinates both differ by less than this many
/// milli-units (0.002 domain units) are merged into one aggregate
/// pseudo-body instead of splitting cells forever.  The merge bounds the
/// depth of the tree on coincident input.
pub const EPSILON: i64 = 2;

/// The aggregate that a (sub)tree carries: total mass `m` and the exact
/// mass-weighted coordinate sums `sx`, `sy`.  The center of mass is
/// `(sx / m, sy / m)`.
pub ghost struct Agg {
    pub sx: int,
    pub sy: int,
    pub m: int,
}

impl Agg {
    /// Center-of-mass X coordinate, rounded down.
    pub open spec fn cx(self) -> int {
        self.sx / self.m
    }

    /// Center-of-mass Y coordinate, rounded down.
    pub open spec fn cy(self) -> int {
        self.sy / self.m
    }

    /// The aggregate of a single point of mass `m` at `(x, y)`.
    pub open spec fn of_point(x: int, y: int, m: int) -> Agg {
        Agg { sx: m * x, sy: m * y, m }
    }
}

/// Definition of the mass quadtree.
pub struct MassQuadtree {
    /// Mass-weighted X coordinate sum over the subtree.
    pub sx: i128,
    /// Mass-weighted Y coordinate sum over the subtree.
    pub sy: i128,
    /// Total mass of the subtree; 0 only for an empty root.
    pub m: i64,
    /// Child subtree of quadrant 0 (low x, low y).
    pub c0: Option<Box<MassQuadtree>>,
    /// Child subtree of quadrant 1 (high x, low y).
    pub c1: Option<Box<MassQuadtree>>,
    /// Child subtree of quadrant 2 (low x, high y).
    pub c2: Option<Box<MassQuadtree>>,
    /// Child subtree of quadrant 3 (high x, high y).
    pub c3: Option<Box<MassQuadtree>>,
}

/// The leaf aggregates of an optional subtree.
pub open spec fn opt_leaves(c: Option<Box<MassQuadtree>>) -> Multiset<Agg>
    decreases c,
{
    match c {
        Option::None => Multiset::empty(),
        Option::Some(t) => t.leaves(),
    }
}

/// The mass of an optional subtree.
pub open spec fn opt_m(c: Option<Box<MassQuadtree>>) -> int {
    match c {
        Option::None => 0,
        Option::Some(t) => t.m as int,
    }
}

/// The weighted X sum of an optional subtree.
pub open spec fn opt_sx(c: Option<Box<MassQuadtree>>) -> int {
    match c {
        Option::None => 0,
        Option::Some(t) => t.sx as int,
    }
}

/// The weighted Y sum of an optional subtree.
pub open spec fn opt_sy(c: Option<Box<MassQuadtree>>) -> int {
    match c {
        Option::None => 0,
        Option::Some(t) => t.sy as int,
    }
}

/// Well-formedness of an optional subtree in its cell.
pub open spec fn opt_wf(c: Option<Box<MassQuadtree>>, bb: BoundingBox2D) -> bool
    decreases c,
{
    match c {
        Option::None => true,
        Option::Some(t) => t.m > 0 && t.wf_in(bb),
    }
}

impl MassQuadtree {
    /// The node's own aggregate.
    pub open spec fn agg(self) -> Agg {
        Agg { sx: self.sx as int, sy: self.sy as int, m: self.m as int }
    }

    /// True iff all four child slots are empty.
    pub open spec fn is_leaf_spec(self) -> bool {
        &&& self.c0 is None
        &&& self.c1 is None
        &&& self.c2 is None
        &&& self.c3 is None
    }

    /// The child slot of a quadrant.
    pub open spec fn child_at(self, q: int) -> Option<Box<MassQuadtree>> {
        if q == 0 {
            self.c0
        } else if q == 1 {
            self.c1
        } else if q == 2 {
            self.c2
        } else {
            self.c3
        }
    }

    /// The multiset of leaf aggregates of this subtree.  This is the
    /// mathematical content of the tree: every inserted point lands in
    /// exactly one leaf aggregate.
    pub open spec fn leaves(self) -> Multiset<Agg>
        decreases self,
    {
        if self.m == 0 {
            Multiset::empty()
        } else if self.is_leaf_spec() {
            Multiset::empty().insert(self.agg())
        } else {
            opt_leaves(self.c0).add(opt_leaves(self.c1)).add(opt_leaves(self.c2)).add(
                opt_leaves(self.c3),
            )
        }
    }

    /// Well-formedness of the subtree inside the cell `bb`:
    /// an empty node carries zero sums; a leaf's weighted sums lie between
    /// the cell borders scaled by its mass (so its center of mass is inside
    /// the cell); an inner node's numbers are exactly the totals over its
    /// children, each child being nonempty and well-formed in its sub-cell.
    pub open spec fn wf_in(self, bb: BoundingBox2D) -> bool
        decreases self,
    {
        if self.m == 0 {
            self.is_leaf_spec() && self.sx == 0 && self.sy == 0
        } else if self.is_leaf_spec() {
            &&& 0 < self.m <= MASS_SUM_CAP
            &&& self.m * bb.min_x <= self.sx <= self.m * bb.max_x
            &&& self.m * bb.min_y <= self.sy <= self.m * bb.max_y
        } else {
            &&& 0 < self.m <= MASS_SUM_CAP
            &&& opt_wf(self.c0, bb.child_spec(0))
            &&& opt_wf(self.c1, bb.child_spec(1))
            &&& opt_wf(self.c2, bb.child_spec(2))
            &&& opt_wf(self.c3, bb.child_spec(3))
            &&& self.m == opt_m(self.c0) + opt_m(self.c1) + opt_m(self.c2) + opt_m(self.c3)
            &&& self.sx == opt_sx(self.c0) + opt_sx(self.c1) + opt_sx(self.c2) + opt_sx(self.c3)
            &&& self.sy == opt_sy(self.c0) + opt_sy(self.c1) + opt_sy(self.c2) + opt_sy(self.c3)
        }
    }

    /// Constructs an empty tree (the zero-mass sentinel).
    pub fn empty() -> (r: Self)
        ensures
            r.m == 0,
            r.sx == 0,
            r.sy == 0,
            r.is_leaf_spec(),
            r.leaves() =~= Multiset::<Agg>::empty(),
            forall|bb: BoundingBox2D| r.wf_in(bb),
    {
        let r = Self { sx: 0, sy: 0, m: 0, c0: None, c1: None, c2: None, c3: None };
        proof {
            assert(r.leaves() =~= Multiset::<Agg>::empty());
        }
        r
    }

    /// Checks if this node is a leaf.
    pub fn is_leaf(&self) -> (r: bool)
        ensures
            r == self.is_leaf_spec(),
    {
        self.c0.is_none() && self.c1.is_none() && self.c2.is_none() && self.c3.is_none()
    }

    /// The center-of-mass X coordinate: the exact weighted sum divided by
    /// the total mass.
    pub fn com_x(&self) -> (r: i64)
        requires
            self.m > 0,
            0 <= self.sx <= self.m * COORD_LIMIT,
        ensures
            r == self.agg().cx(),
            0 <= r <= COORD_LIMIT,
    {
        proof {
            lemma_div_bounds(self.sx as int, self.m as int, 0, COORD_LIMIT as int);
        }
        tdiv_i128(self.sx, self.m as i128) as i64
    }

    /// The center-of-mass Y coordinate.
    pub fn com_y(&self) -> (r: i64)
        requires
            self.m > 0,
            0 <= self.sy <= self.m * COORD_LIMIT,
        ensures
            r == self.agg().cy(),
            0 <= r <= COORD_LIMIT,
    {
        proof {
            lemma_div_bounds(self.sy as int, self.m as int, 0, COORD_LIMIT as int);
        }
        tdiv_i128(self.sy, self.m as i128) as i64
    }

    /// Folds a point of mass `m` at `(x, y)` into this node's aggregate:
    /// the mass is added and the weighted sums absorb `m * x` and `m * y`,
    /// which is the exact form of the mass-weighted average update.
    pub fn update_com(&mut self, x: i64, y: i64, m: i64)
        requires
            0 <= x <= COORD_LIMIT,
            0 <= y <= COORD_LIMIT,
            0 <= m <= MASS_LIMIT,
            0 <= old(self).m,
            old(self).m + m <= MASS_SUM_CAP,
            0 <= old(self).sx <= old(self).m * COORD_LIMIT,
            0 <= old(self).sy <= old(self).m * COORD_LIMIT,
        ensures
            final(self).sx == old(self).sx + m * x,
            final(self).sy == old(self).sy + m * y,
            final(self).m == old(self).m + m,
            final(self).c0 == old(self).c0,
            final(self).c1 == old(self).c1,
            final(self).c2 == old(self).c2,
            final(self).c3 == old(self).c3,
    {
        proof {
            let m0 = old(self).m as int;
            assert(m0 * COORD_LIMIT <= MASS_SUM_CAP * COORD_LIMIT) by (nonlinear_arith)
                requires
                    0 <= m0 <= MASS_SUM_CAP,
            ;
            assert(0 <= m * x <= MASS_LIMIT * COORD_LIMIT) by (nonlinear_arith)
                requires
                    0 <= m <= MASS_LIMIT,
                    0 <= x <= COORD_LIMIT,
            ;
            assert(0 <= m * y <= MASS_LIMIT * COORD_LIMIT) by (nonlinear_arith)
                requires
                    0 <= m <= MASS_LIMIT,
                    0 <= y <= COORD_LIMIT,
            ;
        }
        self.sx = self.sx + (m as i128) * (x as i128);
        self.sy = self.sy + (m as i128) * (y as i128);
        self.m = self.m + m;
    }

    /// Constructs a new leaf child under a node, carrying the aggregate
    /// `(sx, sy, m)`.
    pub fn new_child(&mut self, quadrant: usize, sx: i128, sy: i128, m: i64)
        requires
            quadrant < 4,
        ensures
            final(self).sx == old(self).sx,
            final(self).sy == old(self).sy,
            final(self).m == old(self).m,
            forall|j: int|
                0 <= j < 4 && j != quadrant ==> final(self).child_at(j) == old(self).child_at(j),
            final(self).child_at(quadrant as int) matches Some(t) && t.sx == sx && t.sy == sy
                && t.m == m && t.is_leaf_spec(),
    {
        let node = Box::new(
            MassQuadtree { sx, sy, m, c0: None, c1: None, c2: None, c3: None },
        );
        if quadrant == 0 {
            self.c0 = Some(node);
        } else if quadrant == 1 {
            self.c1 = Some(node);
        } else if quadrant == 2 {
            self.c2 = Some(node);
        } else {
            self.c3 = Some(node);
        }
    }
}

/// The point `(x, y)` is closer than [`EPSILON`] to the aggregate's center
/// of mass on both axes.
pub open spec fn eps_near(a: Agg, x: int, y: int) -> bool {
    &&& -EPSILON < a.cx() - x < EPSILON
    &&& -EPSILON < a.cy() - y < EPSILON
}

/// The point `(x, y)` is at least [`EPSILON`] away from every leaf
/// aggregate in `ls` on some axis, so inserting it merges with nothing.
pub open spec fn eps_clear(ls: Multiset<Agg>, x: int, y: int) -> bool {
    forall|a: Agg| #[trigger] ls.contains(a) ==> !eps_near(a, x, y)
}

/// A well-formed subtree's weighted sums lie between the cell borders
/// scaled by its mass; in particular they are nonnegative and at most the
/// mass times the coordinate limit.
pub proof fn lemma_wf_sum_bounds(t: MassQuadtree, bb: BoundingBox2D)
    requires
        t.wf_in(bb),
        bb.wf(),
    ensures
        0 <= t.m <= MASS_SUM_CAP,
        t.m * bb.min_x <= t.sx <= t.m * bb.max_x,
        t.m * bb.min_y <= t.sy <= t.m * bb.max_y,
        0 <= t.sx <= t.m * COORD_LIMIT,
        0 <= t.sy <= t.m * COORD_LIMIT,
    decreases t,
{
    if t.m == 0 {
        assert(t.m * bb.min_x == 0 && t.m * bb.max_x == 0 && t.m * bb.min_y == 0 && t.m
            * bb.max_y == 0) by (nonlinear_arith)
            requires
                t.m == 0,
        ;
    } else if t.is_leaf_spec() {
    } else {
        let (m0, x0, y0) = child_cell_bounds(t.c0, bb, 0);
        let (m1, x1, y1) = child_cell_bounds(t.c1, bb, 1);
        let (m2, x2, y2) = child_cell_bounds(t.c2, bb, 2);
        let (m3, x3, y3) = child_cell_bounds(t.c3, bb, 3);
        assert(t.m * bb.min_x <= t.sx <= t.m * bb.max_x) by (nonlinear_arith)
            requires
                m0 >= 0 && m1 >= 0 && m2 >= 0 && m3 >= 0,
                m0 * bb.min_x <= x0 <= m0 * bb.max_x,
                m1 * bb.min_x <= x1 <= m1 * bb.max_x,
                m2 * bb.min_x <= x2 <= m2 * bb.max_x,
                m3 * bb.min_x <= x3 <= m3 * bb.max_x,
                t.m == m0 + m1 + m2 + m3,
                t.sx == x0 + x1 + x2 + x3,
        ;
        assert(t.m * bb.min_y <= t.sy <= t.m * bb.max_y) by (nonlinear_arith)
            requires
                m0 >= 0 && m1 >= 0 && m2 >= 0 && m3 >= 0,
                m0 * bb.min_y <= y0 <= m0 * bb.max_y,
                m1 * bb.min_y <= y1 <= m1 * bb.max_y,
                m2 * bb.min_y <= y2 <= m2 * bb.max_y,
                m3 * bb.min_y <= y3 <= m3 * bb.max_y,
                t.m == m0 + m1 + m2 + m3,
                t.sy == y0 + y1 + y2 + y3,
        ;
    }
    assert(0 <= t.sx <= t.m * COORD_LIMIT && 0 <= t.sy <= t.m * COORD_LIMIT)
        by (nonlinear_arith)
        requires
            0 <= t.m,
            0 <= bb.min_x <= bb.max_x <= COORD_LIMIT,
            0 <= bb.min_y <= bb.max_y <= COORD_LIMIT,
            t.m * bb.min_x <= t.sx <= t.m * bb.max_x,
            t.m * bb.min_y <= t.sy <= t.m * bb.max_y,
    ;
}

/// One child's mass and sums, bounded by the parent cell borders.
proof fn child_cell_bounds(c: Option<Box<MassQuadtree>>, bb: BoundingBox2D, q: int) -> (r: (
    int,
    int,
    int,
))
    requires
        bb.wf(),
        opt_wf(c, bb.child_spec(q)),
    ensures
        r == (opt_m(c), opt_sx(c), opt_sy(c)),
        r.0 >= 0,
        r.0 * bb.min_x <= r.1 <= r.0 * bb.max_x,
        r.0 * bb.min_y <= r.2 <= r.0 * bb.max_y,
    decreases c,
{
    lemma_child_sub(bb, q);
    let cell = bb.child_spec(q);
    match c {
        Option::None => {
            (0int, 0int, 0int)
        },
        Option::Some(t) => {
            lemma_wf_sum_bounds(*t, cell);
            assert(t.m * bb.min_x <= t.sx <= t.m * bb.max_x && t.m * bb.min_y <= t.sy <= t.m
                * bb.max_y) by (nonlinear_arith)
                requires
                    t.m >= 0,
                    bb.min_x <= cell.min_x <= cell.max_x <= bb.max_x,
                    bb.min_y <= cell.min_y <= cell.max_y <= bb.max_y,
                    t.m * cell.min_x <= t.sx <= t.m * cell.max_x,
                    t.m * cell.min_y <= t.sy <= t.m * cell.max_y,
            ;
            (t.m as int, t.sx as int, t.sy as int)
        },
    }
}

/// A leaf aggregate that sits (by center of mass) in quadrant `pq` of `bb`
/// satisfies the scaled sum bounds of that sub-cell.
proof fn lemma_leaf_into_cell(lsx: int, lsy: int, lm: int, bb: BoundingBox2D, pq: int)
    requires
        bb.wf(),
        lm > 0,
        lm * bb.min_x <= lsx <= lm * bb.max_x,
        lm * bb.min_y <= lsy <= lm * bb.max_y,
        pq == bb.quadrant_spec(lsx / lm, lsy / lm),
    ensures
        lm * bb.child_spec(pq).min_x <= lsx <= lm * bb.child_spec(pq).max_x,
        lm * bb.child_spec(pq).min_y <= lsy <= lm * bb.child_spec(pq).max_y,
{
    let px = lsx / lm;
    let py = lsy / lm;
    let cx = bb.cx_spec();
    let cy = bb.cy_spec();
    let cell = bb.child_spec(pq);
    assert(cell.min_x == if px >= cx {
        cx
    } else {
        bb.min_x as int
    });
    assert(cell.max_x == if px >= cx {
        bb.max_x as int
    } else {
        cx
    });
    assert(cell.min_y == if py >= cy {
        cy
    } else {
        bb.min_y as int
    });
    assert(cell.max_y == if py >= cy {
        bb.max_y as int
    } else {
        cy
    });
    if px >= cx {
        lemma_div_ge_mul(lsx, lm, cx);
    } else {
        lemma_div_le_mul(lsx, lm, cx - 1);
        assert(lm * (cx - 1) + lm - 1 == lm * cx - 1) by (nonlinear_arith);
    }
    if py >= cy {
        lemma_div_ge_mul(lsy, lm, cy);
    } else {
        lemma_div_le_mul(lsy, lm, cy - 1);
        assert(lm * (cy - 1) + lm - 1 == lm * cy - 1) by (nonlinear_arith);
    }
}

impl MassQuadtree {
    /// Resolves a spatial collision: the existing leaf aggregate and the
    /// new point share a quadrant path, so cells are halved, single-child
    /// chain nodes carrying the combined aggregate are created, until the
    /// two fall into different quadrants and become siblings.
    fn split_chain(lsx: i128, lsy: i128, lm: i64, x: i64, y: i64, m: i64, bb: BoundingBox2D) -> (r:
        Self)
        requires
            bb.wf(),
            bb.contains(x as int, y as int),
            0 < lm <= MASS_SUM_CAP,
            lm * bb.min_x <= lsx <= lm * bb.max_x,
            lm * bb.min_y <= lsy <= lm * bb.max_y,
            0 < m <= MASS_LIMIT,
            lm + m <= MASS_SUM_CAP,
            !eps_near(Agg { sx: lsx as int, sy: lsy as int, m: lm as int }, x as int, y as int),
        ensures
            r.wf_in(bb),
            r.m == lm + m,
            r.sx == lsx + m * x,
            r.sy == lsy + m * y,
            r.leaves() =~= Multiset::empty().insert(
                Agg { sx: lsx as int, sy: lsy as int, m: lm as int },
            ).insert(Agg::of_point(x as int, y as int, m as int)),
        decreases bb.max_x - bb.min_x + bb.max_y - bb.min_y,
    {
        let ghost lagg = Agg { sx: lsx as int, sy: lsy as int, m: lm as int };
        proof {
            lemma_div_bounds(lsx as int, lm as int, bb.min_x as int, bb.max_x as int);
            lemma_div_bounds(lsy as int, lm as int, bb.min_y as int, bb.max_y as int);
            lemma_div_ge_mul(lsx as int, lm as int, 0);
            lemma_div_ge_mul(lsy as int, lm as int, 0);
            assert(lm * 0 == 0) by (nonlinear_arith);
        }
        let px: i64 = tdiv_i128(lsx, lm as i128) as i64;
        let py: i64 = tdiv_i128(lsy, lm as i128) as i64;
        let q: usize = bb.quadrant(x, y);
        let pq: usize = bb.quadrant(px, py);
        proof {
            assert(0 <= (m as int) * (x as int) <= MASS_LIMIT * COORD_LIMIT) by (nonlinear_arith)
                requires
                    0 <= m <= MASS_LIMIT,
                    0 <= x <= COORD_LIMIT,
            ;
            assert(0 <= (m as int) * (y as int) <= MASS_LIMIT * COORD_LIMIT) by (nonlinear_arith)
                requires
                    0 <= m <= MASS_LIMIT,
                    0 <= y <= COORD_LIMIT,
            ;
            assert(0 <= lsx <= MASS_SUM_CAP * COORD_LIMIT && 0 <= lsy <= MASS_SUM_CAP
                * COORD_LIMIT) by (nonlinear_arith)
                requires
                    0 < lm <= MASS_SUM_CAP,
                    0 <= bb.min_x <= bb.max_x <= COORD_LIMIT,
                    0 <= bb.min_y <= bb.max_y <= COORD_LIMIT,
                    lm * bb.min_x <= lsx <= lm * bb.max_x,
                    lm * bb.min_y <= lsy <= lm * bb.max_y,
            ;
        }
        let nsx: i128 = lsx + (m as i128) * (x as i128);
        let nsy: i128 = lsy + (m as i128) * (y as i128);
        let nm: i64 = lm + m;
        if q != pq {
            let mut node = Self { sx: nsx, sy: nsy, m: nm, c0: None, c1: None, c2: None, c3: None };
            node.new_child(pq, lsx, lsy, lm);
            node.new_child(q, (m as i128) * (x as i128), (m as i128) * (y as i128), m);
            proof {
                lemma_leaf_into_cell(lsx as int, lsy as int, lm as int, bb, pq as int);
                lemma_child_contains(bb, x as int, y as int);
                let qcell = bb.child_spec(q as int);
                assert((m as int) * qcell.min_x <= (m as int) * (x as int) <= (m as int)
                    * qcell.max_x) by (nonlinear_arith)
                    requires
                        m >= 0,
                        qcell.min_x <= x <= qcell.max_x,
                ;
                assert((m as int) * qcell.min_y <= (m as int) * (y as int) <= (m as int)
                    * qcell.max_y) by (nonlinear_arith)
                    requires
                        m >= 0,
                        qcell.min_y <= y <= qcell.max_y,
                ;
                assert(opt_wf(node.child_at(0), bb.child_spec(0)));
                assert(opt_wf(node.child_at(1), bb.child_spec(1)));
                assert(opt_wf(node.child_at(2), bb.child_spec(2)));
                assert(opt_wf(node.child_at(3), bb.child_spec(3)));
                assert(node.wf_in(bb));
                let lnode = node.child_at(pq as int)->Some_0;
                let pnode = node.child_at(q as int)->Some_0;
                assert(lnode.leaves() =~= Multiset::empty().insert(lagg));
                assert(pnode.leaves() =~= Multiset::empty().insert(
                    Agg::of_point(x as int, y as int, m as int),
                ));
                assert(node.leaves() =~= Multiset::empty().insert(lagg).insert(
                    Agg::of_point(x as int, y as int, m as int),
                ));
            }
            node
        } else {
            proof {
                lemma_child_contains(bb, x as int, y as int);
                lemma_child_contains(bb, lsx as int / lm as int, lsy as int / lm as int);
                lemma_child_sub(bb, q as int);
                lemma_child_shrinks(bb, q as int);
                lemma_leaf_into_cell(lsx as int, lsy as int, lm as int, bb, q as int);
                let cell = bb.child_spec(q as int);
                let wx = bb.max_x - bb.min_x;
                let wy = bb.max_y - bb.min_y;
                let nwx = cell.max_x - cell.min_x;
                let nwy = cell.max_y - cell.min_y;
                if px - x >= EPSILON || x - px >= EPSILON {
                    assert(wx >= 2);
                } else {
                    assert(py - y >= EPSILON || y - py >= EPSILON);
                    assert(wy >= 2);
                }
                assert(nwx + nwy < wx + wy);
            }
            let cbb = bb.child(q);
            let child = Self::split_chain(lsx, lsy, lm, x, y, m, cbb);
            let mut node = Self { sx: nsx, sy: nsy, m: nm, c0: None, c1: None, c2: None, c3: None };
            let boxed = Box::new(child);
            if q == 0 {
                node.c0 = Some(boxed);
            } else if q == 1 {
                node.c1 = Some(boxed);
            } else if q == 2 {
                node.c2 = Some(boxed);
            } else {
                node.c3 = Some(boxed);
            }
            proof {
                assert(node.wf_in(bb));
                assert(node.leaves() =~= Multiset::empty().insert(lagg).insert(
                    Agg::of_point(x as int, y as int, m as int),
                ));
            }
            node
        }
    }
}

/// Leaves of a child slot are leaves of the parent, so a point clear of
/// all parent leaves is clear of all leaves of the child.
proof fn lemma_eps_clear_child(t: MassQuadtree, q: int, x: int, y: int)
    requires
        t.m > 0,
        !t.is_leaf_spec(),
        eps_clear(t.leaves(), x, y),
        0 <= q < 4,
    ensures
        eps_clear(opt_leaves(t.child_at(q)), x, y),
{
    broadcast use vstd::multiset::group_multiset_axioms;

    assert forall|a: Agg| #[trigger] opt_leaves(t.child_at(q)).contains(a) implies !eps_near(
        a,
        x,
        y,
    ) by {
        assert(t.leaves().count(a) >= opt_leaves(t.child_at(q)).count(a));
        assert(t.leaves().contains(a));
    }
}

/// Replacing one child slot by a slot whose aggregate grew by one point
/// grows the node's aggregate and leaf multiset by that point.
proof fn lemma_rebuild(
    prev: MassQuadtree,
    next: MassQuadtree,
    bb: BoundingBox2D,
    q: int,
    x: int,
    y: int,
    m: int,
)
    requires
        bb.wf(),
        prev.wf_in(bb),
        prev.m > 0,
        !prev.is_leaf_spec(),
        0 <= q < 4,
        0 < m,
        next.m == prev.m + m,
        next.m <= MASS_SUM_CAP,
        next.sx == prev.sx + m * x,
        next.sy == prev.sy + m * y,
        forall|j: int| 0 <= j < 4 && j != q ==> next.child_at(j) == prev.child_at(j),
        opt_wf(next.child_at(q), bb.child_spec(q)),
        opt_m(next.child_at(q)) == opt_m(prev.child_at(q)) + m,
        opt_sx(next.child_at(q)) == opt_sx(prev.child_at(q)) + m * x,
        opt_sy(next.child_at(q)) == opt_sy(prev.child_at(q)) + m * y,
    ensures
        next.wf_in(bb),
        opt_leaves(next.child_at(q)) =~= opt_leaves(prev.child_at(q)).insert(
            Agg::of_point(x, y, m),
        ) ==> next.leaves() =~= prev.leaves().insert(Agg::of_point(x, y, m)),
{
    broadcast use vstd::multiset::group_multiset_axioms;

    assert(next.child_at(0) == if q == 0 {
        next.child_at(q)
    } else {
        prev.child_at(0)
    });
    assert(next.child_at(1) == if q == 1 {
        next.child_at(q)
    } else {
        prev.child_at(1)
    });
    assert(next.child_at(2) == if q == 2 {
        next.child_at(q)
    } else {
        prev.child_at(2)
    });
    assert(next.child_at(3) == if q == 3 {
        next.child_at(q)
    } else {
        prev.child_at(3)
    });
    assert(opt_m(next.child_at(q)) > 0);
    assert(!next.is_leaf_spec());
    assert(next.wf_in(bb));
    if opt_leaves(next.child_at(q)) =~= opt_leaves(prev.child_at(q)).insert(
        Agg::of_point(x, y, m),
    ) {
        assert(next.leaves() =~= prev.leaves().insert(Agg::of_point(x, y, m)));
    }
}

impl MassQuadtree {
    /// Inserts a point into one child slot, creating the slot's leaf if it
    /// was empty.
    fn insert_into_child(
        c: Option<Box<MassQuadtree>>,
        x: i64,
        y: i64,
        m: i64,
        cbb: BoundingBox2D,
    ) -> (r: Option<Box<MassQuadtree>>)
        requires
            cbb.wf(),
            opt_wf(c, cbb),
            cbb.contains(x as int, y as int),
            0 < m <= MASS_LIMIT,
            opt_m(c) + m <= MASS_SUM_CAP,
        ensures
            r is Some,
            opt_wf(r, cbb),
            opt_m(r) == opt_m(c) + m,
            opt_sx(r) == opt_sx(c) + m * x,
            opt_sy(r) == opt_sy(c) + m * y,
            eps_clear(opt_leaves(c), x as int, y as int) ==> opt_leaves(r)
                =~= opt_leaves(c).insert(Agg::of_point(x as int, y as int, m as int)),
        decreases c,
    {
        match c {
            Option::None => {
                proof {
                    assert((m as int) * cbb.min_x <= (m as int) * (x as int) <= (m as int)
                        * cbb.max_x) by (nonlinear_arith)
                        requires
                            m >= 0,
                            cbb.min_x <= x <= cbb.max_x,
                    ;
                    assert((m as int) * cbb.min_y <= (m as int) * (y as int) <= (m as int)
                        * cbb.max_y) by (nonlinear_arith)
                        requires
                            m >= 0,
                            cbb.min_y <= y <= cbb.max_y,
                    ;
                    assert(0 <= (m as int) * (x as int) <= MASS_LIMIT * COORD_LIMIT)
                        by (nonlinear_arith)
                        requires
                            0 <= m <= MASS_LIMIT,
                            0 <= x <= COORD_LIMIT,
                    ;
                    assert(0 <= (m as int) * (y as int) <= MASS_LIMIT * COORD_LIMIT)
                        by (nonlinear_arith)
                        requires
                            0 <= m <= MASS_LIMIT,
                            0 <= y <= COORD_LIMIT,
                    ;
                }
                let node = MassQuadtree {
                    sx: (m as i128) * (x as i128),
                    sy: (m as i128) * (y as i128),
                    m,
                    c0: None,
                    c1: None,
                    c2: None,
                    c3: None,
                };
                proof {
                    broadcast use vstd::multiset::group_multiset_axioms;

                    assert(node.leaves() =~= Multiset::empty().insert(
                        Agg::of_point(x as int, y as int, m as int),
                    ));
                }
                Some(Box::new(node))
            },
            Option::Some(b) => {
                let t = *b;
                let t2 = t.inserted(x, y, m, cbb);
                Some(Box::new(t2))
            },
        }
    }

    /// Inserts a point of mass `m` at `(x, y)` into this subtree, whose
    /// cell is `bb`, returning the grown subtree.
    ///
    /// A zero mass is the "no body" sentinel and inserts nothing.  The
    /// result's aggregate always grows by exactly `(m * x, m * y, m)`; and
    /// when the point is [`EPSILON`]-separated from every existing leaf,
    /// the leaf multiset grows by exactly the new point, otherwise the
    /// point merges into the leaf it collided with.
    fn inserted(self, x: i64, y: i64, m: i64, bb: BoundingBox2D) -> (r: Self)
        requires
            bb.wf(),
            self.wf_in(bb),
            bb.contains(x as int, y as int),
            0 <= m <= MASS_LIMIT,
            self.m + m <= MASS_SUM_CAP,
        ensures
            r.wf_in(bb),
            m == 0 ==> r == self,
            m > 0 ==> r.m == self.m + m && r.sx == self.sx + m * x && r.sy == self.sy + m * y,
            m > 0 && eps_clear(self.leaves(), x as int, y as int) ==> r.leaves()
                =~= self.leaves().insert(Agg::of_point(x as int, y as int, m as int)),
        decreases self,
    {
        if m == 0 {
            return self;
        }
        if self.m == 0 {
            proof {
                broadcast use vstd::multiset::group_multiset_axioms;

                assert((m as int) * bb.min_x <= (m as int) * (x as int) <= (m as int) * bb.max_x
                    && (m as int) * bb.min_y <= (m as int) * (y as int) <= (m as int) * bb.max_y
                    && 0 <= (m as int) * (x as int) <= MASS_LIMIT * COORD_LIMIT && 0 <= (m as int)
                    * (y as int) <= MASS_LIMIT * COORD_LIMIT) by (nonlinear_arith)
                    requires
                        0 <= m <= MASS_LIMIT,
                        bb.min_x <= x <= bb.max_x,
                        bb.min_y <= y <= bb.max_y,
                        0 <= bb.min_x,
                        0 <= bb.min_y,
                        bb.max_x <= COORD_LIMIT,
                        bb.max_y <= COORD_LIMIT,
                ;
            }
            let r = Self {
                sx: (m as i128) * (x as i128),
                sy: (m as i128) * (y as i128),
                m,
                c0: None,
                c1: None,
                c2: None,
                c3: None,
            };
            proof {
                broadcast use vstd::multiset::group_multiset_axioms;

                assert(r.leaves() =~= self.leaves().insert(
                    Agg::of_point(x as int, y as int, m as int),
                ));
            }
            return r;
        }
        proof {
            lemma_wf_sum_bounds(self, bb);
        }
        if self.is_leaf() {
            let px = self.com_x();
            let py = self.com_y();
            let dx = px - x;
            let dy = py - y;
            proof {
                assert(0 <= (m as int) * (x as int) <= MASS_LIMIT * COORD_LIMIT && 0 <= (m as int)
                    * (y as int) <= MASS_LIMIT * COORD_LIMIT) by (nonlinear_arith)
                    requires
                        0 <= m <= MASS_LIMIT,
                        0 <= x <= COORD_LIMIT,
                        0 <= y <= COORD_LIMIT,
                ;
                assert(0 <= self.sx <= MASS_SUM_CAP * COORD_LIMIT && 0 <= self.sy <= MASS_SUM_CAP
                    * COORD_LIMIT) by (nonlinear_arith)
                    requires
                        0 <= self.m <= MASS_SUM_CAP,
                        0 <= self.sx <= self.m * COORD_LIMIT,
                        0 <= self.sy <= self.m * COORD_LIMIT,
                ;
            }
            if dx < EPSILON && dx > -EPSILON && dy < EPSILON && dy > -EPSILON {
                // The two points are coincident up to EPSILON: merge them
                // into one aggregate pseudo-body, keeping the exact sums.
                let r = Self {
                    sx: self.sx + (m as i128) * (x as i128),
                    sy: self.sy + (m as i128) * (y as i128),
                    m: self.m + m,
                    c0: None,
                    c1: None,
                    c2: None,
                    c3: None,
                };
                proof {
                    broadcast use vstd::multiset::group_multiset_axioms;

                    assert((self.m + m) * bb.min_x <= r.sx <= (self.m + m) * bb.max_x && (self.m
                        + m) * bb.min_y <= r.sy <= (self.m + m) * bb.max_y) by (nonlinear_arith)
                        requires
                            0 < m,
                            0 < self.m,
                            self.m * bb.min_x <= self.sx <= self.m * bb.max_x,
                            self.m * bb.min_y <= self.sy <= self.m * bb.max_y,
                            bb.min_x <= x <= bb.max_x,
                            bb.min_y <= y <= bb.max_y,
                            r.sx == self.sx + m * x,
                            r.sy == self.sy + m * y,
                    ;
                    assert(r.wf_in(bb));
                    assert(self.leaves().contains(self.agg()));
                    assert(eps_near(self.agg(), x as int, y as int));
                    assert(!eps_clear(self.leaves(), x as int, y as int));
                }
                r
            } else {
                proof {
                    assert(!eps_near(self.agg(), x as int, y as int));
                }
                let r = Self::split_chain(self.sx, self.sy, self.m, x, y, m, bb);
                proof {
                    broadcast use vstd::multiset::group_multiset_axioms;

                    assert(self.leaves() =~= Multiset::empty().insert(self.agg()));
                    assert(r.leaves() =~= self.leaves().insert(
                        Agg::of_point(x as int, y as int, m as int),
                    ));
                }
                r
            }
        } else {
            let q = bb.quadrant(x, y);
            let cbb = bb.child(q);
            proof {
                lemma_child_contains(bb, x as int, y as int);
                assert(0 <= (m as int) * (x as int) <= MASS_LIMIT * COORD_LIMIT && 0 <= (m as int)
                    * (y as int) <= MASS_LIMIT * COORD_LIMIT) by (nonlinear_arith)
                    requires
                        0 <= m <= MASS_LIMIT,
                        0 <= x <= COORD_LIMIT,
                        0 <= y <= COORD_LIMIT,
                ;
                assert(0 <= self.sx <= MASS_SUM_CAP * COORD_LIMIT && 0 <= self.sy <= MASS_SUM_CAP
                    * COORD_LIMIT) by (nonlinear_arith)
                    requires
                        0 <= self.m <= MASS_SUM_CAP,
                        0 <= self.sx <= self.m * COORD_LIMIT,
                        0 <= self.sy <= self.m * COORD_LIMIT,
                ;
            }
            let nsx: i128 = self.sx + (m as i128) * (x as i128);
            let nsy: i128 = self.sy + (m as i128) * (y as i128);
            let nm: i64 = self.m + m;
            let Self { sx: _, sy: _, m: _, c0, c1, c2, c3 } = self;
            let r = if q == 0 {
                let nc = Self::insert_into_child(c0, x, y, m, cbb);
                Self { sx: nsx, sy: nsy, m: nm, c0: nc, c1, c2, c3 }
            } else if q == 1 {
                let nc = Self::insert_into_child(c1, x, y, m, cbb);
                Self { sx: nsx, sy: nsy, m: nm, c0, c1: nc, c2, c3 }
            } else if q == 2 {
                let nc = Self::insert_into_child(c2, x, y, m, cbb);
                Self { sx: nsx, sy: nsy, m: nm, c0, c1, c2: nc, c3 }
            } else {
                let nc = Self::insert_into_child(c3, x, y, m, cbb);
                Self { sx: nsx, sy: nsy, m: nm, c0, c1, c2, c3: nc }
            };
            proof {
                lemma_rebuild(self, r, bb, q as int, x as int, y as int, m as int);
                if eps_clear(self.leaves(), x as int, y as int) {
                    lemma_eps_clear_child(self, q as int, x as int, y as int);
                }
            }
            r
        }
    }

    /// Inserts a point into the quadtree.
    ///
    /// A zero mass is the "no body" sentinel and inserts nothing.  The
    /// root's aggregate always grows by exactly `(m * x, m * y, m)`.  Two
    /// points closer than [`EPSILON`] on both axes merge into one
    /// aggregate pseudo-body that keeps the exact mass-weighted sums (its
    /// center of mass is the mass-weighted average of the merged points),
    /// which bounds the tree's depth on coincident input; any other
    /// collision is resolved by halving cells until the points separate.
    pub fn insert(&mut self, x: i64, y: i64, m: i64, bb: BoundingBox2D)
        requires
            bb.wf(),
            old(self).wf_in(bb),
            bb.contains(x as int, y as int),
            0 <= m <= MASS_LIMIT,
            old(self).m + m <= MASS_SUM_CAP,
        ensures
            final(self).wf_in(bb),
            m == 0 ==> *final(self) == *old(self),
            m > 0 ==> final(self).m == old(self).m + m && final(self).sx == old(self).sx + m * x
                && final(self).sy == old(self).sy + m * y,
            m > 0 && eps_clear(old(self).leaves(), x as int, y as int) ==> final(self).leaves()
                =~= old(self).leaves().insert(Agg::of_point(x as int, y as int, m as int)),
    {
        let mut tmp = Self::empty();
        core::mem::swap(self, &mut tmp);
        let mut grown = tmp.inserted(x, y, m, bb);
        core::mem::swap(self, &mut grown);
    }
}

/// A single point of positive mass has its own coordinates as its center
/// of mass.
pub proof fn lemma_of_point_com(x: int, y: int, m: int)
    requires
        m > 0,
    ensures
        Agg::of_point(x, y, m).cx() == x,
        Agg::of_point(x, y, m).cy() == y,
{
    vstd::arithmetic::div_mod::lemma_div_multiples_vanish(x, m);
    vstd::arithmetic::div_mod::lemma_div_multiples_vanish(y, m);
}

/// Body `i` of the lists contributes to a tree over the box `bb`: it has
/// positive mass and its plane coordinates lie in the box.
pub open spec fn eligible(r: Seq<Vector3D>, m: Seq<i64>, bb: BoundingBox2D, i: int) -> bool {
    0 < m[i] && bb.contains(r[i].x as int, r[i].y as int)
}

/// Total mass of the contributing bodies among the first `n`.
pub open spec fn total_m(r: Seq<Vector3D>, m: Seq<i64>, bb: BoundingBox2D, n: int) -> int
    decreases n,
{
    if n <= 0 {
        0
    } else {
        total_m(r, m, bb, n - 1) + if eligible(r, m, bb, n - 1) {
            m[n - 1] as int
        } else {
            0
        }
    }
}

/// Total weighted X sum of the contributing bodies among the first `n`.
pub open spec fn total_sx(r: Seq<Vector3D>, m: Seq<i64>, bb: BoundingBox2D, n: int) -> int
    decreases n,
{
    if n <= 0 {
        0
    } else {
        total_sx(r, m, bb, n - 1) + if eligible(r, m, bb, n - 1) {
            m[n - 1] * r[n - 1].x
        } else {
            0
        }
    }
}

/// Total weighted Y sum of the contributing bodies among the first `n`.
pub open spec fn total_sy(r: Seq<Vector3D>, m: Seq<i64>, bb: BoundingBox2D, n: int) -> int
    decreases n,
{
    if n <= 0 {
        0
    } else {
        total_sy(r, m, bb, n - 1) + if eligible(r, m, bb, n - 1) {
            m[n - 1] * r[n - 1].y
        } else {
            0
        }
    }
}

/// The aggregates of the contributing bodies among the first `n`, as a
/// multiset.
pub open spec fn built_leaves(r: Seq<Vector3D>, m: Seq<i64>, bb: BoundingBox2D, n: int) -> Multiset<
    Agg,
>
    decreases n,
{
    if n <= 0 {
        Multiset::empty()
    } else if eligible(r, m, bb, n - 1) {
        built_leaves(r, m, bb, n - 1).insert(
            Agg::of_point(r[n - 1].x as int, r[n - 1].y as int, m[n - 1] as int),
        )
    } else {
        built_leaves(r, m, bb, n - 1)
    }
}

/// Any two contributing bodies differ by at least [`EPSILON`] on some
/// axis, so none of them merges with another during tree construction.
pub open spec fn well_separated(r: Seq<Vector3D>, m: Seq<i64>, bb: BoundingBox2D) -> bool {
    forall|i: int, j: int|
        0 <= i < r.len() && 0 <= j < r.len() && i != j && #[trigger] eligible(r, m, bb, i)
            && #[trigger] eligible(r, m, bb, j) ==> (r[i].x - r[j].x >= EPSILON || r[j].x - r[i].x
            >= EPSILON || r[i].y - r[j].y >= EPSILON || r[j].y - r[i].y >= EPSILON)
}

/// Every element of `built_leaves` is the aggregate of some contributing
/// body.
proof fn lemma_built_leaves_elem(r: Seq<Vector3D>, m: Seq<i64>, bb: BoundingBox2D, n: int, a: Agg)
    requires
        0 <= n <= r.len(),
        r.len() == m.len(),
        built_leaves(r, m, bb, n).contains(a),
    ensures
        exists|j: int|
            0 <= j < n && #[trigger] eligible(r, m, bb, j) && a == Agg::of_point(
                r[j].x as int,
                r[j].y as int,
                m[j] as int,
            ),
    decreases n,
{
    broadcast use vstd::multiset::group_multiset_axioms;

    if n <= 0 {
        assert(false);
    } else if eligible(r, m, bb, n - 1) && a == Agg::of_point(
        r[n - 1].x as int,
        r[n - 1].y as int,
        m[n - 1] as int,
    ) {
    } else {
        assert(built_leaves(r, m, bb, n - 1).contains(a));
        lemma_built_leaves_elem(r, m, bb, n - 1, a);
    }
}

impl MassQuadtree {
    /// Constructs a quadtree for the given bounds and list of points,
    /// inserting each body in order.  Bodies of zero mass and bodies whose
    /// plane position lies outside the box contribute nothing.
    pub fn new(r: &Vec<Vector3D>, m: &Vec<i64>, bb: BoundingBox2D) -> (t: Self)
        requires
            bb.wf(),
            r.len() == m.len(),
            r.len() <= N_LIMIT,
            forall|j: int| 0 <= j < m.len() ==> 0 <= #[trigger] m[j] <= MASS_LIMIT,
        ensures
            t.wf_in(bb),
            t.m == total_m(r@, m@, bb, r.len() as int),
            t.sx == total_sx(r@, m@, bb, r.len() as int),
            t.sy == total_sy(r@, m@, bb, r.len() as int),
            well_separated(r@, m@, bb) ==> t.leaves() =~= built_leaves(
                r@,
                m@,
                bb,
                r.len() as int,
            ),
    {
        let mut root = Self::empty();
        let n = r.len();
        let mut i: usize = 0;
        while i < n
            invariant
                i <= n,
                n == r.len() == m.len(),
                n <= N_LIMIT,
                bb.wf(),
                forall|j: int| 0 <= j < m.len() ==> 0 <= #[trigger] m[j] <= MASS_LIMIT,
                root.wf_in(bb),
                root.m == total_m(r@, m@, bb, i as int),
                root.sx == total_sx(r@, m@, bb, i as int),
                root.sy == total_sy(r@, m@, bb, i as int),
                root.m <= i * MASS_LIMIT,
                well_separated(r@, m@, bb) ==> root.leaves() =~= built_leaves(r@, m@, bb, i as int),
            decreases n - i,
        {
            let xi = r[i].x;
            let yi = r[i].y;
            let mi = m[i];
            let ghost prev = root;
            if mi > 0 && xi >= bb.min_x && xi <= bb.max_x && yi >= bb.min_y && yi <= bb.max_y {
                proof {
                    assert(eligible(r@, m@, bb, i as int));
                    assert((i + 1) * MASS_LIMIT == i * MASS_LIMIT + MASS_LIMIT)
                        by (nonlinear_arith);
                    assert((i + 1) * MASS_LIMIT <= N_LIMIT * MASS_LIMIT) by (nonlinear_arith)
                        requires
                            i + 1 <= N_LIMIT,
                    ;
                    if well_separated(r@, m@, bb) {
                        assert forall|a: Agg| root.leaves().contains(a) implies !eps_near(
                            a,
                            xi as int,
                            yi as int,
                        ) by {
                            assert(built_leaves(r@, m@, bb, i as int).contains(a));
                            lemma_built_leaves_elem(r@, m@, bb, i as int, a);
                            let j = choose|j: int|
                                0 <= j < i && #[trigger] eligible(r@, m@, bb, j) && a
                                    == Agg::of_point(
                                    r@[j].x as int,
                                    r@[j].y as int,
                                    m@[j] as int,
                                );
                            lemma_of_point_com(r@[j].x as int, r@[j].y as int, m@[j] as int);
                        }
                        assert(eps_clear(root.leaves(), xi as int, yi as int));
                    }
                }
                root.insert(xi, yi, mi, bb);
            } else {
                proof {
                    assert(!eligible(r@, m@, bb, i as int));
                    assert((i + 1) * MASS_LIMIT >= i * MASS_LIMIT) by (nonlinear_arith);
                }
            }
            i = i + 1;
        }
        root
    }
}

/// Center-of-mass conservation: a well-formed node's mass is exactly the
/// total mass of the leaf aggregates under it, and its weighted coordinate
/// sums are exactly their totals, so the node's center of mass is the
/// mass-weighted centroid of everything in its subtree.
pub proof fn lemma_mass_conservation(t: MassQuadtree, bb: BoundingBox2D)
    requires
        t.wf_in(bb),
        bb.wf(),
    ensures
        t.m == msum(t.leaves(), |a: Agg| a.m),
        t.sx == msum(t.leaves(), |a: Agg| a.sx),
        t.sy == msum(t.leaves(), |a: Agg| a.sy),
    decreases t,
{
    broadcast use vstd::multiset::group_multiset_axioms;

    let fm = |a: Agg| a.m;
    let fx = |a: Agg| a.sx;
    let fy = |a: Agg| a.sy;
    if t.m == 0 {
        assert(t.leaves().len() == 0);
    } else if t.is_leaf_spec() {
        lemma_msum_insert(Multiset::empty(), fm, t.agg());
        lemma_msum_insert(Multiset::empty(), fx, t.agg());
        lemma_msum_insert(Multiset::empty(), fy, t.agg());
        assert(Multiset::<Agg>::empty().len() == 0);
    } else {
        lemma_opt_sums(t.c0, bb, 0);
        lemma_opt_sums(t.c1, bb, 1);
        lemma_opt_sums(t.c2, bb, 2);
        lemma_opt_sums(t.c3, bb, 3);
        let l01 = opt_leaves(t.c0).add(opt_leaves(t.c1));
        let l012 = l01.add(opt_leaves(t.c2));
        lemma_msum_add(opt_leaves(t.c0), opt_leaves(t.c1), fm);
        lemma_msum_add(l01, opt_leaves(t.c2), fm);
        lemma_msum_add(l012, opt_leaves(t.c3), fm);
        lemma_msum_add(opt_leaves(t.c0), opt_leaves(t.c1), fx);
        lemma_msum_add(l01, opt_leaves(t.c2), fx);
        lemma_msum_add(l012, opt_leaves(t.c3), fx);
        lemma_msum_add(opt_leaves(t.c0), opt_leaves(t.c1), fy);
        lemma_msum_add(l01, opt_leaves(t.c2), fy);
        lemma_msum_add(l012, opt_leaves(t.c3), fy);
    }
}

/// Sums over one child slot's leaves.
proof fn lemma_opt_sums(c: Option<Box<MassQuadtree>>, bb: BoundingBox2D, q: int)
    requires
        bb.wf(),
        opt_wf(c, bb.child_spec(q)),
    ensures
        opt_m(c) == msum(opt_leaves(c), |a: Agg| a.m),
        opt_sx(c) == msum(opt_leaves(c), |a: Agg| a.sx),
        opt_sy(c) == msum(opt_leaves(c), |a: Agg| a.sy),
    decreases c,
{
    broadcast use vstd::multiset::group_multiset_axioms;

    match c {
        Option::None => {
            assert(Multiset::<Agg>::empty().len() == 0);
        },
        Option::Some(t) => {
            lemma_child_sub(bb, q);
            lemma_mass_conservation(*t, bb.child_spec(q));
        },
    }
}

/// The body lists paired up, one entry per body.
pub open spec fn body_seq(r: Seq<Vector3D>, m: Seq<i64>) -> Seq<(Vector3D, i64)> {
    Seq::new(r.len(), |i: int| (r[i], m[i]))
}

/// The mass a single body contributes to a tree over `bb`.
pub open spec fn contrib_m(bb: BoundingBox2D, p: (Vector3D, i64)) -> int {
    if 0 < p.1 && bb.contains(p.0.x as int, p.0.y as int) {
        p.1 as int
    } else {
        0
    }
}

/// The weighted X sum a single body contributes.
pub open spec fn contrib_sx(bb: BoundingBox2D, p: (Vector3D, i64)) -> int {
    if 0 < p.1 && bb.contains(p.0.x as int, p.0.y as int) {
        p.1 * p.0.x
    } else {
        0
    }
}

/// The weighted Y sum a single body contributes.
pub open spec fn contrib_sy(bb: BoundingBox2D, p: (Vector3D, i64)) -> int {
    if 0 < p.1 && bb.contains(p.0.x as int, p.0.y as int) {
        p.1 * p.0.y
    } else {
        0
    }
}

/// The prefix totals are sums over the paired body sequence.
proof fn lemma_totals_are_seq_sums(r: Seq<Vector3D>, m: Seq<i64>, bb: BoundingBox2D, n: int)
    requires
        r.len() == m.len(),
        0 <= n <= r.len(),
    ensures
        total_m(r, m, bb, n) == seq_sum(body_seq(r, m).take(n), |p| contrib_m(bb, p)),
        total_sx(r, m, bb, n) == seq_sum(body_seq(r, m).take(n), |p| contrib_sx(bb, p)),
        total_sy(r, m, bb, n) == seq_sum(body_seq(r, m).take(n), |p| contrib_sy(bb, p)),
    decreases n,
{
    let s = body_seq(r, m);
    if n > 0 {
        lemma_totals_are_seq_sums(r, m, bb, n - 1);
        assert(s.take(n).drop_last() =~= s.take(n - 1));
        assert(s.take(n).last() == (r[n - 1], m[n - 1]));
    } else {
        assert(s.take(0).len() == 0);
    }
}

/// Order independence of tree construction: two body lists that hold the
/// same (position, mass) multiset give trees with the same root mass and
/// the same weighted coordinate sums, hence the same root center of mass,
/// whatever the insertion order.
pub proof fn lemma_build_order_independent(
    r1: Seq<Vector3D>,
    m1: Seq<i64>,
    r2: Seq<Vector3D>,
    m2: Seq<i64>,
    bb: BoundingBox2D,
)
    requires
        r1.len() == m1.len(),
        r2.len() == m2.len(),
        body_seq(r1, m1).to_multiset() == body_seq(r2, m2).to_multiset(),
    ensures
        total_m(r1, m1, bb, r1.len() as int) == total_m(r2, m2, bb, r2.len() as int),
        total_sx(r1, m1, bb, r1.len() as int) == total_sx(r2, m2, bb, r2.len() as int),
        total_sy(r1, m1, bb, r1.len() as int) == total_sy(r2, m2, bb, r2.len() as int),
{
    let s1 = body_seq(r1, m1);
    let s2 = body_seq(r2, m2);
    lemma_totals_are_seq_sums(r1, m1, bb, r1.len() as int);
    lemma_totals_are_seq_sums(r2, m2, bb, r2.len() as int);
    assert(s1.take(s1.len() as int) =~= s1);
    assert(s2.take(s2.len() as int) =~= s2);
    lemma_seq_sum_is_msum(s1, |p| contrib_m(bb, p));
    lemma_seq_sum_is_msum(s2, |p| contrib_m(bb, p));
    lemma_seq_sum_is_msum(s1, |p| contrib_sx(bb, p));
    lemma_seq_sum_is_msum(s2, |p| contrib_sx(bb, p));
    lemma_seq_sum_is_msum(s1, |p| contrib_sy(bb, p));
    lemma_seq_sum_is_msum(s2, |p| contrib_sy(bb, p));
}

/// The Barnes-Hut admissibility test for a node whose cell is `bb`, seen
/// from the query point `(x, y)` with accuracy `theta` (milli-units).
///
/// A node is used as one aggregate when `s / d < theta`, where `s` is the
/// cell width and `d` the distance from the query point to the node's
/// center of mass; leaves are always used directly.  With everything
/// nonnegative the ratio test is decided exactly on squares:
/// `s^2 * SCALE^2 < theta^2 * d^2`.
pub open spec fn admissible(t: MassQuadtree, bb: BoundingBox2D, x: int, y: int, theta: int) -> bool {
    let s = bb.max_x - bb.min_x;
    let dx = t.agg().cx() - x;
    let dy = t.agg().cy() - y;
    s * s * (SCALE * SCALE) < theta * theta * (dx * dx + dy * dy) || t.is_leaf_spec()
}

/// The multiset of aggregates that together account, once each, for every
/// body in the tree, as the Barnes-Hut cut for query point `(x, y)` and
/// accuracy `theta` selects them: an admissible node stands in for its
/// whole subtree, any other node is replaced by its children.
pub open spec fn bh_nodes(
    t: MassQuadtree,
    bb: BoundingBox2D,
    x: int,
    y: int,
    theta: int,
) -> Multiset<Agg>
    decreases t,
{
    if t.m == 0 {
        Multiset::empty()
    } else if admissible(t, bb, x, y, theta) {
        Multiset::empty().insert(t.agg())
    } else {
        opt_bh_nodes(t.c0, bb.child_spec(0), x, y, theta).add(
            opt_bh_nodes(t.c1, bb.child_spec(1), x, y, theta),
        ).add(opt_bh_nodes(t.c2, bb.child_spec(2), x, y, theta)).add(
            opt_bh_nodes(t.c3, bb.child_spec(3), x, y, theta),
        )
    }
}

/// The Barnes-Hut cut of an optional subtree.
pub open spec fn opt_bh_nodes(
    c: Option<Box<MassQuadtree>>,
    bb: BoundingBox2D,
    x: int,
    y: int,
    theta: int,
) -> Multiset<Agg>
    decreases c,
{
    match c {
        Option::None => Multiset::empty(),
        Option::Some(t) => bh_nodes(*t, bb, x, y, theta),
    }
}

/// With `theta == 0` no inner node passes the ratio test, so the
/// Barnes-Hut cut is exactly the leaf multiset: the approximation
/// degenerates to the direct sum over every body.
pub proof fn lemma_theta_zero_exact(t: MassQuadtree, bb: BoundingBox2D, x: int, y: int)
    requires
        t.wf_in(bb),
        bb.wf(),
    ensures
        bh_nodes(t, bb, x, y, 0) =~= t.leaves(),
    decreases t,
{
    let s = bb.max_x - bb.min_x;
    let dx = t.agg().cx() - x;
    let dy = t.agg().cy() - y;
    assert(s * s * (SCALE * SCALE) >= 0 && dx * dx + dy * dy >= 0) by (nonlinear_arith);
    assert(0 * 0 * (dx * dx + dy * dy) == 0) by (nonlinear_arith);
    if t.m == 0 {
    } else if t.is_leaf_spec() {
    } else {
        lemma_opt_theta_zero(t.c0, bb, 0, x, y);
        lemma_opt_theta_zero(t.c1, bb, 1, x, y);
        lemma_opt_theta_zero(t.c2, bb, 2, x, y);
        lemma_opt_theta_zero(t.c3, bb, 3, x, y);
    }
}

/// The `theta == 0` degeneration for one child slot.
proof fn lemma_opt_theta_zero(
    c: Option<Box<MassQuadtree>>,
    bb: BoundingBox2D,
    q: int,
    x: int,
    y: int,
)
    requires
        bb.wf(),
        opt_wf(c, bb.child_spec(q)),
    ensures
        opt_bh_nodes(c, bb.child_spec(q), x, y, 0) =~= opt_leaves(c),
    decreases c,
{
    match c {
        Option::None => {
        },
        Option::Some(t) => {
            lemma_child_sub(bb, q);
            lemma_theta_zero_exact(*t, bb.child_spec(q), x, y);
        },
    }
}

/// Number of nodes in a subtree; the traversal bound.
pub open spec fn tree_size(t: MassQuadtree) -> nat
    decreases t,
{
    1 + opt_size(t.c0) + opt_size(t.c1) + opt_size(t.c2) + opt_size(t.c3)
}

/// Number of nodes in an optional subtree.
pub open spec fn opt_size(c: Option<Box<MassQuadtree>>) -> nat
    decreases c,
{
    match c {
        Option::None => 0,
        Option::Some(t) => tree_size(*t),
    }
}

/// The Barnes-Hut cuts of all entries still waiting on the stack.
pub open spec fn stack_nodes(
    s: Seq<(&MassQuadtree, BoundingBox2D)>,
    x: int,
    y: int,
    theta: int,
) -> Multiset<Agg>
    decreases s.len(),
{
    if s.len() == 0 {
        Multiset::empty()
    } else {
        stack_nodes(s.drop_last(), x, y, theta).add(
            bh_nodes(*s.last().0, s.last().1, x, y, theta),
        )
    }
}

/// Total node count of all entries still waiting on the stack.
pub open spec fn stack_sizes(s: Seq<(&MassQuadtree, BoundingBox2D)>) -> nat
    decreases s.len(),
{
    if s.len() == 0 {
        0
    } else {
        stack_sizes(s.drop_last()) + tree_size(*s.last().0)
    }
}


/// The Barnes-Hut cut accounts for the tree's whole mass: the masses of
/// the cut's aggregates sum to the root mass, and each aggregate is
/// nonempty with its weighted sums in range.
pub proof fn lemma_bh_mass(t: MassQuadtree, bb: BoundingBox2D, x: int, y: int, theta: int)
    requires
        t.wf_in(bb),
        bb.wf(),
    ensures
        msum(bh_nodes(t, bb, x, y, theta), |a: Agg| a.m) == t.m,
        forall|a: Agg| #[trigger] bh_nodes(t, bb, x, y, theta).contains(a) ==> a.m >= 1,
    decreases t,
{
    broadcast use vstd::multiset::group_multiset_axioms;

    let fm = |a: Agg| a.m;
    let cut = bh_nodes(t, bb, x, y, theta);
    if t.m == 0 {
        assert(cut.len() == 0);
        assert forall|a: Agg| #[trigger] cut.contains(a) implies a.m >= 1 by {
            assert(false);
        }
    } else if admissible(t, bb, x, y, theta) {
        lemma_msum_insert(Multiset::empty(), fm, t.agg());
        assert(Multiset::<Agg>::empty().len() == 0);
        assert forall|a: Agg| #[trigger] cut.contains(a) implies a.m >= 1 by {
            assert(a == t.agg());
        }
    } else {
        lemma_opt_bh_mass(t.c0, bb, 0, x, y, theta);
        lemma_opt_bh_mass(t.c1, bb, 1, x, y, theta);
        lemma_opt_bh_mass(t.c2, bb, 2, x, y, theta);
        lemma_opt_bh_mass(t.c3, bb, 3, x, y, theta);
        let n0 = opt_bh_nodes(t.c0, bb.child_spec(0), x, y, theta);
        let n1 = opt_bh_nodes(t.c1, bb.child_spec(1), x, y, theta);
        let n2 = opt_bh_nodes(t.c2, bb.child_spec(2), x, y, theta);
        let n3 = opt_bh_nodes(t.c3, bb.child_spec(3), x, y, theta);
        lemma_msum_add(n0, n1, fm);
        lemma_msum_add(n0.add(n1), n2, fm);
        lemma_msum_add(n0.add(n1).add(n2), n3, fm);
        assert forall|a: Agg| #[trigger] cut.contains(a) implies a.m >= 1 by {
            assert(n0.contains(a) || n1.contains(a) || n2.contains(a) || n3.contains(a));
        }
    }
}

/// Mass accounting of the cut of one child slot.
proof fn lemma_opt_bh_mass(
    c: Option<Box<MassQuadtree>>,
    bb: BoundingBox2D,
    q: int,
    x: int,
    y: int,
    theta: int,
)
    requires
        bb.wf(),
        opt_wf(c, bb.child_spec(q)),
    ensures
        msum(opt_bh_nodes(c, bb.child_spec(q), x, y, theta), |a: Agg| a.m) == opt_m(c),
        forall|a: Agg|
            #[trigger] opt_bh_nodes(c, bb.child_spec(q), x, y, theta).contains(a) ==> a.m >= 1,
    decreases c,
{
    broadcast use vstd::multiset::group_multiset_axioms;

    match c {
        Option::None => {
            assert(Multiset::<Agg>::empty().len() == 0);
        },
        Option::Some(t) => {
            lemma_child_sub(bb, q);
            lemma_bh_mass(*t, bb.child_spec(q), x, y, theta);
        },
    }
}

/// One pending traversal entry is usable: a well-formed cell holding a
/// nonempty well-formed subtree.
pub open spec fn entry_ok(e: (&MassQuadtree, BoundingBox2D)) -> bool {
    &&& e.1.wf()
    &&& e.0.wf_in(e.1)
    &&& e.0.m > 0
}

/// Every pending traversal entry is usable.
pub open spec fn stack_ok(s: Seq<(&MassQuadtree, BoundingBox2D)>) -> bool {
    forall|k: int| 0 <= k < s.len() ==> entry_ok(#[trigger] s[k])
}

/// Pushing a usable entry keeps the stack usable.
proof fn lemma_stack_ok_push(s: Seq<(&MassQuadtree, BoundingBox2D)>, e: (&MassQuadtree, BoundingBox2D))
    requires
        stack_ok(s),
        entry_ok(e),
    ensures
        stack_ok(s.push(e)),
{
    assert forall|k: int| 0 <= k < s.push(e).len() implies entry_ok(#[trigger] s.push(e)[k]) by {
        if k < s.len() {
            assert(s.push(e)[k] == s[k]);
        } else {
            assert(s.push(e)[k] == e);
        }
    }
}

/// Popping the top keeps the rest usable, and the top was usable.
proof fn lemma_stack_ok_drop(s: Seq<(&MassQuadtree, BoundingBox2D)>)
    requires
        stack_ok(s),
        s.len() > 0,
    ensures
        stack_ok(s.drop_last()),
        entry_ok(s.last()),
{
    assert(entry_ok(s[s.len() - 1]));
    assert forall|k: int| 0 <= k < s.drop_last().len() implies entry_ok(
        #[trigger] s.drop_last()[k],
    ) by {
        assert(s.drop_last()[k] == s[k]);
    }
}

/// Iterator over the nodes of the tree that contribute to the force on one
/// query point: a lazy depth-first walk with an explicit stack, yielding
/// exactly the aggregates of the Barnes-Hut cut [`bh_nodes`], once each.
pub struct MassQuadtreeIterator<'a> {
    /// Query point X coordinate.
    pub x: i64,
    /// Query point Y coordinate.
    pub y: i64,
    /// Accuracy parameter theta, in milli-units.
    pub theta: i64,
    /// Pending subtrees with their cells.
    pub stack: Vec<(&'a MassQuadtree, BoundingBox2D)>,
    /// Aggregates already yielded.
    pub covered: Ghost<Multiset<Agg>>,
    /// The whole cut this traversal accounts for.
    pub total: Ghost<Multiset<Agg>>,
}

impl<'a> MassQuadtreeIterator<'a> {
    /// The iterator's invariant: every pending entry is a nonempty
    /// well-formed subtree in a well-formed cell, and what was yielded
    /// plus what is pending is exactly the whole cut.
    pub open spec fn inv(self) -> bool {
        &&& 0 <= self.theta <= THETA_LIMIT
        &&& -COORD_LIMIT <= self.x <= COORD_LIMIT
        &&& -COORD_LIMIT <= self.y <= COORD_LIMIT
        &&& stack_ok(self.stack@)
        &&& self.total@ == self.covered@.add(
            stack_nodes(self.stack@, self.x as int, self.y as int, self.theta as int),
        )
    }

    /// Constructs a new iterator with the stack initialized to the root.
    pub fn new(x: i64, y: i64, theta: i64, tree: &'a MassQuadtree, bb: BoundingBox2D) -> (it: Self)
        requires
            bb.wf(),
            tree.wf_in(bb),
            0 <= theta <= THETA_LIMIT,
            -COORD_LIMIT <= x <= COORD_LIMIT,
            -COORD_LIMIT <= y <= COORD_LIMIT,
        ensures
            it.inv(),
            it.x == x && it.y == y && it.theta == theta,
            it.covered@ == Multiset::<Agg>::empty(),
            it.total@ == bh_nodes(*tree, bb, x as int, y as int, theta as int),
    {
        let mut stack: Vec<(&'a MassQuadtree, BoundingBox2D)> = Vec::new();
        if tree.m > 0 {
            stack.push((tree, bb));
        }
        let it = Self {
            x,
            y,
            theta,
            stack,
            covered: Ghost(Multiset::empty()),
            total: Ghost(bh_nodes(*tree, bb, x as int, y as int, theta as int)),
        };
        proof {
            broadcast use vstd::multiset::group_multiset_axioms;

            if tree.m > 0 {
                assert(it.stack@.drop_last() =~= Seq::<(&MassQuadtree, BoundingBox2D)>::empty());
                lemma_stack_ok_push(Seq::empty(), (tree, bb));
                assert(it.stack@ =~= Seq::<(&MassQuadtree, BoundingBox2D)>::empty().push(
                    (tree, bb),
                ));
                assert(it.stack@.len() == 1);
                assert(it.stack@.last() == (tree, bb));
                assert(it.stack@.drop_last() =~= Seq::<(&MassQuadtree, BoundingBox2D)>::empty());
                assert(stack_nodes(
                    Seq::<(&MassQuadtree, BoundingBox2D)>::empty(),
                    x as int,
                    y as int,
                    theta as int,
                ) =~= Multiset::<Agg>::empty());
                assert(stack_nodes(it.stack@, x as int, y as int, theta as int)
                    =~= Multiset::<Agg>::empty().add(
                    bh_nodes(*tree, bb, x as int, y as int, theta as int),
                ));
                assert(stack_nodes(it.stack@, x as int, y as int, theta as int) =~= bh_nodes(
                    *tree,
                    bb,
                    x as int,
                    y as int,
                    theta as int,
                ));
            }
            assert(it.total@ =~= it.covered@.add(
                stack_nodes(it.stack@, it.x as int, it.y as int, it.theta as int),
            ));
        }
        it
    }

    /// Gets the next node that counts towards the force on the query
    /// point.
    ///
    /// Whether a node is far enough away to stand in for its subtree
    /// depends on the quotient s/d, where s is the width of the node's
    /// region and d is the distance between the query point and the node's
    /// center of mass; the node is used whole when s/d is below theta.
    /// Larger theta trades accuracy for speed; theta = 0 yields every leaf
    /// and the traversal degenerates to a direct sum.
    pub fn next(&mut self) -> (r: Option<&'a MassQuadtree>)
        requires
            old(self).inv(),
        ensures
            final(self).inv(),
            final(self).x == old(self).x && final(self).y == old(self).y && final(self).theta
                == old(self).theta,
            final(self).total@ == old(self).total@,
            match r {
                Option::Some(node) => {
                    &&& 0 < node.m <= MASS_SUM_CAP
                    &&& 0 <= node.sx <= node.m * COORD_LIMIT
                    &&& 0 <= node.sy <= node.m * COORD_LIMIT
                    &&& old(self).total@.contains(node.agg())
                    &&& final(self).covered@ == old(self).covered@.insert(node.agg())
                },
                Option::None => {
                    &&& final(self).covered@ == old(self).covered@
                    &&& final(self).covered@ == final(self).total@
                },
            },
    {
        while self.stack.len() > 0
            invariant
                self.inv(),
                self.x == old(self).x && self.y == old(self).y && self.theta == old(self).theta,
                self.total@ == old(self).total@,
                self.covered@ == old(self).covered@,
            ensures
                self.inv(),
                self.x == old(self).x && self.y == old(self).y && self.theta == old(self).theta,
                self.total@ == old(self).total@,
                self.covered@ == old(self).covered@,
                self.stack.len() == 0,
            decreases stack_sizes(self.stack@),
        {
            broadcast use vstd::multiset::group_multiset_axioms;

            let ghost gx = self.x as int;
            let ghost gy = self.y as int;
            let ghost gt = self.theta as int;
            let ghost prev_stack = self.stack@;
            let top = self.stack.pop().unwrap();
            let node = top.0;
            let nbb = top.1;
            proof {
                assert(prev_stack.last() == top);
                assert(self.stack@ =~= prev_stack.drop_last());
                lemma_stack_ok_drop(prev_stack);
                assert(stack_ok(self.stack@));
                lemma_wf_sum_bounds(*node, nbb);
            }
            let s: i64 = nbb.width();
            let cx = node.com_x();
            let cy = node.com_y();
            let dx: i128 = (cx as i128) - (self.x as i128);
            let dy: i128 = (cy as i128) - (self.y as i128);
            proof {
                assert(0 <= dx * dx <= 0x4_0000_0000_0000_0000_0000 && 0 <= dy * dy
                    <= 0x4_0000_0000_0000_0000_0000) by (nonlinear_arith)
                    requires
                        -0x200_0000_0000 <= dx <= 0x200_0000_0000,
                        -0x200_0000_0000 <= dy <= 0x200_0000_0000,
                ;
            }
            let d2: i128 = dx * dx + dy * dy;
            proof {
                assert(0 <= (s as i128) * (s as i128) <= 0x1_0000_0000_0000_0000_0000)
                    by (nonlinear_arith)
                    requires
                        0 <= s <= COORD_LIMIT,
                ;
            }
            let ss: i128 = (s as i128) * (s as i128);
            let lhs: i128 = ss * 1_000_000;
            proof {
                assert(0 <= (self.theta as i128) * (self.theta as i128) <= 0x100_0000_0000)
                    by (nonlinear_arith)
                    requires
                        0 <= self.theta <= THETA_LIMIT,
                ;
            }
            let tt: i128 = (self.theta as i128) * (self.theta as i128);
            proof {
                assert(0 <= tt * d2 <= 0x1000_0000_0000_0000_0000_0000_0000_0000)
                    by (nonlinear_arith)
                    requires
                        0 <= tt <= 0x100_0000_0000,
                        0 <= d2 <= 0x10_0000_0000_0000_0000_0000,
                ;
            }
            let rhs: i128 = tt * d2;
            let leaf = node.is_leaf();
            if lhs < rhs || leaf {
                proof {
                    assert(admissible(*node, nbb, gx, gy, gt));
                    assert(bh_nodes(*node, nbb, gx, gy, gt) =~= Multiset::empty().insert(
                        node.agg(),
                    ));
                    assert(stack_nodes(prev_stack, gx, gy, gt) =~= stack_nodes(
                        self.stack@,
                        gx,
                        gy,
                        gt,
                    ).add(bh_nodes(*node, nbb, gx, gy, gt)));
                    self.covered@ = self.covered@.insert(node.agg());
                    assert(self.total@ =~= self.covered@.add(
                        stack_nodes(self.stack@, gx, gy, gt),
                    ));
                    assert(self.total@.contains(node.agg()));
                }
                return Some(node);
            }
            proof {
                assert(!admissible(*node, nbb, gx, gy, gt));
                assert(node.m > 0 && !node.is_leaf_spec());
            }
            let ghost stack0 = self.stack@;
            if let Some(b) = &node.c0 {
                self.stack.push((&**b, nbb.child(0)));
                proof {
                    assert(self.stack@.drop_last() =~= stack0);
                    assert(self.stack@.last() == (&**b, nbb.child_spec(0)));
                    assert(opt_wf(node.c0, nbb.child_spec(0)));
                    assert(entry_ok((&**b, nbb.child_spec(0))));
                    lemma_stack_ok_push(stack0, (&**b, nbb.child_spec(0)));
                    assert(self.stack@ =~= stack0.push((&**b, nbb.child_spec(0))));
                    assert(stack_ok(self.stack@));
                    assert(stack_nodes(self.stack@, gx, gy, gt) =~= stack_nodes(
                        stack0,
                        gx,
                        gy,
                        gt,
                    ).add(opt_bh_nodes(node.c0, nbb.child_spec(0), gx, gy, gt)));
                    assert(stack_sizes(self.stack@) == stack_sizes(stack0) + opt_size(node.c0));
                }
            } else {
                proof {
                    assert(stack_nodes(self.stack@, gx, gy, gt) =~= stack_nodes(
                        stack0,
                        gx,
                        gy,
                        gt,
                    ).add(opt_bh_nodes(node.c0, nbb.child_spec(0), gx, gy, gt)));
                    assert(stack_sizes(self.stack@) == stack_sizes(stack0) + opt_size(node.c0));
                }
            }
            let ghost stack1 = self.stack@;
            if let Some(b) = &node.c1 {
                self.stack.push((&**b, nbb.child(1)));
                proof {
                    assert(self.stack@.drop_last() =~= stack1);
                    assert(self.stack@.last() == (&**b, nbb.child_spec(1)));
                    assert(opt_wf(node.c1, nbb.child_spec(1)));
                    assert(entry_ok((&**b, nbb.child_spec(1))));
                    lemma_stack_ok_push(stack1, (&**b, nbb.child_spec(1)));
                    assert(self.stack@ =~= stack1.push((&**b, nbb.child_spec(1))));
                    assert(stack_ok(self.stack@));
                    assert(stack_nodes(self.stack@, gx, gy, gt) =~= stack_nodes(
                        stack1,
                        gx,
                        gy,
                        gt,
                    ).add(opt_bh_nodes(node.c1, nbb.child_spec(1), gx, gy, gt)));
                    assert(stack_sizes(self.stack@) == stack_sizes(stack1) + opt_size(node.c1));
                }
            } else {
                proof {
                    assert(stack_nodes(self.stack@, gx, gy, gt) =~= stack_nodes(
                        stack1,
                        gx,
                        gy,
                        gt,
                    ).add(opt_bh_nodes(node.c1, nbb.child_spec(1), gx, gy, gt)));
                    assert(stack_sizes(self.stack@) == stack_sizes(stack1) + opt_size(node.c1));
                }
            }
            let ghost stack2 = self.stack@;
            if let Some(b) = &node.c2 {
                self.stack.push((&**b, nbb.child(2)));
                proof {
                    assert(self.stack@.drop_last() =~= stack2);
                    assert(self.stack@.last() == (&**b, nbb.child_spec(2)));
                    assert(opt_wf(node.c2, nbb.child_spec(2)));
                    assert(entry_ok((&**b, nbb.child_spec(2))));
                    lemma_stack_ok_push(stack2, (&**b, nbb.child_spec(2)));
                    assert(self.stack@ =~= stack2.push((&**b, nbb.child_spec(2))));
                    assert(stack_ok(self.stack@));
                    assert(stack_nodes(self.stack@, gx, gy, gt) =~= stack_nodes(
                        stack2,
                        gx,
                        gy,
                        gt,
                    ).add(opt_bh_nodes(node.c2, nbb.child_spec(2), gx, gy, gt)));
                    assert(stack_sizes(self.stack@) == stack_sizes(stack2) + opt_size(node.c2));
                }
            } else {
                proof {
                    assert(stack_nodes(self.stack@, gx, gy, gt) =~= stack_nodes(
                        stack2,
                        gx,
                        gy,
                        gt,
                    ).add(opt_bh_nodes(node.c2, nbb.child_spec(2), gx, gy, gt)));
                    assert(stack_sizes(self.stack@) == stack_sizes(stack2) + opt_size(node.c2));
                }
            }
            let ghost stack3 = self.stack@;
            if let Some(b) = &node.c3 {
                self.stack.push((&**b, nbb.child(3)));
                proof {
                    assert(self.stack@.drop_last() =~= stack3);
                    assert(self.stack@.last() == (&**b, nbb.child_spec(3)));
                    assert(opt_wf(node.c3, nbb.child_spec(3)));
                    assert(entry_ok((&**b, nbb.child_spec(3))));
                    lemma_stack_ok_push(stack3, (&**b, nbb.child_spec(3)));
                    assert(self.stack@ =~= stack3.push((&**b, nbb.child_spec(3))));
                    assert(stack_ok(self.stack@));
                    assert(stack_nodes(self.stack@, gx, gy, gt) =~= stack_nodes(
                        stack3,
                        gx,
                        gy,
                        gt,
                    ).add(opt_bh_nodes(node.c3, nbb.child_spec(3), gx, gy, gt)));
                    assert(stack_sizes(self.stack@) == stack_sizes(stack3) + opt_size(node.c3));
                }
            } else {
                proof {
                    assert(stack_nodes(self.stack@, gx, gy, gt) =~= stack_nodes(
                        stack3,
                        gx,
                        gy,
                        gt,
                    ).add(opt_bh_nodes(node.c3, nbb.child_spec(3), gx, gy, gt)));
                    assert(stack_sizes(self.stack@) == stack_sizes(stack3) + opt_size(node.c3));
                }
            }
            proof {
                assert(bh_nodes(*node, nbb, gx, gy, gt) =~= opt_bh_nodes(
                    node.c0,
                    nbb.child_spec(0),
                    gx,
                    gy,
                    gt,
                ).add(opt_bh_nodes(node.c1, nbb.child_spec(1), gx, gy, gt)).add(
                    opt_bh_nodes(node.c2, nbb.child_spec(2), gx, gy, gt),
                ).add(opt_bh_nodes(node.c3, nbb.child_spec(3), gx, gy, gt)));
                assert(stack_nodes(self.stack@, gx, gy, gt) =~= stack_nodes(
                    prev_stack.drop_last(),
                    gx,
                    gy,
                    gt,
                ).add(bh_nodes(*node, nbb, gx, gy, gt)));
                assert(stack_nodes(prev_stack, gx, gy, gt) =~= stack_nodes(
                    prev_stack.drop_last(),
                    gx,
                    gy,
                    gt,
                ).add(bh_nodes(*node, nbb, gx, gy, gt)));
                assert(tree_size(*node) == 1 + opt_size(node.c0) + opt_size(node.c1) + opt_size(
                    node.c2,
                ) + opt_size(node.c3));
                assert(stack_sizes(prev_stack) == stack_sizes(prev_stack.drop_last()) + tree_size(
                    *node,
                ));
                assert(stack_sizes(self.stack@) < stack_sizes(prev_stack));
                assert(self.total@ == self.covered@.add(
                    stack_nodes(self.stack@, self.x as int, self.y as int, self.theta as int),
                ));
                assert(forall|k: int|
                    0 <= k < self.stack.len() ==> (#[trigger] self.stack[k].1).wf()
                        && self.stack[k].0.wf_in(self.stack[k].1) && self.stack[k].0.m > 0);
                assert(self.inv());
            }
        }
        proof {
            assert(stack_nodes(self.stack@, self.x as int, self.y as int, self.theta as int)
                =~= Multiset::empty());
            assert(self.covered@ =~= self.total@);
        }
        None
    }
}

} // verus!
