//! Mass-aggregating quadtree and its geometry.
pub mod bb;
pub mod tree;

pub use bb::BoundingBox2D;
pub use tree::{lemma_build_order_independent, lemma_mass_conservation, lemma_theta_zero_exact, Agg, MassQuadtree, MassQuadtreeIterator, EPSILON};
