//! Quadtree construction, aggregation and traversal tests.
//!
//! Coordinates and masses are milli-units: 250 domain units are written
//! 250_000, a mass of 5e6 units is written 5_000_000_000.
use galaxy::{BoundingBox2D, MassQuadtree, MassQuadtreeIterator, Vector3D, EPSILON};

fn bb500() -> BoundingBox2D {
    BoundingBox2D { min_x: 0, max_x: 500_000, min_y: 0, max_y: 500_000 }
}

#[test]
fn test_quadtree() {
    // x: 265.56293, y: 263.4189, m: 0.4261353
    // x: 250.0, y: 250.0, m: 5000000.0
    let r: Vec<Vector3D> = vec![
        Vector3D { x: 265_563, y: 263_419, z: 0 },
        Vector3D { x: 250_000, y: 250_000, z: 0 },
    ];
    let m: Vec<i64> = vec![426, 5_000_000_000];

    // Create a quadtree in the bounding box (0,0),(500, 500).
    let bb = bb500();
    let quadtree = MassQuadtree::new(&r, &m, bb);
    assert_eq!(quadtree.m, 5_000_000_426);

    // Iterate over all contributing nodes of the tree from the center.
    let theta: i64 = 500;
    let mut quadtree_iter = MassQuadtreeIterator::new(250_000, 250_000, theta, &quadtree, bb);
    let mut total_yielded_mass: i64 = 0;
    let mut count = 0;
    while let Some(node) = quadtree_iter.next() {
        println!("Node: ({}, {}, {})", node.com_x(), node.com_y(), node.m);
        total_yielded_mass += node.m;
        count += 1;
    }
    // The yielded nodes together account for every body exactly once.
    assert_eq!(total_yielded_mass, 5_000_000_426);
    assert!(count >= 1);
}

#[test]
fn test_mass_conservation_concrete() {
    // Center-of-mass bookkeeping is exact: the root carries the total
    // mass and the exact mass-weighted coordinate sums.
    let r: Vec<Vector3D> = vec![
        Vector3D { x: 100_000, y: 100_000, z: 0 },
        Vector3D { x: 250_000, y: 250_000, z: 0 },
        Vector3D { x: 400_000, y: 400_000, z: 0 },
    ];
    let m: Vec<i64> = vec![10_000, 20_000, 10_000];
    let t = MassQuadtree::new(&r, &m, bb500());
    assert_eq!(t.m, 40_000);
    assert_eq!(t.sx, 10_000 * 100_000 + 20_000 * 250_000 + 10_000i128 * 400_000);
    assert_eq!(t.sy, 10_000 * 100_000 + 20_000 * 250_000 + 10_000i128 * 400_000);
    // Center of mass: 10_000_000_000_000 / 40_000 = 250_000_000... / ...
    assert_eq!(t.com_x(), (10_000i128 * 100_000 + 20_000 * 250_000 + 10_000 * 400_000) as i64 / 40_000);
}

#[test]
fn test_insert_order_independence() {
    // The same (position, mass) set in any order gives the same root
    // aggregate mass and center of mass.
    let r1: Vec<Vector3D> = vec![
        Vector3D { x: 100_000, y: 120_000, z: 0 },
        Vector3D { x: 250_000, y: 250_000, z: 0 },
        Vector3D { x: 400_000, y: 380_000, z: 0 },
        Vector3D { x: 10_000, y: 490_000, z: 0 },
    ];
    let m1: Vec<i64> = vec![10_000, 20_000, 10_000, 7_000];
    let r2: Vec<Vector3D> = vec![r1[3], r1[1], r1[0], r1[2]];
    let m2: Vec<i64> = vec![m1[3], m1[1], m1[0], m1[2]];
    let t1 = MassQuadtree::new(&r1, &m1, bb500());
    let t2 = MassQuadtree::new(&r2, &m2, bb500());
    assert_eq!(t1.m, t2.m);
    assert_eq!(t1.sx, t2.sx);
    assert_eq!(t1.sy, t2.sy);
    assert_eq!(t1.com_x(), t2.com_x());
    assert_eq!(t1.com_y(), t2.com_y());
}

#[test]
fn test_epsilon_merge() {
    // Two points closer than EPSILON on both axes merge into one
    // aggregate pseudo-body instead of splitting cells forever: the tree
    // stays a single leaf carrying both masses.
    assert_eq!(EPSILON, 2);
    let mut t = MassQuadtree::empty();
    let bb = bb500();
    t.insert(250_000, 250_000, 5_000, bb);
    t.insert(250_001, 250_001, 7_000, bb);
    assert!(t.is_leaf());
    assert_eq!(t.m, 12_000);
    assert_eq!(t.sx, 5_000i128 * 250_000 + 7_000i128 * 250_001);
    // A third point farther away still splits normally.
    t.insert(400_000, 100_000, 3_000, bb);
    assert!(!t.is_leaf());
    assert_eq!(t.m, 15_000);
}

#[test]
fn test_zero_mass_is_noop() {
    let mut t = MassQuadtree::empty();
    t.insert(250_000, 250_000, 0, bb500());
    assert_eq!(t.m, 0);
    assert!(t.is_leaf());
}

#[test]
fn test_traversal_far_cluster() {
    // 3 bodies at (100,100,m=10), (250,250,m=20), (400,400,m=10) in
    // bounds [0,500]^2, queried from (100,100).
    let r: Vec<Vector3D> = vec![
        Vector3D { x: 100_000, y: 100_000, z: 0 },
        Vector3D { x: 250_000, y: 250_000, z: 0 },
        Vector3D { x: 400_000, y: 400_000, z: 0 },
    ];
    let m: Vec<i64> = vec![10_000, 20_000, 10_000];
    let bb = bb500();
    let t = MassQuadtree::new(&r, &m, bb);

    // At theta = 1.0 the far cluster (the two distant bodies, center of
    // mass (300, 300), mass 30) is admissible from (100,100) and yields
    // as one aggregate, while the nearby body yields as its own leaf.
    let mut it = MassQuadtreeIterator::new(100_000, 100_000, 1_000, &t, bb);
    let mut yields: Vec<(i64, i64, i64)> = Vec::new();
    while let Some(node) = it.next() {
        yields.push((node.com_x(), node.com_y(), node.m));
    }
    assert_eq!(yields.len(), 2);
    assert!(yields.contains(&(100_000, 100_000, 10_000)));
    assert!(yields.contains(&(300_000, 300_000, 30_000)));

    // At theta = 0.5 that cluster's ratio s/d = 250/283 is still above
    // the threshold, so it splits and every body yields individually.
    let mut it2 = MassQuadtreeIterator::new(100_000, 100_000, 500, &t, bb);
    let mut yields2: Vec<(i64, i64, i64)> = Vec::new();
    while let Some(node) = it2.next() {
        yields2.push((node.com_x(), node.com_y(), node.m));
    }
    assert_eq!(yields2.len(), 3);
    assert!(yields2.contains(&(100_000, 100_000, 10_000)));
    assert!(yields2.contains(&(250_000, 250_000, 20_000)));
    assert!(yields2.contains(&(400_000, 400_000, 10_000)));

    // With theta = 0 the traversal degenerates to every leaf exactly.
    let mut it3 = MassQuadtreeIterator::new(100_000, 100_000, 0, &t, bb);
    let mut count3 = 0;
    while let Some(_) = it3.next() {
        count3 += 1;
    }
    assert_eq!(count3, 3);
}

#[test]
fn test_out_of_box_bodies_are_skipped() {
    // A body outside the box contributes nothing to the tree.
    let r: Vec<Vector3D> = vec![
        Vector3D { x: 250_000, y: 250_000, z: 0 },
        Vector3D { x: 600_000, y: 250_000, z: 0 },
    ];
    let m: Vec<i64> = vec![1_000, 2_000];
    let t = MassQuadtree::new(&r, &m, bb500());
    assert_eq!(t.m, 1_000);
}
