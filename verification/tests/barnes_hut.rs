//! Barnes-Hut evaluator tests.
use galaxy::{
    generate_galaxy, init_simulation, nbody_barnes_hut, nbody_direct, MovingBody3D, NBodyConfig3D,
    NBodySimulation3D, Vector3D,
};

#[test]
fn test_barnes_hut() {
    // Init the simulation: softening 10, bounds [0,500]^2 (milli-units).
    let min_dist: i64 = 10_000;
    let min_r = Vector3D::from_xy(0, 0);
    let max_r = Vector3D::from_xy(500_000, 500_000);
    let config = NBodyConfig3D::new(min_dist, min_r, max_r).unwrap();
    let mut sim: NBodySimulation3D = NBodySimulation3D::empty(10, config).unwrap();

    // Center of galaxy: mass 5e6 at (250, 250).
    let c: MovingBody3D = MovingBody3D {
        r: Vector3D::from_xy(250_000, 250_000),
        v: Vector3D::zero(),
        m: 5_000_000_000,
    };
    generate_galaxy(&mut sim, &c);
    nbody_barnes_hut(&mut sim, 100, 2_000);
    assert_eq!(sim.n, 10);
    assert_eq!(sim.config.num_blackholes, 1);
}

#[test]
fn test_theta_zero_matches_direct() {
    // With theta = 0 the Barnes-Hut evaluator visits every leaf exactly
    // and, with exact integer accumulation, agrees with the direct
    // algorithm bit for bit.
    let center = MovingBody3D {
        r: Vector3D::from_xy(250_000, 250_000),
        v: Vector3D::zero(),
        m: 5_000_000_000,
    };
    let mut sim_a = init_simulation(
        12,
        &center,
        10_000,
        Vector3D::from_xy(0, 0),
        Vector3D::from_xy(500_000, 500_000),
        42,
    )
    .unwrap();
    let mut sim_b = init_simulation(
        12,
        &center,
        10_000,
        Vector3D::from_xy(0, 0),
        Vector3D::from_xy(500_000, 500_000),
        42,
    )
    .unwrap();

    nbody_direct(&mut sim_a, 100);
    nbody_barnes_hut(&mut sim_b, 100, 0);

    for i in 0..12 {
        let a = sim_a.get(i);
        let b = sim_b.get(i);
        assert_eq!(a.m, b.m, "mass of body {}", i);
        assert_eq!(a.r, b.r, "position of body {}", i);
        assert_eq!(a.v, b.v, "velocity of body {}", i);
    }
}

#[test]
fn test_recycle_out_of_bounds() {
    // A satellite forced outside the domain bounds is recycled: after the
    // step its position lies within bounds and within the satellite
    // generation radius (250 units per axis) of the reference black hole.
    let config =
        NBodyConfig3D::new(10_000, Vector3D::from_xy(0, 0), Vector3D::from_xy(500_000, 500_000))
            .unwrap();
    let mut sim = NBodySimulation3D::empty(2, config).unwrap();
    let center = MovingBody3D {
        r: Vector3D::from_xy(250_000, 250_000),
        v: Vector3D::zero(),
        m: 5_000_000_000,
    };
    galaxy::generate_blackhole(&mut sim, &center);
    // A satellite at the right edge, moving out fast.
    sim.set(
        1,
        &MovingBody3D {
            r: Vector3D::from_xy(499_000, 250_000),
            v: Vector3D::from_xy(20_000_000, 0),
            m: 1_000,
        },
    );
    nbody_direct(&mut sim, 100);

    let b = sim.get(1);
    assert!(b.r.x >= 0 && b.r.x <= 500_000, "x in bounds: {}", b.r.x);
    assert!(b.r.y >= 0 && b.r.y <= 500_000, "y in bounds: {}", b.r.y);
    assert!((b.r.x - 250_000).abs() <= 250_000, "x near the black hole: {}", b.r.x);
    assert!((b.r.y - 250_000).abs() <= 250_000, "y near the black hole: {}", b.r.y);
    assert!(b.m >= 10 && b.m <= 3_000, "fresh satellite mass: {}", b.m);
    // The black hole itself is untouched by recycling.
    assert_eq!(sim.config.num_blackholes, 1);
    assert_eq!(sim.get(0).m, 5_000_000_000);
}

#[test]
fn test_absorbed_satellite_recycled() {
    // A satellite within the softening distance of a black hole is
    // absorbed and replaced by a fresh one.
    let config =
        NBodyConfig3D::new(10_000, Vector3D::from_xy(0, 0), Vector3D::from_xy(500_000, 500_000))
            .unwrap();
    let mut sim = NBodySimulation3D::empty(2, config).unwrap();
    let center = MovingBody3D {
        r: Vector3D::from_xy(250_000, 250_000),
        v: Vector3D::zero(),
        m: 5_000_000_000,
    };
    galaxy::generate_blackhole(&mut sim, &center);
    // Two units away: inside the softening distance of 10.
    sim.set(
        1,
        &MovingBody3D { r: Vector3D::from_xy(252_000, 250_000), v: Vector3D::zero(), m: 500 },
    );
    nbody_direct(&mut sim, 0);
    let b = sim.get(1);
    // The slot was repopulated with a generated satellite: its mass is in
    // the generator's range and its orbit radius is at least the base
    // radius of 20 units from the center.
    assert!(b.m >= 10 && b.m <= 3_000);
    let dx = (b.r.x - 250_000) as i128;
    let dy = (b.r.y - 250_000) as i128;
    assert!(dx * dx + dy * dy >= 100_000_000, "satellite sits on its orbit");
}
