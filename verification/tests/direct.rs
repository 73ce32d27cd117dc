//! Direct (all-pairs) evaluator tests.
use galaxy::{
    generate_galaxy, nbody_direct, MovingBody3D, NBodyConfig3D, NBodySimulation3D, Vector3D,
};

#[test]
fn test_direct() {
    // Init the simulation: softening 10, bounds [0,500]^2 (milli-units).
    let min_dist: i64 = 10_000;
    let min_r = Vector3D::from_xy(0, 0);
    let max_r = Vector3D::from_xy(500_000, 500_000);
    let config = NBodyConfig3D::new(min_dist, min_r, max_r).unwrap();
    let mut sim: NBodySimulation3D = NBodySimulation3D::empty(10, config).unwrap();

    // Center of galaxy: mass 5e6 at (250, 250).
    let c: MovingBody3D = MovingBody3D {
        r: Vector3D::from_xy(250_000, 250_000),
        v: Vector3D::zero(),
        m: 5_000_000_000,
    };
    generate_galaxy(&mut sim, &c);
    nbody_direct(&mut sim, 100);
    assert_eq!(sim.n, 10);
    assert_eq!(sim.config.num_blackholes, 1);
}

#[test]
fn test_two_body_closed_form() {
    // Single central mass 5e6 plus one satellite 30 units away; after one
    // direct step with dt = 0.1 the satellite's new position equals
    // old position + (old velocity + acceleration * dt) * dt, with the
    // acceleration magnitude the closed-form M * dr / |dr|^3 in exact
    // fixed-point arithmetic.
    let config =
        NBodyConfig3D::new(10_000, Vector3D::from_xy(0, 0), Vector3D::from_xy(500_000, 500_000))
            .unwrap();
    let mut sim = NBodySimulation3D::empty(2, config).unwrap();
    let center = MovingBody3D {
        r: Vector3D::from_xy(250_000, 250_000),
        v: Vector3D::zero(),
        m: 5_000_000_000,
    };
    galaxy::generate_blackhole(&mut sim, &center);
    let sat = MovingBody3D {
        r: Vector3D::from_xy(280_000, 250_000),
        v: Vector3D::from_xy(0, 74_000),
        m: 1_000,
    };
    sim.set(1, &sat);

    nbody_direct(&mut sim, 100);

    // Closed form: dx = -30000, d2 = 9e8, sqrt = 30000, d3 = 2.7e13;
    // ax = 5e9 * (-30000) * 1e6 / 2.7e13 = -5555555 (toward the center).
    let expected_ax: i128 = (5_000_000_000i128 * -30_000 * 1_000_000) / (900_000_000i128 * 30_000);
    assert_eq!(expected_ax, -5_555_555);
    // v' = v + a*dt/1000; r' = r + v'*dt/1000 (dt = 100 milli).
    let expected_vx: i64 = 0 + (-5_555_555i64 * 100) / 1000;
    assert_eq!(expected_vx, -555_555);
    let expected_rx: i64 = 280_000 + (expected_vx * 100) / 1000;
    assert_eq!(expected_rx, 280_000 - 55_555);
    let got = sim.get(1);
    assert_eq!(got.r.x, expected_rx);
    assert_eq!(got.r.y, 250_000 + 7_400);
    assert_eq!(got.v.x, expected_vx);
    assert_eq!(got.v.y, 74_000);
    assert_eq!(got.m, 1_000);

    // The black hole feels the equal-and-opposite pull, truncated to 1
    // milli-unit of acceleration, which is below one velocity step.
    let bh = sim.get(0);
    assert_eq!(bh.v.x, 0);
    assert_eq!(bh.r.x, 250_000);
}

#[test]
fn test_direct_accel_symmetry() {
    // Two equal masses attract each other with opposite accelerations.
    let config =
        NBodyConfig3D::new(1_000, Vector3D::from_xy(0, 0), Vector3D::from_xy(500_000, 500_000))
            .unwrap();
    let mut sim = NBodySimulation3D::empty(2, config).unwrap();
    sim.set(
        0,
        &MovingBody3D { r: Vector3D::from_xy(100_000, 250_000), v: Vector3D::zero(), m: 2_000_000 },
    );
    sim.set(
        1,
        &MovingBody3D { r: Vector3D::from_xy(300_000, 250_000), v: Vector3D::zero(), m: 2_000_000 },
    );
    galaxy::compute_direct_accels(&mut sim);
    assert_eq!(sim.a[0].x, -sim.a[1].x);
    assert!(sim.a[0].x > 0);
    assert_eq!(sim.a[0].y, 0);
    assert_eq!(sim.a[1].y, 0);
}
