//! Simulation state machine tests: construction, accessors, recycling,
//! integration and determinism.
use galaxy::{
    gen_blackhole, generate_blackhole, init_simulation, satellite_from_draws, step, Body,
    ConfigError, MovingBody3D, NBodyConfig3D, NBodySimulation3D, Vector3D, BLACKHOLE_MASS,
};

fn std_config() -> NBodyConfig3D {
    NBodyConfig3D::new(10_000, Vector3D::from_xy(0, 0), Vector3D::from_xy(500_000, 500_000))
        .unwrap()
}

fn center() -> MovingBody3D {
    MovingBody3D {
        r: Vector3D::from_xy(250_000, 250_000),
        v: Vector3D::zero(),
        m: 5_000_000_000,
    }
}

#[test]
fn test_config_rejects_bad_softening() {
    let r = NBodyConfig3D::new(0, Vector3D::from_xy(0, 0), Vector3D::from_xy(500_000, 500_000));
    assert_eq!(r.unwrap_err(), ConfigError::BadSoftening);
    let r2 = NBodyConfig3D::new(-5, Vector3D::from_xy(0, 0), Vector3D::from_xy(500_000, 500_000));
    assert_eq!(r2.unwrap_err(), ConfigError::BadSoftening);
}

#[test]
fn test_config_rejects_degenerate_bounds() {
    // A zero-area box is refused.
    let r = NBodyConfig3D::new(10_000, Vector3D::from_xy(0, 0), Vector3D::from_xy(0, 500_000));
    assert_eq!(r.unwrap_err(), ConfigError::BadBounds);
    let r2 =
        NBodyConfig3D::new(10_000, Vector3D::from_xy(400_000, 0), Vector3D::from_xy(100_000, 500_000));
    assert_eq!(r2.unwrap_err(), ConfigError::BadBounds);
}

#[test]
fn test_empty_rejects_zero_bodies() {
    let r = NBodySimulation3D::empty(0, std_config());
    assert!(matches!(r, Err(ConfigError::BadBodyCount)));
}

#[test]
fn test_set_get_roundtrip() {
    let mut sim = NBodySimulation3D::empty(3, std_config()).unwrap();
    let b = MovingBody3D {
        r: Vector3D::from_xy(123_000, 45_000),
        v: Vector3D::from_xy(-7, 8),
        m: 999,
    };
    sim.set(2, &b);
    let got = sim.get(2);
    assert_eq!(got, b);
    // Setting a body zeroes its acceleration slot.
    assert_eq!(sim.a[2], Vector3D { x: 0, y: 0, z: 0 });
}

#[test]
fn test_snapshot_copies_mass_and_position() {
    let mut sim = NBodySimulation3D::empty(2, std_config()).unwrap();
    generate_blackhole(&mut sim, &center());
    let snap: Vec<Body> = sim.snapshot();
    assert_eq!(snap.len(), 2);
    assert_eq!(snap[0].m, 5_000_000_000);
    assert_eq!(snap[0].r, Vector3D { x: 250_000, y: 250_000, z: 0 });
    assert_eq!(snap[1].m, 0);
}

#[test]
fn test_gen_blackhole_injects_mass() {
    let mut sim = NBodySimulation3D::empty(3, std_config()).unwrap();
    gen_blackhole(&mut sim, 100_000, 200_000);
    assert_eq!(sim.config.num_blackholes, 1);
    let b = sim.get(0);
    assert_eq!(b.m, BLACKHOLE_MASS);
    assert_eq!(b.r, Vector3D { x: 100_000, y: 200_000, z: 0 });
}

#[test]
fn test_reset_satellite_slot() {
    let mut sim = NBodySimulation3D::empty(3, std_config()).unwrap();
    generate_blackhole(&mut sim, &center());
    sim.set(
        2,
        &MovingBody3D { r: Vector3D::from_xy(10_000, 10_000), v: Vector3D::zero(), m: 77 },
    );
    sim.reset(2, 0);
    // The satellite slot was replaced in place by a generated satellite
    // orbiting the reference body; the black-hole count is unchanged.
    assert_eq!(sim.config.num_blackholes, 1);
    let b = sim.get(2);
    assert!(b.m >= 10 && b.m <= 3_000);
    assert!((b.r.x - 250_000).abs() <= 250_000);
    assert!((b.r.y - 250_000).abs() <= 250_000);
}

#[test]
fn test_reset_blackhole_slot() {
    // Resetting a black hole deletes it: the last black hole moves into
    // its slot, the count shrinks, and the freed slot becomes a satellite.
    let mut sim = NBodySimulation3D::empty(4, std_config()).unwrap();
    generate_blackhole(&mut sim, &center());
    let second = MovingBody3D {
        r: Vector3D::from_xy(400_000, 400_000),
        v: Vector3D::zero(),
        m: 7_000_000_000,
    };
    generate_blackhole(&mut sim, &second);
    assert_eq!(sim.config.num_blackholes, 2);
    sim.reset(0, 0);
    assert_eq!(sim.config.num_blackholes, 1);
    // The surviving black hole in slot 0 is the one that was last.
    assert_eq!(sim.get(0).m, 7_000_000_000);
    // The freed slot 1 holds a fresh satellite.
    let b = sim.get(1);
    assert!(b.m >= 10 && b.m <= 3_000);
}

#[test]
fn test_integrate_rest_is_identity() {
    // A body at rest with zero acceleration, in bounds and away from any
    // black hole, keeps its position exactly over a step.
    let mut sim = NBodySimulation3D::empty(2, std_config()).unwrap();
    generate_blackhole(&mut sim, &center());
    sim.set(
        1,
        &MovingBody3D { r: Vector3D::from_xy(100_000, 100_000), v: Vector3D::zero(), m: 1_000 },
    );
    sim.integrate(100);
    assert_eq!(sim.get(1).r, Vector3D { x: 100_000, y: 100_000, z: 0 });
    assert_eq!(sim.get(1).v, Vector3D { x: 0, y: 0, z: 0 });
    assert_eq!(sim.get(0).r, Vector3D { x: 250_000, y: 250_000, z: 0 });
}

#[test]
fn test_satellite_from_draws_deterministic() {
    let c = center();
    let a = satellite_from_draws(&c, 11, 22, 33);
    let b = satellite_from_draws(&c, 11, 22, 33);
    assert_eq!(a, b);
    // The drawn values shape the satellite: different draws give a
    // different satellite (for these draws).
    let d = satellite_from_draws(&c, 12, 22, 33);
    assert_ne!(a.r, d.r);
}

#[test]
fn test_same_seed_same_galaxy() {
    let s1 = init_simulation(
        8,
        &center(),
        10_000,
        Vector3D::from_xy(0, 0),
        Vector3D::from_xy(500_000, 500_000),
        7,
    )
    .unwrap();
    let s2 = init_simulation(
        8,
        &center(),
        10_000,
        Vector3D::from_xy(0, 0),
        Vector3D::from_xy(500_000, 500_000),
        7,
    )
    .unwrap();
    for i in 0..8 {
        assert_eq!(s1.get(i), s2.get(i));
    }
    // Satellites stay within the generation radius of the center.
    for i in 1..8 {
        let b = s1.get(i);
        assert!((b.r.x - 250_000).abs() <= 250_000);
        assert!((b.r.y - 250_000).abs() <= 250_000);
        assert!(b.m >= 10 && b.m <= 3_000);
    }
}

#[test]
fn test_step_selects_evaluator() {
    let mut s1 = init_simulation(
        6,
        &center(),
        10_000,
        Vector3D::from_xy(0, 0),
        Vector3D::from_xy(500_000, 500_000),
        3,
    )
    .unwrap();
    let mut s2 = init_simulation(
        6,
        &center(),
        10_000,
        Vector3D::from_xy(0, 0),
        Vector3D::from_xy(500_000, 500_000),
        3,
    )
    .unwrap();
    // theta = 0 selects the direct algorithm.
    step(&mut s1, 100, 0);
    galaxy::nbody_direct(&mut s2, 100);
    for i in 0..6 {
        assert_eq!(s1.get(i), s2.get(i));
    }
    // A second tick with Barnes-Hut accuracy runs too.
    step(&mut s1, 100, 2_000);
    assert_eq!(s1.n, 6);
}
