//! Fixed-point arithmetic helper tests.
use galaxy::{clamp_i64, isqrt_u128, sm_step};

#[test]
fn test_isqrt_exact_values() {
    assert_eq!(isqrt_u128(0), 0);
    assert_eq!(isqrt_u128(1), 1);
    assert_eq!(isqrt_u128(24), 4);
    assert_eq!(isqrt_u128(25), 5);
    assert_eq!(isqrt_u128(900_000_000), 30_000);
    assert_eq!(isqrt_u128(u128::from(u64::MAX)) , 4_294_967_295);
}

#[test]
fn test_clamp_behavior() {
    assert_eq!(clamp_i64(-10, 10, 5), 5);
    assert_eq!(clamp_i64(-10, 10, 15), 10);
    assert_eq!(clamp_i64(-10, 10, -15), -10);
}

#[test]
fn test_stream_is_deterministic() {
    let (d1, s1) = sm_step(42);
    let (d1b, s1b) = sm_step(42);
    assert_eq!(d1, d1b);
    assert_eq!(s1, s1b);
    let (d2, _) = sm_step(s1);
    assert_ne!(d1, d2);
}
