//! Vector arithmetic tests.
use galaxy::Vector3D;

#[test]
fn test_add_assign() {
    let mut v1 = Vector3D { x: 1, y: 2, z: 3 };
    let v2 = Vector3D { x: 2, y: 4, z: 6 };
    let v3 = Vector3D { x: 3, y: 6, z: 9 };

    v1.add_assign(v2);
    assert_eq!(v1, v3);
}

#[test]
fn test_mul_assign() {
    let mut v1 = Vector3D { x: 1, y: 2, z: 3 };
    let v3 = Vector3D { x: 3, y: 6, z: 9 };
    let s: i64 = 3;

    v1.mul_assign(s);
    assert_eq!(v1, v3);
}

#[test]
fn test_mul() {
    let v1 = Vector3D { x: 1, y: 2, z: 3 };
    let v3 = Vector3D { x: 3, y: 6, z: 9 };
    let s: i64 = 3;

    assert_eq!(v1.mul(s), v3);
}

#[test]
fn test_in_bounds() {
    let min = Vector3D { x: 0, y: 0, z: 0 };
    let max = Vector3D { x: 500, y: 500, z: 0 };
    let r = Vector3D { x: 250, y: 250, z: 0 };

    assert_eq!(r.in_bounds(&min, &max), true);
}

#[test]
fn test_sub_and_l2() {
    let a = Vector3D { x: 5, y: 9, z: 0 };
    let b = Vector3D { x: 2, y: 5, z: 0 };
    let d = a.sub(b);
    assert_eq!(d, Vector3D { x: 3, y: 4, z: 0 });
    assert_eq!(d.l2_sqrd(), 25);
}
