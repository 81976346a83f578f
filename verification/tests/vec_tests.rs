use boids::vec3::{div_trunc, div_trunc_i128, isqrt_ceil, Vec3};

#[test]
fn isqrt_ceil_small_values() {
    assert_eq!(isqrt_ceil(0), 0);
    assert_eq!(isqrt_ceil(1), 1);
    assert_eq!(isqrt_ceil(2), 2);
    assert_eq!(isqrt_ceil(4), 2);
    assert_eq!(isqrt_ceil(10), 4);
    assert_eq!(isqrt_ceil(16), 4);
    assert_eq!(isqrt_ceil(17), 5);
}

#[test]
fn isqrt_ceil_is_least_cover() {
    for n in 0..1000i128 {
        let r = isqrt_ceil(n) as i128;
        assert!(r * r >= n);
        if r > 0 {
            assert!((r - 1) * (r - 1) < n);
        }
    }
}

#[test]
fn div_trunc_rounds_toward_zero() {
    assert_eq!(div_trunc(7, 2), 3);
    assert_eq!(div_trunc(-7, 2), -3);
    assert_eq!(div_trunc(-1, 3), 0);
    assert_eq!(div_trunc(1, 3), 0);
    assert_eq!(div_trunc_i128(-9, 4), -2);
}

#[test]
fn vector_arithmetic_is_exact() {
    let a = Vec3::new(3, 4, 0);
    let b = Vec3::new(1, -2, 5);
    let s = a.add(&b);
    assert_eq!((s.x, s.y, s.z), (4, 2, 5));
    let d = a.sub(&b);
    assert_eq!((d.x, d.y, d.z), (2, 6, -5));
    assert_eq!(a.norm_sq(), 25);
    let z = Vec3::zero();
    assert_eq!(z.norm_sq(), 0);
}

#[test]
fn renorm_rescales_to_requested_norm() {
    let v = Vec3::new(3, 4, 0);
    let r = v.renorm(10);
    assert_eq!((r.x, r.y, r.z), (6, 8, 0));
    let z = Vec3::zero().renorm(10);
    assert_eq!((z.x, z.y, z.z), (0, 0, 0));
}

#[test]
fn renorm_never_exceeds_requested_norm() {
    let samples = [
        Vec3::new(1, 2, 3),
        Vec3::new(-1000, 999, 5),
        Vec3::new(7, 0, 0),
        Vec3::new(123456789, -987654321, 1),
    ];
    for v in samples.iter() {
        let r = v.renorm(1000);
        assert!(r.norm_sq() <= 1_000_000);
    }
}

#[test]
fn clamp_norm_keeps_short_vectors() {
    let v = Vec3::new(3, 4, 0);
    let same = v.clamp_norm(5);
    assert_eq!((same.x, same.y, same.z), (3, 4, 0));
    let shorter = v.clamp_norm(4);
    assert_eq!((shorter.x, shorter.y, shorter.z), (2, 3, 0));
    assert!(shorter.norm_sq() <= 16);
}

#[test]
fn mul_div_applies_weights() {
    let v = Vec3::new(10, -10, 5);
    let w = v.mul_div(11, 10);
    assert_eq!((w.x, w.y, w.z), (11, -11, 5));
    let h = v.mul_div(1, 100);
    assert_eq!((h.x, h.y, h.z), (0, 0, 0));
    let g = Vec3::new(500, -500, 0).mul_div(1, 100);
    assert_eq!((g.x, g.y, g.z), (5, -5, 0));
}
