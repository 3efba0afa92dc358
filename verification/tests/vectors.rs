use random_walkers::math::{Vec2, div_trunc, isqrt, magnitude, normalize};

#[test]
fn magnitude_of_pythagorean_vector() {
    assert_eq!(magnitude(Vec2 { x: 3000, y: 4000 }), 5000);
    assert_eq!(magnitude(Vec2 { x: -3000, y: 4000 }), 5000);
    assert_eq!(magnitude(Vec2 { x: 0, y: 0 }), 0);
    assert_eq!(magnitude(Vec2 { x: 1, y: 1 }), 1);
    assert_eq!(magnitude(Vec2 { x: 0, y: -7 }), 7);
}

#[test]
fn isqrt_rounds_down() {
    assert_eq!(isqrt(0), 0);
    assert_eq!(isqrt(1), 1);
    assert_eq!(isqrt(2), 1);
    assert_eq!(isqrt(3), 1);
    assert_eq!(isqrt(4), 2);
    assert_eq!(isqrt(999_999), 999);
    assert_eq!(isqrt(1_000_000), 1000);
    assert_eq!(isqrt(8_899_999_999_999_999_999), 2_983_286_778);
}

#[test]
fn normalize_zero_vector_is_none() {
    assert!(normalize(Vec2 { x: 0, y: 0 }).is_none());
}

#[test]
fn normalize_unit_scales_to_scale() {
    let u = normalize(Vec2 { x: 3000, y: 4000 }).unwrap();
    assert_eq!(u, Vec2 { x: 600, y: 800 });
    let v = normalize(Vec2 { x: -3000, y: 4000 }).unwrap();
    assert_eq!(v, Vec2 { x: -600, y: 800 });
    let w = normalize(Vec2 { x: 0, y: 5 }).unwrap();
    assert_eq!(w, Vec2 { x: 0, y: 1000 });
}

#[test]
fn normalize_none_exactly_when_magnitude_zero() {
    let cases = [
        Vec2 { x: 0, y: 0 },
        Vec2 { x: 1, y: 0 },
        Vec2 { x: 0, y: -1 },
        Vec2 { x: 12_345, y: -54_321 },
    ];
    for v in cases {
        assert_eq!(normalize(v).is_none(), magnitude(v) == 0);
    }
}

#[test]
fn div_trunc_truncates_toward_zero() {
    assert_eq!(div_trunc(7, 2), 3);
    assert_eq!(div_trunc(-7, 2), -3);
    assert_eq!(div_trunc(0, 5), 0);
    assert_eq!(div_trunc(-1, 1000), 0);
}
