use grapple::math::{div_trunc, div_trunc_wide, int_sqrt, Vec2};

#[test]
fn int_sqrt_small_values() {
    assert_eq!(int_sqrt(0), 0);
    assert_eq!(int_sqrt(1), 1);
    assert_eq!(int_sqrt(2), 1);
    assert_eq!(int_sqrt(3), 1);
    assert_eq!(int_sqrt(4), 2);
    assert_eq!(int_sqrt(15), 3);
    assert_eq!(int_sqrt(16), 4);
    assert_eq!(int_sqrt(10_000_000), 3162);
}

#[test]
fn int_sqrt_extremes() {
    assert_eq!(int_sqrt(u128::MAX), (1u128 << 64) - 1);
    let r = int_sqrt(1u128 << 100);
    assert_eq!(r, 1u128 << 50);
}

#[test]
fn div_trunc_rounds_toward_zero() {
    assert_eq!(div_trunc(7, 2), 3);
    assert_eq!(div_trunc(-7, 2), -3);
    assert_eq!(div_trunc(0, 5), 0);
    assert_eq!(div_trunc(-1, 3), 0);
    assert_eq!(div_trunc_wide(-45_000_000, 9_250_000), -4);
}

#[test]
fn vec2_basic_ops() {
    let a = Vec2::new(300, 400);
    let b = Vec2::new(-100, 50);
    let s = a.add(b);
    assert_eq!((s.x, s.y), (200, 450));
    let d = a.sub(b);
    assert_eq!((d.x, d.y), (400, 350));
    assert_eq!(a.dot(b), 300 * -100 + 400 * 50);
    assert_eq!(Vec2::zero().x, 0);
    assert_eq!(Vec2::zero().y, 0);
}

#[test]
fn vec2_length_exact() {
    assert_eq!(Vec2::new(300, 400).length(), 500);
    assert_eq!(Vec2::new(3000, -1000).length(), 3162);
    assert_eq!(Vec2::new(0, 0).length(), 0);
}

#[test]
fn vec2_normalized_fixed_point() {
    let n = Vec2::new(300, 400).normalized();
    assert_eq!((n.x, n.y), (60, 80));
    let n2 = Vec2::new(3000, -1000).normalized();
    assert_eq!((n2.x, n2.y), (94, -31));
    let n3 = Vec2::new(0, -500).normalized();
    assert_eq!((n3.x, n3.y), (0, -100));
}

#[test]
fn move_to_reaches_close_target() {
    let from = Vec2::new(0, 0);
    let target = Vec2::new(300, 400);
    let r = from.move_to(target, 600);
    assert_eq!((r.x, r.y), (300, 400));
    let exact = from.move_to(target, 500);
    assert_eq!((exact.x, exact.y), (300, 400));
}

#[test]
fn move_to_advances_by_step() {
    let from = Vec2::new(0, 0);
    let target = Vec2::new(300, 400);
    let r = from.move_to(target, 100);
    assert_eq!((r.x, r.y), (60, 80));
    let t = from.move_to(Vec2::new(10, 10), 10);
    assert_eq!((t.x, t.y), (7, 7));
}
