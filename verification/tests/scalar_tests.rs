use sphere_physics::scalar::{isqrt, Scalar, SCALE};

#[test]
fn product_of_scaled_values_is_scaled() {
    let g = Scalar::from_micros(-9_800_000);
    let dt = Scalar::from_micros(10_000);
    assert_eq!(g.mul(&dt), Scalar::from_micros(-98_000));
}

#[test]
fn products_round_toward_zero() {
    let a = Scalar::from_micros(1);
    let half = Scalar::from_micros(500_000);
    assert_eq!(a.mul(&half).micros(), 0);
    assert_eq!(a.neg().mul(&half).micros(), 0);
    assert_eq!(Scalar::from_micros(3).mul(&half).micros(), 1);
    assert_eq!(Scalar::from_micros(-3).mul(&half).micros(), -1);
}

#[test]
fn sums_are_pinned_to_the_range() {
    let top = Scalar::from_micros(i64::MAX);
    let bottom = Scalar::from_micros(i64::MIN);
    assert_eq!(top.add(&Scalar::one()).micros(), i64::MAX);
    assert_eq!(bottom.sub(&Scalar::one()).micros(), i64::MIN);
    assert_eq!(bottom.neg().micros(), i64::MAX);
    assert_eq!(top.mul(&top).micros(), i64::MAX);
    assert_eq!(top.mul(&bottom).micros(), i64::MIN);
}

#[test]
fn whole_units_scale_up() {
    assert_eq!(Scalar::from_int(5).micros(), 5 * SCALE);
    assert_eq!(Scalar::from_int(i64::MAX).micros(), i64::MAX);
    assert_eq!(Scalar::from_int(-3).micros(), -3 * SCALE);
}

#[test]
fn integer_square_roots() {
    assert_eq!(isqrt(0), 0);
    assert_eq!(isqrt(1), 1);
    assert_eq!(isqrt(3), 1);
    assert_eq!(isqrt(4), 2);
    assert_eq!(isqrt(24), 4);
    assert_eq!(isqrt(25), 5);
    assert_eq!(isqrt(4_000_000_000_000), 2_000_000);
    assert_eq!(isqrt(u128::MAX), u64::MAX as u128);
}
