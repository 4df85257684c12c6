use plato::fixed::{div_round, fixed_mul, isqrt, saturate_i32, ONE};

#[test]
fn div_round_rounds_to_nearest() {
    assert_eq!(div_round(10, 4), 3);
    assert_eq!(div_round(4, 10), 0);
    assert_eq!(div_round(0, 3), 0);
    assert_eq!(div_round(9, 3), 3);
}

#[test]
fn div_round_sends_ties_away_from_zero() {
    assert_eq!(div_round(7, 2), 4);
    assert_eq!(div_round(-7, 2), -4);
    assert_eq!(div_round(7, -2), -4);
    assert_eq!(div_round(-7, -2), 4);
    assert_eq!(div_round(5, 10), 1);
    assert_eq!(div_round(-5, 10), -1);
    assert_eq!(div_round(-10, 4), -3);
}

#[test]
fn saturate_keeps_what_fits_and_limits_the_rest() {
    assert_eq!(saturate_i32(0), 0);
    assert_eq!(saturate_i32(-17), -17);
    assert_eq!(saturate_i32(i32::MAX as i128), i32::MAX);
    assert_eq!(saturate_i32(i32::MAX as i128 + 1), i32::MAX);
    assert_eq!(saturate_i32(i32::MIN as i128), i32::MIN);
    assert_eq!(saturate_i32(i32::MIN as i128 - 1), i32::MIN);
    assert_eq!(saturate_i32(i128::MAX), i32::MAX);
    assert_eq!(saturate_i32(i128::MIN), i32::MIN);
}

#[test]
fn fixed_mul_multiplies_fractions() {
    assert_eq!(fixed_mul(ONE, 234_000), 234_000);
    assert_eq!(fixed_mul(5_000, 14_697_000), 73_485);
    assert_eq!(fixed_mul(1_618_000, 539_000), 872_102);
    assert_eq!(fixed_mul(-1_618_000, 539_000), -872_102);
    assert_eq!(fixed_mul(0, i32::MAX), 0);
}

#[test]
fn fixed_mul_rounds_the_last_digit() {
    assert_eq!(fixed_mul(3, 500_000), 2);
    assert_eq!(fixed_mul(-3, 500_000), -2);
    assert_eq!(fixed_mul(1, 499_999), 0);
    assert_eq!(fixed_mul(1, 500_000), 1);
}

#[test]
fn fixed_mul_saturates() {
    assert_eq!(fixed_mul(i32::MAX, i32::MAX), i32::MAX);
    assert_eq!(fixed_mul(i32::MIN, i32::MAX), i32::MIN);
    assert_eq!(fixed_mul(i32::MIN, i32::MIN), i32::MAX);
}

#[test]
fn isqrt_of_squares_and_their_neighbours() {
    assert_eq!(isqrt(0), 0);
    assert_eq!(isqrt(1), 1);
    assert_eq!(isqrt(2), 1);
    assert_eq!(isqrt(3), 1);
    assert_eq!(isqrt(4), 2);
    assert_eq!(isqrt(99), 9);
    assert_eq!(isqrt(100), 10);
    assert_eq!(isqrt(1_000_000_000_000), 1_000_000);
    assert_eq!(isqrt(999_999_999_999), 999_999);
    assert_eq!(isqrt(u64::MAX), 4_294_967_295);
}

#[test]
fn isqrt_brackets_its_argument() {
    let mut n: u64 = 0;
    while n < 5_000 {
        let r = isqrt(n);
        assert!(r * r <= n && n < (r + 1) * (r + 1));
        n += 1;
    }
}
