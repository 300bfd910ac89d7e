use raytracing::math::fixed::{isqrt, Fixed, ONE_RAW};

fn fx(x: f64) -> Fixed {
    Fixed::from_raw((x * 4294967296.0).round() as i64)
}

#[test]
fn one_is_two_to_the_thirty_two() {
    assert_eq!(ONE_RAW, 1i64 << 32);
    assert_eq!(Fixed::one().raw, ONE_RAW);
    assert_eq!(Fixed::zero().raw, 0);
    assert_eq!(Fixed::from_int(-7).raw, -7 * ONE_RAW);
    assert_eq!(Fixed::from_count(7).raw, 7 * ONE_RAW);
    assert_eq!(Fixed::from_count(u32::MAX).raw, i64::MAX);
}

#[test]
fn sums_saturate() {
    assert_eq!((fx(1.5) + fx(2.25)).raw, fx(3.75).raw);
    assert_eq!((fx(1.5) - fx(2.25)).raw, fx(-0.75).raw);
    assert_eq!((Fixed::from_raw(i64::MAX) + Fixed::from_raw(1)).raw, i64::MAX);
    assert_eq!((Fixed::from_raw(i64::MIN) - Fixed::from_raw(1)).raw, i64::MIN);
    assert_eq!((-Fixed::from_raw(i64::MIN)).raw, i64::MAX);
    assert_eq!((-fx(2.5)).raw, fx(-2.5).raw);
}

#[test]
fn products_round_toward_zero() {
    assert_eq!((fx(3.0) * fx(0.5)).raw, fx(1.5).raw);
    assert_eq!((Fixed::from_raw(3) * Fixed::from_raw(ONE_RAW / 2)).raw, 1);
    assert_eq!((Fixed::from_raw(-3) * Fixed::from_raw(ONE_RAW / 2)).raw, -1);
    assert_eq!((Fixed::from_raw(3) * Fixed::from_raw(-ONE_RAW / 2)).raw, -1);
    assert_eq!((Fixed::from_raw(-3) * Fixed::from_raw(-ONE_RAW / 2)).raw, 1);
    assert_eq!((Fixed::from_int(100000) * Fixed::from_int(100000)).raw, i64::MAX);
    assert_eq!((Fixed::from_int(-100000) * Fixed::from_int(100000)).raw, i64::MIN);
}

#[test]
fn quotients_round_toward_zero() {
    assert_eq!((fx(3.0) / fx(0.5)).raw, fx(6.0).raw);
    assert_eq!((Fixed::from_int(1) / Fixed::from_int(3)).raw, 1431655765);
    assert_eq!((Fixed::from_int(-1) / Fixed::from_int(3)).raw, -1431655765);
    assert_eq!((Fixed::from_int(1) / Fixed::from_int(-3)).raw, -1431655765);
    assert_eq!(Fixed::from_ratio(1, 1000).raw, 4294967);
    assert_eq!(Fixed::from_ratio(7, 10).raw, 3006477107);
    assert_eq!(Fixed::from_ratio(-1005, 10).raw, -431644213248);
}

#[test]
fn division_by_zero_saturates() {
    assert_eq!((fx(1.0) / Fixed::zero()).raw, i64::MAX);
    assert_eq!((fx(-1.0) / Fixed::zero()).raw, i64::MIN);
    assert_eq!((Fixed::zero() / Fixed::zero()).raw, 0);
    assert_eq!(Fixed::from_ratio(5, 0).raw, i64::MAX);
}

#[test]
fn square_roots_round_down() {
    assert_eq!(fx(4.0).sqrt().raw, fx(2.0).raw);
    assert_eq!(fx(0.25).sqrt().raw, fx(0.5).raw);
    assert_eq!(fx(2.0).sqrt().raw, 6074000999);
    assert_eq!(Fixed::zero().sqrt().raw, 0);
    assert_eq!(fx(-4.0).sqrt().raw, 0);
    assert_eq!(Fixed::from_raw(1).sqrt().raw, 65536);
}

#[test]
fn integer_square_root_is_the_floor() {
    assert_eq!(isqrt(0), 0);
    assert_eq!(isqrt(1), 1);
    assert_eq!(isqrt(3), 1);
    assert_eq!(isqrt(4), 2);
    assert_eq!(isqrt(99), 9);
    assert_eq!(isqrt(100), 10);
    assert_eq!(isqrt(u128::MAX), u64::MAX);
    assert_eq!(isqrt((1u128 << 126) * 3), 15975348984942515101);
}

#[test]
fn halving_rounds_toward_zero() {
    assert_eq!(Fixed::from_raw(5).halved(1).raw, 2);
    assert_eq!(Fixed::from_raw(-5).halved(1).raw, -2);
    assert_eq!(fx(1.0).halved(8).raw, ONE_RAW / 256);
    assert_eq!(fx(-1.0).halved(8).raw, -ONE_RAW / 256);
    assert_eq!(fx(1.0).halved(0).raw, ONE_RAW);
    assert_eq!(fx(1.0).halved(64).raw, 0);
    assert_eq!(Fixed::from_raw(i64::MIN).halved(1).raw, i64::MIN / 2);
    assert_eq!(fx(1.0).halved(usize::MAX).raw, 0);
}

#[test]
fn floor_rounds_down() {
    assert_eq!(fx(2.75).floor(), 2);
    assert_eq!(fx(-2.75).floor(), -3);
    assert_eq!(fx(-3.0).floor(), -3);
    assert_eq!(Fixed::from_raw(-1).floor(), -1);
    assert_eq!(Fixed::from_raw(i64::MIN).floor(), -2147483648);
}

#[test]
fn numbers_are_ordered_as_their_raw_counts() {
    assert!(fx(1.0) < fx(1.5));
    assert!(fx(-2.0) < fx(-1.5));
    assert!(fx(-0.5) < Fixed::zero());
    assert!(fx(2.0) > fx(1.5));
    assert!(fx(1.5) <= fx(1.5));
    assert!(Fixed::from_raw(i64::MIN) < Fixed::from_raw(i64::MAX));
    assert_eq!(fx(3.0).max(fx(-4.0)), fx(3.0));
}

#[test]
fn equal_numbers_have_equal_raw_counts() {
    assert_eq!(fx(1.5), fx(1.5));
    assert_ne!(fx(1.5), Fixed::from_raw(fx(1.5).raw + 1));
    assert_eq!(Fixed::from_raw(12345).raw, 12345);
}
