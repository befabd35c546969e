use raptorbt::decimals::exact_decimal_product;
use raptorbt::types::Direction;

#[test]
fn a_product_of_binary_approximations_misses_both() {
    // The naive chain rounds three times and lands on the wrong side of
    // one tie; the point of the exact product is that it never does.
    let btc: f64 = 0.10379 * 92104.5 * 0.001;
    assert_ne!((btc * 1e8).round() / 1e8, 9.55952605);
    let avax: f64 = 6.4125 * 11.79 * 0.001;
    assert_ne!((avax * 1e8).round() / 1e8, 0.07560338);
}

#[test]
fn directions_read_and_write_their_codes() {
    assert_eq!(Direction::from_int(1), Some(Direction::Long));
    assert_eq!(Direction::from_int(-1), Some(Direction::Short));
    assert_eq!(Direction::from_int(0), None);
    assert_eq!(Direction::from_int(2), None);
    assert_eq!(Direction::Long.to_i8(), 1);
    assert_eq!(Direction::Short.to_i8(), -1);
}

#[test]
fn an_exact_product_multiplies_mantissas_and_adds_scales() {
    // 0.10379 * 92104.5 * 0.001 is exactly 9.559526055.
    let parts = [(10379_i128, 5_u32), (921045, 1), (1, 3)];
    assert_eq!(exact_decimal_product(&parts), Some((9_559_526_055, 9)));
}

#[test]
fn no_parts_multiply_to_one() {
    assert_eq!(exact_decimal_product(&[]), Some((1, 0)));
}

#[test]
fn an_exact_product_settles_each_tie_on_the_venue_side() {
    // The same two ties as the naive chain misses: converted once from the
    // exact product, both land where the venue lands.
    let (m, s) = exact_decimal_product(&[(10379, 5), (921045, 1), (1, 3)]).unwrap();
    let btc = m as f64 / 10f64.powi(s as i32);
    assert_eq!((btc * 1e8).round() / 1e8, 9.55952605);

    let (m, s) = exact_decimal_product(&[(64125, 4), (1179, 2), (1, 3)]).unwrap();
    assert_eq!((m, s), (75_603_375, 9));
    let avax = m as f64 / 10f64.powi(s as i32);
    assert_eq!((avax * 1e8).round() / 1e8, 0.07560338);
}

#[test]
fn a_mantissa_past_two_to_the_fifty_third_is_refused() {
    let big = 1_i128 << 30;
    assert_eq!(exact_decimal_product(&[(big, 0), (big, 0)]), None);
    // Just under the bound is still exact.
    assert_eq!(exact_decimal_product(&[(1_i128 << 26, 0), (1_i128 << 26, 0)]), Some((1_i128 << 52, 0)));
    // Negative mantissas are bounded by magnitude.
    assert_eq!(exact_decimal_product(&[(-(1_i128 << 30), 0), (1_i128 << 30, 0)]), None);
}

#[test]
fn a_partial_product_that_overflowed_is_not_rescued_by_a_zero() {
    // The product leaves the exact range after the second factor; a later
    // zero does not bring it back.
    let big = 1_i128 << 40;
    assert_eq!(exact_decimal_product(&[(big, 0), (big, 0), (0, 0)]), None);
    // An i128 overflow is refused the same way.
    assert_eq!(exact_decimal_product(&[(1, 0), (i128::MAX, 0)]), None);
}

#[test]
fn a_scale_past_twenty_two_is_refused() {
    assert_eq!(exact_decimal_product(&[(1, 9), (1, 9), (1, 5)]), None);
    // Exactly twenty-two is still exact.
    assert_eq!(exact_decimal_product(&[(1, 9), (1, 9), (1, 3), (1, 1)]), Some((1, 22)));
    assert_eq!(exact_decimal_product(&[(1, u32::MAX), (1, 1)]), None);
}
