use field_qa::arith::{div_round, div_trunc, floor_sqrt, nearest_sqrt};

#[test]
fn div_round_rounds_halves_away_from_zero() {
    assert_eq!(div_round(7, 2), 4);
    assert_eq!(div_round(-7, 2), -4);
    assert_eq!(div_round(7, -2), -4);
    assert_eq!(div_round(-7, -2), 4);
    assert_eq!(div_round(5, 3), 2);
    assert_eq!(div_round(4, 3), 1);
    assert_eq!(div_round(-4, 3), -1);
    assert_eq!(div_round(0, 5), 0);
    assert_eq!(div_round(10, 5), 2);
}

#[test]
fn div_trunc_rounds_toward_zero() {
    assert_eq!(div_trunc(7, 2), 3);
    assert_eq!(div_trunc(-7, 2), -3);
    assert_eq!(div_trunc(7, -2), -3);
    assert_eq!(div_trunc(-7, -2), 3);
    assert_eq!(div_trunc(6, 3), 2);
}

#[test]
fn floor_sqrt_rounds_down() {
    assert_eq!(floor_sqrt(0), 0);
    assert_eq!(floor_sqrt(1), 1);
    assert_eq!(floor_sqrt(3), 1);
    assert_eq!(floor_sqrt(4), 2);
    assert_eq!(floor_sqrt(99), 9);
    assert_eq!(floor_sqrt(100), 10);
    assert_eq!(floor_sqrt(u128::MAX), 18446744073709551615);
}

#[test]
fn nearest_sqrt_rounds_to_nearest() {
    assert_eq!(nearest_sqrt(0), 0);
    assert_eq!(nearest_sqrt(1), 1);
    assert_eq!(nearest_sqrt(2), 1);
    assert_eq!(nearest_sqrt(3), 2);
    assert_eq!(nearest_sqrt(6), 2);
    assert_eq!(nearest_sqrt(7), 3);
    assert_eq!(nearest_sqrt(25), 5);
    assert_eq!(nearest_sqrt(30), 5);
    assert_eq!(nearest_sqrt(31), 6);
}
