use money_manager::money::{liability_magnitude, round_div};

#[test]
fn round_div_rounds_to_the_nearest() {
    assert_eq!(round_div(10, 4), 3);
    assert_eq!(round_div(9, 4), 2);
    assert_eq!(round_div(11, 4), 3);
    assert_eq!(round_div(7, 7), 1);
    assert_eq!(round_div(0, 5), 0);
    assert_eq!(round_div(1, 300), 0);
    assert_eq!(round_div(149, 300), 0);
    assert_eq!(round_div(150, 300), 1);
}

#[test]
fn round_div_breaks_ties_away_from_zero() {
    assert_eq!(round_div(5, 2), 3);
    assert_eq!(round_div(-5, 2), -3);
    assert_eq!(round_div(1, 2), 1);
    assert_eq!(round_div(-1, 2), -1);
    assert_eq!(round_div(-10, 4), -3);
    assert_eq!(round_div(-9, 4), -2);
}

#[test]
fn round_div_takes_large_values() {
    assert_eq!(round_div(i128::MAX, 1), i128::MAX);
    assert_eq!(round_div(i128::MAX, i128::MAX), 1);
    assert_eq!(round_div(-i128::MAX, 1), -i128::MAX);
    assert_eq!(round_div(i128::MAX, 2), i128::MAX / 2 + 1);
}

#[test]
fn liability_magnitude_never_goes_negative() {
    assert_eq!(liability_magnitude(-2_500), 2_500);
    assert_eq!(liability_magnitude(0), 0);
    assert_eq!(liability_magnitude(4_000), 0);
}

#[test]
fn numbers_are_written_in_decimal_at_the_end_of_a_text() {
    let written = |n: i64| {
        let mut text = String::from("n=");
        money_manager::text::push_number(&mut text, n);
        text
    };
    assert_eq!(written(0), "n=0");
    assert_eq!(written(7), "n=7");
    assert_eq!(written(10), "n=10");
    assert_eq!(written(4_000_000_000_000_000_000), "n=4000000000000000000");
    assert_eq!(written(-305), "n=-305");
    assert_eq!(written(i64::MAX), "n=9223372036854775807");
    assert_eq!(written(i64::MIN), "n=-9223372036854775808");
    let mut digits = String::new();
    money_manager::text::push_digits(&mut digits, u64::MAX);
    assert_eq!(digits, "18446744073709551615");
}
