use processor::money::{dollar_to_penny, penny_from_whole, MoneyError};

#[test]
fn dollars_become_pennies() {
    assert_eq!(dollar_to_penny(1234, 2), Ok(1234));
    assert_eq!(dollar_to_penny(5, 0), Ok(500));
    assert_eq!(dollar_to_penny(0, 0), Ok(0));
    assert_eq!(dollar_to_penny(19_990, 3), Ok(1999));
}

#[test]
fn fractions_of_a_penny_are_rounded() {
    assert_eq!(dollar_to_penny(12_346, 3), Ok(1235));
    assert_eq!(dollar_to_penny(12_344, 3), Ok(1234));
    assert_eq!(dollar_to_penny(1, 3), Ok(0));
    assert_eq!(dollar_to_penny(9, 3), Ok(1));
}

#[test]
fn half_a_penny_goes_to_the_even_neighbour() {
    assert_eq!(dollar_to_penny(125, 3), Ok(12));
    assert_eq!(dollar_to_penny(135, 3), Ok(14));
    assert_eq!(dollar_to_penny(5, 3), Ok(0));
    assert_eq!(dollar_to_penny(15, 3), Ok(2));
}

#[test]
fn largest_amount_that_fits() {
    assert_eq!(dollar_to_penny(9_223_372_036_854_775_807, 2), Ok(9_223_372_036_854_775_807));
    assert_eq!(dollar_to_penny(9_223_372_036_854_775_808, 2), Err(MoneyError::OutOfRange));
}

#[test]
fn negative_amount_is_out_of_range() {
    assert_eq!(dollar_to_penny(-1, 0), Err(MoneyError::OutOfRange));
    assert_eq!(dollar_to_penny(-1234, 2), Err(MoneyError::OutOfRange));
}

#[test]
fn amount_beyond_63_bits_is_out_of_range() {
    assert_eq!(dollar_to_penny(100_000_000_000_000_000_000, 0), Err(MoneyError::OutOfRange));
}

#[test]
fn product_beyond_the_decimal_range_overflows() {
    let largest: i128 = 79_228_162_514_264_337_593_543_950_335;
    assert_eq!(dollar_to_penny(largest, 0), Err(MoneyError::Overflow));
    assert_eq!(dollar_to_penny(-largest, 0), Err(MoneyError::Overflow));
}

#[test]
fn what_is_no_decimal_overflows() {
    assert_eq!(dollar_to_penny(1, 29), Err(MoneyError::Overflow));
    assert_eq!(dollar_to_penny(i128::MAX, 0), Err(MoneyError::Overflow));
}

#[test]
fn whole_number_to_pennies() {
    assert_eq!(penny_from_whole(Some(7)), Ok(7));
    assert_eq!(penny_from_whole(Some(0)), Ok(0));
    assert_eq!(penny_from_whole(Some(i64::MAX)), Ok(9_223_372_036_854_775_807));
    assert_eq!(penny_from_whole(Some(-5)), Err(MoneyError::OutOfRange));
    assert_eq!(penny_from_whole(None), Err(MoneyError::OutOfRange));
}
