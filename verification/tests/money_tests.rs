use std::cmp::Ordering;
use rusty_money::{Decimal, Iso, IsoCurrency, Money, MoneyError, Round};

#[test]
fn money_major_minor() {
    let usd = IsoCurrency::get(Iso::USD);
    let major_usd = Money::from_major(10, &usd);
    let minor_usd = Money::from_minor(1000, &usd);
    assert_eq!(major_usd, minor_usd);
}

#[test]
fn money_from_string_parses_correctly() {
    let gbp = IsoCurrency::get(Iso::GBP);
    let expected_money = Money::from_minor(2999, &gbp);
    let money = Money::from_string("29.99".to_string(), &gbp).unwrap();
    assert_eq!(money, expected_money);
}

#[test]
fn money_from_string_parses_signs() {
    let gbp = IsoCurrency::get(Iso::GBP);
    let expected_money = Money::from_minor(-300, &gbp);
    let money = Money::from_string("-3".to_string(), &gbp).unwrap();
    assert_eq!(money, expected_money);

    let expected_money = Money::from_minor(300, &gbp);
    let money = Money::from_string("+3".to_string(), &gbp).unwrap();
    assert_eq!(money, expected_money);
}

#[test]
fn money_from_string_ignores_separators() {
    let gbp = IsoCurrency::get(Iso::GBP);
    let expected_money = Money::from_minor(100000000, &gbp);
    let money = Money::from_string("1,000,000".to_string(), &gbp).unwrap();
    assert_eq!(money, expected_money);
}

#[test]
fn money_from_string_decimal_sanity() {
    let gbp = IsoCurrency::get(Iso::GBP);
    let eur = IsoCurrency::get(Iso::EUR);
    let inr = IsoCurrency::get(Iso::INR);

    let money = Money::from_string("1,00.00".to_string(), &gbp);
    assert_eq!(money.unwrap_err(), MoneyError::InvalidAmount);

    let money = Money::from_string("1.00,00".to_string(), &eur);
    assert_eq!(money.unwrap_err(), MoneyError::InvalidAmount);

    let money = Money::from_string("1.00.000,00".to_string(), &eur);
    assert_eq!(money.unwrap_err(), MoneyError::InvalidAmount);

    let money = Money::from_string("1.00.000.000,00".to_string(), &eur);
    assert_eq!(money.unwrap_err(), MoneyError::InvalidAmount);

    let money = Money::from_string("1,00.00".to_string(), &inr);
    assert_eq!(money.unwrap_err(), MoneyError::InvalidAmount);

    let money = Money::from_string("1.000.000.00".to_string(), &inr);
    assert_eq!(money.unwrap_err(), MoneyError::InvalidAmount);
}

#[test]
fn money_from_string_parse_errs() {
    let gbp = IsoCurrency::get(Iso::GBP);

    // If the delimiter precedes the separators
    let money = Money::from_string("1.0000,000".to_string(), &gbp);
    assert_eq!(money.unwrap_err(), MoneyError::InvalidAmount);

    // If there are multiple delimiters
    let money = Money::from_string("1.0000.000".to_string(), &gbp);
    assert_eq!(money.unwrap_err(), MoneyError::InvalidAmount);

    // If there is an unrecognized character
    let money = Money::from_string("1.0000!000".to_string(), &gbp);
    assert_eq!(money.unwrap_err(), MoneyError::InvalidAmount);

    // If there are no characters other than separators
    let exponent_separator_only = Money::from_string(",".to_string(), &gbp);
    let amount_separator_only = Money::from_string(".".to_string(), &gbp);
    let both_separators = Money::from_string(",,.".to_string(), &gbp);
    assert_eq!(exponent_separator_only.unwrap_err(), MoneyError::InvalidAmount);
    assert_eq!(amount_separator_only.unwrap_err(), MoneyError::InvalidAmount);
    assert_eq!(both_separators.unwrap_err(), MoneyError::InvalidAmount);
}

#[test]
fn money_format_rounds_exponent() {
    // 19.9999 rounds to 20 for USD
    let usd = IsoCurrency::get(Iso::USD);
    let money = Money::from_string("19.9999".to_string(), &usd).unwrap();
    assert_eq!("$20.00", money.to_string());

    // 29.111 rounds to 29.11 for USD
    let money = Money::from_string("29.111".to_string(), &usd).unwrap();
    assert_eq!("$29.11", money.to_string());

    // 39.1155 rounds to 39.116 for BHD
    let bhd = IsoCurrency::get(Iso::BHD);
    let money = Money::from_string("39.1155".to_string(), &bhd).unwrap();
    assert_eq!("\u{628}.\u{62f}39.116", money.to_string());
}

#[test]
fn money_addition_and_subtraction() {
    let usd = IsoCurrency::get(Iso::USD);
    // Addition
    assert_eq!(
        Money::from_major(2, &usd),
        Money::from_major(1, &usd).add(&Money::from_major(1, &usd)).unwrap()
    );
    // Subtraction
    assert_eq!(
        Money::from_major(0, &usd),
        Money::from_major(1, &usd).sub(&Money::from_major(1, &usd)).unwrap()
    );
}

#[test]
fn money_multiplication_and_division() {
    let usd = IsoCurrency::get(Iso::USD);

    // Multiplication
    assert_eq!(Money::from_minor(200, &usd), Money::from_minor(100, &usd).mul(2).unwrap());
    assert_eq!(Money::from_minor(200, &usd), Money::from_minor(-100, &usd).mul(-2).unwrap());

    // Multiplication by a decimal scalar
    assert_eq!(
        Money::from_minor(200, &usd),
        Money::from_minor(100, &usd).mul_decimal(Decimal::new(2, 0)).unwrap()
    );
    assert_eq!(
        Money::from_minor(200, &usd),
        Money::from_minor(-100, &usd).mul_decimal(Decimal::new(-2, 0)).unwrap()
    );
    assert_eq!(
        Money::from_minor(200, &usd),
        Money::from_minor(400, &usd).mul_decimal(Decimal::new(5, 1)).unwrap()
    );

    // Division
    assert_eq!(Money::from_minor(200, &usd), Money::from_minor(400, &usd).div(2).unwrap());
    assert_eq!(Money::from_minor(200, &usd), Money::from_minor(-400, &usd).div(-2).unwrap());
    assert_eq!(Money::from_minor(200, &usd), Money::from_minor(-200, &usd).div(-1).unwrap());

    // Division by a decimal scalar
    assert_eq!(
        Money::from_minor(200, &usd),
        Money::from_minor(400, &usd).div_decimal(Decimal::new(2, 0)).unwrap()
    );
    assert_eq!(
        Money::from_minor(200, &usd),
        Money::from_minor(-400, &usd).div_decimal(Decimal::new(-2, 0)).unwrap()
    );
    assert_eq!(
        Money::from_minor(200, &usd),
        Money::from_minor(-200, &usd).div_decimal(Decimal::new(-1, 0)).unwrap()
    );
    assert_eq!(
        Money::from_minor(400, &usd),
        Money::from_minor(-200, &usd).div_decimal(Decimal::new(-5, 1)).unwrap()
    );
    assert_eq!(
        Money::from_minor(1000, &usd).div_decimal(Decimal::new(0, 0)).unwrap_err(),
        MoneyError::DivisionByZero
    );
}

#[test]
fn money_comparison() {
    let usd = IsoCurrency::get(Iso::USD);
    let gbp = IsoCurrency::get(Iso::GBP);

    // Greater Than
    assert_eq!(
        Ordering::Greater,
        Money::from_minor(200, &usd).compare(&Money::from_minor(100, &usd)).unwrap()
    );
    // Less Than
    assert_eq!(
        true,
        Money::from_minor(100, &usd).lt(&Money::from_minor(200, &usd)).unwrap()
    );
    // Equals
    assert_eq!(true, Money::from_minor(100, &usd) == Money::from_minor(100, &usd));
    assert_eq!(false, Money::from_minor(100, &usd) == Money::from_minor(100, &gbp));
    // Mixed currencies refuse to compare
    assert!(matches!(
        Money::from_minor(100, &usd).compare(&Money::from_minor(100, &gbp)),
        Err(MoneyError::CurrencyMismatch { .. })
    ));
    // is positive
    assert_eq!(true, Money::from_minor(100, &usd).is_positive());
    assert_eq!(false, Money::from_minor(0, &usd).is_positive());
    assert_eq!(false, Money::from_minor(-100, &usd).is_positive());
    // is zero
    assert_eq!(true, Money::from_minor(0, &usd).is_zero());
    assert_eq!(false, Money::from_minor(100, &usd).is_zero());
    assert_eq!(false, Money::from_minor(-100, &usd).is_zero());
    // is negative
    assert_eq!(true, Money::from_minor(-100, &usd).is_negative());
    assert_eq!(false, Money::from_minor(100, &usd).is_negative());
    assert_eq!(false, Money::from_minor(0, &usd).is_negative());
}

#[test]
fn money_allocate() {
    let usd = IsoCurrency::get(Iso::USD);
    let money = Money::from_minor(1_100, &usd);
    let allocs = money.allocate(vec![1, 1, 1]).unwrap();
    let expected_results = vec![
        Money::from_minor(367, &usd),
        Money::from_minor(367, &usd),
        Money::from_minor(366, &usd),
    ];
    assert_eq!(expected_results, allocs);

    // Error if the ratio vector is empty
    let monies = Money::from_minor(100, &usd).allocate(Vec::new());
    assert_eq!(monies.unwrap_err(), MoneyError::InvalidRatio);

    // A zero weight among positive ones gets an empty share
    let monies = Money::from_minor(100, &usd).allocate(vec![1, 0]).unwrap();
    assert_eq!(
        vec![Money::from_minor(100, &usd), Money::from_minor(0, &usd)],
        monies
    );

    // Error if all weights are zero
    let monies = Money::from_minor(100, &usd).allocate(vec![0, 0]);
    assert_eq!(monies.unwrap_err(), MoneyError::InvalidRatio);

    // Error on a negative weight
    let monies = Money::from_minor(100, &usd).allocate(vec![2, -1]);
    assert_eq!(monies.unwrap_err(), MoneyError::InvalidRatio);
}

#[test]
fn money_allocate_to() {
    let usd = IsoCurrency::get(Iso::USD);
    let money = Money::from_minor(1_100, &usd);
    let monies = money.allocate_to(3).unwrap();
    let expected_results = vec![
        Money::from_minor(367, &usd),
        Money::from_minor(367, &usd),
        Money::from_minor(366, &usd),
    ];
    assert_eq!(expected_results, monies);

    let monies = Money::from_minor(100, &usd).allocate_to(0);
    assert_eq!(monies.unwrap_err(), MoneyError::InvalidRatio);
}

#[test]
fn money_fmt_separates_digits() {
    let usd = IsoCurrency::get(Iso::USD);
    let inr = IsoCurrency::get(Iso::INR);

    let money = Money::from_minor(0, &usd); // Zero Dollars
    assert_eq!(money.to_string(), "$0.00");

    let money = Money::from_minor(10_000_000, &usd); // One Hundred Thousand Dollars
    assert_eq!(money.to_string(), "$100,000.00");

    let money = Money::from_minor(-10_000_000, &usd); // - One Hundred Thousand Dollars
    assert_eq!(money.to_string(), "-$100,000.00");

    let money = Money::from_minor(100_000_000_000, &usd); // 1 Billion Dollars
    assert_eq!(money.to_string(), "$1,000,000,000.00");

    let money = Money::from_minor(10_000_000, &inr); // 1 Lakh Rupees
    assert_eq!(money.to_string(), "\u{20b9}1,00,000.00");

    let money = Money::from_minor(-1_000_000_000, &inr); // - 1 Crore Rupees
    assert_eq!(money.to_string(), "-\u{20b9}1,00,00,000.00");
}

#[test]
fn money_fmt_places_symbols_correctly() {
    let usd = IsoCurrency::get(Iso::USD);
    let aed = IsoCurrency::get(Iso::AED);

    let money = Money::from_minor(0, &usd);
    assert_eq!(money.to_string(), "$0.00");

    let money = Money::from_minor(0, &aed);
    assert_eq!(money.to_string(), "0.00\u{62f}.\u{625}");
}

#[test]
fn money_fmt_uses_correct_separators() {
    let eur = IsoCurrency::get(Iso::EUR);
    let money = Money::from_minor(100_000, &eur);
    assert_eq!(money.to_string(), "\u{20ac}1.000,00");
}

#[test]
// Dividing 20 by 3 rounds to 6.67 in USD and 6.667 in BHD
fn money_precision_and_rounding() {
    let usd = IsoCurrency::get(Iso::USD);
    let expected_money = Money::from_minor(667, &usd);
    let money = Money::from_minor(2_000, &usd).div(3).unwrap();
    assert_eq!(money.round(2, Round::HalfEven), expected_money);

    let bhd = IsoCurrency::get(Iso::BHD);
    let expected_money = Money::from_minor(6_667, &bhd);
    let money = Money::from_minor(20_000, &bhd).div(3).unwrap();
    assert_eq!(money.round(3, Round::HalfEven), expected_money);
}
