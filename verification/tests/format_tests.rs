use rusty_money::{Formatter, Iso, IsoCurrency, Money, Params, Position};

#[test]
fn format_position() {
    let usd = IsoCurrency::get(Iso::USD);
    let money = Money::from_major(-1000, &usd);

    // Test that you can position Space, Amount, Code, Symbol and Sign in different places
    let params = Params {
        symbol: Some("$"),
        code: Some("USD"),
        positions: vec![
            Position::Sign,
            Position::Space,
            Position::Symbol,
            Position::Amount,
            Position::Space,
            Position::Code,
        ],
        ..Default::default()
    };
    assert_eq!("- $1,000 USD", Formatter::money(&money, params));

    let params = Params {
        symbol: Some("$"),
        code: Some("USD"),
        positions: vec![
            Position::Code,
            Position::Space,
            Position::Amount,
            Position::Symbol,
            Position::Space,
            Position::Sign,
        ],
        ..Default::default()
    };
    assert_eq!("USD 1,000$ -", Formatter::money(&money, params));

    // Test that you can omit some, and it works fine.
    let params = Params { positions: vec![Position::Amount], ..Default::default() };
    assert_eq!("1,000", Formatter::money(&money, params));

    let params = Params { symbol: Some("$"), positions: vec![Position::Symbol], ..Default::default() };
    assert_eq!("$", Formatter::money(&money, params));

    // Missing Optionals Insert Nothing
    let params = Params { positions: vec![Position::Amount, Position::Symbol], ..Default::default() };
    assert_eq!("1,000", Formatter::money(&money, params));
}

#[test]
fn format_digit_separators_with_custom_separators() {
    let usd = IsoCurrency::get(Iso::USD);
    let params = Params { digit_separator: '/', ..Default::default() };

    // For 1_000_000
    let money = Money::from_major(1_000_000, &usd);
    assert_eq!("1/000/000", Formatter::money(&money, params.clone()));

    // For 1_000
    let money = Money::from_major(1_000, &usd);
    assert_eq!("1/000", Formatter::money(&money, params.clone()));

    // For 0 Chars
    let money = Money::from_major(0, &usd);
    assert_eq!("0", Formatter::money(&money, params.clone()));
}

#[test]
fn format_digit_separators_with_custom_sequences() {
    let usd = IsoCurrency::get(Iso::USD);
    let params = Params { separator_pattern: vec![3, 2, 2], ..Default::default() };

    let money = Money::from_major(10_000_000, &usd);
    assert_eq!("1,00,00,000", Formatter::money(&money, params.clone()));

    let money = Money::from_major(100_000, &usd);
    assert_eq!("1,00,000", Formatter::money(&money, params.clone()));

    let money = Money::from_major(1_000, &usd);
    assert_eq!("1,000", Formatter::money(&money, params.clone()));

    // With a zero sequence
    let params = Params { separator_pattern: vec![0, 2], ..Default::default() };

    let money = Money::from_major(100, &usd);
    assert_eq!("1,00,", Formatter::money(&money, params.clone()));

    let money = Money::from_major(0, &usd);
    assert_eq!("0,", Formatter::money(&money, params.clone()));
}

#[test]
fn format_rounding() {
    let usd = IsoCurrency::get(Iso::USD);
    let money = Money::from_minor(1000, &usd).div(3).unwrap();

    // Rounding = Some(0)
    let params = Params { rounding: Some(0), ..Default::default() };
    assert_eq!("3", Formatter::money(&money, params));

    // Rounding = Some(2)
    let params = Params { rounding: Some(2), ..Default::default() };
    assert_eq!("3.33", Formatter::money(&money, params));

    // Rounding = None
    let params = Params { ..Default::default() };
    assert_eq!("3.3333333333333333333333333333", Formatter::money(&money, params));
}
