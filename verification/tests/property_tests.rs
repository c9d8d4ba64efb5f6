//! Concrete checks of the library's stated laws and edge cases.

use rusty_money::{
    Decimal, Exchange, ExchangeRate, FastMoney, Iso, IsoCurrency, LocalFormat, Locale, Money,
    MoneyError, Round,
};

#[test]
fn addition_is_commutative_and_associative() {
    let usd = IsoCurrency::get(Iso::USD);
    let a = Money::from_minor(123, &usd);
    let b = Money::from_minor(-47, &usd);
    let c = Money::from_minor(9_000, &usd);

    assert_eq!(a.add(&b).unwrap(), b.add(&a).unwrap());
    assert_eq!(
        a.add(&b).unwrap().add(&c).unwrap(),
        a.add(&b.add(&c).unwrap()).unwrap()
    );
}

#[test]
fn zero_is_additive_identity_and_sub_self_is_zero() {
    let usd = IsoCurrency::get(Iso::USD);
    let m = Money::from_minor(555, &usd);
    let zero = Money::from_major(0, &usd);

    assert_eq!(m.add(&zero).unwrap(), m);
    assert_eq!(zero.add(&m).unwrap(), m);
    assert!(m.sub(&m).unwrap().is_zero());
}

#[test]
fn negation_is_self_inverse() {
    let usd = IsoCurrency::get(Iso::USD);
    let m = Money::from_minor(-3210, &usd);
    assert_eq!(m.neg().neg(), m);
    assert!(m.abs().is_positive());
}

#[test]
fn mul_then_div_returns_the_amount() {
    let usd = IsoCurrency::get(Iso::USD);
    let m = Money::from_minor(12345, &usd);
    for n in [1i64, 2, 3, 7, -1, -13, 1000] {
        assert_eq!(m.mul(n).unwrap().div(n).unwrap(), m);
    }
}

#[test]
fn allocation_preserves_the_total() {
    let usd = IsoCurrency::get(Iso::USD);
    let m = Money::from_minor(1_000, &usd);
    let shares = m.allocate(vec![4, 3, 1]).unwrap();
    assert_eq!(shares.len(), 3);
    assert_eq!(
        shares,
        vec![
            Money::from_minor(500, &usd),
            Money::from_minor(375, &usd),
            Money::from_minor(125, &usd),
        ]
    );
    let mut sum = Money::from_minor(0, &usd);
    for s in &shares {
        sum = sum.add(s).unwrap();
    }
    assert_eq!(sum, m);

    // A negative amount allocates symmetrically and still sums back.
    let m = Money::from_minor(-11, &usd);
    let shares = m.allocate(vec![1, 1, 1]).unwrap();
    assert_eq!(
        shares,
        vec![
            Money::from_minor(-4, &usd),
            Money::from_minor(-4, &usd),
            Money::from_minor(-3, &usd),
        ]
    );
}

#[test]
fn split_three_ways_scenario() {
    let usd = IsoCurrency::get(Iso::USD);
    let m = Money::from_minor(1100, &usd);
    let shares = m.split(3).unwrap();
    assert_eq!(
        shares,
        vec![
            Money::from_minor(367, &usd),
            Money::from_minor(367, &usd),
            Money::from_minor(366, &usd),
        ]
    );
    let mut sum = Money::from_minor(0, &usd);
    for s in &shares {
        sum = sum.add(s).unwrap();
    }
    assert_eq!(sum, Money::from_string("11.00".to_string(), &usd).unwrap());
}

#[test]
fn rounding_is_idempotent_and_keeps_the_sign() {
    let usd = IsoCurrency::get(Iso::USD);
    let m = Money::from_decimal(Decimal::new(25, 1), &usd);  // 2.5
    let once = m.round(0, Round::HalfEven);
    assert_eq!(once, Money::from_major(2, &usd));
    assert_eq!(once.round(0, Round::HalfEven), once);

    assert_eq!(
        Money::from_decimal(Decimal::new(25, 1), &usd).round(0, Round::HalfUp),
        Money::from_major(3, &usd)
    );
    assert_eq!(
        Money::from_decimal(Decimal::new(-25, 1), &usd).round(0, Round::HalfUp),
        Money::from_major(-3, &usd)
    );
    assert_eq!(
        Money::from_decimal(Decimal::new(25, 1), &usd).round(0, Round::HalfDown),
        Money::from_major(2, &usd)
    );
    assert_eq!(
        Money::from_decimal(Decimal::new(-25, 1), &usd).round(0, Round::HalfDown),
        Money::from_major(-2, &usd)
    );
    assert_eq!(
        Money::from_decimal(Decimal::new(35, 1), &usd).round(0, Round::HalfEven),
        Money::from_major(4, &usd)
    );

    // Rounding a positive amount never yields a negative one.
    let tiny = Money::from_decimal(Decimal::new(4, 1), &usd);  // 0.4
    assert!(!tiny.round(0, Round::HalfEven).is_negative());
}

#[test]
fn fast_money_round_trip() {
    let usd = IsoCurrency::get(Iso::USD);
    for v in [0i64, 1, -1, 99, -12345, i64::MAX, i64::MIN] {
        let f = FastMoney::from_minor(v, &usd);
        assert_eq!(FastMoney::from_money(f.to_money()).unwrap(), f);
    }
}

#[test]
fn locale_round_trip() {
    // A valid formatted string parses and formats back to itself.
    let usd = IsoCurrency::get(Iso::USD);
    let parsed = Money::from_string("1,234,567.89".to_string(), &usd).unwrap();
    assert_eq!(parsed.to_string(), "$1,234,567.89");

    let eur = IsoCurrency::get(Iso::EUR);
    let parsed = Money::from_string("1.234,56".to_string(), &eur).unwrap();
    assert_eq!(parsed.to_string(), "\u{20ac}1.234,56");

    let inr = IsoCurrency::get(Iso::INR);
    let parsed = Money::from_string("1,00,00,000".to_string(), &inr).unwrap();
    assert_eq!(parsed.to_string(), "\u{20b9}1,00,00,000.00");
}

#[test]
fn exchange_rate_scenario() {
    let usd = IsoCurrency::get(Iso::USD);
    let eur = IsoCurrency::get(Iso::EUR);
    let rate = ExchangeRate::new(&usd, &eur, Decimal::new(85, 2)).unwrap();
    let converted = rate.convert(Money::from_minor(1000, &usd)).unwrap();
    assert_eq!(converted, Money::from_minor(850, &eur));
}

#[test]
fn exchange_inverse_of_exact_rate() {
    let usd = IsoCurrency::get(Iso::USD);
    let eur = IsoCurrency::get(Iso::EUR);
    let rate = ExchangeRate::new(&usd, &eur, Decimal::new(5, 1)).unwrap();
    let mut exchange = Exchange::new();
    let inverse = exchange.set_rate_and_inverse(&rate).unwrap();
    // 1 / 0.5 == 2 exactly
    assert_eq!(inverse.rate(), Decimal::new(2, 0));
    assert_eq!(*inverse.from_currency(), eur);
    assert_eq!(*inverse.to_currency(), usd);
    assert_eq!(*inverse.from, eur);
    assert_eq!(*inverse.to, usd);
    assert!(exchange.get_rate(&eur, &usd).is_some());
}

#[test]
fn alpha_lookup_is_case_insensitive() {
    let usd = IsoCurrency::get(Iso::USD);
    assert_eq!(IsoCurrency::find("usd").unwrap(), usd);
    assert_eq!(IsoCurrency::find("UsD").unwrap(), usd);
    assert_eq!(IsoCurrency::find_by_alpha_iso("usd".to_string()).unwrap(), usd);
    assert_eq!(
        IsoCurrency::find_by_alpha_iso("USD".to_string()),
        IsoCurrency::find_by_alpha_iso("usd".to_string())
    );
    assert_eq!(IsoCurrency::find("usd ").unwrap_err(), MoneyError::InvalidCurrency);
    // The numeric lookup matches exactly; the crypto set does too.
    assert!(IsoCurrency::find_by_numeric_iso("840".to_string()).is_some());
    assert!(rusty_money::crypto::find("btc").is_none());
}

#[test]
fn every_error_kind_is_reachable() {
    let usd = IsoCurrency::get(Iso::USD);
    let gbp = IsoCurrency::get(Iso::GBP);

    assert_eq!(IsoCurrency::find("zzz").unwrap_err(), MoneyError::InvalidCurrency);
    assert_eq!(
        Money::from_string("".to_string(), &usd).unwrap_err(),
        MoneyError::InvalidAmount
    );
    assert_eq!(
        Money::from_minor(100, &usd).allocate(vec![]).unwrap_err(),
        MoneyError::InvalidRatio
    );
    assert_eq!(
        Money::from_minor(100, &usd).add(&Money::from_minor(100, &gbp)).unwrap_err(),
        MoneyError::CurrencyMismatch { expected: "USD".to_string(), actual: "GBP".to_string() }
    );
    assert_eq!(
        Money::from_minor(100, &usd).div(0).unwrap_err(),
        MoneyError::DivisionByZero
    );
    let zero_rate = ExchangeRate::new(&usd, &gbp, Decimal::new(0, 0)).unwrap();
    assert_eq!(
        Exchange::new().set_rate_and_inverse(&zero_rate).unwrap_err(),
        MoneyError::DivideByZero
    );
    assert_eq!(
        FastMoney::from_minor(i64::MAX, &usd).mul(2).unwrap_err(),
        MoneyError::Overflow
    );
    assert_eq!(
        FastMoney::from_money(Money::from_decimal(Decimal::new(10005, 3), &usd)).unwrap_err(),
        MoneyError::PrecisionLoss
    );
}

#[test]
fn minor_units_truncate_and_saturate() {
    let usd = IsoCurrency::get(Iso::USD);
    assert_eq!(Money::from_decimal(Decimal::new(10005, 3), &usd).to_minor_units(), 1000);
    assert_eq!(Money::from_decimal(Decimal::new(-10009, 3), &usd).to_minor_units(), -1000);
    // A value far beyond the 64-bit range saturates to zero.
    let huge = Money::from_string("92233720368547758080".to_string(), &usd).unwrap();
    assert_eq!(huge.to_minor_units(), 0);
}

#[test]
fn decimal_comparison_ignores_scale() {
    let a = Decimal::new(100, 2);  // 1.00
    let b = Decimal::new(1, 0);  // 1
    assert_eq!(a, b);
    assert!(Decimal::new(15, 1).cmp_value(&Decimal::new(2, 0)).is_lt());
    assert!(Decimal::new(-1, 0).cmp_value(&Decimal::new(1, 2)).is_lt());
}

#[test]
fn decimal_division_rounds_to_twenty_eight_digits() {
    // 2 / 3 carries 28 fractional digits, the last rounded.
    let q = Decimal::new(2, 0).checked_div(&Decimal::new(3, 0)).unwrap();
    assert_eq!(q.scale(), 28);
    assert_eq!(q.mantissa(), 6_666_666_666_666_666_666_666_666_667);
}

#[test]
fn locale_formats_differ() {
    let us = LocalFormat::from_locale(Locale::EnUs);
    assert_eq!(us.digit_separator, ',');
    assert_eq!(us.exponent_separator, '.');
    assert_eq!(us.digit_separator_pattern(), vec![3, 3, 3]);

    let by = LocalFormat::from_locale(Locale::EnBy);
    assert_eq!(by.digit_separator, ' ');
    assert_eq!(by.exponent_separator, ',');

    let indian = LocalFormat::from_locale(Locale::EnIn);
    assert_eq!(indian.digit_separator_pattern(), vec![3, 2, 2]);
}

#[test]
fn error_descriptions_are_stable() {
    assert_eq!(MoneyError::InvalidCurrency.description(), "Currency was not valid");
    assert_eq!(MoneyError::InvalidAmount.description(), "Amount not parsable");
    assert_eq!(MoneyError::InvalidRatio.description(), "Ratio was not valid");
}
