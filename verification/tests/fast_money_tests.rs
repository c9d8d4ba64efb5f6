use std::cmp::Ordering;
use rusty_money::{Decimal, FastMoney, Iso, IsoCurrency, Locale, Money, MoneyError};

fn jpy() -> IsoCurrency {
    IsoCurrency {
        locale: Locale::EnUs,
        exponent: 0,
        iso_alpha_code: "JPY",
        iso_numeric_code: "392",
        name: "Japanese Yen",
        symbol: "\u{a5}",
        symbol_first: true,
        minor_denomination: 1,
    }
}

#[test]
fn from_minor_creates_correctly() {
    let usd = IsoCurrency::get(Iso::USD);
    let money = FastMoney::from_minor(1000, &usd);
    assert_eq!(money.minor_units(), 1000);
    assert_eq!(*money.currency(), usd);
}

#[test]
fn from_major_creates_correctly() {
    // USD: exponent 2
    let usd = IsoCurrency::get(Iso::USD);
    let fast = FastMoney::from_major(10, &usd).unwrap();
    assert_eq!(fast.minor_units(), 1000);

    // JPY: exponent 0
    let yen = jpy();
    let fast = FastMoney::from_major(500, &yen).unwrap();
    assert_eq!(fast.minor_units(), 500);

    // BHD: exponent 3
    let bhd = IsoCurrency::get(Iso::BHD);
    let fast = FastMoney::from_major(1, &bhd).unwrap();
    assert_eq!(fast.minor_units(), 1000);
}

#[test]
fn from_major_overflow() {
    let usd = IsoCurrency::get(Iso::USD);
    let result = FastMoney::from_major(i64::MAX, &usd);
    assert_eq!(result, Err(MoneyError::Overflow));
}

#[test]
fn add_same_currency() {
    let usd = IsoCurrency::get(Iso::USD);
    let a = FastMoney::from_minor(1000, &usd);
    let b = FastMoney::from_minor(500, &usd);
    let result = a.add(b).unwrap();
    assert_eq!(result.minor_units(), 1500);
}

#[test]
fn add_different_currency_errors() {
    let usd = IsoCurrency::get(Iso::USD);
    let eur = IsoCurrency::get(Iso::EUR);
    let a = FastMoney::from_minor(1000, &usd);
    let b = FastMoney::from_minor(500, &eur);
    let result = a.add(b);
    assert!(matches!(result, Err(MoneyError::CurrencyMismatch { .. })));
}

#[test]
fn add_overflow() {
    let usd = IsoCurrency::get(Iso::USD);
    let a = FastMoney::from_minor(i64::MAX, &usd);
    let b = FastMoney::from_minor(1, &usd);
    assert_eq!(a.add(b), Err(MoneyError::Overflow));
}

#[test]
fn sub_same_currency() {
    let usd = IsoCurrency::get(Iso::USD);
    let a = FastMoney::from_minor(1000, &usd);
    let b = FastMoney::from_minor(300, &usd);
    let result = a.sub(b).unwrap();
    assert_eq!(result.minor_units(), 700);
}

#[test]
fn sub_different_currency_errors() {
    let usd = IsoCurrency::get(Iso::USD);
    let eur = IsoCurrency::get(Iso::EUR);
    let a = FastMoney::from_minor(1000, &usd);
    let b = FastMoney::from_minor(500, &eur);
    let result = a.sub(b);
    assert!(matches!(result, Err(MoneyError::CurrencyMismatch { .. })));
}

#[test]
fn sub_overflow() {
    let usd = IsoCurrency::get(Iso::USD);
    let a = FastMoney::from_minor(i64::MIN, &usd);
    let b = FastMoney::from_minor(1, &usd);
    assert_eq!(a.sub(b), Err(MoneyError::Overflow));
}

#[test]
fn mul_scalar() {
    let usd = IsoCurrency::get(Iso::USD);
    let money = FastMoney::from_minor(100, &usd);
    let result = money.mul(5).unwrap();
    assert_eq!(result.minor_units(), 500);
}

#[test]
fn mul_overflow() {
    let usd = IsoCurrency::get(Iso::USD);
    let money = FastMoney::from_minor(i64::MAX, &usd);
    assert_eq!(money.mul(2), Err(MoneyError::Overflow));
}

#[test]
fn div_scalar() {
    let usd = IsoCurrency::get(Iso::USD);
    let money = FastMoney::from_minor(1000, &usd);
    let result = money.div(3).unwrap();
    assert_eq!(result.minor_units(), 333); // Truncates toward zero
}

#[test]
fn div_by_zero() {
    let usd = IsoCurrency::get(Iso::USD);
    let money = FastMoney::from_minor(1000, &usd);
    assert_eq!(money.div(0), Err(MoneyError::DivisionByZero));
}

#[test]
fn div_negative_truncates_toward_zero() {
    let usd = IsoCurrency::get(Iso::USD);
    let money = FastMoney::from_minor(-1000, &usd);
    let result = money.div(3).unwrap();
    assert_eq!(result.minor_units(), -333);
}

#[test]
fn is_zero() {
    let usd = IsoCurrency::get(Iso::USD);
    assert!(FastMoney::from_minor(0, &usd).is_zero());
    assert!(!FastMoney::from_minor(1, &usd).is_zero());
    assert!(!FastMoney::from_minor(-1, &usd).is_zero());
}

#[test]
fn is_positive() {
    let usd = IsoCurrency::get(Iso::USD);
    assert!(FastMoney::from_minor(1, &usd).is_positive());
    assert!(!FastMoney::from_minor(0, &usd).is_positive());
    assert!(!FastMoney::from_minor(-1, &usd).is_positive());
}

#[test]
fn is_negative() {
    let usd = IsoCurrency::get(Iso::USD);
    assert!(FastMoney::from_minor(-1, &usd).is_negative());
    assert!(!FastMoney::from_minor(0, &usd).is_negative());
    assert!(!FastMoney::from_minor(1, &usd).is_negative());
}

#[test]
fn abs_returns_absolute_value() {
    let usd = IsoCurrency::get(Iso::USD);
    assert_eq!(FastMoney::from_minor(-100, &usd).abs().minor_units(), 100);
    assert_eq!(FastMoney::from_minor(100, &usd).abs().minor_units(), 100);
    assert_eq!(FastMoney::from_minor(0, &usd).abs().minor_units(), 0);
}

#[test]
fn neg_negates_value() {
    let usd = IsoCurrency::get(Iso::USD);
    assert_eq!(FastMoney::from_minor(100, &usd).neg().minor_units(), -100);
    assert_eq!(FastMoney::from_minor(-100, &usd).neg().minor_units(), 100);
    assert_eq!(FastMoney::from_minor(0, &usd).neg().minor_units(), 0);
}

#[test]
fn compare_same_currency() {
    let usd = IsoCurrency::get(Iso::USD);
    let a = FastMoney::from_minor(100, &usd);
    let b = FastMoney::from_minor(200, &usd);
    let c = FastMoney::from_minor(100, &usd);

    assert_eq!(a.compare(&b).unwrap(), Ordering::Less);
    assert_eq!(b.compare(&a).unwrap(), Ordering::Greater);
    assert_eq!(a.compare(&c).unwrap(), Ordering::Equal);
}

#[test]
fn compare_different_currency_errors() {
    let usd = IsoCurrency::get(Iso::USD);
    let eur = IsoCurrency::get(Iso::EUR);
    let a = FastMoney::from_minor(100, &usd);
    let b = FastMoney::from_minor(100, &eur);
    assert!(matches!(a.compare(&b), Err(MoneyError::CurrencyMismatch { .. })));
}

#[test]
fn to_money_always_succeeds() {
    let usd = IsoCurrency::get(Iso::USD);
    let fast = FastMoney::from_minor(1234, &usd);
    let money = fast.to_money();
    assert_eq!(money.to_minor_units(), 1234);
    assert_eq!(*money.currency(), usd);
}

#[test]
fn from_money_roundtrip() {
    let usd = IsoCurrency::get(Iso::USD);
    let original = FastMoney::from_minor(1234, &usd);
    let money = original.to_money();
    let back = FastMoney::from_money(money).unwrap();
    assert_eq!(original, back);
}

#[test]
fn from_money_precision_loss_errors() {
    // $10.005 has more precision than USD allows (exponent 2)
    let usd = IsoCurrency::get(Iso::USD);
    let money = Money::from_decimal(Decimal::new(10005, 3), &usd);
    let result = FastMoney::from_money(money);
    assert_eq!(result, Err(MoneyError::PrecisionLoss));
}

#[test]
fn from_money_lossy_truncates() {
    // $10.005 -> 1000 cents (truncates .5 cent)
    let usd = IsoCurrency::get(Iso::USD);
    let money = Money::from_decimal(Decimal::new(10005, 3), &usd);
    let fast = FastMoney::from_money_lossy(money).unwrap();
    assert_eq!(fast.minor_units(), 1000);
}

#[test]
fn from_money_lossy_truncates_negative() {
    // -$10.009 -> -1000 cents (truncates toward zero)
    let usd = IsoCurrency::get(Iso::USD);
    let money = Money::from_decimal(Decimal::new(-10009, 3), &usd);
    let fast = FastMoney::from_money_lossy(money).unwrap();
    assert_eq!(fast.minor_units(), -1000);
}

#[test]
fn from_money_different_exponents() {
    // JPY (exponent 0)
    let yen = jpy();
    let jpy_money = Money::from_major(500, &yen);
    let jpy_fast = FastMoney::from_money(jpy_money).unwrap();
    assert_eq!(jpy_fast.minor_units(), 500);

    // BHD (exponent 3)
    let bhd = IsoCurrency::get(Iso::BHD);
    let bhd_money = Money::from_minor(1234, &bhd);
    let bhd_fast = FastMoney::from_money(bhd_money).unwrap();
    assert_eq!(bhd_fast.minor_units(), 1234);
}

#[test]
fn display_formats_correctly() {
    let usd = IsoCurrency::get(Iso::USD);
    let money = FastMoney::from_minor(1234, &usd);
    let formatted = money.to_string();
    assert!(formatted.contains("12.34") || formatted.contains("12,34"));
}
