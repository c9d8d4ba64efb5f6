use rusty_money::{crypto, CryptoCurrency, Iso, IsoCurrency, MoneyError};

#[test]
fn crypto_currencies_find_returns_known_currencies() {
    let currency_by_code = crypto::find("BTC").unwrap();
    assert_eq!(currency_by_code.code, "BTC");
    assert_eq!(currency_by_code.exponent, 8);
    assert_eq!(currency_by_code.symbol, "\u{20bf}");
}

#[test]
fn find_returns_none_on_unknown_currency() {
    assert_eq!(crypto::find("fake"), None);
}

#[test]
fn crypto_currencies_currency_can_be_accessed_by_reference() {
    assert_eq!(crypto::eth().code, "ETH");
    assert_eq!(crypto::eth().exponent, 18);
    assert_eq!(crypto::eth().symbol, "ETH");
}

#[test]
fn crypto_currencies_find_and_reference_point_to_same() {
    assert_eq!(crypto::btc(), crypto::find("BTC").unwrap());
}

#[test]
fn crypto_currency_find_returns_known_currencies() {
    let currency_by_code = CryptoCurrency::find("BTC").unwrap();
    assert_eq!(currency_by_code.code, "BTC");
    assert_eq!(currency_by_code.exponent, 8);
    assert_eq!(currency_by_code.symbol, "\u{20bf}");
}

#[test]
fn crypto_currency_find_raises_invalid_currency_error_on_unknown_currency() {
    assert_eq!(
        CryptoCurrency::find("fake").unwrap_err(),
        MoneyError::InvalidCurrency,
    );
}

#[test]
fn crypto_currency_currency_can_be_accessed_by_reference() {
    assert_eq!(crypto::eth().code, "ETH");
    assert_eq!(crypto::eth().exponent, 18);
    assert_eq!(crypto::eth().symbol, "ETH");
}

#[test]
fn crypto_currency_find_and_reference_point_to_same() {
    assert_eq!(crypto::btc(), CryptoCurrency::find("BTC").unwrap());
}

#[test]
fn iso_currency_find_returns_known_currencies() {
    let currency_by_alpha = IsoCurrency::find("USD").unwrap();
    assert_eq!(currency_by_alpha.iso_alpha_code, "USD");
    assert_eq!(currency_by_alpha.exponent, 2);
    assert_eq!(currency_by_alpha.symbol, "$");

    let currency_by_numeric = IsoCurrency::find("840").unwrap();
    assert_eq!(currency_by_alpha, currency_by_numeric);
}

#[test]
fn iso_currency_find_raises_invalid_currency_error_on_unknown_currency() {
    assert_eq!(
        IsoCurrency::find("fake").unwrap_err(),
        MoneyError::InvalidCurrency,
    );

    assert_eq!(
        IsoCurrency::find("123").unwrap_err(),
        MoneyError::InvalidCurrency,
    );
}

#[test]
fn iso_currency_currency_can_be_accessed_by_reference() {
    assert_eq!(IsoCurrency::get(Iso::USD).iso_alpha_code, "USD");
    assert_eq!(IsoCurrency::get(Iso::USD).exponent, 2);
    assert_eq!(IsoCurrency::get(Iso::USD).symbol, "$");
}

#[test]
fn iso_currency_find_and_reference_point_to_same() {
    assert_eq!(IsoCurrency::get(Iso::USD), IsoCurrency::find("USD").unwrap());
}

#[test]
fn currency_find_known_can_be_found() {
    let currency_by_alpha = IsoCurrency::find("USD").unwrap();
    assert_eq!(currency_by_alpha.iso_alpha_code, "USD");
    assert_eq!(currency_by_alpha.exponent, 2);
    assert_eq!(currency_by_alpha.symbol, "$");

    let currency_by_numeric = IsoCurrency::find("840").unwrap();
    assert_eq!(currency_by_alpha, currency_by_numeric);
}

#[test]
fn currency_find_unknown_iso_codes_raise_invalid_currency_error() {
    assert_eq!(
        IsoCurrency::find("fake").unwrap_err(),
        MoneyError::InvalidCurrency,
    );

    assert_eq!(
        IsoCurrency::find("123").unwrap_err(),
        MoneyError::InvalidCurrency,
    );
}

#[test]
fn currency_get() {
    assert_eq!(IsoCurrency::get(Iso::USD), IsoCurrency::find("USD").unwrap());
}
