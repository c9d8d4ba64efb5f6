use rusty_money::{Decimal, Exchange, ExchangeRate, Iso, IsoCurrency, Money, MoneyError};

#[test]
fn exchange_stores_rates() {
    let usd = IsoCurrency::get(Iso::USD);
    let eur = IsoCurrency::get(Iso::EUR);
    let gbp = IsoCurrency::get(Iso::GBP);

    let usd_eur_rate = ExchangeRate::new(&usd, &eur, Decimal::new(15, 1)).unwrap();
    let usd_gbp_rate = ExchangeRate::new(&usd, &gbp, Decimal::new(16, 1)).unwrap();

    let mut exchange = Exchange::new();
    exchange.set_rate(&usd_eur_rate);

    let inverse_rate = exchange.set_rate_and_inverse(&usd_gbp_rate).unwrap();
    let expected_inverse = Decimal::new(1, 0).checked_div(&Decimal::new(16, 1)).unwrap();
    assert_eq!(inverse_rate.rate(), expected_inverse);

    let fetched_rate = exchange.get_rate(&usd, &eur).unwrap();
    assert_eq!(fetched_rate.rate(), Decimal::new(15, 1));

    let fetched_rate = exchange.get_rate(&usd, &gbp).unwrap();
    assert_eq!(fetched_rate.rate(), Decimal::new(16, 1));

    let fetched_inverse_rate = exchange.get_rate(&gbp, &usd).unwrap();
    assert_eq!(fetched_inverse_rate.rate(), expected_inverse);
}

#[test]
fn exchange_fails_to_store_inverse_of_zero_rate() {
    let usd = IsoCurrency::get(Iso::USD);
    let eur = IsoCurrency::get(Iso::EUR);

    let eur_usd_rate = ExchangeRate::new(&usd, &eur, Decimal::new(0, 0)).unwrap();

    let mut exchange = Exchange::new();
    let error = exchange.set_rate_and_inverse(&eur_usd_rate);

    let expected = Err(MoneyError::DivideByZero);
    assert_eq!(error, expected);

    let fetched_rate = exchange.get_rate(&usd, &eur);
    assert_eq!(fetched_rate.is_none(), true);

    let fetched_rate = exchange.get_rate(&usd, &eur);
    assert_eq!(fetched_rate.is_none(), true);
}

#[test]
fn exchange_stores_zero_rate() {
    let usd = IsoCurrency::get(Iso::USD);
    let eur = IsoCurrency::get(Iso::EUR);

    let eur_usd_rate = ExchangeRate::new(&usd, &eur, Decimal::new(0, 0)).unwrap();

    let mut exchange = Exchange::new();
    exchange.set_rate(&eur_usd_rate);

    let fetched_rate = exchange.get_rate(&usd, &eur).unwrap();
    assert_eq!(fetched_rate.rate(), Decimal::new(0, 0));
}

#[test]
fn rate_convert() {
    let usd = IsoCurrency::get(Iso::USD);
    let eur = IsoCurrency::get(Iso::EUR);
    let rate = ExchangeRate::new(&usd, &eur, Decimal::new(15, 1)).unwrap();
    let amount = Money::from_minor(1_000, &usd);
    let expected_amount = Money::from_minor(1_500, &eur);
    let converted_rate = rate.convert(amount).unwrap();
    assert_eq!(converted_rate, expected_amount);
}

#[test]
fn rate_convert_errors_if_currencies_dont_match() {
    let usd = IsoCurrency::get(Iso::USD);
    let eur = IsoCurrency::get(Iso::EUR);
    let gbp = IsoCurrency::get(Iso::GBP);
    let rate = ExchangeRate::new(&gbp, &eur, Decimal::new(15, 1)).unwrap();
    let amount = Money::from_minor(1_000, &usd);

    assert_eq!(rate.convert(amount).unwrap_err(), MoneyError::InvalidCurrency);
}

#[test]
fn rate_new_errors_if_currencies_are_equal() {
    let gbp = IsoCurrency::get(Iso::GBP);
    let rate = ExchangeRate::new(&gbp, &gbp, Decimal::new(15, 1));
    assert_eq!(rate.unwrap_err(), MoneyError::InvalidCurrency);
}
