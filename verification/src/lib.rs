//! A currency-safe monetary value library.
//!
//! `Money` pairs an exact decimal amount with a currency and refuses to mix
//! currencies silently; `FastMoney` is a fixed-point `i64` mirror for hot
//! paths; `Exchange` and `ExchangeRate` convert between currencies.  Amount
//! arithmetic is backed by the `rust_decimal` crate behind a small set of
//! trusted wrappers; everything around those calls is verified.

mod currency;
mod locale;
mod error;
mod decimal;
mod money;
mod fast_money;
mod iso;
mod iso_currency;
pub mod crypto;
mod exchange;
mod format;

pub use currency::FormattableCurrency;
pub use locale::{Locale, LocalFormat};
pub use error::MoneyError;
pub use decimal::Decimal;
pub use money::{Money, Round};
pub use fast_money::FastMoney;
pub use iso::Iso;
pub use iso_currency::IsoCurrency;
pub use crypto::CryptoCurrency;
pub use exchange::{Exchange, ExchangeRate};
pub use format::{Formatter, Params, Position};
