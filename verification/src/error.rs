//! The error type shared by every fallible operation of the library.

use vstd::prelude::*;

verus! {

/// Why an operation on monetary values was refused.  Every error is returned
/// to the immediate caller; nothing here is retried or swallowed.
#[derive(Debug, Clone)]
pub enum MoneyError {
    /// A currency code was unknown, or two currencies had to differ and did not.
    InvalidCurrency,
    /// An amount string was malformed: empty, bad digits, or grouped wrongly.
    InvalidAmount,
    /// Allocation weights were empty, negative, or all zero.
    InvalidRatio,
    /// A binary operation mixed two currencies.
    CurrencyMismatch { expected: String, actual: String },
    /// A scalar division by exactly zero.
    DivisionByZero,
    /// A rate inversion by exactly zero.
    DivideByZero,
    /// Arithmetic exceeded the representable range.
    Overflow,
    /// A strict conversion met precision it could not represent.
    PrecisionLoss,
}

impl MoneyError {
    /// A short human-readable description of the error.
    pub fn description(&self) -> (r: String)
        ensures
            r@.len() > 0,
    {
        let s: &'static str = match self {
            MoneyError::InvalidCurrency => "Currency was not valid",
            MoneyError::InvalidAmount => "Amount not parsable",
            MoneyError::InvalidRatio => "Ratio was not valid",
            MoneyError::CurrencyMismatch { .. } => "Currencies did not match",
            MoneyError::DivisionByZero => "Division by zero",
            MoneyError::DivideByZero => "Rate inversion by zero",
            MoneyError::Overflow => "Amount exceeded the representable range",
            MoneyError::PrecisionLoss => "Conversion would lose precision",
        };
        proof {
            reveal_strlit("Currency was not valid");
            reveal_strlit("Amount not parsable");
            reveal_strlit("Ratio was not valid");
            reveal_strlit("Currencies did not match");
            reveal_strlit("Division by zero");
            reveal_strlit("Rate inversion by zero");
            reveal_strlit("Amount exceeded the representable range");
            reveal_strlit("Conversion would lose precision");
        }
        s.to_owned()
    }
}

impl PartialEq for MoneyError {
    /// Errors compare by kind, and a `CurrencyMismatch` also by the two codes
    /// it reports.
    fn eq(&self, other: &MoneyError) -> (r: bool) {
        match (self, other) {
            (MoneyError::InvalidCurrency, MoneyError::InvalidCurrency) => true,
            (MoneyError::InvalidAmount, MoneyError::InvalidAmount) => true,
            (MoneyError::InvalidRatio, MoneyError::InvalidRatio) => true,
            (
                MoneyError::CurrencyMismatch { expected: e1, actual: a1 },
                MoneyError::CurrencyMismatch { expected: e2, actual: a2 },
            ) => *e1 == *e2 && *a1 == *a2,
            (MoneyError::DivisionByZero, MoneyError::DivisionByZero) => true,
            (MoneyError::DivideByZero, MoneyError::DivideByZero) => true,
            (MoneyError::Overflow, MoneyError::Overflow) => true,
            (MoneyError::PrecisionLoss, MoneyError::PrecisionLoss) => true,
            _ => false,
        }
    }
}

impl vstd::std_specs::cmp::PartialEqSpecImpl for MoneyError {
    open spec fn obeys_eq_spec() -> bool {
        true
    }

    open spec fn eq_spec(&self, other: &MoneyError) -> bool {
        match (self, other) {
            (MoneyError::InvalidCurrency, MoneyError::InvalidCurrency) => true,
            (MoneyError::InvalidAmount, MoneyError::InvalidAmount) => true,
            (MoneyError::InvalidRatio, MoneyError::InvalidRatio) => true,
            (
                MoneyError::CurrencyMismatch { expected: e1, actual: a1 },
                MoneyError::CurrencyMismatch { expected: e2, actual: a2 },
            ) => e1@ == e2@ && a1@ == a2@,
            (MoneyError::DivisionByZero, MoneyError::DivisionByZero) => true,
            (MoneyError::DivideByZero, MoneyError::DivideByZero) => true,
            (MoneyError::Overflow, MoneyError::Overflow) => true,
            (MoneyError::PrecisionLoss, MoneyError::PrecisionLoss) => true,
            _ => false,
        }
    }
}

} // verus!
