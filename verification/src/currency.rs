//! The capability a type must offer to serve as a currency for `Money`.

use vstd::prelude::*;
use crate::locale::Locale;

verus! {

/// What `Money` needs from a currency: a code that is its identity, the
/// number of fractional digits it conventionally uses, and how it is
/// displayed.  Two currencies are the same currency exactly when their codes
/// are equal.
pub trait FormattableCurrency: Sized + Copy {
    /// The currency code, the identity used by all arithmetic.
    spec fn spec_code(&self) -> Seq<char>;

    /// The number of fractional digits of the currency.
    spec fn spec_exponent(&self) -> nat;

    /// The display symbol.
    spec fn spec_symbol(&self) -> Seq<char>;

    /// Whether the symbol is written before the amount.
    spec fn spec_symbol_first(&self) -> bool;

    /// The formatting locale.
    spec fn spec_locale(&self) -> Locale;

    /// The currency code as an owned string.
    fn to_string(&self) -> (r: String)
        ensures
            r@ == self.spec_code(),
    ;

    /// The number of fractional digits (e.g. 2 for USD, 0 for JPY).
    fn exponent(&self) -> (r: u32)
        ensures
            r as nat == self.spec_exponent(),
    ;

    /// The currency code (e.g. "USD").
    fn code(&self) -> (r: &'static str)
        ensures
            r@ == self.spec_code(),
    ;

    /// The locale that governs digit grouping and separators.
    fn locale(&self) -> (r: Locale)
        ensures
            r == self.spec_locale(),
    ;

    /// The display symbol (e.g. "$").
    fn symbol(&self) -> (r: &'static str)
        ensures
            r@ == self.spec_symbol(),
    ;

    /// Whether the symbol precedes the amount.
    fn symbol_first(&self) -> (r: bool)
        ensures
            r == self.spec_symbol_first(),
    ;
}

} // verus!
