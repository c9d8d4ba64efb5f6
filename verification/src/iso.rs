//! The ISO-4217 currency table: an enumeration of the supported codes and
//! the descriptor each one maps to.

use vstd::prelude::*;
use crate::iso_currency::IsoCurrency;
use crate::locale::Locale;

verus! {

/// The supported ISO-4217 currencies.
#[derive(Debug, PartialEq, Eq, Clone, Copy, Structural)]
pub enum Iso {
    AED,
    AFN,
    AMD,
    ANG,
    AOA,
    ARS,
    AUD,
    AWG,
    AZN,
    BHD,
    EUR,
    GBP,
    INR,
    USD,
}

/// The alphabetic ISO-4217 code of a currency.
pub open spec fn spec_iso_alpha(c: Iso) -> Seq<char> {
    match c {
        Iso::AED => "AED"@,
        Iso::AFN => "AFN"@,
        Iso::AMD => "AMD"@,
        Iso::ANG => "ANG"@,
        Iso::AOA => "AOA"@,
        Iso::ARS => "ARS"@,
        Iso::AUD => "AUD"@,
        Iso::AWG => "AWG"@,
        Iso::AZN => "AZN"@,
        Iso::BHD => "BHD"@,
        Iso::EUR => "EUR"@,
        Iso::GBP => "GBP"@,
        Iso::INR => "INR"@,
        Iso::USD => "USD"@,
    }
}

/// The numeric ISO-4217 code of a currency.
pub open spec fn spec_iso_numeric(c: Iso) -> Seq<char> {
    match c {
        Iso::AED => "784"@,
        Iso::AFN => "971"@,
        Iso::AMD => "051"@,
        Iso::ANG => "532"@,
        Iso::AOA => "973"@,
        Iso::ARS => "032"@,
        Iso::AUD => "036"@,
        Iso::AWG => "533"@,
        Iso::AZN => "944"@,
        Iso::BHD => "048"@,
        Iso::EUR => "978"@,
        Iso::GBP => "826"@,
        Iso::INR => "356"@,
        Iso::USD => "840"@,
    }
}

/// The number of fractional digits of a currency: 3 for BHD, 2 for the rest.
pub open spec fn spec_iso_exponent(c: Iso) -> nat {
    match c {
        Iso::BHD => 3,
        _ => 2,
    }
}

/// The formatting locale of a currency.
pub open spec fn spec_iso_locale(c: Iso) -> Locale {
    match c {
        Iso::ARS => Locale::EnEu,
        Iso::EUR => Locale::EnEu,
        Iso::INR => Locale::EnIn,
        _ => Locale::EnUs,
    }
}

/// The display symbol of a currency.
pub open spec fn spec_iso_symbol(c: Iso) -> Seq<char> {
    match c {
        Iso::AED => "\u{62f}.\u{625}"@,
        Iso::AFN => "\u{60b}"@,
        Iso::AMD => "\u{564}\u{580}."@,
        Iso::ANG => "\u{192}"@,
        Iso::AOA => "Kz"@,
        Iso::ARS => "$"@,
        Iso::AUD => "$"@,
        Iso::AWG => "\u{192}"@,
        Iso::AZN => "\u{20bc}"@,
        Iso::BHD => "\u{628}.\u{62f}"@,
        Iso::EUR => "\u{20ac}"@,
        Iso::GBP => "\u{a3}"@,
        Iso::INR => "\u{20b9}"@,
        Iso::USD => "$"@,
    }
}

/// Whether the symbol is written before the amount.
pub open spec fn spec_iso_symbol_first(c: Iso) -> bool {
    match c {
        Iso::ARS => true,
        Iso::AUD => true,
        Iso::AZN => true,
        Iso::BHD => true,
        Iso::EUR => true,
        Iso::GBP => true,
        Iso::INR => true,
        Iso::USD => true,
        _ => false,
    }
}

/// The smallest minor-unit denomination in circulation.
pub open spec fn spec_iso_minor_denomination(c: Iso) -> u32 {
    match c {
        Iso::AED => 25,
        Iso::AFN => 100,
        Iso::AMD => 10,
        Iso::ANG => 1,
        Iso::AOA => 10,
        Iso::ARS => 1,
        Iso::AUD => 5,
        Iso::AWG => 5,
        Iso::AZN => 1,
        Iso::BHD => 5,
        Iso::EUR => 1,
        Iso::GBP => 1,
        Iso::INR => 50,
        Iso::USD => 1,
    }
}

/// The full name of a currency.
pub open spec fn spec_iso_name(c: Iso) -> Seq<char> {
    match c {
        Iso::AED => "United Arab Emirates Dirham"@,
        Iso::AFN => "Afghan Afghani"@,
        Iso::AMD => "Armenian Dram"@,
        Iso::ANG => "Netherlands Antillean Gulden"@,
        Iso::AOA => "Angolan Kwanza"@,
        Iso::ARS => "Argentine Peso"@,
        Iso::AUD => "Australian Dollar"@,
        Iso::AWG => "Aruban Florin"@,
        Iso::AZN => "Azerbaijani Manat"@,
        Iso::BHD => "Bahraini Dinar"@,
        Iso::EUR => "Euro"@,
        Iso::GBP => "British Pound"@,
        Iso::INR => "Indian Rupee"@,
        Iso::USD => "United States Dollar"@,
    }
}

/// Whether `c` is, field for field, the table's descriptor of currency `i`.
pub open spec fn is_iso_entry(c: IsoCurrency, i: Iso) -> bool {
    &&& c.iso_alpha_code@ == spec_iso_alpha(i)
    &&& c.iso_numeric_code@ == spec_iso_numeric(i)
    &&& c.exponent == spec_iso_exponent(i)
    &&& c.locale == spec_iso_locale(i)
    &&& c.symbol@ == spec_iso_symbol(i)
    &&& c.symbol_first == spec_iso_symbol_first(i)
    &&& c.minor_denomination == spec_iso_minor_denomination(i)
    &&& c.name@ == spec_iso_name(i)
}

/// Returns the currency descriptor of an ISO enumeration value.
pub fn from_enum(code: &Iso) -> (r: IsoCurrency)
    ensures
        is_iso_entry(r, *code),
        r.iso_alpha_code@ == spec_iso_alpha(*code),
        r.iso_numeric_code@ == spec_iso_numeric(*code),
        r.exponent == spec_iso_exponent(*code),
        r.exponent <= 28,
{
    match code {
        Iso::AED => IsoCurrency {
            exponent: 2,
            iso_alpha_code: "AED",
            iso_numeric_code: "784",
            locale: Locale::EnUs,
            minor_denomination: 25,
            name: "United Arab Emirates Dirham",
            symbol: "\u{62f}.\u{625}",
            symbol_first: false,
        },
        Iso::AFN => IsoCurrency {
            exponent: 2,
            iso_alpha_code: "AFN",
            iso_numeric_code: "971",
            locale: Locale::EnUs,
            minor_denomination: 100,
            name: "Afghan Afghani",
            symbol: "\u{60b}",
            symbol_first: false,
        },
        Iso::AMD => IsoCurrency {
            exponent: 2,
            iso_alpha_code: "AMD",
            iso_numeric_code: "051",
            locale: Locale::EnUs,
            minor_denomination: 10,
            name: "Armenian Dram",
            symbol: "\u{564}\u{580}.",
            symbol_first: false,
        },
        Iso::ANG => IsoCurrency {
            exponent: 2,
            iso_alpha_code: "ANG",
            iso_numeric_code: "532",
            locale: Locale::EnUs,
            minor_denomination: 1,
            name: "Netherlands Antillean Gulden",
            symbol: "\u{192}",
            symbol_first: false,
        },
        Iso::AOA => IsoCurrency {
            exponent: 2,
            iso_alpha_code: "AOA",
            iso_numeric_code: "973",
            locale: Locale::EnUs,
            minor_denomination: 10,
            name: "Angolan Kwanza",
            symbol: "Kz",
            symbol_first: false,
        },
        Iso::ARS => IsoCurrency {
            exponent: 2,
            iso_alpha_code: "ARS",
            iso_numeric_code: "032",
            locale: Locale::EnEu,
            minor_denomination: 1,
            name: "Argentine Peso",
            symbol: "$",
            symbol_first: true,
        },
        Iso::AUD => IsoCurrency {
            exponent: 2,
            iso_alpha_code: "AUD",
            iso_numeric_code: "036",
            locale: Locale::EnUs,
            minor_denomination: 5,
            name: "Australian Dollar",
            symbol: "$",
            symbol_first: true,
        },
        Iso::AWG => IsoCurrency {
            exponent: 2,
            iso_alpha_code: "AWG",
            iso_numeric_code: "533",
            locale: Locale::EnUs,
            minor_denomination: 5,
            name: "Aruban Florin",
            symbol: "\u{192}",
            symbol_first: false,
        },
        Iso::AZN => IsoCurrency {
            exponent: 2,
            iso_alpha_code: "AZN",
            iso_numeric_code: "944",
            locale: Locale::EnUs,
            minor_denomination: 1,
            name: "Azerbaijani Manat",
            symbol: "\u{20bc}",
            symbol_first: true,
        },
        Iso::BHD => IsoCurrency {
            exponent: 3,
            iso_alpha_code: "BHD",
            iso_numeric_code: "048",
            locale: Locale::EnUs,
            minor_denomination: 5,
            name: "Bahraini Dinar",
            symbol: "\u{628}.\u{62f}",
            symbol_first: true,
        },
        Iso::EUR => IsoCurrency {
            exponent: 2,
            iso_alpha_code: "EUR",
            iso_numeric_code: "978",
            locale: Locale::EnEu,
            minor_denomination: 1,
            name: "Euro",
            symbol: "\u{20ac}",
            symbol_first: true,
        },
        Iso::GBP => IsoCurrency {
            exponent: 2,
            iso_alpha_code: "GBP",
            iso_numeric_code: "826",
            locale: Locale::EnUs,
            minor_denomination: 1,
            name: "British Pound",
            symbol: "\u{a3}",
            symbol_first: true,
        },
        Iso::INR => IsoCurrency {
            exponent: 2,
            iso_alpha_code: "INR",
            iso_numeric_code: "356",
            locale: Locale::EnIn,
            minor_denomination: 50,
            name: "Indian Rupee",
            symbol: "\u{20b9}",
            symbol_first: true,
        },
        Iso::USD => IsoCurrency {
            exponent: 2,
            iso_alpha_code: "USD",
            iso_numeric_code: "840",
            locale: Locale::EnUs,
            minor_denomination: 1,
            name: "United States Dollar",
            symbol: "$",
            symbol_first: true,
        },
    }
}

} // verus!
