//! The crypto currency set: descriptors and the code lookup.

use vstd::prelude::*;
use crate::currency::FormattableCurrency;
use crate::error::MoneyError;
use crate::locale::Locale;

verus! {

/// A single crypto currency (e.g. BTC): code, exponent, locale and display
/// metadata.  Two descriptors denote the same currency exactly when their
/// codes are equal.
#[derive(Debug, PartialEq, Eq, Clone, Copy)]
pub struct CryptoCurrency {
    pub code: &'static str,
    pub exponent: u32,
    pub locale: Locale,
    pub minor_units: u64,
    pub name: &'static str,
    pub symbol: &'static str,
    pub symbol_first: bool,
}

impl FormattableCurrency for CryptoCurrency {
    open spec fn spec_code(&self) -> Seq<char> {
        self.code@
    }

    open spec fn spec_exponent(&self) -> nat {
        self.exponent as nat
    }

    open spec fn spec_symbol(&self) -> Seq<char> {
        self.symbol@
    }

    open spec fn spec_symbol_first(&self) -> bool {
        self.symbol_first
    }

    open spec fn spec_locale(&self) -> Locale {
        self.locale
    }

    fn to_string(&self) -> (r: String) {
        self.code.to_owned()
    }

    fn exponent(&self) -> (r: u32) {
        self.exponent
    }

    fn code(&self) -> (r: &'static str) {
        self.code
    }

    fn locale(&self) -> (r: Locale) {
        self.locale
    }

    fn symbol(&self) -> (r: &'static str) {
        self.symbol
    }

    fn symbol_first(&self) -> (r: bool) {
        self.symbol_first
    }
}

/// Whether `c` is, field for field, the crypto set's descriptor carrying
/// the given code; false for a code outside the set.
pub open spec fn is_crypto_entry(c: CryptoCurrency, code: Seq<char>) -> bool {
    if code == "BTC"@ {
        c.code@ == "BTC"@ && c.exponent == 8 && c.locale == Locale::EnUs && c.minor_units
            == 100_000_000 && c.name@ == "Bitcoin"@ && c.symbol@ == "\u{20bf}"@ && c.symbol_first
    } else if code == "COMP"@ {
        c.code@ == "COMP"@ && c.exponent == 18 && c.locale == Locale::EnUs && c.minor_units
            == 1_000_000_000_000_000_000 && c.name@ == "Compound"@ && c.symbol@ == "COMP"@
            && !c.symbol_first
    } else if code == "DAI"@ {
        c.code@ == "DAI"@ && c.exponent == 18 && c.locale == Locale::EnUs && c.minor_units
            == 1_000_000_000_000_000_000 && c.name@ == "Dai Stablecoin"@ && c.symbol@ == "DAI"@
            && !c.symbol_first
    } else if code == "ETH"@ {
        c.code@ == "ETH"@ && c.exponent == 18 && c.locale == Locale::EnUs && c.minor_units
            == 1_000_000_000_000_000_000 && c.name@ == "Ethereum"@ && c.symbol@ == "ETH"@
            && !c.symbol_first
    } else if code == "MKR"@ {
        c.code@ == "MKR"@ && c.exponent == 18 && c.locale == Locale::EnUs && c.minor_units
            == 1_000_000_000_000_000_000 && c.name@ == "Maker"@ && c.symbol@ == "MKR"@
            && !c.symbol_first
    } else if code == "UNI"@ {
        c.code@ == "UNI"@ && c.exponent == 18 && c.locale == Locale::EnUs && c.minor_units
            == 1_000_000_000_000_000_000 && c.name@ == "Uniswap"@ && c.symbol@ == "UNI"@
            && !c.symbol_first
    } else if code == "USDC"@ {
        c.code@ == "USDC"@ && c.exponent == 6 && c.locale == Locale::EnUs && c.minor_units
            == 1_000_000 && c.name@ == "USD Coin"@ && c.symbol@ == "USDC"@ && !c.symbol_first
    } else if code == "USDT"@ {
        c.code@ == "USDT"@ && c.exponent == 6 && c.locale == Locale::EnUs && c.minor_units
            == 1_000_000 && c.name@ == "Tether"@ && c.symbol@ == "USDT"@ && !c.symbol_first
    } else if code == "XTZ"@ {
        c.code@ == "XTZ"@ && c.exponent == 6 && c.locale == Locale::EnUs && c.minor_units
            == 1_000_000 && c.name@ == "Tezos"@ && c.symbol@ == "XTZ"@ && !c.symbol_first
    } else if code == "ZEC"@ {
        c.code@ == "ZEC"@ && c.exponent == 8 && c.locale == Locale::EnUs && c.minor_units
            == 100_000_000 && c.name@ == "ZCash"@ && c.symbol@ == "ZEC"@ && !c.symbol_first
    } else if code == "BCH"@ {
        c.code@ == "BCH"@ && c.exponent == 8 && c.locale == Locale::EnUs && c.minor_units
            == 100_000_000 && c.name@ == "Bitcoin Cash"@ && c.symbol@ == "BCH"@ && !c.symbol_first
    } else if code == "BSV"@ {
        c.code@ == "BSV"@ && c.exponent == 8 && c.locale == Locale::EnUs && c.minor_units
            == 100_000_000 && c.name@ == "Bitcoin SV"@ && c.symbol@ == "BSV"@ && !c.symbol_first
    } else {
        false
    }
}

/// The twelve codes of the crypto set are pairwise distinct.
proof fn lemma_crypto_codes_distinct()
    ensures
        "COMP"@ != "BTC"@,
        "DAI"@ != "BTC"@,
        "DAI"@ != "COMP"@,
        "ETH"@ != "BTC"@,
        "ETH"@ != "COMP"@,
        "ETH"@ != "DAI"@,
        "MKR"@ != "BTC"@,
        "MKR"@ != "COMP"@,
        "MKR"@ != "DAI"@,
        "MKR"@ != "ETH"@,
        "UNI"@ != "BTC"@,
        "UNI"@ != "COMP"@,
        "UNI"@ != "DAI"@,
        "UNI"@ != "ETH"@,
        "UNI"@ != "MKR"@,
        "USDC"@ != "BTC"@,
        "USDC"@ != "COMP"@,
        "USDC"@ != "DAI"@,
        "USDC"@ != "ETH"@,
        "USDC"@ != "MKR"@,
        "USDC"@ != "UNI"@,
        "USDT"@ != "BTC"@,
        "USDT"@ != "COMP"@,
        "USDT"@ != "DAI"@,
        "USDT"@ != "ETH"@,
        "USDT"@ != "MKR"@,
        "USDT"@ != "UNI"@,
        "USDT"@ != "USDC"@,
        "XTZ"@ != "BTC"@,
        "XTZ"@ != "COMP"@,
        "XTZ"@ != "DAI"@,
        "XTZ"@ != "ETH"@,
        "XTZ"@ != "MKR"@,
        "XTZ"@ != "UNI"@,
        "XTZ"@ != "USDC"@,
        "XTZ"@ != "USDT"@,
        "ZEC"@ != "BTC"@,
        "ZEC"@ != "COMP"@,
        "ZEC"@ != "DAI"@,
        "ZEC"@ != "ETH"@,
        "ZEC"@ != "MKR"@,
        "ZEC"@ != "UNI"@,
        "ZEC"@ != "USDC"@,
        "ZEC"@ != "USDT"@,
        "ZEC"@ != "XTZ"@,
        "BCH"@ != "BTC"@,
        "BCH"@ != "COMP"@,
        "BCH"@ != "DAI"@,
        "BCH"@ != "ETH"@,
        "BCH"@ != "MKR"@,
        "BCH"@ != "UNI"@,
        "BCH"@ != "USDC"@,
        "BCH"@ != "USDT"@,
        "BCH"@ != "XTZ"@,
        "BCH"@ != "ZEC"@,
        "BSV"@ != "BTC"@,
        "BSV"@ != "COMP"@,
        "BSV"@ != "DAI"@,
        "BSV"@ != "ETH"@,
        "BSV"@ != "MKR"@,
        "BSV"@ != "UNI"@,
        "BSV"@ != "USDC"@,
        "BSV"@ != "USDT"@,
        "BSV"@ != "XTZ"@,
        "BSV"@ != "ZEC"@,
        "BSV"@ != "BCH"@,
{
    reveal_strlit("BTC");
    reveal_strlit("COMP");
    reveal_strlit("DAI");
    reveal_strlit("ETH");
    reveal_strlit("MKR");
    reveal_strlit("UNI");
    reveal_strlit("USDC");
    reveal_strlit("USDT");
    reveal_strlit("XTZ");
    reveal_strlit("ZEC");
    reveal_strlit("BCH");
    reveal_strlit("BSV");
    assert("BTC"@.len() == 3 && "BTC"@[0] == 'B' && "BTC"@[1] == 'T' && "BTC"@[2] == 'C');
    assert("COMP"@.len() == 4 && "COMP"@[0] == 'C' && "COMP"@[1] == 'O' && "COMP"@[2] == 'M' && "COMP"@[3] == 'P');
    assert("DAI"@.len() == 3 && "DAI"@[0] == 'D' && "DAI"@[1] == 'A' && "DAI"@[2] == 'I');
    assert("ETH"@.len() == 3 && "ETH"@[0] == 'E' && "ETH"@[1] == 'T' && "ETH"@[2] == 'H');
    assert("MKR"@.len() == 3 && "MKR"@[0] == 'M' && "MKR"@[1] == 'K' && "MKR"@[2] == 'R');
    assert("UNI"@.len() == 3 && "UNI"@[0] == 'U' && "UNI"@[1] == 'N' && "UNI"@[2] == 'I');
    assert("USDC"@.len() == 4 && "USDC"@[0] == 'U' && "USDC"@[1] == 'S' && "USDC"@[2] == 'D' && "USDC"@[3] == 'C');
    assert("USDT"@.len() == 4 && "USDT"@[0] == 'U' && "USDT"@[1] == 'S' && "USDT"@[2] == 'D' && "USDT"@[3] == 'T');
    assert("XTZ"@.len() == 3 && "XTZ"@[0] == 'X' && "XTZ"@[1] == 'T' && "XTZ"@[2] == 'Z');
    assert("ZEC"@.len() == 3 && "ZEC"@[0] == 'Z' && "ZEC"@[1] == 'E' && "ZEC"@[2] == 'C');
    assert("BCH"@.len() == 3 && "BCH"@[0] == 'B' && "BCH"@[1] == 'C' && "BCH"@[2] == 'H');
    assert("BSV"@.len() == 3 && "BSV"@[0] == 'B' && "BSV"@[1] == 'S' && "BSV"@[2] == 'V');
}

/// The codes of the crypto currency set.
pub open spec fn spec_crypto_codes() -> Seq<Seq<char>> {
    seq![
        "BTC"@,
        "COMP"@,
        "DAI"@,
        "ETH"@,
        "MKR"@,
        "UNI"@,
        "USDC"@,
        "USDT"@,
        "XTZ"@,
        "ZEC"@,
        "BCH"@,
        "BSV"@,
    ]
}

/// Bitcoin.
pub fn btc() -> (r: CryptoCurrency)
    ensures
        is_crypto_entry(r, "BTC"@),
        r.code@ == "BTC"@,
        r.exponent == 8,
{
    CryptoCurrency {
        code: "BTC",
        exponent: 8,
        locale: Locale::EnUs,
        minor_units: 100_000_000,
        name: "Bitcoin",
        symbol: "\u{20bf}",
        symbol_first: true,
    }
}

/// Compound.
pub fn comp() -> (r: CryptoCurrency)
    ensures
        is_crypto_entry(r, "COMP"@),
        r.code@ == "COMP"@,
        r.exponent == 18,
{
    proof {
        lemma_crypto_codes_distinct();
    }
    CryptoCurrency {
        code: "COMP",
        exponent: 18,
        locale: Locale::EnUs,
        minor_units: 1_000_000_000_000_000_000,
        name: "Compound",
        symbol: "COMP",
        symbol_first: false,
    }
}

/// Dai Stablecoin.
pub fn dai() -> (r: CryptoCurrency)
    ensures
        is_crypto_entry(r, "DAI"@),
        r.code@ == "DAI"@,
        r.exponent == 18,
{
    proof {
        lemma_crypto_codes_distinct();
    }
    CryptoCurrency {
        code: "DAI",
        exponent: 18,
        locale: Locale::EnUs,
        minor_units: 1_000_000_000_000_000_000,
        name: "Dai Stablecoin",
        symbol: "DAI",
        symbol_first: false,
    }
}

/// Ethereum.
pub fn eth() -> (r: CryptoCurrency)
    ensures
        is_crypto_entry(r, "ETH"@),
        r.code@ == "ETH"@,
        r.exponent == 18,
{
    proof {
        lemma_crypto_codes_distinct();
    }
    CryptoCurrency {
        code: "ETH",
        exponent: 18,
        locale: Locale::EnUs,
        minor_units: 1_000_000_000_000_000_000,
        name: "Ethereum",
        symbol: "ETH",
        symbol_first: false,
    }
}

/// Maker.
pub fn mkr() -> (r: CryptoCurrency)
    ensures
        is_crypto_entry(r, "MKR"@),
        r.code@ == "MKR"@,
        r.exponent == 18,
{
    proof {
        lemma_crypto_codes_distinct();
    }
    CryptoCurrency {
        code: "MKR",
        exponent: 18,
        locale: Locale::EnUs,
        minor_units: 1_000_000_000_000_000_000,
        name: "Maker",
        symbol: "MKR",
        symbol_first: false,
    }
}

/// Uniswap.
pub fn uni() -> (r: CryptoCurrency)
    ensures
        is_crypto_entry(r, "UNI"@),
        r.code@ == "UNI"@,
        r.exponent == 18,
{
    proof {
        lemma_crypto_codes_distinct();
    }
    CryptoCurrency {
        code: "UNI",
        exponent: 18,
        locale: Locale::EnUs,
        minor_units: 1_000_000_000_000_000_000,
        name: "Uniswap",
        symbol: "UNI",
        symbol_first: false,
    }
}

/// USD Coin.
pub fn usdc() -> (r: CryptoCurrency)
    ensures
        is_crypto_entry(r, "USDC"@),
        r.code@ == "USDC"@,
        r.exponent == 6,
{
    proof {
        lemma_crypto_codes_distinct();
    }
    CryptoCurrency {
        code: "USDC",
        exponent: 6,
        locale: Locale::EnUs,
        minor_units: 1_000_000,
        name: "USD Coin",
        symbol: "USDC",
        symbol_first: false,
    }
}

/// Tether.
pub fn usdt() -> (r: CryptoCurrency)
    ensures
        is_crypto_entry(r, "USDT"@),
        r.code@ == "USDT"@,
        r.exponent == 6,
{
    proof {
        lemma_crypto_codes_distinct();
    }
    CryptoCurrency {
        code: "USDT",
        exponent: 6,
        locale: Locale::EnUs,
        minor_units: 1_000_000,
        name: "Tether",
        symbol: "USDT",
        symbol_first: false,
    }
}

/// Tezos.
pub fn xtz() -> (r: CryptoCurrency)
    ensures
        is_crypto_entry(r, "XTZ"@),
        r.code@ == "XTZ"@,
        r.exponent == 6,
{
    proof {
        lemma_crypto_codes_distinct();
    }
    CryptoCurrency {
        code: "XTZ",
        exponent: 6,
        locale: Locale::EnUs,
        minor_units: 1_000_000,
        name: "Tezos",
        symbol: "XTZ",
        symbol_first: false,
    }
}

/// ZCash.
pub fn zec() -> (r: CryptoCurrency)
    ensures
        is_crypto_entry(r, "ZEC"@),
        r.code@ == "ZEC"@,
        r.exponent == 8,
{
    proof {
        lemma_crypto_codes_distinct();
    }
    CryptoCurrency {
        code: "ZEC",
        exponent: 8,
        locale: Locale::EnUs,
        minor_units: 100_000_000,
        name: "ZCash",
        symbol: "ZEC",
        symbol_first: false,
    }
}

/// Bitcoin Cash.
pub fn bch() -> (r: CryptoCurrency)
    ensures
        is_crypto_entry(r, "BCH"@),
        r.code@ == "BCH"@,
        r.exponent == 8,
{
    proof {
        lemma_crypto_codes_distinct();
    }
    CryptoCurrency {
        code: "BCH",
        exponent: 8,
        locale: Locale::EnUs,
        minor_units: 100_000_000,
        name: "Bitcoin Cash",
        symbol: "BCH",
        symbol_first: false,
    }
}

/// Bitcoin SV.
pub fn bsv() -> (r: CryptoCurrency)
    ensures
        is_crypto_entry(r, "BSV"@),
        r.code@ == "BSV"@,
        r.exponent == 8,
{
    proof {
        lemma_crypto_codes_distinct();
    }
    CryptoCurrency {
        code: "BSV",
        exponent: 8,
        locale: Locale::EnUs,
        minor_units: 100_000_000,
        name: "Bitcoin SV",
        symbol: "BSV",
        symbol_first: false,
    }
}

/// Returns the crypto currency with the given code, or `None` when the set
/// holds no currency of that code.
pub fn find(code: &str) -> (r: Option<CryptoCurrency>)
    ensures
        match r {
            Some(c) => is_crypto_entry(c, code@) && c.code@ == code@ && c.exponent <= 28
                && spec_crypto_codes().contains(code@),
            None => !spec_crypto_codes().contains(code@),
        },
{
    let owned = code.to_owned();
    let r = if owned == String::from_str("BTC") {
        Some(btc())
    } else if owned == String::from_str("COMP") {
        Some(comp())
    } else if owned == String::from_str("DAI") {
        Some(dai())
    } else if owned == String::from_str("ETH") {
        Some(eth())
    } else if owned == String::from_str("MKR") {
        Some(mkr())
    } else if owned == String::from_str("UNI") {
        Some(uni())
    } else if owned == String::from_str("USDC") {
        Some(usdc())
    } else if owned == String::from_str("USDT") {
        Some(usdt())
    } else if owned == String::from_str("XTZ") {
        Some(xtz())
    } else if owned == String::from_str("ZEC") {
        Some(zec())
    } else if owned == String::from_str("BCH") {
        Some(bch())
    } else if owned == String::from_str("BSV") {
        Some(bsv())
    } else {
        None
    };
    proof {
        if r is Some {
            assert(spec_crypto_codes().contains(code@)) by {
                let cs = spec_crypto_codes();
                if code@ == "BTC"@ {
                    assert(cs[0] == code@);
                } else if code@ == "COMP"@ {
                    assert(cs[1] == code@);
                } else if code@ == "DAI"@ {
                    assert(cs[2] == code@);
                } else if code@ == "ETH"@ {
                    assert(cs[3] == code@);
                } else if code@ == "MKR"@ {
                    assert(cs[4] == code@);
                } else if code@ == "UNI"@ {
                    assert(cs[5] == code@);
                } else if code@ == "USDC"@ {
                    assert(cs[6] == code@);
                } else if code@ == "USDT"@ {
                    assert(cs[7] == code@);
                } else if code@ == "XTZ"@ {
                    assert(cs[8] == code@);
                } else if code@ == "ZEC"@ {
                    assert(cs[9] == code@);
                } else if code@ == "BCH"@ {
                    assert(cs[10] == code@);
                } else {
                    assert(cs[11] == code@);
                }
            }
        } else {
            assert(!spec_crypto_codes().contains(code@)) by {
                let cs = spec_crypto_codes();
                assert forall|j: int| 0 <= j < cs.len() implies cs[j] != code@ by {
                    assert(cs[0] == "BTC"@ && cs[1] == "COMP"@ && cs[2] == "DAI"@ && cs[3]
                        == "ETH"@ && cs[4] == "MKR"@ && cs[5] == "UNI"@ && cs[6] == "USDC"@ && cs[7]
                        == "USDT"@ && cs[8] == "XTZ"@ && cs[9] == "ZEC"@ && cs[10] == "BCH"@
                        && cs[11] == "BSV"@);
                }
            }
        }
    }
    r
}

impl CryptoCurrency {
    /// Returns the crypto currency with the given code; fails with
    /// `InvalidCurrency` when the set holds no currency of that code.
    pub fn find(code: &str) -> (r: Result<CryptoCurrency, MoneyError>)
        ensures
            match r {
                Ok(c) => is_crypto_entry(c, code@) && c.code@ == code@ && c.exponent <= 28
                    && spec_crypto_codes().contains(code@),
                Err(e) => e == MoneyError::InvalidCurrency && !spec_crypto_codes().contains(code@),
            },
    {
        match find(code) {
            Some(c) => Ok(c),
            None => Err(MoneyError::InvalidCurrency),
        }
    }
}

} // verus!
