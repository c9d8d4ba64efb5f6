//! The ISO-4217 currency descriptor and its lookups.

use vstd::prelude::*;
use vstd::string::StrSliceExecFns;
use crate::currency::FormattableCurrency;
use crate::error::MoneyError;
use crate::iso::{Iso, from_enum, is_iso_entry, spec_iso_alpha, spec_iso_numeric};
use crate::locale::Locale;

verus! {

/// An ISO-4217 currency: code, exponent, locale and display metadata.
/// Descriptors are plain immutable values; two descriptors denote the same
/// currency exactly when their alphabetic codes are equal.
#[derive(Debug, PartialEq, Eq, Clone, Copy)]
pub struct IsoCurrency {
    pub locale: Locale,
    pub exponent: u32,
    pub iso_alpha_code: &'static str,
    pub iso_numeric_code: &'static str,
    pub name: &'static str,
    pub symbol: &'static str,
    pub symbol_first: bool,
    pub minor_denomination: u32,
}

impl FormattableCurrency for IsoCurrency {
    open spec fn spec_code(&self) -> Seq<char> {
        self.iso_alpha_code@
    }

    open spec fn spec_exponent(&self) -> nat {
        self.exponent as nat
    }

    open spec fn spec_symbol(&self) -> Seq<char> {
        self.symbol@
    }

    open spec fn spec_symbol_first(&self) -> bool {
        self.symbol_first
    }

    open spec fn spec_locale(&self) -> Locale {
        self.locale
    }

    fn to_string(&self) -> (r: String) {
        self.iso_alpha_code.to_owned()
    }

    fn exponent(&self) -> (r: u32) {
        self.exponent
    }

    fn code(&self) -> (r: &'static str) {
        self.iso_alpha_code
    }

    fn locale(&self) -> (r: Locale) {
        self.locale
    }

    fn symbol(&self) -> (r: &'static str) {
        self.symbol
    }

    fn symbol_first(&self) -> (r: bool) {
        self.symbol_first
    }
}

/// Whether every character of `s` is an ASCII letter.
pub open spec fn all_alpha_chars(s: Seq<char>) -> bool {
    forall|j: int|
        0 <= j < s.len() ==> (65 <= (#[trigger] s[j]) as u32 <= 90 || 97 <= s[j] as u32 <= 122)
}

/// Whether every character of `s` is an ASCII digit.
pub open spec fn all_digit_chars(s: Seq<char>) -> bool {
    forall|j: int| 0 <= j < s.len() ==> 48 <= (#[trigger] s[j]) as u32 <= 57
}

fn is_all_alpha(s: &str) -> (r: bool)
    ensures
        r == all_alpha_chars(s@),
{
    let n = s.unicode_len();
    let mut i: usize = 0;
    while i < n
        invariant
            i <= n,
            n == s@.len(),
            forall|j: int|
                0 <= j < i ==> (65 <= (#[trigger] s@[j]) as u32 <= 90 || 97 <= s@[j] as u32
                    <= 122),
        decreases n - i,
    {
        let c = s.get_char(i);
        let u = c as u32;
        if !(65 <= u && u <= 90 || 97 <= u && u <= 122) {
            return false;
        }
        i = i + 1;
    }
    true
}

fn is_all_digit(s: &str) -> (r: bool)
    ensures
        r == all_digit_chars(s@),
{
    let n = s.unicode_len();
    let mut i: usize = 0;
    while i < n
        invariant
            i <= n,
            n == s@.len(),
            forall|j: int| 0 <= j < i ==> 48 <= (#[trigger] s@[j]) as u32 <= 57,
        decreases n - i,
    {
        let c = s.get_char(i);
        let u = c as u32;
        if !(48 <= u && u <= 57) {
            return false;
        }
        i = i + 1;
    }
    true
}

/// The ASCII uppercase of a character: the letters a-z fold to A-Z and
/// every other character stays as it is.
pub open spec fn spec_upper_char(c: char) -> char {
    match c {
        'a' => 'A',
        'b' => 'B',
        'c' => 'C',
        'd' => 'D',
        'e' => 'E',
        'f' => 'F',
        'g' => 'G',
        'h' => 'H',
        'i' => 'I',
        'j' => 'J',
        'k' => 'K',
        'l' => 'L',
        'm' => 'M',
        'n' => 'N',
        'o' => 'O',
        'p' => 'P',
        'q' => 'Q',
        'r' => 'R',
        's' => 'S',
        't' => 'T',
        'u' => 'U',
        'v' => 'V',
        'w' => 'W',
        'x' => 'X',
        'y' => 'Y',
        'z' => 'Z',
        _ => c,
    }
}

/// `s` with every ASCII lowercase letter folded to its uppercase.
pub open spec fn spec_to_upper(s: Seq<char>) -> Seq<char> {
    s.map_values(|c: char| spec_upper_char(c))
}

/// Case folding moves lowercase letters into the uppercase range and fixes
/// every other character.
proof fn lemma_upper_char_cases(c: char)
    ensures
        !(97 <= c as u32 <= 122) ==> spec_upper_char(c) == c,
        97 <= c as u32 <= 122 ==> 65 <= spec_upper_char(c) as u32 <= 90,
{
}

fn upper_char(c: char) -> (r: char)
    ensures
        r == spec_upper_char(c),
{
    match c {
        'a' => 'A',
        'b' => 'B',
        'c' => 'C',
        'd' => 'D',
        'e' => 'E',
        'f' => 'F',
        'g' => 'G',
        'h' => 'H',
        'i' => 'I',
        'j' => 'J',
        'k' => 'K',
        'l' => 'L',
        'm' => 'M',
        'n' => 'N',
        'o' => 'O',
        'p' => 'P',
        'q' => 'Q',
        'r' => 'R',
        's' => 'S',
        't' => 'T',
        'u' => 'U',
        'v' => 'V',
        'w' => 'W',
        'x' => 'X',
        'y' => 'Y',
        'z' => 'Z',
        _ => c,
    }
}

fn ascii_uppercase(s: &str) -> (r: String)
    ensures
        r@ == spec_to_upper(s@),
{
    let n = s.unicode_len();
    let mut out = String::new();
    let mut i: usize = 0;
    proof {
        assert(out@ =~= spec_to_upper(s@.subrange(0, 0)));
    }
    while i < n
        invariant
            i <= n,
            n == s@.len(),
            out@ == spec_to_upper(s@.subrange(0, i as int)),
        decreases n - i,
    {
        let c = s.get_char(i);
        crate::format::push_char(&mut out, upper_char(c));
        proof {
            assert(out@ =~= spec_to_upper(s@.subrange(0, i as int + 1)));
        }
        i = i + 1;
    }
    proof {
        assert(s@.subrange(0, n as int) =~= s@);
    }
    out
}

/// Folding an all-digit run changes nothing.
proof fn lemma_to_upper_fixes_digits(s: Seq<char>)
    requires
        all_digit_chars(s),
    ensures
        spec_to_upper(s) == s,
{
    assert forall|j: int| 0 <= j < s.len() implies spec_to_upper(s)[j] == s[j] by {
        lemma_upper_char_cases(s[j]);
    }
    assert(spec_to_upper(s) =~= s);
}

impl IsoCurrency {
    /// Returns the currency descriptor of an ISO enumeration value.
    pub fn get(code: Iso) -> (r: IsoCurrency)
        ensures
            is_iso_entry(r, code),
            r.iso_alpha_code@ == spec_iso_alpha(code),
            r.iso_numeric_code@ == spec_iso_numeric(code),
            r.exponent == crate::iso::spec_iso_exponent(code),
            r.exponent <= 28,
    {
        from_enum(&code)
    }

    /// Returns the currency with the given alphabetic ISO-4217 code, or
    /// `None` when no currency of the table carries it.  The lookup is
    /// case-insensitive: the code is folded to ASCII uppercase first.
    pub fn find_by_alpha_iso(code: String) -> (r: Option<IsoCurrency>)
        ensures
            match r {
                Some(c) => c.iso_alpha_code@ == spec_to_upper(code@) && c.exponent <= 28 && (
                exists|i: Iso| #[trigger] spec_iso_alpha(i) == spec_to_upper(code@) && is_iso_entry(
                    c,
                    i,
                )),
                None => forall|i: Iso| spec_iso_alpha(i) != spec_to_upper(code@),
            },
    {
        let up = ascii_uppercase(code.as_str());
        let codes: [Iso; 14] = [
            Iso::AED,
            Iso::AFN,
            Iso::AMD,
            Iso::ANG,
            Iso::AOA,
            Iso::ARS,
            Iso::AUD,
            Iso::AWG,
            Iso::AZN,
            Iso::BHD,
            Iso::EUR,
            Iso::GBP,
            Iso::INR,
            Iso::USD,
        ];
        let mut k: usize = 0;
        while k < 14
            invariant
                k <= 14,
                codes@ =~= seq![
                    Iso::AED,
                    Iso::AFN,
                    Iso::AMD,
                    Iso::ANG,
                    Iso::AOA,
                    Iso::ARS,
                    Iso::AUD,
                    Iso::AWG,
                    Iso::AZN,
                    Iso::BHD,
                    Iso::EUR,
                    Iso::GBP,
                    Iso::INR,
                    Iso::USD,
                ],
                up@ == spec_to_upper(code@),
                forall|j: int| 0 <= j < k ==> spec_iso_alpha(codes@[j]) != up@,
            decreases 14 - k,
        {
            let c = from_enum(&codes[k]);
            if c.to_string() == up {
                return Some(c);
            }
            k = k + 1;
        }
        proof {
            assert forall|i: Iso| spec_iso_alpha(i) != spec_to_upper(code@) by {
                assert(codes@.contains(i)) by {
                    match i {
                        Iso::AED => assert(codes@[0] == i),
                        Iso::AFN => assert(codes@[1] == i),
                        Iso::AMD => assert(codes@[2] == i),
                        Iso::ANG => assert(codes@[3] == i),
                        Iso::AOA => assert(codes@[4] == i),
                        Iso::ARS => assert(codes@[5] == i),
                        Iso::AUD => assert(codes@[6] == i),
                        Iso::AWG => assert(codes@[7] == i),
                        Iso::AZN => assert(codes@[8] == i),
                        Iso::BHD => assert(codes@[9] == i),
                        Iso::EUR => assert(codes@[10] == i),
                        Iso::GBP => assert(codes@[11] == i),
                        Iso::INR => assert(codes@[12] == i),
                        Iso::USD => assert(codes@[13] == i),
                    }
                }
                let j = choose|j: int| 0 <= j < codes@.len() && codes@[j] == i;
                assert(spec_iso_alpha(codes@[j]) != up@);
            }
        }
        None
    }

    /// Returns the currency with the given numeric ISO-4217 code, or `None`
    /// when no currency of the table carries it.
    pub fn find_by_numeric_iso(code: String) -> (r: Option<IsoCurrency>)
        ensures
            match r {
                Some(c) => c.iso_numeric_code@ == code@ && c.exponent <= 28 && (exists|i: Iso|
                    #[trigger] spec_iso_numeric(i) == code@ && is_iso_entry(c, i)),
                None => forall|i: Iso| spec_iso_numeric(i) != code@,
            },
    {
        let codes: [Iso; 14] = [
            Iso::AED,
            Iso::AFN,
            Iso::AMD,
            Iso::ANG,
            Iso::AOA,
            Iso::ARS,
            Iso::AUD,
            Iso::AWG,
            Iso::AZN,
            Iso::BHD,
            Iso::EUR,
            Iso::GBP,
            Iso::INR,
            Iso::USD,
        ];
        let mut k: usize = 0;
        while k < 14
            invariant
                k <= 14,
                codes@ =~= seq![
                    Iso::AED,
                    Iso::AFN,
                    Iso::AMD,
                    Iso::ANG,
                    Iso::AOA,
                    Iso::ARS,
                    Iso::AUD,
                    Iso::AWG,
                    Iso::AZN,
                    Iso::BHD,
                    Iso::EUR,
                    Iso::GBP,
                    Iso::INR,
                    Iso::USD,
                ],
                forall|j: int| 0 <= j < k ==> spec_iso_numeric(codes@[j]) != code@,
            decreases 14 - k,
        {
            let c = from_enum(&codes[k]);
            if c.iso_numeric_code.to_owned() == code {
                return Some(c);
            }
            k = k + 1;
        }
        proof {
            assert forall|i: Iso| spec_iso_numeric(i) != code@ by {
                assert(codes@.contains(i)) by {
                    match i {
                        Iso::AED => assert(codes@[0] == i),
                        Iso::AFN => assert(codes@[1] == i),
                        Iso::AMD => assert(codes@[2] == i),
                        Iso::ANG => assert(codes@[3] == i),
                        Iso::AOA => assert(codes@[4] == i),
                        Iso::ARS => assert(codes@[5] == i),
                        Iso::AUD => assert(codes@[6] == i),
                        Iso::AWG => assert(codes@[7] == i),
                        Iso::AZN => assert(codes@[8] == i),
                        Iso::BHD => assert(codes@[9] == i),
                        Iso::EUR => assert(codes@[10] == i),
                        Iso::GBP => assert(codes@[11] == i),
                        Iso::INR => assert(codes@[12] == i),
                        Iso::USD => assert(codes@[13] == i),
                    }
                }
                let j = choose|j: int| 0 <= j < codes@.len() && codes@[j] == i;
                assert(spec_iso_numeric(codes@[j]) != code@);
            }
        }
        None
    }

    /// Returns the currency with the given ISO-4217 code: an alphabetic
    /// code is matched case-insensitively (folded to ASCII uppercase), a
    /// numeric code exactly.  Fails with `InvalidCurrency` when the code is
    /// neither all letters nor all digits, or names no currency of the
    /// table.
    pub fn find(code: &str) -> (r: Result<IsoCurrency, MoneyError>)
        ensures
            match r {
                Ok(c) => c.exponent <= 28 && (exists|i: Iso|
                    #[trigger] is_iso_entry(c, i) && (spec_iso_alpha(i) == spec_to_upper(code@)
                        || spec_iso_numeric(i) == code@)),
                Err(e) => e == MoneyError::InvalidCurrency && (forall|i: Iso|
                    spec_iso_alpha(i) != spec_to_upper(code@) && spec_iso_numeric(i) != code@),
            },
    {
        proof {
            lemma_iso_code_shapes();
        }
        if is_all_alpha(code) {
            match Self::find_by_alpha_iso(code.to_owned()) {
                Some(c) => Ok(c),
                None => {
                    proof {
                        assert forall|i: Iso| spec_iso_numeric(i) != code@ by {
                            assert(48 <= spec_iso_numeric(i)[0] as u32 <= 57);
                            if spec_iso_numeric(i) == code@ {
                                assert(code@.len() == 3);
                                assert(65 <= code@[0] as u32 <= 90 || 97 <= code@[0] as u32 <= 122);
                            }
                        }
                    }
                    Err(MoneyError::InvalidCurrency)
                },
            }
        } else if is_all_digit(code) {
            match Self::find_by_numeric_iso(code.to_owned()) {
                Some(c) => Ok(c),
                None => {
                    proof {
                        lemma_to_upper_fixes_digits(code@);
                        assert forall|i: Iso| spec_iso_alpha(i) != spec_to_upper(code@) by {
                            assert(65 <= spec_iso_alpha(i)[0] as u32 <= 90 || 97 <= spec_iso_alpha(
                                i,
                            )[0] as u32 <= 122);
                            if spec_iso_alpha(i) == spec_to_upper(code@) {
                                assert(spec_iso_alpha(i) == code@);
                                assert(code@.len() == 3);
                                assert(48 <= code@[0] as u32 <= 57);
                            }
                        }
                    }
                    Err(MoneyError::InvalidCurrency)
                },
            }
        } else {
            proof {
                assert forall|i: Iso|
                    spec_iso_alpha(i) != spec_to_upper(code@) && spec_iso_numeric(i) != code@ by {
                    assert(all_alpha_chars(spec_iso_alpha(i)));
                    assert(all_digit_chars(spec_iso_numeric(i)));
                    if spec_iso_alpha(i) == spec_to_upper(code@) {
                        assert(code@.len() == spec_iso_alpha(i).len());
                        assert forall|j: int|
                            0 <= j < code@.len() implies (65 <= (#[trigger] code@[j]) as u32 <= 90
                            || 97 <= code@[j] as u32 <= 122) by {
                            lemma_upper_char_cases(code@[j]);
                            assert(spec_to_upper(code@)[j] == spec_upper_char(code@[j]));
                            assert(65 <= spec_iso_alpha(i)[j] as u32 <= 90 || 97 <= spec_iso_alpha(
                                i,
                            )[j] as u32 <= 122);
                        }
                        assert(all_alpha_chars(code@));
                        assert(false);
                    }
                }
            }
            Err(MoneyError::InvalidCurrency)
        }
    }
}

/// Every alphabetic code of the table is three ASCII letters and every
/// numeric code three ASCII digits.
proof fn lemma_iso_code_shapes()
    ensures
        forall|i: Iso|
            (#[trigger] spec_iso_alpha(i)).len() == 3 && all_alpha_chars(spec_iso_alpha(i)),
        forall|i: Iso|
            (#[trigger] spec_iso_numeric(i)).len() == 3 && all_digit_chars(spec_iso_numeric(i)),
{
    reveal_strlit("AED");
    reveal_strlit("AFN");
    reveal_strlit("AMD");
    reveal_strlit("ANG");
    reveal_strlit("AOA");
    reveal_strlit("ARS");
    reveal_strlit("AUD");
    reveal_strlit("AWG");
    reveal_strlit("AZN");
    reveal_strlit("BHD");
    reveal_strlit("EUR");
    reveal_strlit("GBP");
    reveal_strlit("INR");
    reveal_strlit("USD");
    reveal_strlit("784");
    reveal_strlit("971");
    reveal_strlit("051");
    reveal_strlit("532");
    reveal_strlit("973");
    reveal_strlit("032");
    reveal_strlit("036");
    reveal_strlit("533");
    reveal_strlit("944");
    reveal_strlit("048");
    reveal_strlit("978");
    reveal_strlit("826");
    reveal_strlit("356");
    reveal_strlit("840");
    assert forall|i: Iso|
        (#[trigger] spec_iso_alpha(i)).len() == 3 && all_alpha_chars(spec_iso_alpha(i)) by {
        match i {
            Iso::AED => assert(all_alpha_chars("AED"@) && "AED"@.len() == 3),
            Iso::AFN => assert(all_alpha_chars("AFN"@) && "AFN"@.len() == 3),
            Iso::AMD => assert(all_alpha_chars("AMD"@) && "AMD"@.len() == 3),
            Iso::ANG => assert(all_alpha_chars("ANG"@) && "ANG"@.len() == 3),
            Iso::AOA => assert(all_alpha_chars("AOA"@) && "AOA"@.len() == 3),
            Iso::ARS => assert(all_alpha_chars("ARS"@) && "ARS"@.len() == 3),
            Iso::AUD => assert(all_alpha_chars("AUD"@) && "AUD"@.len() == 3),
            Iso::AWG => assert(all_alpha_chars("AWG"@) && "AWG"@.len() == 3),
            Iso::AZN => assert(all_alpha_chars("AZN"@) && "AZN"@.len() == 3),
            Iso::BHD => assert(all_alpha_chars("BHD"@) && "BHD"@.len() == 3),
            Iso::EUR => assert(all_alpha_chars("EUR"@) && "EUR"@.len() == 3),
            Iso::GBP => assert(all_alpha_chars("GBP"@) && "GBP"@.len() == 3),
            Iso::INR => assert(all_alpha_chars("INR"@) && "INR"@.len() == 3),
            Iso::USD => assert(all_alpha_chars("USD"@) && "USD"@.len() == 3),
        }
    }
    assert forall|i: Iso|
        (#[trigger] spec_iso_numeric(i)).len() == 3 && all_digit_chars(spec_iso_numeric(i)) by {
        match i {
            Iso::AED => assert(all_digit_chars("784"@) && "784"@.len() == 3),
            Iso::AFN => assert(all_digit_chars("971"@) && "971"@.len() == 3),
            Iso::AMD => assert(all_digit_chars("051"@) && "051"@.len() == 3),
            Iso::ANG => assert(all_digit_chars("532"@) && "532"@.len() == 3),
            Iso::AOA => assert(all_digit_chars("973"@) && "973"@.len() == 3),
            Iso::ARS => assert(all_digit_chars("032"@) && "032"@.len() == 3),
            Iso::AUD => assert(all_digit_chars("036"@) && "036"@.len() == 3),
            Iso::AWG => assert(all_digit_chars("533"@) && "533"@.len() == 3),
            Iso::AZN => assert(all_digit_chars("944"@) && "944"@.len() == 3),
            Iso::BHD => assert(all_digit_chars("048"@) && "048"@.len() == 3),
            Iso::EUR => assert(all_digit_chars("978"@) && "978"@.len() == 3),
            Iso::GBP => assert(all_digit_chars("826"@) && "826"@.len() == 3),
            Iso::INR => assert(all_digit_chars("356"@) && "356"@.len() == 3),
            Iso::USD => assert(all_digit_chars("840"@) && "840"@.len() == 3),
        }
    }
}

} // verus!
