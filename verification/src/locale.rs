//! Regions with their digit-grouping and separator conventions.

use vstd::prelude::*;

verus! {

/// Enumerates regions which have unique formatting standards for currencies.
/// Each locale maps 1:1 to a `LocalFormat`.
#[derive(Debug, PartialEq, Eq, Clone, Copy, Structural)]
pub enum Locale {
    EnUs,
    EnIn,
    EnEu,
    EnBy,
}

/// The character that groups integer digits in a locale.
pub open spec fn spec_digit_separator(l: Locale) -> char {
    match l {
        Locale::EnUs => ',',
        Locale::EnIn => ',',
        Locale::EnEu => '.',
        Locale::EnBy => ' ',
    }
}

/// The character that separates the fractional digits in a locale.
pub open spec fn spec_exponent_separator(l: Locale) -> char {
    match l {
        Locale::EnUs => '.',
        Locale::EnIn => '.',
        Locale::EnEu => ',',
        Locale::EnBy => ',',
    }
}

/// The group sizes of a locale, counted from the fractional point outward.
pub open spec fn spec_separator_pattern(l: Locale) -> Seq<usize> {
    match l {
        Locale::EnIn => seq![3usize, 2usize, 2usize],
        _ => seq![3usize, 3usize, 3usize],
    }
}

/// Currency formatting metadata for a region.
#[derive(Debug, Clone)]
pub struct LocalFormat {
    /// The locale tag, e.g. "en-us".
    pub name: &'static str,
    /// The character grouping integer digits (e.g. ',' in "1,000,000").
    pub digit_separator: char,
    /// The group sizes, from the fractional point outward.
    pub digit_separator_pattern: Vec<usize>,
    /// The character before the fractional digits (e.g. '.' in "1,000.00").
    pub exponent_separator: char,
}

impl LocalFormat {
    /// Returns the group sizes indicating where digit separators are applied.
    /// For example, `[3, 3, 3]` separates after the 3rd, 6th and 9th digits.
    pub fn digit_separator_pattern(&self) -> (r: Vec<usize>)
        ensures
            r@ == self.digit_separator_pattern@,
    {
        let mut out: Vec<usize> = Vec::new();
        let mut i: usize = 0;
        while i < self.digit_separator_pattern.len()
            invariant
                i <= self.digit_separator_pattern@.len(),
                out@ == self.digit_separator_pattern@.subrange(0, i as int),
            decreases self.digit_separator_pattern@.len() - i,
        {
            out.push(self.digit_separator_pattern[i]);
            i = i + 1;
        }
        proof {
            assert(out@ =~= self.digit_separator_pattern@);
        }
        out
    }

    /// Returns the `LocalFormat` for a locale.  The digit separator always
    /// differs from the fractional separator: the two would otherwise be
    /// ambiguous to the parser.
    pub fn from_locale(locale: Locale) -> (r: LocalFormat)
        ensures
            r.digit_separator == spec_digit_separator(locale),
            r.exponent_separator == spec_exponent_separator(locale),
            r.digit_separator_pattern@ == spec_separator_pattern(locale),
            r.digit_separator != r.exponent_separator,
    {
        match locale {
            Locale::EnUs => LocalFormat {
                name: "en-us",
                digit_separator: ',',
                digit_separator_pattern: make_pattern_3_3_3(),
                exponent_separator: '.',
            },
            Locale::EnIn => LocalFormat {
                name: "en-in",
                digit_separator: ',',
                digit_separator_pattern: make_pattern_3_2_2(),
                exponent_separator: '.',
            },
            Locale::EnEu => LocalFormat {
                name: "en-eu",
                digit_separator: '.',
                digit_separator_pattern: make_pattern_3_3_3(),
                exponent_separator: ',',
            },
            Locale::EnBy => LocalFormat {
                name: "en-by",
                digit_separator: ' ',
                digit_separator_pattern: make_pattern_3_3_3(),
                exponent_separator: ',',
            },
        }
    }
}

fn make_pattern_3_3_3() -> (r: Vec<usize>)
    ensures
        r@ == seq![3usize, 3usize, 3usize],
{
    let mut v: Vec<usize> = Vec::new();
    v.push(3);
    v.push(3);
    v.push(3);
    proof {
        assert(v@ =~= seq![3usize, 3usize, 3usize]);
    }
    v
}

fn make_pattern_3_2_2() -> (r: Vec<usize>)
    ensures
        r@ == seq![3usize, 2usize, 2usize],
{
    let mut v: Vec<usize> = Vec::new();
    v.push(3);
    v.push(2);
    v.push(2);
    proof {
        assert(v@ =~= seq![3usize, 2usize, 2usize]);
    }
    v
}

} // verus!
