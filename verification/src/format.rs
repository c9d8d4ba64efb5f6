//! Turning monetary amounts into human-readable strings.

use vstd::prelude::*;
use vstd::string::{StrSliceExecFns, StringExecFns};
use crate::currency::FormattableCurrency;
use crate::decimal::{Decimal, pow10, pow10_i128, iabs, rounded_mantissa, rounded_scale};
use crate::money::{Money, Round};

verus! {

/// Relies on `String::push`: appends exactly the one given character.
#[verifier::external_body]
pub(crate) fn push_char(s: &mut String, c: char)
    ensures
        final(s)@ == old(s)@.push(c),
{
    s.push(c);
}

/// The decimal digit character of a value below ten.
pub open spec fn spec_digit(d: int) -> char {
    if d == 0 {
        '0'
    } else if d == 1 {
        '1'
    } else if d == 2 {
        '2'
    } else if d == 3 {
        '3'
    } else if d == 4 {
        '4'
    } else if d == 5 {
        '5'
    } else if d == 6 {
        '6'
    } else if d == 7 {
        '7'
    } else if d == 8 {
        '8'
    } else {
        '9'
    }
}

/// The decimal digits of `n`, most significant first, with no leading zero
/// except for `n == 0` itself.
pub open spec fn spec_digits(n: nat) -> Seq<char>
    decreases n,
{
    if n < 10 {
        seq![spec_digit(n as int)]
    } else {
        spec_digits(n / 10).push(spec_digit((n % 10) as int))
    }
}

/// The decimal digits of `n` written in exactly `w` places, zero-padded.
pub open spec fn spec_padded(n: nat, w: nat) -> Seq<char>
    decreases w,
{
    if w == 0 {
        Seq::<char>::empty()
    } else {
        spec_padded(n / 10, (w - 1) as nat).push(spec_digit((n % 10) as int))
    }
}

/// The canonical rendering of the decimal `m / 10^s`: an optional minus
/// sign, the integer digits, and for a positive scale a dot followed by
/// exactly `s` fractional digits.
pub open spec fn spec_render(m: int, s: nat) -> Seq<char> {
    let sign = if m < 0 {
        seq!['-']
    } else {
        Seq::<char>::empty()
    };
    let whole = sign + spec_digits((iabs(m) / pow10(s)) as nat);
    if s > 0 {
        whole + seq!['.'] + spec_padded((iabs(m) % pow10(s)) as nat, s)
    } else {
        whole
    }
}

fn digit_char(d: u8) -> (c: char)
    requires
        d < 10,
    ensures
        c == spec_digit(d as int),
{
    match d {
        0 => '0',
        1 => '1',
        2 => '2',
        3 => '3',
        4 => '4',
        5 => '5',
        6 => '6',
        7 => '7',
        8 => '8',
        _ => '9',
    }
}

fn digits_string(n: u128) -> (r: String)
    ensures
        r@ == spec_digits(n as nat),
    decreases n,
{
    if n < 10 {
        let mut s = String::new();
        push_char(&mut s, digit_char(n as u8));
        proof {
            assert(s@ =~= seq![spec_digit(n as int)]);
        }
        s
    } else {
        let mut s = digits_string(n / 10);
        push_char(&mut s, digit_char((n % 10) as u8));
        s
    }
}

fn padded_string(n: u128, w: u32) -> (r: String)
    ensures
        r@ == spec_padded(n as nat, w as nat),
    decreases w,
{
    if w == 0 {
        String::new()
    } else {
        let mut s = padded_string(n / 10, w - 1);
        push_char(&mut s, digit_char((n % 10) as u8));
        s
    }
}

/// Renders a decimal canonically: sign, integer digits, and its full scale
/// of fractional digits after a dot.
pub(crate) fn render_decimal(d: &Decimal) -> (r: String)
    ensures
        r@ == spec_render(d.spec_mantissa(), d.spec_scale()),
{
    proof {
        use_type_invariant(d);
        crate::decimal::lemma_pow10_28();
        crate::decimal::lemma_pow10_mono(d.spec_scale(), 28);
    }
    let m = d.mantissa();
    let sc = d.scale();
    let mag: u128 = if m < 0 {
        (-m) as u128
    } else {
        m as u128
    };
    let p: u128 = pow10_i128(sc) as u128;
    let ip = mag / p;
    let fp = mag % p;
    let mut out = String::new();
    if m < 0 {
        push_char(&mut out, '-');
    }
    let ds = digits_string(ip);
    out.append(ds.as_str());
    if sc > 0 {
        push_char(&mut out, '.');
        let fs = padded_string(fp, sc);
        out.append(fs.as_str());
    }
    proof {
        assert(out@ =~= spec_render(d.spec_mantissa(), d.spec_scale()));
    }
    out
}

/// The characters of `s` before its first dot.
pub open spec fn int_chars(s: Seq<char>) -> Seq<char>
    decreases s.len(),
{
    if s.len() == 0 {
        s
    } else if s[0] == '.' {
        Seq::<char>::empty()
    } else {
        seq![s[0]] + int_chars(s.drop_first())
    }
}

/// The characters of `s` after its first dot, if it has one.
pub open spec fn frac_chars(s: Seq<char>) -> Option<Seq<char>>
    decreases s.len(),
{
    if s.len() == 0 {
        None
    } else if s[0] == '.' {
        Some(s.drop_first())
    } else {
        frac_chars(s.drop_first())
    }
}

/// `s` with every minus sign removed.
pub open spec fn strip_minus_chars(s: Seq<char>) -> Seq<char>
    decreases s.len(),
{
    if s.len() == 0 {
        s
    } else if s[0] == '-' {
        strip_minus_chars(s.drop_first())
    } else {
        seq![s[0]] + strip_minus_chars(s.drop_first())
    }
}

/// Inserting one character at position `i`.
pub open spec fn insert_at(s: Seq<char>, i: int, c: char) -> Seq<char> {
    s.subrange(0, i) + seq![c] + s.subrange(i, s.len() as int)
}

/// The digit string with group separators applied: walking the pattern from
/// the least significant digit outward, a separator lands after each group
/// boundary that still has digits before it.  A pattern element of zero
/// still consumes a slot, leaving a trailing separator.
pub open spec fn spec_grouped(s: Seq<char>, sep: char, pattern: Seq<usize>, k: int, cur: int) -> Seq<
    char,
>
    decreases pattern.len() - k,
{
    if k < 0 || k >= pattern.len() {
        s
    } else {
        let cur2 = cur + pattern[k];
        if s.len() > cur2 {
            spec_grouped(insert_at(s, s.len() - cur2, sep), sep, pattern, k + 1, cur2 + 1)
        } else {
            spec_grouped(s, sep, pattern, k + 1, cur2)
        }
    }
}

/// A formatted amount: the integer digits (sign stripped) grouped by the
/// pattern, then the fractional separator and fractional digits when the
/// raw amount has any.
pub open spec fn spec_amount_fmt(raw: Seq<char>, sep: char, esep: char, pattern: Seq<usize>) -> Seq<
    char,
> {
    let grouped = spec_grouped(strip_minus_chars(int_chars(raw)), sep, pattern, 0, 0);
    match frac_chars(raw) {
        Some(f) => grouped + seq![esep] + f,
        None => grouped,
    }
}

fn insert_char(s: &str, i: usize, c: char) -> (r: String)
    requires
        i <= s@.len(),
    ensures
        r@ == insert_at(s@, i as int, c),
{
    let n = s.unicode_len();
    let mut out = s.substring_char(0, i).to_owned();
    push_char(&mut out, c);
    let tail = s.substring_char(i, n);
    out.append(tail);
    proof {
        assert(out@ =~= insert_at(s@, i as int, c));
    }
    out
}

fn split_dot(s: &str) -> (r: (String, Option<String>))
    ensures
        r.0@ == int_chars(s@),
        match r.1 {
            Some(f) => frac_chars(s@) == Some(f@),
            None => frac_chars(s@) is None,
        },
    decreases s@.len(),
{
    let n = s.unicode_len();
    if n == 0 {
        (String::new(), None)
    } else {
        let c = s.get_char(0);
        proof {
            assert(s@.subrange(1, s@.len() as int) =~= s@.drop_first());
        }
        if c == '.' {
            (String::new(), Some(s.substring_char(1, n).to_owned()))
        } else {
            let rest = s.substring_char(1, n);
            let pair = split_dot(rest);
            let mut out = String::new();
            push_char(&mut out, c);
            out.append(pair.0.as_str());
            proof {
                assert(out@ =~= int_chars(s@));
            }
            (out, pair.1)
        }
    }
}

fn strip_minus(s: &str) -> (r: String)
    ensures
        r@ == strip_minus_chars(s@),
    decreases s@.len(),
{
    let n = s.unicode_len();
    if n == 0 {
        String::new()
    } else {
        let c = s.get_char(0);
        proof {
            assert(s@.subrange(1, s@.len() as int) =~= s@.drop_first());
        }
        let rest = strip_minus(s.substring_char(1, n));
        if c == '-' {
            rest
        } else {
            let mut out = String::new();
            push_char(&mut out, c);
            out.append(rest.as_str());
            proof {
                assert(out@ =~= strip_minus_chars(s@));
            }
            out
        }
    }
}

/// Enumerates the items that can be positioned in a formatted money string.
#[derive(Debug, Clone, Copy, PartialEq, Eq, Structural)]
pub enum Position {
    Space,
    Amount,
    Code,
    Symbol,
    Sign,
}

/// Parameters consumed by `Formatter`.
#[derive(Debug, Clone)]
pub struct Params {
    /// The character that separates grouped digits (e.g. 1,000,000).
    pub digit_separator: char,
    /// The character that separates minor units from major units (e.g. 1,000.00).
    pub exponent_separator: char,
    /// The grouping pattern applied to the integer digits.
    pub separator_pattern: Vec<usize>,
    /// The relative positions of the elements in the output.
    pub positions: Vec<Position>,
    /// How many fractional digits remain after half-even rounding, if any
    /// rounding is asked for.
    pub rounding: Option<u32>,
    /// The symbol of the currency (e.g. $).
    pub symbol: Option<&'static str>,
    /// The currency's code (e.g. USD).
    pub code: Option<&'static str>,
}

impl Default for Params {
    /// The default formatting parameters: US-style separators, groups of
    /// three, sign then symbol then amount, and no rounding.
    fn default() -> (r: Params)
        ensures
            r.digit_separator == ',',
            r.exponent_separator == '.',
            r.separator_pattern@ == seq![3usize, 3usize, 3usize],
            r.positions@ == seq![Position::Sign, Position::Symbol, Position::Amount],
            r.rounding is None,
            r.symbol is None,
            r.code is None,
    {
        let mut pattern: Vec<usize> = Vec::new();
        pattern.push(3);
        pattern.push(3);
        pattern.push(3);
        let mut positions: Vec<Position> = Vec::new();
        positions.push(Position::Sign);
        positions.push(Position::Symbol);
        positions.push(Position::Amount);
        proof {
            assert(pattern@ =~= seq![3usize, 3usize, 3usize]);
            assert(positions@ =~= seq![Position::Sign, Position::Symbol, Position::Amount]);
        }
        Params {
            digit_separator: ',',
            exponent_separator: '.',
            separator_pattern: pattern,
            positions,
            rounding: None,
            symbol: None,
            code: None,
        }
    }
}

/// The view of an optional string, the empty sequence when absent.
pub open spec fn opt_view(o: Option<&'static str>) -> Seq<char> {
    match o {
        Some(s) => s@,
        None => Seq::<char>::empty(),
    }
}

/// The text one position token contributes.
pub open spec fn spec_position_text(
    p: Position,
    amt: Seq<char>,
    sym: Seq<char>,
    code: Seq<char>,
    sign: Seq<char>,
) -> Seq<char> {
    match p {
        Position::Space => seq![' '],
        Position::Amount => amt,
        Position::Code => code,
        Position::Symbol => sym,
        Position::Sign => sign,
    }
}

/// The concatenation of the texts of all position tokens, in order.
pub open spec fn spec_positions_text(
    ps: Seq<Position>,
    amt: Seq<char>,
    sym: Seq<char>,
    code: Seq<char>,
    sign: Seq<char>,
) -> Seq<char>
    decreases ps.len(),
{
    if ps.len() == 0 {
        Seq::<char>::empty()
    } else {
        spec_positions_text(ps.drop_last(), amt, sym, code, sign) + spec_position_text(
            ps.last(),
            amt,
            sym,
            code,
            sign,
        )
    }
}

/// The fully formatted amount text of a decimal under the given parameters:
/// optionally rounded half-even, rendered, sign stripped, grouped, and the
/// fraction re-attached with the locale's separator.
pub open spec fn spec_formatted_amount(
    m: int,
    s: nat,
    rounding: Option<u32>,
    dsep: char,
    esep: char,
    pattern: Seq<usize>,
) -> Seq<char> {
    let m2 = match rounding {
        Some(x) => rounded_mantissa(m, s, x as nat, Round::HalfEven),
        None => m,
    };
    let s2 = match rounding {
        Some(x) => rounded_scale(s, x as nat),
        None => s,
    };
    spec_amount_fmt(spec_render(m2, s2), dsep, esep, pattern)
}

/// Every character the digit renderer emits is a decimal digit.
pub proof fn lemma_spec_digits_are_digits(n: nat)
    ensures
        forall|j: int|
            0 <= j < spec_digits(n).len() ==> 48 <= (#[trigger] spec_digits(n)[j]) as u32 <= 57,
        spec_digits(n).len() >= 1,
    decreases n,
{
    if n < 10 {
        assert(48 <= spec_digit(n as int) as u32 <= 57);
    } else {
        lemma_spec_digits_are_digits(n / 10);
        assert(48 <= spec_digit((n % 10) as int) as u32 <= 57);
        assert(forall|j: int|
            0 <= j < spec_digits(n / 10).len() ==> spec_digits(n)[j] == spec_digits(n / 10)[j]);
    }
}

/// Reading back the rendered digits of a number returns the number: the
/// numeric core of the locale round trip, for the integer digits.
pub proof fn lemma_digits_round_trip(n: nat)
    ensures
        crate::money::digits_val(spec_digits(n)) == n,
    decreases n,
{
    if n < 10 {
        let s1 = seq![spec_digit(n as int)];
        assert(spec_digits(n) =~= s1);
        assert(s1.drop_last() =~= Seq::<char>::empty());
        assert(crate::money::digits_val(Seq::<char>::empty()) == 0);
        assert(crate::money::digits_val(s1) == 0 * 10 + (s1.last() as u32 - 48));
        assert(spec_digit(n as int) as u32 == 48 + n);
    } else {
        lemma_digits_round_trip(n / 10);
        let s = spec_digits(n);
        assert(s.drop_last() =~= spec_digits(n / 10));
        assert(s.last() == spec_digit((n % 10) as int));
        assert(spec_digit((n % 10) as int) as u32 == 48 + n % 10);
        assert(n == (n / 10) * 10 + n % 10) by (nonlinear_arith);
    }
}

/// Reading back zero-padded fractional digits returns the fraction exactly,
/// for any fraction the width can hold: the numeric core of the locale
/// round trip, for the fractional digits.
pub proof fn lemma_padded_round_trip(n: nat, w: nat)
    requires
        n < pow10(w),
    ensures
        crate::money::digits_val(spec_padded(n, w)) == n,
    decreases w,
{
    if w == 0 {
        assert(pow10(0) == 1);
    } else {
        assert(pow10(w) == 10 * pow10((w - 1) as nat));
        assert(n / 10 < pow10((w - 1) as nat)) by (nonlinear_arith)
            requires
                n < 10 * pow10((w - 1) as nat),
                pow10((w - 1) as nat) >= 0,
        ;
        lemma_padded_round_trip(n / 10, (w - 1) as nat);
        let s = spec_padded(n, w);
        assert(s.drop_last() =~= spec_padded(n / 10, (w - 1) as nat));
        assert(s.last() == spec_digit((n % 10) as int));
        assert(spec_digit((n % 10) as int) as u32 == 48 + n % 10);
        assert(n == (n / 10) * 10 + n % 10) by (nonlinear_arith);
    }
}

/// The display text of an amount of a currency: rounded half-even to the
/// currency's exponent, grouped by its locale, the sign first and the
/// symbol before or after the amount as the currency directs.
pub open spec fn spec_money_display(
    m: int,
    s: nat,
    exp: u32,
    loc: crate::locale::Locale,
    symbol: Seq<char>,
    code: Seq<char>,
    symbol_first: bool,
) -> Seq<char> {
    let amt = spec_formatted_amount(
        m,
        s,
        Some(exp),
        crate::locale::spec_digit_separator(loc),
        crate::locale::spec_exponent_separator(loc),
        crate::locale::spec_separator_pattern(loc),
    );
    let sign: Seq<char> = if m < 0 {
        seq!['-']
    } else {
        Seq::<char>::empty()
    };
    let ps: Seq<Position> = if symbol_first {
        seq![Position::Sign, Position::Symbol, Position::Amount]
    } else {
        seq![Position::Sign, Position::Amount, Position::Symbol]
    };
    spec_positions_text(ps, amt, symbol, code, sign)
}

/// A helper that converts `Money` values into human-readable strings.
pub struct Formatter;

impl Formatter {
    /// Returns the formatted string of a money amount under the given
    /// parameters: the amount text (rounded half-even when a rounding digit
    /// count is given, digits grouped by the pattern) substituted into the
    /// position tokens, with `-` appearing only for a strictly negative
    /// amount and absent optional fields contributing nothing.
    pub fn money<'a, T: FormattableCurrency>(money: &Money<'a, T>, params: Params) -> (r: String)
        ensures
            r@ == spec_positions_text(
                params.positions@,
                spec_formatted_amount(
                    money.spec_amount().spec_mantissa(),
                    money.spec_amount().spec_scale(),
                    params.rounding,
                    params.digit_separator,
                    params.exponent_separator,
                    params.separator_pattern@,
                ),
                opt_view(params.symbol),
                opt_view(params.code),
                if money.amount_value() < 0 {
                    seq!['-']
                } else {
                    Seq::<char>::empty()
                },
            ),
    {
        let rounded: Money<'a, T> = match params.rounding {
            Some(x) => money.round(x, Round::HalfEven),
            None => *money,
        };
        let raw = render_decimal(rounded.amount());
        let amt = Formatter::amount(raw.as_str(), &params);
        let neg = money.is_negative();
        let ghost amt_spec = spec_formatted_amount(
            money.spec_amount().spec_mantissa(),
            money.spec_amount().spec_scale(),
            params.rounding,
            params.digit_separator,
            params.exponent_separator,
            params.separator_pattern@,
        );
        let ghost sym_spec = opt_view(params.symbol);
        let ghost code_spec = opt_view(params.code);
        let ghost sign_spec: Seq<char> = if money.amount_value() < 0 {
            seq!['-']
        } else {
            Seq::<char>::empty()
        };
        let mut result = String::new();
        let n = params.positions.len();
        let mut k: usize = 0;
        proof {
            assert(params.positions@.subrange(0, 0) =~= Seq::<Position>::empty());
        }
        while k < n
            invariant
                k <= n,
                n == params.positions@.len(),
                amt@ == amt_spec,
                result@ == spec_positions_text(
                    params.positions@.subrange(0, k as int),
                    amt_spec,
                    sym_spec,
                    code_spec,
                    sign_spec,
                ),
                sym_spec == opt_view(params.symbol),
                code_spec == opt_view(params.code),
                sign_spec == if money.amount_value() < 0 {
                    seq!['-']
                } else {
                    Seq::<char>::empty()
                },
                neg == (money.amount_value() < 0),
            decreases n - k,
        {
            proof {
                assert(params.positions@.subrange(0, k as int + 1).drop_last() =~= params.positions@.subrange(
                    0,
                    k as int,
                ));
                assert(params.positions@.subrange(0, k as int + 1).last() == params.positions@[k as int]);
            }
            match params.positions[k] {
                Position::Space => {
                    push_char(&mut result, ' ');
                    proof {
                        assert(result@ =~= spec_positions_text(
                            params.positions@.subrange(0, k as int + 1),
                            amt_spec,
                            sym_spec,
                            code_spec,
                            sign_spec,
                        ));
                    }
                },
                Position::Amount => {
                    result.append(amt.as_str());
                },
                Position::Code => {
                    match params.code {
                        Some(c) => result.append(c),
                        None => {
                            proof {
                                assert(result@ =~= result@ + Seq::<char>::empty());
                            }
                        },
                    }
                },
                Position::Symbol => {
                    match params.symbol {
                        Some(sy) => result.append(sy),
                        None => {
                            proof {
                                assert(result@ =~= result@ + Seq::<char>::empty());
                            }
                        },
                    }
                },
                Position::Sign => {
                    if neg {
                        push_char(&mut result, '-');
                        proof {
                            assert(result@ =~= spec_positions_text(
                                params.positions@.subrange(0, k as int + 1),
                                amt_spec,
                                sym_spec,
                                code_spec,
                                sign_spec,
                            ));
                        }
                    } else {
                        proof {
                            assert(result@ =~= result@ + Seq::<char>::empty());
                        }
                    }
                },
            }
            k = k + 1;
        }
        proof {
            assert(params.positions@.subrange(0, n as int) =~= params.positions@);
        }
        result
    }

    /// Returns the formatted amount text, given the canonical rendering of
    /// the amount and the formatting parameters.
    fn amount(raw_amount: &str, params: &Params) -> (r: String)
        ensures
            r@ == spec_amount_fmt(
                raw_amount@,
                params.digit_separator,
                params.exponent_separator,
                params.separator_pattern@,
            ),
    {
        let pair = split_dot(raw_amount);
        let stripped = strip_minus(pair.0.as_str());
        let grouped = Formatter::digits(
            stripped.as_str(),
            params.digit_separator,
            params.separator_pattern.as_slice(),
        );
        match pair.1 {
            Some(f) => {
                let mut out = grouped;
                push_char(&mut out, params.exponent_separator);
                out.append(f.as_str());
                proof {
                    assert(out@ =~= spec_amount_fmt(
                        raw_amount@,
                        params.digit_separator,
                        params.exponent_separator,
                        params.separator_pattern@,
                    ));
                }
                out
            },
            None => grouped,
        }
    }

    /// Returns the digit component with separators inserted by the pattern.
    fn digits(raw_digits: &str, separator: char, pattern: &[usize]) -> (r: String)
        ensures
            r@ == spec_grouped(raw_digits@, separator, pattern@, 0, 0),
    {
        let mut out: String = raw_digits.to_owned();
        let mut cur: u128 = 0;
        let mut k: usize = 0;
        let n = pattern.len();
        while k < n
            invariant
                k <= n,
                n == pattern@.len(),
                cur <= (k as u128) * 18_446_744_073_709_551_615u128,
                spec_grouped(out@, separator, pattern@, k as int, cur as int) == spec_grouped(
                    raw_digits@,
                    separator,
                    pattern@,
                    0,
                    0,
                ),
            decreases n - k,
        {
            let p = pattern[k];
            let cur2: u128 = cur + (p as u128);
            let len = out.as_str().unicode_len();
            if (len as u128) > cur2 {
                let pos: usize = len - (cur2 as usize);
                out = insert_char(out.as_str(), pos, separator);
                cur = cur2 + 1;
            } else {
                cur = cur2;
            }
            k = k + 1;
        }
        out
    }
}

} // verus!
