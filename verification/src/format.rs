//! The formatter: renders a number as a grouped decimal string with an
//! optional currency symbol and an order-of-magnitude estimate.
//!
//! Two digit-grouping conventions exist: the regular one inserts a separator
//! every three digits from the right; the alternate (Indian-notation) one
//! inserts a separator after the first three digits from the right and then
//! every two. The estimate vocabulary follows the same flag: K/M/B against
//! K/Lac/Cr.

use vstd::prelude::*;
use vstd::string::*;
use crate::num::{Num, SCALE, mag};
use crate::literal::{dec_digits, dec_digits_vec, padded_digits, padded_digits_vec};
use crate::text::{digit_char, digit_to_char, chars_to_string, str_eq};

verus! {

/// Regular grouping: a separator every three digits from the right.
pub open spec fn group_western(ds: Seq<char>) -> Seq<char>
    decreases ds.len(),
{
    if ds.len() <= 3 {
        ds
    } else {
        group_western(ds.take(ds.len() - 3)) + seq![','] + ds.skip(ds.len() - 3)
    }
}

/// Alternate grouping above its lowest three digits: a separator every two
/// digits from the right.
pub open spec fn group_indian_high(ds: Seq<char>) -> Seq<char>
    decreases ds.len(),
{
    if ds.len() <= 2 {
        ds
    } else {
        group_indian_high(ds.take(ds.len() - 2)) + seq![','] + ds.skip(ds.len() - 2)
    }
}

/// Alternate grouping: a separator after the first three digits from the
/// right, then every two.
pub open spec fn group_indian(ds: Seq<char>) -> Seq<char> {
    if ds.len() <= 3 {
        ds
    } else {
        group_indian_high(ds.take(ds.len() - 3)) + seq![','] + ds.skip(ds.len() - 3)
    }
}

/// Copy of a range of a character vector.
fn copy_range(ds: &Vec<char>, a: usize, b: usize) -> (r: Vec<char>)
    requires
        a <= b <= ds@.len(),
    ensures
        r@ == ds@.subrange(a as int, b as int),
{
    let mut r: Vec<char> = Vec::new();
    let mut i: usize = a;
    while i < b
        invariant
            a <= i <= b <= ds@.len(),
            r@ == ds@.subrange(a as int, i as int),
        decreases b - i,
    {
        r.push(ds[i]);
        proof {
            assert(ds@.subrange(a as int, i as int).push(ds@[i as int]) =~= ds@.subrange(
                a as int,
                i + 1,
            ));
        }
        i += 1;
    }
    r
}

/// Append one vector to another.
fn extend_chars(out: &mut Vec<char>, tail: &Vec<char>)
    ensures
        final(out)@ == old(out)@ + tail@,
{
    let mut i: usize = 0;
    proof {
        assert(old(out)@ + tail@.take(0) =~= old(out)@);
    }
    while i < tail.len()
        invariant
            i <= tail@.len(),
            out@ == old(out)@ + tail@.take(i as int),
        decreases tail@.len() - i,
    {
        out.push(tail[i]);
        proof {
            assert((old(out)@ + tail@.take(i as int)).push(tail@[i as int]) =~= old(out)@
                + tail@.take(i + 1));
        }
        i += 1;
    }
    proof {
        assert(tail@.take(tail@.len() as int) =~= tail@);
    }
}

/// Exec regular grouping.
fn group_western_vec(ds: &Vec<char>) -> (r: Vec<char>)
    ensures
        r@ == group_western(ds@),
    decreases ds@.len(),
{
    if ds.len() <= 3 {
        let r = copy_range(ds, 0, ds.len());
        proof {
            assert(ds@.subrange(0, ds@.len() as int) =~= ds@);
        }
        r
    } else {
        let head = copy_range(ds, 0, ds.len() - 3);
        proof {
            assert(head@ =~= ds@.take(ds@.len() - 3));
        }
        let mut r = group_western_vec(&head);
        r.push(',');
        let tail = copy_range(ds, ds.len() - 3, ds.len());
        proof {
            assert(tail@ =~= ds@.skip(ds@.len() - 3));
        }
        extend_chars(&mut r, &tail);
        proof {
            assert(r@ =~= group_western(ds@.take(ds@.len() - 3)) + seq![','] + ds@.skip(
                ds@.len() - 3,
            ));
        }
        r
    }
}

/// Exec alternate grouping above the lowest three digits.
fn group_indian_high_vec(ds: &Vec<char>) -> (r: Vec<char>)
    ensures
        r@ == group_indian_high(ds@),
    decreases ds@.len(),
{
    if ds.len() <= 2 {
        let r = copy_range(ds, 0, ds.len());
        proof {
            assert(ds@.subrange(0, ds@.len() as int) =~= ds@);
        }
        r
    } else {
        let head = copy_range(ds, 0, ds.len() - 2);
        proof {
            assert(head@ =~= ds@.take(ds@.len() - 2));
        }
        let mut r = group_indian_high_vec(&head);
        r.push(',');
        let tail = copy_range(ds, ds.len() - 2, ds.len());
        proof {
            assert(tail@ =~= ds@.skip(ds@.len() - 2));
        }
        extend_chars(&mut r, &tail);
        proof {
            assert(r@ =~= group_indian_high(ds@.take(ds@.len() - 2)) + seq![','] + ds@.skip(
                ds@.len() - 2,
            ));
        }
        r
    }
}

/// Exec alternate grouping.
fn group_indian_vec(ds: &Vec<char>) -> (r: Vec<char>)
    ensures
        r@ == group_indian(ds@),
{
    if ds.len() <= 3 {
        let r = copy_range(ds, 0, ds.len());
        proof {
            assert(ds@.subrange(0, ds@.len() as int) =~= ds@);
        }
        r
    } else {
        let head = copy_range(ds, 0, ds.len() - 3);
        proof {
            assert(head@ =~= ds@.take(ds@.len() - 3));
        }
        let mut r = group_indian_high_vec(&head);
        r.push(',');
        let tail = copy_range(ds, ds.len() - 3, ds.len());
        proof {
            assert(tail@ =~= ds@.skip(ds@.len() - 3));
        }
        extend_chars(&mut r, &tail);
        proof {
            assert(r@ =~= group_indian_high(ds@.take(ds@.len() - 3)) + seq![','] + ds@.skip(
                ds@.len() - 3,
            ));
        }
        r
    }
}

/// A nonnegative whole number with regular grouping.
pub fn format_western_number(n: i64) -> (r: String)
    requires
        0 <= n,
    ensures
        r@ == group_western(dec_digits(n as int)),
{
    let ds = dec_digits_vec(n as u64);
    let g = group_western_vec(&ds);
    chars_to_string(&g)
}

/// A nonnegative whole number with alternate grouping.
pub fn format_indian_number(n: i64) -> (r: String)
    requires
        0 <= n,
    ensures
        r@ == group_indian(dec_digits(n as int)),
{
    let ds = dec_digits_vec(n as u64);
    let g = group_indian_vec(&ds);
    chars_to_string(&g)
}

/// The grouped rendering of a value: the absolute value's whole digits
/// grouped by the chosen convention, a sign for negative values, and the
/// fraction rounded half-up to two digits, shown only when nonzero.
pub open spec fn fmt_sep_spec(v: int, indian: bool) -> Seq<char> {
    let a = mag(v);
    let ip0 = a / (SCALE as int);
    let fr = a % (SCALE as int);
    let cents0 = (fr + 5000) / 10000;
    let ip = if cents0 == 100 {
        ip0 + 1
    } else {
        ip0
    };
    let cents = if cents0 == 100 {
        0
    } else {
        cents0
    };
    let digits = if indian {
        group_indian(dec_digits(ip))
    } else {
        group_western(dec_digits(ip))
    };
    let signed = if v < 0 {
        seq!['-'] + digits
    } else {
        digits
    };
    if cents > 0 {
        signed + seq!['.'] + padded_digits(cents, 2)
    } else {
        signed
    }
}

/// Render a value with grouping, sign and two-digit fraction, per
/// [`fmt_sep_spec`].
pub fn format_with_separator(value: Num, indian_style: bool) -> (r: String)
    ensures
        r@ == fmt_sep_spec(value@, indian_style),
{
    proof {
        use_type_invariant(value);
    }
    let a: u64 = value.mag_units();
    let ip0: u64 = a / (SCALE as u64);
    let fr: u64 = a % (SCALE as u64);
    let cents0: u64 = (fr + 5000) / 10000;
    let ip: u64 = if cents0 == 100 {
        ip0 + 1
    } else {
        ip0
    };
    let cents: u64 = if cents0 == 100 {
        0
    } else {
        cents0
    };
    let ds = dec_digits_vec(ip);
    let grouped = if indian_style {
        group_indian_vec(&ds)
    } else {
        group_western_vec(&ds)
    };
    let mut out: Vec<char> = Vec::new();
    if value.is_neg() {
        out.push('-');
        proof {
            assert(out@ =~= seq!['-']);
        }
    }
    let ghost signed0 = out@;
    extend_chars(&mut out, &grouped);
    if cents > 0 {
        out.push('.');
        let frac = padded_digits_vec(cents, 2);
        extend_chars(&mut out, &frac);
        proof {
            assert(out@ =~= (signed0 + grouped@) + seq!['.'] + padded_digits(cents as int, 2));
        }
    }
    proof {
        if value@ < 0 {
            assert(signed0 + grouped@ =~= seq!['-'] + grouped@);
        } else {
            assert(signed0 + grouped@ =~= grouped@);
        }
    }
    chars_to_string(&out)
}

/// A quotient to one decimal place, half-up, with a whole result shown
/// without its zero decimal.
pub open spec fn one_decimal(a: int, d: int) -> Seq<char> {
    let tenths = (a * 10 + d / 2) / d;
    let whole = tenths / 10;
    let t = tenths % 10;
    if t == 0 {
        dec_digits(whole)
    } else {
        dec_digits(whole) + seq!['.'] + seq![digit_char(t)]
    }
}

/// The magnitude estimate of a value: nothing below one thousand; above it,
/// the value scaled by the band it falls in, with the band's label. The
/// alternate vocabulary uses Cr and Lac, the regular one B and M; both share
/// K for thousands.
pub open spec fn estimate_spec(v: int, indian: bool) -> Option<Seq<char>> {
    let a = mag(v);
    let s = SCALE as int;
    if a < 1000 * s {
        None
    } else if indian {
        if a >= 10_000_000 * s {
            Some(one_decimal(a, 10_000_000 * s) + " Cr"@)
        } else if a >= 100_000 * s {
            Some(one_decimal(a, 100_000 * s) + " Lac"@)
        } else {
            Some(one_decimal(a, 1000 * s) + " K"@)
        }
    } else {
        if a >= 1_000_000_000 * s {
            Some(one_decimal(a, 1_000_000_000 * s) + " B"@)
        } else if a >= 1_000_000 * s {
            Some(one_decimal(a, 1_000_000 * s) + " M"@)
        } else {
            Some(one_decimal(a, 1000 * s) + " K"@)
        }
    }
}

/// Exec quotient to one decimal place.
fn one_decimal_str(a: u64, d: u64) -> (r: String)
    requires
        d >= 2,
        d % 2 == 0,
    ensures
        r@ == one_decimal(a as int, d as int),
{
    let tenths: u128 = ((a as u128) * 10 + ((d / 2) as u128)) / (d as u128);
    proof {
        vstd::arithmetic::div_mod::lemma_div_is_ordered_by_denominator(
            (a as int) * 10 + (d as int) / 2,
            2,
            d as int,
        );
        assert(tenths as int <= ((a as int) * 10 + (d as int) / 2) / 2);
    }
    let whole: u64 = (tenths / 10) as u64;
    let t: u64 = (tenths % 10) as u64;
    let ds = dec_digits_vec(whole);
    if t == 0 {
        chars_to_string(&ds)
    } else {
        let mut out = copy_range(&ds, 0, ds.len());
        proof {
            assert(out@ =~= ds@);
        }
        out.push('.');
        out.push(digit_to_char(t));
        proof {
            assert(out@ =~= ds@ + seq!['.'] + seq![digit_char(t as int)]);
        }
        chars_to_string(&out)
    }
}

/// The magnitude estimate of a value, per [`estimate_spec`].
pub fn estimate_number(value: Num, indian_style: bool) -> (r: Option<String>)
    ensures
        match r {
            Some(s) => estimate_spec(value@, indian_style) == Some(s@),
            None => estimate_spec(value@, indian_style) is None,
        },
{
    proof {
        use_type_invariant(value);
    }
    let a: u64 = value.mag_units();
    let s: u64 = SCALE as u64;
    if a < 1000 * s {
        return None;
    }
    if indian_style {
        if a >= 10_000_000 * s {
            let mut r = one_decimal_str(a, 10_000_000 * s);
            r.append(" Cr");
            Some(r)
        } else if a >= 100_000 * s {
            let mut r = one_decimal_str(a, 100_000 * s);
            r.append(" Lac");
            Some(r)
        } else {
            let mut r = one_decimal_str(a, 1000 * s);
            r.append(" K");
            Some(r)
        }
    } else {
        if a >= 1_000_000_000 * s {
            let mut r = one_decimal_str(a, 1_000_000_000 * s);
            r.append(" B");
            Some(r)
        } else if a >= 1_000_000 * s {
            let mut r = one_decimal_str(a, 1_000_000 * s);
            r.append(" M");
            Some(r)
        } else {
            let mut r = one_decimal_str(a, 1000 * s);
            r.append(" K");
            Some(r)
        }
    }
}

/// A plain number's display: the grouped value, with the regular-vocabulary
/// estimate in parentheses when there is one.
pub open spec fn format_number_spec(v: int) -> Seq<char> {
    let f = fmt_sep_spec(v, false);
    match estimate_spec(v, false) {
        Some(e) => f + " ("@ + e + ")"@,
        None => f,
    }
}

/// Format a plain number, per [`format_number_spec`].
pub fn format_number(value: Num) -> (r: String)
    ensures
        r@ == format_number_spec(value@),
{
    let mut f = format_with_separator(value, false);
    match estimate_number(value, false) {
        Some(e) => {
            f.append(" (");
            f.append(e.as_str());
            f.append(")");
            f
        },
        None => f,
    }
}

/// A currency amount's display: the currency's symbol (the code itself when
/// unrecognized), then the value grouped by the currency's convention, then
/// the estimate in the currency's vocabulary. The alternate convention
/// belongs to INR alone.
pub open spec fn format_currency_spec(v: int, currency: Seq<char>) -> Seq<char> {
    let indian = currency == "INR"@;
    let f = fmt_sep_spec(v, indian);
    let sym = if currency == "USD"@ {
        "$"@
    } else if currency == "EUR"@ {
        "€"@
    } else if currency == "INR"@ {
        "₹"@
    } else {
        currency
    };
    match estimate_spec(v, indian) {
        Some(e) => sym + " "@ + f + " ("@ + e + ")"@,
        None => sym + " "@ + f,
    }
}

/// Format a currency amount, per [`format_currency_spec`].
pub fn format_currency(value: Num, currency: &str) -> (r: String)
    ensures
        r@ == format_currency_spec(value@, currency@),
{
    let indian = str_eq(currency, "INR");
    let f = format_with_separator(value, indian);
    let mut out = if str_eq(currency, "USD") {
        String::from_str("$")
    } else if str_eq(currency, "EUR") {
        String::from_str("€")
    } else if indian {
        String::from_str("₹")
    } else {
        String::from_str(currency)
    };
    out.append(" ");
    out.append(f.as_str());
    match estimate_number(value, indian) {
        Some(e) => {
            out.append(" (");
            out.append(e.as_str());
            out.append(")");
            out
        },
        None => out,
    }
}

} // verus!
