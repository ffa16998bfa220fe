//! Decimal literals: parsing a token such as `3.14` into a [`Num`] and
//! rendering a nonnegative [`Num`] back as its shortest decimal string.
//!
//! A literal is a run of ASCII digits with at most one dot and at least one
//! digit. Fractional digits beyond the sixth are accepted but truncated away;
//! a literal whose value exceeds the representable range is rejected.

use vstd::prelude::*;
use vstd::string::*;
use crate::num::{Num, SCALE, MAX_UNITS};
use crate::text::{is_digit, is_digit_char, digit_val, digit_value, digit_char, digit_to_char};

verus! {

/// Value of a digit string, most significant digit first.
pub open spec fn digits_val(s: Seq<char>) -> int
    decreases s.len(),
{
    if s.len() == 0 {
        0
    } else {
        digits_val(s.drop_last()) * 10 + digit_val(s.last())
    }
}

/// Every character is an ASCII digit.
pub open spec fn all_digits(s: Seq<char>) -> bool {
    forall|i: int| 0 <= i < s.len() ==> is_digit(s[i])
}

/// Ten to the `n`.
pub open spec fn pow10(n: nat) -> int
    decreases n,
{
    if n == 0 {
        1
    } else {
        10 * pow10((n - 1) as nat)
    }
}

/// Split a literal at its dot: the integer digits, and the fractional digits
/// when a dot is present. `None` when the text is not digits around at most
/// one dot.
pub open spec fn split_dot(s: Seq<char>) -> Option<(Seq<char>, Option<Seq<char>>)>
    decreases s.len(),
{
    if s.len() == 0 {
        Some((Seq::empty(), None))
    } else if s[0] == '.' {
        if all_digits(s.skip(1)) {
            Some((Seq::empty(), Some(s.skip(1))))
        } else {
            None
        }
    } else if is_digit(s[0]) {
        match split_dot(s.skip(1)) {
            None => None,
            Some((ip, f)) => Some((seq![s[0]] + ip, f)),
        }
    } else {
        None
    }
}

/// The fractional digits brought to width six: truncated after the sixth,
/// padded with zeros below it.
pub open spec fn pad6(f: Seq<char>) -> Seq<char> {
    if f.len() >= 6 {
        f.take(6)
    } else {
        f + Seq::new((6 - f.len()) as nat, |i: int| '0')
    }
}

/// Mantissa contributed by the fractional digits.
pub open spec fn frac_units(f: Seq<char>) -> int {
    digits_val(pad6(f))
}

/// The mantissa a literal denotes: `None` when the text is not a literal or
/// its value is beyond the representable range.
pub open spec fn parse_literal(s: Seq<char>) -> Option<int> {
    match split_dot(s) {
        None => None,
        Some((ip, f)) => {
            let fd = if f is Some {
                f->0
            } else {
                Seq::empty()
            };
            if ip.len() == 0 && fd.len() == 0 {
                None
            } else {
                let v = digits_val(ip) * (SCALE as int) + frac_units(fd);
                if v <= MAX_UNITS as int {
                    Some(v)
                } else {
                    None
                }
            }
        },
    }
}

/// A digit string's value is nonnegative.
pub proof fn lemma_digits_val_nonneg(s: Seq<char>)
    requires
        all_digits(s),
    ensures
        digits_val(s) >= 0,
    decreases s.len(),
{
    if s.len() > 0 {
        lemma_digits_val_nonneg(s.drop_last());
    }
}

/// A prefix of a digit string has a value no larger than the whole.
pub proof fn lemma_digits_val_prefix_le(s: Seq<char>, j: int)
    requires
        all_digits(s),
        0 <= j <= s.len(),
    ensures
        digits_val(s.take(j)) <= digits_val(s),
    decreases s.len() - j,
{
    if j == s.len() {
        assert(s.take(j) =~= s);
    } else {
        lemma_digits_val_prefix_le(s, j + 1);
        assert(s.take(j + 1).drop_last() =~= s.take(j));
        assert(all_digits(s.take(j)));
        lemma_digits_val_nonneg(s.take(j));
        assert(digits_val(s.take(j + 1)) == digits_val(s.take(j)) * 10 + digit_val(s[j]));
        assert(digits_val(s.take(j)) * 10 >= digits_val(s.take(j))) by (nonlinear_arith)
            requires
                digits_val(s.take(j)) >= 0,
        ;
    }
}

/// Ten to the `n` is at least one.
pub proof fn lemma_pow10_pos(n: nat)
    ensures
        pow10(n) >= 1,
    decreases n,
{
    if n > 0 {
        lemma_pow10_pos((n - 1) as nat);
    }
}

/// Ten to the `n` grows with `n`.
pub proof fn lemma_pow10_mono(a: nat, b: nat)
    requires
        a <= b,
    ensures
        pow10(a) <= pow10(b),
    decreases b,
{
    if a < b {
        lemma_pow10_mono(a, (b - 1) as nat);
        lemma_pow10_pos((b - 1) as nat);
    }
}

/// Splitting a literal whose first `k` characters are digits: those digits
/// head the integer part, and the rest splits on its own.
pub proof fn lemma_split_dot_prefix(s: Seq<char>, k: int)
    requires
        0 <= k <= s.len(),
        forall|j: int| 0 <= j < k ==> is_digit(s[j]),
    ensures
        split_dot(s) == match split_dot(s.skip(k)) {
            None => None::<(Seq<char>, Option<Seq<char>>)>,
            Some((ip, f)) => Some((s.take(k) + ip, f)),
        },
    decreases k,
{
    if k == 0 {
        assert(s.skip(0) =~= s);
        match split_dot(s) {
            None => {},
            Some((ip, f)) => {
                assert(s.take(0) + ip =~= ip);
            },
        }
    } else {
        assert(is_digit(s[0]));
        assert(!(s[0] == '.'));
        let t = s.skip(1);
        assert(forall|j: int| 0 <= j < k - 1 ==> is_digit(t[j]));
        lemma_split_dot_prefix(t, k - 1);
        assert(t.skip(k - 1) =~= s.skip(k));
        match split_dot(s.skip(k)) {
            None => {},
            Some((ip, f)) => {
                assert(seq![s[0]] + (t.take(k - 1) + ip) =~= s.take(k) + ip);
            },
        }
    }
}

/// All-digit strings stay all digits after padding to width six.
pub proof fn lemma_pad6_digits(f: Seq<char>)
    requires
        all_digits(f),
    ensures
        all_digits(pad6(f)),
{
    if f.len() >= 6 {
        assert(forall|i: int| 0 <= i < 6 ==> pad6(f)[i] == f[i]);
    } else {
        assert(forall|i: int|
            0 <= i < 6 ==> pad6(f)[i] == (if i < f.len() {
                f[i]
            } else {
                '0'
            }));
    }
}

/// Parse a token as a decimal literal. The result is exactly what
/// [`parse_literal`] gives on the token's characters.
pub fn parse_literal_str(s: &str) -> (r: Option<Num>)
    ensures
        match r {
            Some(v) => parse_literal(s@) == Some(v@) && v.wf() && v@ >= 0,
            None => parse_literal(s@) is None,
        },
{
    let n = s.unicode_len();
    let mut k: usize = 0;
    while k < n && is_digit_char(s.get_char(k))
        invariant
            n == s@.len(),
            k <= n,
            forall|j: int| 0 <= j < k ==> is_digit(s@[j]),
        decreases n - k,
    {
        k += 1;
    }
    proof {
        lemma_split_dot_prefix(s@, k as int);
    }
    let ghost ip = s@.take(k as int);
    // Where the fractional digits start; past the end when there is no dot.
    let fstart: usize = if k == n {
        n
    } else if s.get_char(k) == '.' {
        k + 1
    } else {
        // neither a digit nor a dot stops the split
        proof {
            assert(split_dot(s@.skip(k as int)) is None);
        }
        return None;
    };
    let ghost fd: Seq<char> = if k == n {
        Seq::empty()
    } else {
        s@.skip(fstart as int)
    };
    // every remaining character must be a digit
    let mut j: usize = fstart;
    while j < n && is_digit_char(s.get_char(j))
        invariant
            n == s@.len(),
            fstart <= j <= n,
            forall|t: int| fstart <= t < j ==> is_digit(s@[t]),
        decreases n - j,
    {
        j += 1;
    }
    if j < n {
        proof {
            if k < n {
                assert(s@.skip(k as int)[0] == '.');
                assert(s@.skip(k as int).skip(1) =~= s@.skip(fstart as int));
                assert(!is_digit(s@.skip(fstart as int)[j - fstart]));
                assert(split_dot(s@.skip(k as int)) is None);
            }
        }
        return None;
    }
    proof {
        assert(all_digits(fd));
        if k < n {
            assert(s@.skip(k as int)[0] == '.');
            assert(s@.skip(k as int).skip(1) =~= s@.skip(fstart as int));
            assert(split_dot(s@.skip(k as int)) == Some(
                (Seq::<char>::empty(), Some(s@.skip(fstart as int))),
            ));
            assert(s@.take(k as int) + Seq::<char>::empty() =~= ip);
        } else {
            assert(s@.skip(k as int) =~= Seq::<char>::empty());
            assert(s@.take(k as int) + Seq::<char>::empty() =~= ip);
        }
        assert(all_digits(ip));
        lemma_digits_val_nonneg(ip);
        lemma_pad6_digits(fd);
        lemma_digits_val_nonneg(pad6(fd));
    }
    if k == 0 && fstart >= n {
        return None;
    }
    // value of the integer digits, bailing out once past the range
    let mut acc: u128 = 0;
    let mut i: usize = 0;
    while i < k
        invariant
            n == s@.len(),
            k <= n,
            i <= k,
            forall|j2: int| 0 <= j2 < k ==> is_digit(s@[j2]),
            ip == s@.take(k as int),
            all_digits(ip),
            acc as int == digits_val(s@.take(i as int)),
            acc <= MAX_UNITS as u128,
            all_digits(fd),
            digits_val(pad6(fd)) >= 0,
            parse_literal(s@) == ({
                let v = digits_val(ip) * (SCALE as int) + frac_units(fd);
                if v <= MAX_UNITS as int {
                    Some(v)
                } else {
                    None::<int>
                }
            }),
        decreases k - i,
    {
        let d = digit_value(s.get_char(i));
        proof {
            assert(s@.take(i + 1).drop_last() =~= s@.take(i as int));
            assert(s@.take(i + 1).last() == s@[i as int]);
        }
        let acc2: u128 = acc * 10 + (d as u128);
        if acc2 > MAX_UNITS as u128 {
            proof {
                assert(ip.take(i + 1) =~= s@.take(i + 1));
                lemma_digits_val_prefix_le(ip, i + 1);
                assert(digits_val(ip) > MAX_UNITS as int);
                assert(digits_val(ip) * (SCALE as int) >= digits_val(ip)) by (nonlinear_arith)
                    requires
                        digits_val(ip) >= 0,
                ;
            }
            return None;
        }
        acc = acc2;
        i += 1;
    }
    proof {
        assert(s@.take(i as int) =~= ip);
    }
    // mantissa of the fractional digits, width six
    let mut facc: u64 = 0;
    let mut t: usize = 0;
    while t < 6
        invariant
            n == s@.len(),
            fstart <= n,
            t <= 6,
            fd == (if k == n {
                Seq::<char>::empty()
            } else {
                s@.skip(fstart as int)
            }),
            k == n ==> fstart == n,
            all_digits(fd),
            facc as int == digits_val(pad6(fd).take(t as int)),
            (facc as int) < pow10(t as nat),
        decreases 6 - t,
    {
        let c: char = if fstart < n && t < n - fstart {
            s.get_char(fstart + t)
        } else {
            '0'
        };
        proof {
            assert(pad6(fd).take(t + 1).drop_last() =~= pad6(fd).take(t as int));
            assert(pad6(fd)[t as int] == c);
            lemma_pow10_mono(t as nat, 5);
            assert(pow10(5) == 100000) by {
                reveal_with_fuel(pow10, 6);
            }
        }
        let d = digit_value(c);
        facc = facc * 10 + d;
        t += 1;
    }
    proof {
        assert(pad6(fd).take(6) =~= pad6(fd));
    }
    let total: u128 = acc * (SCALE as u128) + (facc as u128);
    if total > MAX_UNITS as u128 {
        proof {
            assert(digits_val(ip) * (SCALE as int) + frac_units(fd) > MAX_UNITS as int);
        }
        None
    } else {
        proof {
            assert(digits_val(ip) * (SCALE as int) + frac_units(fd) <= MAX_UNITS as int);
        }
        Some(Num::from_units(total as i64))
    }
}

/// Decimal digit string of a nonnegative integer, no leading zeros except
/// for zero itself.
pub open spec fn dec_digits(n: int) -> Seq<char>
    decreases n,
{
    if n < 10 {
        seq![digit_char(n)]
    } else {
        dec_digits(n / 10).push(digit_char(n % 10))
    }
}

/// Digit string of `f`'s lowest `w` decimal digits, zero-padded to width `w`.
pub open spec fn padded_digits(f: int, w: nat) -> Seq<char>
    decreases w,
{
    if w == 0 {
        Seq::empty()
    } else {
        padded_digits(f / 10, (w - 1) as nat).push(digit_char(f % 10))
    }
}

/// A digit string without its trailing zeros.
pub open spec fn strip_zeros(s: Seq<char>) -> Seq<char>
    decreases s.len(),
{
    if s.len() > 0 && s.last() == '0' {
        strip_zeros(s.drop_last())
    } else {
        s
    }
}

/// Shortest decimal rendering of a nonnegative mantissa: the integer part,
/// then a dot and the fractional digits without trailing zeros when the
/// fraction is not zero.
pub open spec fn render_literal(v: int) -> Seq<char> {
    let ip = v / (SCALE as int);
    let f = v % (SCALE as int);
    if f == 0 {
        dec_digits(ip)
    } else {
        dec_digits(ip) + seq!['.'] + strip_zeros(padded_digits(f, 6))
    }
}

/// The digit string of a nonnegative integer is nonempty, all digits, and
/// denotes the integer itself.
pub proof fn lemma_dec_digits_props(n: int)
    requires
        n >= 0,
    ensures
        all_digits(dec_digits(n)),
        digits_val(dec_digits(n)) == n,
        dec_digits(n).len() >= 1,
    decreases n,
{
    if n < 10 {
        assert(is_digit(digit_char(n)));
        assert(digit_val(digit_char(n)) == n);
        assert(dec_digits(n).drop_last() =~= Seq::<char>::empty());
        assert(digits_val(Seq::<char>::empty()) == 0);
        assert(dec_digits(n).last() == digit_char(n));
    } else {
        lemma_dec_digits_props(n / 10);
        assert(is_digit(digit_char(n % 10)));
        assert(digit_val(digit_char(n % 10)) == n % 10);
        assert(dec_digits(n).drop_last() =~= dec_digits(n / 10));
        assert(dec_digits(n).last() == digit_char(n % 10));
    }
}

/// The zero-padded digit string of `f` below ten to the `w` has width `w`,
/// is all digits, and denotes `f` itself.
pub proof fn lemma_padded_digits_props(f: int, w: nat)
    requires
        0 <= f < pow10(w),
    ensures
        all_digits(padded_digits(f, w)),
        padded_digits(f, w).len() == w,
        digits_val(padded_digits(f, w)) == f,
    decreases w,
{
    if w > 0 {
        assert(f / 10 < pow10((w - 1) as nat)) by (nonlinear_arith)
            requires
                0 <= f,
                f < 10 * pow10((w - 1) as nat),
        ;
        lemma_padded_digits_props(f / 10, (w - 1) as nat);
        assert(is_digit(digit_char(f % 10)));
        assert(digit_val(digit_char(f % 10)) == f % 10);
        assert(padded_digits(f, w).drop_last() =~= padded_digits(f / 10, (w - 1) as nat));
    }
}

/// Stripping trailing zeros splits a string into the stripped part and a
/// run of zeros.
pub proof fn lemma_strip_zeros_split(s: Seq<char>)
    ensures
        strip_zeros(s).len() <= s.len(),
        strip_zeros(s) + Seq::new((s.len() - strip_zeros(s).len()) as nat, |i: int| '0') =~= s,
    decreases s.len(),
{
    if s.len() > 0 && s.last() == '0' {
        lemma_strip_zeros_split(s.drop_last());
        let t = strip_zeros(s);
        let k0 = (s.drop_last().len() - t.len()) as nat;
        assert(t + Seq::new(k0, |i: int| '0') =~= s.drop_last());
        assert(t + Seq::new((k0 + 1) as nat, |i: int| '0') =~= (t + Seq::new(
            k0,
            |i: int| '0',
        )).push('0'));
        assert(s.drop_last().push('0') =~= s);
    } else {
        let t = strip_zeros(s);
        assert(t + Seq::new((s.len() - t.len()) as nat, |i: int| '0') =~= s);
    }
}

/// A run of zeros denotes nothing.
pub proof fn lemma_zeros_val(k: nat)
    ensures
        all_digits(Seq::new(k, |i: int| '0')),
        digits_val(Seq::new(k, |i: int| '0')) == 0,
    decreases k,
{
    if k > 0 {
        lemma_zeros_val((k - 1) as nat);
        assert(Seq::new(k, |i: int| '0').drop_last() =~= Seq::new((k - 1) as nat, |i: int| '0'));
        assert(is_digit('0'));
        assert(digit_val('0') == 0);
    }
}

/// A rendered mantissa parses back to exactly itself: rendering and parsing
/// of decimal literals are inverse on the representable nonnegative range.
pub proof fn lemma_literal_round_trip(v: int)
    requires
        0 <= v <= MAX_UNITS as int,
    ensures
        parse_literal(render_literal(v)) == Some(v),
{
    let s = SCALE as int;
    let ip = v / s;
    let f = v % s;
    lemma_dec_digits_props(ip);
    let ipd = dec_digits(ip);
    if f == 0 {
        let r = render_literal(v);
        lemma_split_dot_prefix(r, r.len() as int);
        assert(r.skip(r.len() as int) =~= Seq::<char>::empty());
        assert(r.take(r.len() as int) + Seq::<char>::empty() =~= r);
        assert(split_dot(r) == Some((r, None::<Seq<char>>)));
        assert(pad6(Seq::<char>::empty()) =~= Seq::new(6, |i: int| '0'));
        lemma_zeros_val(6);
        assert(frac_units(Seq::<char>::empty()) == 0);
    } else {
        assert(pow10(6) == 1_000_000) by {
            reveal_with_fuel(pow10, 7);
        }
        lemma_padded_digits_props(f, 6);
        let p6 = padded_digits(f, 6);
        lemma_strip_zeros_split(p6);
        let t = strip_zeros(p6);
        let k = (p6.len() - t.len()) as nat;
        assert(all_digits(t)) by {
            assert(forall|i: int| 0 <= i < t.len() ==> t[i] == (t + Seq::new(k, |j: int| '0'))[i]);
        }
        let r = render_literal(v);
        assert(r =~= ipd + seq!['.'] + t);
        assert(forall|j: int| 0 <= j < ipd.len() ==> r[j] == ipd[j]);
        lemma_split_dot_prefix(r, ipd.len() as int);
        let rest = r.skip(ipd.len() as int);
        assert(rest =~= seq!['.'] + t);
        assert(rest[0] == '.');
        assert(rest.skip(1) =~= t);
        assert(split_dot(rest) == Some((Seq::<char>::empty(), Some(t))));
        assert(r.take(ipd.len() as int) + Seq::<char>::empty() =~= ipd);
        assert(split_dot(r) == Some((ipd, Some(t))));
        // padding the stripped fraction back to width six restores it
        if t.len() >= 6 {
            assert(pad6(t) =~= p6);
        } else {
            assert(pad6(t) =~= t + Seq::new(k, |j: int| '0'));
            assert(pad6(t) =~= p6);
        }
        assert(frac_units(t) == f);
    }
}

/// Exec digit string of a nonnegative integer.
pub fn dec_digits_vec(n: u64) -> (v: Vec<char>)
    ensures
        v@ == dec_digits(n as int),
    decreases n,
{
    if n < 10 {
        let mut v: Vec<char> = Vec::new();
        v.push(digit_to_char(n));
        proof {
            assert(v@ =~= dec_digits(n as int));
        }
        v
    } else {
        let mut v = dec_digits_vec(n / 10);
        v.push(digit_to_char(n % 10));
        v
    }
}

/// Exec zero-padded digit string of `f`'s lowest `w` digits.
pub fn padded_digits_vec(f: u64, w: u64) -> (v: Vec<char>)
    ensures
        v@ == padded_digits(f as int, w as nat),
    decreases w,
{
    if w == 0 {
        let v: Vec<char> = Vec::new();
        proof {
            assert(v@ =~= padded_digits(f as int, 0));
        }
        v
    } else {
        let mut v = padded_digits_vec(f / 10, w - 1);
        v.push(digit_to_char(f % 10));
        v
    }
}

/// Render a nonnegative [`Num`] as its shortest decimal string.
pub fn render_literal_str(v: Num) -> (r: String)
    requires
        v.wf(),
        v@ >= 0,
    ensures
        r@ == render_literal(v@),
{
    let units: u64 = v.mag_units();
    let ip: u64 = units / (SCALE as u64);
    let f: u64 = units % (SCALE as u64);
    let mut out = dec_digits_vec(ip);
    if f > 0 {
        let ghost whole = dec_digits(ip as int);
        out.push('.');
        let mut frac = padded_digits_vec(f, 6);
        while frac.len() > 0 && frac[frac.len() - 1] == '0'
            invariant
                strip_zeros(padded_digits(f as int, 6)) == strip_zeros(frac@),
            decreases frac.len(),
        {
            proof {
                assert(frac@.drop_last() =~= frac@.take(frac@.len() - 1));
            }
            let _ = frac.pop();
        }
        proof {
            assert(strip_zeros(frac@) == frac@);
        }
        let mut i: usize = 0;
        let ghost mid = out@;
        while i < frac.len()
            invariant
                i <= frac@.len(),
                out@ == mid + frac@.take(i as int),
            decreases frac@.len() - i,
        {
            out.push(frac[i]);
            proof {
                assert(mid + frac@.take(i as int) + seq![frac@[i as int]] =~= mid + frac@.take(
                    i + 1,
                ));
            }
            i += 1;
        }
        proof {
            assert(frac@.take(frac@.len() as int) =~= frac@);
            assert(mid =~= whole + seq!['.']);
            assert(out@ =~= whole + seq!['.'] + frac@);
        }
        crate::text::chars_to_string(&out)
    } else {
        crate::text::chars_to_string(&out)
    }
}

} // verus!
