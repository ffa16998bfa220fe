//! Fixed-point decimal numbers.
//!
//! Every quantity the calculator works with is a [`Num`]: a signed count of
//! millionths (six fractional decimal digits). Arithmetic is exact integer
//! arithmetic on the mantissa, with multiplication, division and remainder
//! truncating toward zero, and every operation checked against the
//! representable range.

use vstd::prelude::*;

verus! {

/// Mantissa units per 1: values carry six fractional decimal digits.
pub const SCALE: i64 = 1_000_000;

/// Largest mantissa magnitude a [`Num`] may hold.
pub const MAX_UNITS: i64 = 9_000_000_000_000_000_000;

/// A fixed-point decimal number; `units` counts millionths.
#[derive(Clone, Copy, Debug, PartialEq, Eq, PartialOrd, Ord, Structural)]
pub struct Num {
    units: i64,
}

/// Magnitude of a mathematical integer.
pub open spec fn mag(v: int) -> int {
    if v < 0 {
        -v
    } else {
        v
    }
}

/// The mantissa range a [`Num`] may hold.
pub open spec fn in_range(v: int) -> bool {
    -(MAX_UNITS as int) <= v <= MAX_UNITS as int
}

/// Fixed-point multiplication on mantissas: multiply the magnitudes, scale
/// down truncating, then apply the sign.
pub open spec fn fp_mul(a: int, b: int) -> int {
    let q = (mag(a) * mag(b)) / (SCALE as int);
    if (a < 0) != (b < 0) {
        -q
    } else {
        q
    }
}

/// Fixed-point division on mantissas (`b != 0`): scale the magnitude of `a`
/// up, divide by the magnitude of `b` truncating, then apply the sign.
pub open spec fn fp_div(a: int, b: int) -> int {
    let q = (mag(a) * (SCALE as int)) / mag(b);
    if (a < 0) != (b < 0) {
        -q
    } else {
        q
    }
}

/// Fixed-point remainder on mantissas (`b != 0`): the remainder of the
/// magnitudes, carrying the sign of the dividend `a`.
pub open spec fn fp_rem(a: int, b: int) -> int {
    let r = mag(a) % mag(b);
    if a < 0 {
        -r
    } else {
        r
    }
}

impl View for Num {
    type V = int;

    closed spec fn view(&self) -> int {
        self.units as int
    }
}

impl Num {
    /// The mantissa lies in the representable range; every constructed
    /// number satisfies this.
    #[verifier::type_invariant]
    pub open spec fn wf(self) -> bool {
        in_range(self@)
    }

    /// The number zero.
    pub fn zero() -> (r: Num)
        ensures
            r@ == 0,
            r.wf(),
    {
        Num { units: 0 }
    }

    /// The number one.
    pub fn one() -> (r: Num)
        ensures
            r@ == SCALE as int,
            r.wf(),
    {
        Num { units: SCALE }
    }

    /// The number `i`.
    pub fn from_int(i: i64) -> (r: Num)
        requires
            -9_000_000_000_000 <= i <= 9_000_000_000_000,
        ensures
            r@ == i * (SCALE as int),
            r.wf(),
    {
        Num { units: i * SCALE }
    }

    /// The number with mantissa `units`, i.e. `units` millionths.
    pub fn from_units(units: i64) -> (r: Num)
        requires
            in_range(units as int),
        ensures
            r@ == units as int,
            r.wf(),
    {
        Num { units }
    }

    /// The mantissa.
    pub fn units(self) -> (r: i64)
        ensures
            r as int == self@,
    {
        self.units
    }

    /// Magnitude of the mantissa.
    pub fn mag_units(self) -> (r: u64)
        requires
            self.wf(),
        ensures
            r as int == mag(self@),
    {
        if self.units < 0 {
            (-self.units) as u64
        } else {
            self.units as u64
        }
    }

    /// Sum, or `None` when it leaves the representable range.
    pub fn checked_add(self, other: Num) -> (r: Option<Num>)
        requires
            self.wf(),
            other.wf(),
        ensures
            r is Some <==> in_range(self@ + other@),
            r matches Some(n) ==> n@ == self@ + other@ && n.wf(),
    {
        let s: i128 = self.units as i128 + other.units as i128;
        if s < -(MAX_UNITS as i128) || s > MAX_UNITS as i128 {
            None
        } else {
            Some(Num { units: s as i64 })
        }
    }

    /// True exactly when the value is zero.
    pub fn is_zero(self) -> (r: bool)
        ensures
            r == (self@ == 0),
    {
        self.units == 0
    }

    /// True exactly when the value is negative.
    pub fn is_neg(self) -> (r: bool)
        ensures
            r == (self@ < 0),
    {
        self.units < 0
    }

    /// Difference, or `None` when it leaves the representable range.
    pub fn checked_sub(self, other: Num) -> (r: Option<Num>)
        requires
            self.wf(),
            other.wf(),
        ensures
            r is Some <==> in_range(self@ - other@),
            r matches Some(n) ==> n@ == self@ - other@ && n.wf(),
    {
        let s: i128 = self.units as i128 - other.units as i128;
        if s < -(MAX_UNITS as i128) || s > MAX_UNITS as i128 {
            None
        } else {
            Some(Num { units: s as i64 })
        }
    }

    /// Product, or `None` when it leaves the representable range.
    pub fn checked_mul(self, other: Num) -> (r: Option<Num>)
        requires
            self.wf(),
            other.wf(),
        ensures
            r is Some <==> in_range(fp_mul(self@, other@)),
            r matches Some(n) ==> n@ == fp_mul(self@, other@) && n.wf(),
    {
        let a: u128 = self.mag_units() as u128;
        let b: u128 = other.mag_units() as u128;
        assert(a as int * b as int <= MAX_UNITS as int * MAX_UNITS as int) by (nonlinear_arith)
            requires
                0 <= a as int <= MAX_UNITS as int,
                0 <= b as int <= MAX_UNITS as int,
        ;
        let p: u128 = a * b;
        let q: u128 = p / (SCALE as u128);
        if q > MAX_UNITS as u128 {
            None
        } else {
            let m: i64 = if (self.units < 0) != (other.units < 0) {
                -(q as i64)
            } else {
                q as i64
            };
            Some(Num { units: m })
        }
    }

    /// Product with a whole-number factor, or `None` when it leaves the
    /// representable range.
    pub fn checked_scale(self, k: u64) -> (r: Option<Num>)
        requires
            self.wf(),
        ensures
            r is Some <==> in_range(self@ * k),
            r matches Some(n) ==> n@ == self@ * k && n.wf(),
    {
        let a: u64 = self.mag_units();
        proof {
            lemma_mul_sign_mag(self@, k as int);
            assert(a as int * k as int <= MAX_UNITS as int * 0xffff_ffff_ffff_ffffu64 as int)
                by (nonlinear_arith)
                requires
                    0 <= a as int <= MAX_UNITS as int,
                    0 <= k as int <= 0xffff_ffff_ffff_ffffu64 as int,
            ;
        }
        let p: u128 = (a as u128) * (k as u128);
        if p > MAX_UNITS as u128 {
            None
        } else {
            let m: i64 = if self.units < 0 {
                -(p as i64)
            } else {
                p as i64
            };
            Some(Num { units: m })
        }
    }

    /// Quotient (truncating toward zero), or `None` when it leaves the
    /// representable range.
    pub fn checked_div(self, other: Num) -> (r: Option<Num>)
        requires
            self.wf(),
            other.wf(),
            other@ != 0,
        ensures
            r is Some <==> in_range(fp_div(self@, other@)),
            r matches Some(n) ==> n@ == fp_div(self@, other@) && n.wf(),
    {
        let a: u128 = self.mag_units() as u128;
        let b: u128 = other.mag_units() as u128;
        assert(a as int * SCALE as int <= MAX_UNITS as int * SCALE as int) by (nonlinear_arith)
            requires
                0 <= a as int <= MAX_UNITS as int,
        ;
        let p: u128 = a * (SCALE as u128);
        let q: u128 = p / b;
        if q > MAX_UNITS as u128 {
            None
        } else {
            let m: i64 = if (self.units < 0) != (other.units < 0) {
                -(q as i64)
            } else {
                q as i64
            };
            Some(Num { units: m })
        }
    }

    /// Remainder (sign of the dividend); always representable.
    pub fn rem(self, other: Num) -> (r: Num)
        requires
            self.wf(),
            other.wf(),
            other@ != 0,
        ensures
            r@ == fp_rem(self@, other@),
            r.wf(),
    {
        let a: u64 = self.mag_units();
        let b: u64 = other.mag_units();
        let m: u64 = a % b;
        let units: i64 = if self.units < 0 {
            -(m as i64)
        } else {
            m as i64
        };
        Num { units }
    }

    /// `self` raised to the natural power `n` by repeated fixed-point
    /// multiplication, or `None` when an intermediate product leaves the
    /// representable range.
    pub fn checked_pow(self, n: u64) -> (r: Option<Num>)
        requires
            self.wf(),
        ensures
            r is Some <==> fp_pow(self@, n as nat) is Some,
            r matches Some(m) ==> Some(m@) == fp_pow(self@, n as nat) && m.wf(),
    {
        let mut acc = Num::one();
        let mut i: u64 = 0;
        while i < n
            invariant
                i <= n,
                self.wf(),
                acc.wf(),
                fp_pow(self@, i as nat) == Some(acc@),
            decreases n - i,
        {
            match acc.checked_mul(self) {
                None => {
                    proof {
                        lemma_fp_pow_none_mono(self@, (i + 1) as nat, n as nat);
                    }
                    return None;
                },
                Some(a2) => {
                    acc = a2;
                    i = i + 1;
                },
            }
        }
        Some(acc)
    }
}

/// `base` raised to the power `n`: `n` successive fixed-point
/// multiplications starting from one, `None` as soon as one leaves the
/// representable range.
pub open spec fn fp_pow(base: int, n: nat) -> Option<int>
    decreases n,
{
    if n == 0 {
        Some(SCALE as int)
    } else {
        match fp_pow(base, (n - 1) as nat) {
            None => None,
            Some(r) => {
                let p = fp_mul(r, base);
                if in_range(p) {
                    Some(p)
                } else {
                    None
                }
            },
        }
    }
}

/// Sign and magnitude of a product with a nonnegative factor.
proof fn lemma_mul_sign_mag(x: int, y: int)
    requires
        y >= 0,
    ensures
        mag(x * y) == mag(x) * y,
        x >= 0 ==> x * y == mag(x) * y,
        x < 0 ==> x * y == -(mag(x) * y),
{
    if x >= 0 {
        assert(x * y >= 0) by (nonlinear_arith)
            requires
                x >= 0,
                y >= 0,
        ;
    } else {
        assert(x * y <= 0) by (nonlinear_arith)
            requires
                x <= 0,
                y >= 0,
        ;
        assert((-x) * y == -(x * y)) by (nonlinear_arith);
    }
}

/// Once a power leaves the representable range, every higher power does too.
proof fn lemma_fp_pow_none_mono(base: int, k: nat, n: nat)
    requires
        k <= n,
        fp_pow(base, k) is None,
    ensures
        fp_pow(base, n) is None,
    decreases n,
{
    if n > k {
        lemma_fp_pow_none_mono(base, k, (n - 1) as nat);
    }
}

} // verus!

