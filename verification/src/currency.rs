//! The currency converter: an immutable table of positive rates, each
//! relative to one reference currency, and conversion through that reference.

use vstd::prelude::*;
use vstd::string::*;
use crate::num::{Num, in_range, fp_div, fp_mul};
use crate::table::StrMap;

verus! {

/// Why a conversion failed.
#[derive(Debug)]
pub enum ConvertError {
    UnknownCurrency(String),
    OutOfRange,
}

/// The spec-level shape of a [`ConvertError`].
#[verifier::ext_equal]
pub enum ConvertIssue {
    Unknown(Seq<char>),
    OutOfRange,
}

impl View for ConvertError {
    type V = ConvertIssue;

    open spec fn view(&self) -> ConvertIssue {
        match self {
            ConvertError::UnknownCurrency(c) => ConvertIssue::Unknown(c@),
            ConvertError::OutOfRange => ConvertIssue::OutOfRange,
        }
    }
}

/// Every rate in the table is positive and representable.
pub open spec fn rates_positive(m: Map<Seq<char>, int>) -> bool {
    forall|k: Seq<char>| m.contains_key(k) ==> 0 < #[trigger] m[k] <= crate::num::MAX_UNITS as int
}

/// What a conversion returns: the amount divided by the source rate, then
/// multiplied by the target rate, both fixed-point truncating; an error names
/// the first code absent from the table, and a result outside the
/// representable range is refused.
pub open spec fn convert_spec(
    m: Map<Seq<char>, int>,
    amount: int,
    from: Seq<char>,
    to: Seq<char>,
) -> Result<int, ConvertIssue> {
    if !m.contains_key(from) {
        Err(ConvertIssue::Unknown(from))
    } else if !m.contains_key(to) {
        Err(ConvertIssue::Unknown(to))
    } else if m[from] == 0 {
        Err(ConvertIssue::OutOfRange)
    } else {
        let reference = fp_div(amount, m[from]);
        if !in_range(reference) {
            Err(ConvertIssue::OutOfRange)
        } else {
            let result = fp_mul(reference, m[to]);
            if !in_range(result) {
                Err(ConvertIssue::OutOfRange)
            } else {
                Ok(result)
            }
        }
    }
}

/// The rate table built from a pair list: pairs with a nonpositive or
/// unrepresentable rate are dropped, and a later pair for a code shadows an
/// earlier one.
pub open spec fn filtered_rates(ps: Seq<(String, Num)>) -> Map<Seq<char>, int>
    decreases ps.len(),
{
    if ps.len() == 0 {
        Map::empty()
    } else {
        let m = filtered_rates(ps.drop_last());
        let p = ps.last();
        if 0 < p.1@ && p.1.wf() {
            m.insert(p.0@, p.1@)
        } else {
            m
        }
    }
}

/// [`filtered_rates`] of what remains, continued from a map already built.
pub open spec fn filtered_rates_from(m: Map<Seq<char>, int>, ps: Seq<(String, Num)>) -> Map<
    Seq<char>,
    int,
>
    decreases ps.len(),
{
    if ps.len() == 0 {
        m
    } else {
        let p = ps[0];
        let m2 = if 0 < p.1@ && p.1.wf() {
            m.insert(p.0@, p.1@)
        } else {
            m
        };
        filtered_rates_from(m2, ps.skip(1))
    }
}

/// Folding the first pair in and continuing from the rest equals folding
/// the whole list.
proof fn lemma_apply_rotate(m: Map<Seq<char>, int>, ps: Seq<(String, Num)>)
    requires
        ps.len() > 0,
    ensures
        ({
            let p = ps[0];
            let m2 = if 0 < p.1@ && p.1.wf() {
                m.insert(p.0@, p.1@)
            } else {
                m
            };
            apply_filtered(m2, ps.skip(1)) == apply_filtered(m, ps)
        }),
    decreases ps.len(),
{
    let p = ps[0];
    let m2 = if 0 < p.1@ && p.1.wf() {
        m.insert(p.0@, p.1@)
    } else {
        m
    };
    if ps.len() == 1 {
        assert(ps.skip(1) =~= Seq::<(String, Num)>::empty());
        assert(ps.drop_last() =~= Seq::<(String, Num)>::empty());
        assert(ps.last() == ps[0]);
        assert(apply_filtered(m2, ps.skip(1)) == m2);
        assert(apply_filtered(m, ps.drop_last()) == m);
    } else {
        let dl = ps.drop_last();
        lemma_apply_rotate(m, dl);
        assert(dl[0] == ps[0]);
        let m2b = if 0 < dl[0].1@ && dl[0].1.wf() {
            m.insert(dl[0].0@, dl[0].1@)
        } else {
            m
        };
        assert(m2b == m2);
        assert(apply_filtered(m2, dl.skip(1)) == apply_filtered(m, dl));
        assert(ps.skip(1).drop_last() =~= dl.skip(1));
        assert(apply_filtered(m2, ps.skip(1).drop_last()) == apply_filtered(m, dl));
        assert(ps.skip(1).last() == ps.last());
        assert(apply_filtered(m2, ps.skip(1)) == ({
            let q = ps.skip(1).last();
            let mm = apply_filtered(m2, ps.skip(1).drop_last());
            if 0 < q.1@ && q.1.wf() {
                mm.insert(q.0@, q.1@)
            } else {
                mm
            }
        }));
        assert(apply_filtered(m, ps) == ({
            let q = ps.last();
            let mm = apply_filtered(m, dl);
            if 0 < q.1@ && q.1.wf() {
                mm.insert(q.0@, q.1@)
            } else {
                mm
            }
        }));
    }
}

/// Building from the front and from the back give the same table.
proof fn lemma_filtered_rates_from(m: Map<Seq<char>, int>, ps: Seq<(String, Num)>)
    ensures
        filtered_rates_from(m, ps) == apply_filtered(m, ps),
    decreases ps.len(),
{
    if ps.len() > 0 {
        let p = ps[0];
        let m2 = if 0 < p.1@ && p.1.wf() {
            m.insert(p.0@, p.1@)
        } else {
            m
        };
        lemma_filtered_rates_from(m2, ps.skip(1));
        lemma_apply_rotate(m, ps);
    }
}

/// The back-recursive form of [`filtered_rates`], continued from `m`.
pub open spec fn apply_filtered(m: Map<Seq<char>, int>, ps: Seq<(String, Num)>) -> Map<
    Seq<char>,
    int,
>
    decreases ps.len(),
{
    if ps.len() == 0 {
        m
    } else {
        let m2 = apply_filtered(m, ps.drop_last());
        let p = ps.last();
        if 0 < p.1@ && p.1.wf() {
            m2.insert(p.0@, p.1@)
        } else {
            m2
        }
    }
}

/// A session's rate table: a mapping from currency code to a positive rate
/// relative to one reference currency, populated once and immutable after.
pub struct CurrencyConverter {
    rates: StrMap,
}

impl View for CurrencyConverter {
    type V = Map<Seq<char>, int>;

    closed spec fn view(&self) -> Map<Seq<char>, int> {
        self.rates@
    }
}

impl CurrencyConverter {
    /// The table is well formed and every rate is positive.
    pub closed spec fn wf(self) -> bool {
        self.rates.wf() && rates_positive(self.rates@)
    }

    /// A well-formed table has positive rates.
    pub proof fn lemma_wf_positive(&self)
        requires
            self.wf(),
        ensures
            rates_positive(self@),
    {
    }

    /// Build a table from code/rate pairs. Pairs with a nonpositive or
    /// unrepresentable rate are dropped; a later pair for a code shadows an
    /// earlier one.
    pub fn new(pairs: Vec<(String, Num)>) -> (r: CurrencyConverter)
        ensures
            r.wf(),
            r@ == filtered_rates(pairs@),
    {
        let ghost orig = pairs@;
        let mut rest = pairs;
        let mut rates = StrMap::new();
        proof {
            lemma_filtered_rates_from(Map::empty(), orig);
            lemma_apply_filtered_base(orig);
        }
        while rest.len() > 0
            invariant
                rates.wf(),
                rates_positive(rates@),
                filtered_rates_from(rates@, rest@) == filtered_rates(orig),
            decreases rest@.len(),
        {
            let ghost ps0 = rest@;
            let p = rest.remove(0);
            proof {
                assert(rest@ =~= ps0.skip(1));
            }
            let units = p.1.units();
            if units > 0 && units <= crate::num::MAX_UNITS {
                rates.insert(p.0, p.1);
            }
        }
        CurrencyConverter { rates }
    }

    /// Convert `amount` from one currency to another, through the reference
    /// currency: divide by the source rate, multiply by the target rate.
    /// The result is exactly what [`convert_spec`] gives on the table.
    pub fn convert(&self, amount: Num, from: &str, to: &str) -> (r: Result<Num, ConvertError>)
        requires
            self.wf(),
            amount.wf(),
        ensures
            match r {
                Ok(v) => convert_spec(self@, amount@, from@, to@) == Ok::<int, ConvertIssue>(v@)
                    && v.wf(),
                Err(e) => convert_spec(self@, amount@, from@, to@) == Err::<int, ConvertIssue>(e@),
            },
    {
        let from_rate = match self.rates.get(from) {
            Some(v) => v,
            None => {
                return Err(ConvertError::UnknownCurrency(String::from_str(from)));
            },
        };
        let to_rate = match self.rates.get(to) {
            Some(v) => v,
            None => {
                return Err(ConvertError::UnknownCurrency(String::from_str(to)));
            },
        };
        proof {
            assert(self@[from@] > 0);
        }
        let reference = match amount.checked_div(from_rate) {
            Some(v) => v,
            None => {
                return Err(ConvertError::OutOfRange);
            },
        };
        match reference.checked_mul(to_rate) {
            Some(v) => Ok(v),
            None => Err(ConvertError::OutOfRange),
        }
    }

    /// The static fallback rates: the reference currency itself and two
    /// fixed companions, used when no live table can be fetched.
    pub fn fallback_rates() -> (r: Vec<(String, Num)>)
        ensures
            r@.len() == 3,
            r@[0].0@ == "USD"@ && r@[0].1@ == 1_000_000,
            r@[1].0@ == "EUR"@ && r@[1].1@ == 920_000,
            r@[2].0@ == "INR"@ && r@[2].1@ == 83_500_000,
    {
        let mut v: Vec<(String, Num)> = Vec::new();
        v.push((String::from_str("USD"), Num::from_units(1_000_000)));
        v.push((String::from_str("EUR"), Num::from_units(920_000)));
        v.push((String::from_str("INR"), Num::from_units(83_500_000)));
        v
    }
}

/// Starting [`apply_filtered`] from the empty map gives [`filtered_rates`].
proof fn lemma_apply_filtered_base(ps: Seq<(String, Num)>)
    ensures
        apply_filtered(Map::empty(), ps) == filtered_rates(ps),
    decreases ps.len(),
{
    if ps.len() > 0 {
        lemma_apply_filtered_base(ps.drop_last());
    }
}

} // verus!
