//! The tokenizer: splits a line on whitespace and single-character operators,
//! then folds a numeric token followed by a recognized magnitude word
//! (thousand, lakh, million, crore, billion and their abbreviations) into one
//! numeric token holding the product.

use vstd::prelude::*;
use vstd::string::*;
use crate::num::{Num, SCALE, in_range};
use crate::text::{is_ws, is_ws_char, lower_seq, to_lower, str_eq, chars_to_string};
use crate::literal::{parse_literal, render_literal, parse_literal_str, render_literal_str};

verus! {

/// The single-character operators; each becomes a token of its own.
pub open spec fn is_op(c: char) -> bool {
    c == '+' || c == '-' || c == '*' || c == '/' || c == '%' || c == '^' || c == '(' || c == ')'
}

/// Exec test for [`is_op`].
pub fn is_op_char(c: char) -> (r: bool)
    ensures
        r == is_op(c),
{
    c == '+' || c == '-' || c == '*' || c == '/' || c == '%' || c == '^' || c == '(' || c == ')'
}

/// Left-to-right split of `s` with `cur` the run of token characters read so
/// far: whitespace ends the run, an operator ends the run and stands alone,
/// any other character extends it.
pub open spec fn split_acc(s: Seq<char>, cur: Seq<char>) -> Seq<Seq<char>>
    decreases s.len(),
{
    if s.len() == 0 {
        if cur.len() == 0 {
            Seq::empty()
        } else {
            seq![cur]
        }
    } else if is_op(s[0]) {
        let pre = if cur.len() == 0 {
            Seq::<Seq<char>>::empty()
        } else {
            seq![cur]
        };
        pre + seq![seq![s[0]]] + split_acc(s.skip(1), Seq::empty())
    } else if is_ws(s[0]) {
        let pre = if cur.len() == 0 {
            Seq::<Seq<char>>::empty()
        } else {
            seq![cur]
        };
        pre + split_acc(s.skip(1), Seq::empty())
    } else {
        split_acc(s.skip(1), cur.push(s[0]))
    }
}

/// The raw token split of a line.
pub open spec fn split_tokens(s: Seq<char>) -> Seq<Seq<char>> {
    split_acc(s, Seq::empty())
}

/// Whole-number factor of a magnitude word, already lowercased; one for any
/// other word.
pub open spec fn multiplier_of(w: Seq<char>) -> int {
    if w == "crore"@ || w == "crores"@ || w == "cr"@ {
        10_000_000
    } else if w == "lakh"@ || w == "lakhs"@ || w == "lac"@ || w == "lacs"@ {
        100_000
    } else if w == "billion"@ || w == "billions"@ || w == "b"@ {
        1_000_000_000
    } else if w == "million"@ || w == "millions"@ || w == "m"@ {
        1_000_000
    } else if w == "thousand"@ || w == "thousands"@ || w == "k"@ {
        1_000
    } else {
        1
    }
}

/// Whole-number factor named by a magnitude word, case-insensitively; one
/// for any other word.
pub fn text_to_multiplier(text: &str) -> (r: u64)
    ensures
        r as int == multiplier_of(lower_seq(text@)),
{
    let w = to_lower(text);
    let ws = w.as_str();
    if str_eq(ws, "crore") || str_eq(ws, "crores") || str_eq(ws, "cr") {
        10_000_000
    } else if str_eq(ws, "lakh") || str_eq(ws, "lakhs") || str_eq(ws, "lac") || str_eq(ws, "lacs") {
        100_000
    } else if str_eq(ws, "billion") || str_eq(ws, "billions") || str_eq(ws, "b") {
        1_000_000_000
    } else if str_eq(ws, "million") || str_eq(ws, "millions") || str_eq(ws, "m") {
        1_000_000
    } else if str_eq(ws, "thousand") || str_eq(ws, "thousands") || str_eq(ws, "k") {
        1_000
    } else {
        1
    }
}

/// The magnitude-word folding pass: a numeric token directly followed by a
/// magnitude word becomes one numeric token holding the product, when that
/// product is representable; every other token passes through unchanged.
pub open spec fn fold_tokens(ts: Seq<Seq<char>>) -> Seq<Seq<char>>
    decreases ts.len(),
{
    if ts.len() == 0 {
        Seq::empty()
    } else if ts.len() >= 2 && parse_literal(ts[0]) is Some && multiplier_of(lower_seq(ts[1]))
        != 1 && in_range(parse_literal(ts[0])->0 * multiplier_of(lower_seq(ts[1]))) {
        seq![render_literal(parse_literal(ts[0])->0 * multiplier_of(lower_seq(ts[1])))]
            + fold_tokens(ts.skip(2))
    } else {
        seq![ts[0]] + fold_tokens(ts.skip(1))
    }
}

/// The tokens of a line: the raw split with magnitude words folded in.
pub open spec fn tokenize_spec(s: Seq<char>) -> Seq<Seq<char>> {
    fold_tokens(split_tokens(s))
}

/// Split a line into raw tokens.
fn split_str(input: &str) -> (r: Vec<String>)
    ensures
        r.deep_view() == split_tokens(input@),
{
    let n = input.unicode_len();
    let mut tokens: Vec<String> = Vec::new();
    let mut cur: Vec<char> = Vec::new();
    let mut i: usize = 0;
    proof {
        assert(input@.skip(0) =~= input@);
    }
    while i < n
        invariant
            n == input@.len(),
            i <= n,
            split_tokens(input@) == tokens.deep_view() + split_acc(input@.skip(i as int), cur@),
        decreases n - i,
    {
        let c = input.get_char(i);
        let ghost d0 = tokens.deep_view();
        let ghost cur0 = cur@;
        let ghost rest = input@.skip(i as int);
        proof {
            assert(rest[0] == c);
            assert(rest.skip(1) =~= input@.skip(i + 1));
        }
        if is_op_char(c) {
            proof {
                let pre: Seq<Seq<char>> = if cur0.len() == 0 {
                    Seq::empty()
                } else {
                    seq![cur0]
                };
                assert(split_acc(rest, cur0) == pre + seq![seq![c]] + split_acc(
                    input@.skip(i + 1),
                    Seq::<char>::empty(),
                ));
            }
            if cur.len() > 0 {
                let t = chars_to_string(&cur);
                tokens.push(t);
                proof {
                    assert(tokens.deep_view() =~= d0 + seq![cur0]);
                }
                cur = Vec::new();
            }
            let ghost d1 = tokens.deep_view();
            let mut op: Vec<char> = Vec::new();
            op.push(c);
            proof {
                assert(op@ =~= seq![c]);
            }
            let t2 = chars_to_string(&op);
            tokens.push(t2);
            proof {
                assert(tokens.deep_view() =~= d1 + seq![seq![c]]);
                assert(cur@ =~= Seq::<char>::empty());
                assert(tokens.deep_view() + split_acc(input@.skip(i + 1), Seq::<char>::empty())
                    =~= split_tokens(input@));
            }
        } else if is_ws_char(c) {
            proof {
                let pre: Seq<Seq<char>> = if cur0.len() == 0 {
                    Seq::empty()
                } else {
                    seq![cur0]
                };
                assert(split_acc(rest, cur0) == pre + split_acc(
                    input@.skip(i + 1),
                    Seq::<char>::empty(),
                ));
            }
            if cur.len() > 0 {
                let t = chars_to_string(&cur);
                tokens.push(t);
                proof {
                    assert(tokens.deep_view() =~= d0 + seq![cur0]);
                }
                cur = Vec::new();
            }
            proof {
                assert(cur@ =~= Seq::<char>::empty());
                assert(tokens.deep_view() + split_acc(input@.skip(i + 1), Seq::<char>::empty())
                    =~= split_tokens(input@));
            }
        } else {
            proof {
                assert(split_acc(rest, cur0) == split_acc(input@.skip(i + 1), cur0.push(c)));
            }
            cur.push(c);
        }
        i += 1;
    }
    proof {
        assert(input@.skip(n as int) =~= Seq::<char>::empty());
    }
    if cur.len() > 0 {
        let ghost d0 = tokens.deep_view();
        let ghost cur0 = cur@;
        let t = chars_to_string(&cur);
        tokens.push(t);
        proof {
            assert(tokens.deep_view() =~= d0 + seq![cur0]);
        }
    }
    proof {
        assert(tokens.deep_view() =~= split_tokens(input@));
    }
    tokens
}

/// Tokenize a line: split on whitespace and operators, then fold magnitude
/// words into their preceding numeric literal.
pub fn tokenize(input: &str) -> (r: Vec<String>)
    ensures
        r.deep_view() == tokenize_spec(input@),
{
    let raw = split_str(input);
    let ghost all = raw.deep_view();
    let mut out: Vec<String> = Vec::new();
    let mut i: usize = 0;
    proof {
        assert(all.skip(0) =~= all);
    }
    while i < raw.len()
        invariant
            i <= raw@.len(),
            all == raw.deep_view(),
            raw@.len() == all.len(),
            tokenize_spec(input@) == out.deep_view() + fold_tokens(all.skip(i as int)),
        decreases raw@.len() - i,
    {
        proof {
            assert(all.skip(i as int)[0] == raw@[i as int]@);
        }
        let mut folded = false;
        if i + 1 < raw.len() {
            proof {
                assert(all.skip(i as int)[1] == raw@[i + 1]@);
            }
            if let Some(v) = parse_literal_str(raw[i].as_str()) {
                let mult = text_to_multiplier(raw[i + 1].as_str());
                if mult != 1 {
                    if let Some(p) = v.checked_scale(mult) {
                        proof {
                            assert(p@ >= 0) by {
                                lemma_nonneg_scale(v@, mult as int);
                            }
                        }
                        let t = render_literal_str(p);
                        let ghost d0 = out.deep_view();
                        let ghost tv = t@;
                        out.push(t);
                        proof {
                            assert(out.deep_view() =~= d0 + seq![tv]);
                            assert(all.skip(i as int).skip(2) =~= all.skip(i + 2));
                            assert(out.deep_view() + fold_tokens(all.skip(i + 2)) =~= tokenize_spec(
                                input@,
                            ));
                        }
                        i += 2;
                        folded = true;
                    }
                }
            }
        }
        if !folded {
            let t = raw[i].clone();
            let ghost d0 = out.deep_view();
            let ghost tv = t@;
            out.push(t);
            proof {
                assert(out.deep_view() =~= d0 + seq![tv]);
                assert(all.skip(i as int).skip(1) =~= all.skip(i + 1));
                assert(out.deep_view() + fold_tokens(all.skip(i + 1)) =~= tokenize_spec(input@));
            }
            i += 1;
        }
    }
    proof {
        assert(all.skip(all.len() as int) =~= Seq::<Seq<char>>::empty());
        assert(out.deep_view() =~= tokenize_spec(input@));
    }
    out
}

/// A nonnegative value scaled by a nonnegative factor stays nonnegative.
proof fn lemma_nonneg_scale(v: int, k: int)
    requires
        v >= 0,
        k >= 0,
    ensures
        v * k >= 0,
{
    assert(v * k >= 0) by (nonlinear_arith)
        requires
            v >= 0,
            k >= 0,
    ;
}

} // verus!
