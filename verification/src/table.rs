//! A small string-keyed table of numbers, viewed as a `Map<Seq<char>, int>`.
//!
//! Entries are appended; a later entry for the same key shadows the earlier
//! one, so an insert behaves exactly like `Map::insert`. Lookup walks from
//! the newest entry backwards.

use vstd::prelude::*;
use vstd::string::*;
use crate::num::Num;
use crate::text::str_eq;

verus! {

/// The map a pair list denotes: later pairs win.
pub open spec fn pairs_map(s: Seq<(String, Num)>) -> Map<Seq<char>, int>
    decreases s.len(),
{
    if s.len() == 0 {
        Map::empty()
    } else {
        pairs_map(s.drop_last()).insert(s.last().0@, s.last().1@)
    }
}

/// The winning entry for a key is the last one bearing it.
proof fn lemma_pairs_map_match(s: Seq<(String, Num)>, k: Seq<char>, i: int)
    requires
        0 <= i < s.len(),
        s[i].0@ == k,
        forall|j: int| i < j < s.len() ==> s[j].0@ != k,
    ensures
        pairs_map(s).contains_key(k),
        pairs_map(s)[k] == s[i].1@,
    decreases s.len(),
{
    if i == s.len() - 1 {
    } else {
        assert(s.drop_last()[i] == s[i]);
        lemma_pairs_map_match(s.drop_last(), k, i);
    }
}

/// A key borne by no entry is not in the map.
proof fn lemma_pairs_map_absent(s: Seq<(String, Num)>, k: Seq<char>)
    requires
        forall|j: int| 0 <= j < s.len() ==> s[j].0@ != k,
    ensures
        !pairs_map(s).contains_key(k),
    decreases s.len(),
{
    if s.len() > 0 {
        assert(forall|j: int| 0 <= j < s.len() - 1 ==> s.drop_last()[j] == s[j]);
        lemma_pairs_map_absent(s.drop_last(), k);
    }
}

/// A table of named numbers.
pub struct StrMap {
    pairs: Vec<(String, Num)>,
}

impl View for StrMap {
    type V = Map<Seq<char>, int>;

    closed spec fn view(&self) -> Map<Seq<char>, int> {
        pairs_map(self.pairs@)
    }
}

impl StrMap {
    /// Every stored number is in the representable range.
    pub closed spec fn wf(self) -> bool {
        forall|i: int| 0 <= i < self.pairs@.len() ==> (#[trigger] self.pairs@[i].1).wf()
    }

    /// An empty table.
    pub fn new() -> (r: StrMap)
        ensures
            r@ == Map::<Seq<char>, int>::empty(),
            r.wf(),
    {
        StrMap { pairs: Vec::new() }
    }

    /// The number stored under `key`, if any.
    pub fn get(&self, key: &str) -> (r: Option<Num>)
        requires
            self.wf(),
        ensures
            match r {
                Some(v) => self@.contains_key(key@) && v@ == self@[key@] && v.wf(),
                None => !self@.contains_key(key@),
            },
    {
        let mut i: usize = self.pairs.len();
        while i > 0
            invariant
                self.wf(),
                i <= self.pairs@.len(),
                forall|j: int| i <= j < self.pairs@.len() ==> self.pairs@[j].0@ != key@,
            decreases i,
        {
            i -= 1;
            if str_eq(self.pairs[i].0.as_str(), key) {
                proof {
                    lemma_pairs_map_match(self.pairs@, key@, i as int);
                }
                return Some(self.pairs[i].1);
            }
        }
        proof {
            lemma_pairs_map_absent(self.pairs@, key@);
        }
        None
    }

    /// Store `v` under `key`, shadowing any earlier entry.
    pub fn insert(&mut self, key: String, v: Num)
        requires
            old(self).wf(),
            v.wf(),
        ensures
            final(self).wf(),
            final(self)@ == old(self)@.insert(key@, v@),
    {
        let ghost s0 = self.pairs@;
        self.pairs.push((key, v));
        proof {
            assert(self.pairs@.drop_last() =~= s0);
        }
    }
}

} // verus!
