//! A string-keyed dictionary kept in ascending key order.
//!
//! Entries live in a vector sorted strictly by key, so keys are unique and
//! iteration yields them in ascending order, as a `BTreeMap<String, V>` would.

use vstd::prelude::*;
use crate::text::{compare, lemma_lt_irreflexive, lemma_lt_total, lemma_lt_transitive, seq_lt, Order};

verus! {

/// The keys of `s` ascend strictly.
pub open spec fn keys_ascending<V>(s: Seq<(String, V)>) -> bool {
    forall|i: int, j: int| 0 <= i < j < s.len() ==> seq_lt(#[trigger] s[i].0@, #[trigger] s[j].0@)
}

/// Some entry of `s` has the key `k`.
pub open spec fn has_key<V>(s: Seq<(String, V)>, k: Seq<char>) -> bool {
    exists|i: int| 0 <= i < s.len() && s[i].0@ == k
}

/// The entries of `s` as a map from key to value.
pub open spec fn entries_map<V>(s: Seq<(String, V)>) -> Map<Seq<char>, V> {
    Map::new(
        |k: Seq<char>| has_key(s, k),
        |k: Seq<char>| s[choose|i: int| 0 <= i < s.len() && s[i].0@ == k].1,
    )
}

/// The key views of `s`, in order.
pub open spec fn key_views(s: Seq<String>) -> Seq<Seq<char>> {
    s.map_values(|k: String| k@)
}

/// In ascending entries, each entry is found under its own key.
pub proof fn lemma_entry_at<V>(s: Seq<(String, V)>, i: int)
    requires
        keys_ascending(s),
        0 <= i < s.len(),
    ensures
        entries_map(s).contains_key(s[i].0@),
        entries_map(s)[s[i].0@] == s[i].1,
{
    assert(has_key(s, s[i].0@));
    let k = choose|k: int| 0 <= k < s.len() && s[k].0@ == s[i].0@;
    if k != i {
        if k < i {
            assert(seq_lt(s[k].0@, s[i].0@));
        } else {
            assert(seq_lt(s[i].0@, s[k].0@));
        }
        lemma_lt_irreflexive(s[i].0@);
    }
}

/// Replacing the value at an existing key updates that one entry.
proof fn lemma_entry_update<V>(s: Seq<(String, V)>, i: int, e: (String, V))
    requires
        keys_ascending(s),
        0 <= i < s.len(),
        e.0@ == s[i].0@,
    ensures
        keys_ascending(s.update(i, e)),
        entries_map(s.update(i, e)) == entries_map(s).insert(e.0@, e.1),
{
    let t = s.update(i, e);
    assert forall|a: int, b: int| 0 <= a < b < t.len() implies seq_lt(#[trigger] t[a].0@, #[trigger] t[b].0@) by {
        assert(seq_lt(s[a].0@, s[b].0@));
    }
    assert forall|k: Seq<char>| has_key(t, k) == has_key(s, k) by {
        if has_key(t, k) {
            let w = choose|w: int| 0 <= w < t.len() && t[w].0@ == k;
            assert(s[w].0@ == k);
        }
        if has_key(s, k) {
            let w = choose|w: int| 0 <= w < s.len() && s[w].0@ == k;
            assert(t[w].0@ == k);
        }
    }
    assert forall|k: Seq<char>| #[trigger] entries_map(t).contains_key(k) implies entries_map(t)[k]
        == entries_map(s).insert(e.0@, e.1)[k] by {
        let w = choose|w: int| 0 <= w < t.len() && t[w].0@ == k;
        lemma_entry_at(t, w);
        if w != i {
            lemma_entry_at(s, w);
            lemma_lt_irreflexive(s[i].0@);
            if w < i {
                assert(seq_lt(s[w].0@, s[i].0@));
            } else {
                assert(seq_lt(s[i].0@, s[w].0@));
            }
        }
    }
    assert(entries_map(t) =~= entries_map(s).insert(e.0@, e.1));
}

/// Inserting a new key at its place in the order adds that one entry.
pub proof fn lemma_entry_insert<V>(s: Seq<(String, V)>, p: int, e: (String, V))
    requires
        keys_ascending(s),
        0 <= p <= s.len(),
        forall|i: int| 0 <= i < p ==> seq_lt(#[trigger] s[i].0@, e.0@),
        forall|i: int| p <= i < s.len() ==> seq_lt(e.0@, #[trigger] s[i].0@),
    ensures
        keys_ascending(s.insert(p, e)),
        entries_map(s.insert(p, e)) == entries_map(s).insert(e.0@, e.1),
{
    let t = s.insert(p, e);
    assert forall|a: int, b: int| 0 <= a < b < t.len() implies seq_lt(#[trigger] t[a].0@, #[trigger] t[b].0@) by {
        if a < p && b < p {
            assert(seq_lt(s[a].0@, s[b].0@));
        } else if a < p && b == p {
        } else if a < p {
            assert(t[b] == s[b - 1]);
            lemma_lt_transitive(s[a].0@, e.0@, s[b - 1].0@);
        } else if a == p {
            assert(t[b] == s[b - 1]);
        } else {
            assert(t[a] == s[a - 1]);
            assert(t[b] == s[b - 1]);
            assert(seq_lt(s[a - 1].0@, s[b - 1].0@));
        }
    }
    assert forall|k: Seq<char>| has_key(t, k) == (has_key(s, k) || k == e.0@) by {
        if has_key(t, k) {
            let w = choose|w: int| 0 <= w < t.len() && t[w].0@ == k;
            if w < p {
                assert(s[w].0@ == k);
            } else if w > p {
                assert(s[w - 1].0@ == k);
            }
        }
        if has_key(s, k) {
            let w = choose|w: int| 0 <= w < s.len() && s[w].0@ == k;
            if w < p {
                assert(t[w].0@ == k);
            } else {
                assert(t[w + 1].0@ == k);
            }
        }
        if k == e.0@ {
            assert(t[p].0@ == k);
        }
    }
    assert forall|k: Seq<char>| #[trigger] entries_map(t).contains_key(k) implies entries_map(t)[k]
        == entries_map(s).insert(e.0@, e.1)[k] by {
        let w = choose|w: int| 0 <= w < t.len() && t[w].0@ == k;
        lemma_entry_at(t, w);
        if w < p {
            lemma_entry_at(s, w);
            assert(k != e.0@) by {
                lemma_lt_irreflexive(e.0@);
            }
        } else if w > p {
            assert(t[w] == s[w - 1]);
            lemma_entry_at(s, w - 1);
            assert(k != e.0@) by {
                lemma_lt_irreflexive(e.0@);
            }
        }
    }
    assert(entries_map(t) =~= entries_map(s).insert(e.0@, e.1));
}

/// A dictionary from strings to values of type `V`, in ascending key order.
pub struct Dict<V> {
    entries: Vec<(String, V)>,
}

impl<V> Dict<V> {
    /// The entries ascend strictly by key.
    #[verifier::type_invariant]
    spec fn ascending(self) -> bool {
        keys_ascending(self.entries@)
    }

    /// The dictionary as a map from key to value.
    pub closed spec fn view(&self) -> Map<Seq<char>, V> {
        entries_map(self.entries@)
    }

    /// An empty dictionary.
    pub fn new() -> (d: Dict<V>)
        ensures
            d@ == Map::<Seq<char>, V>::empty(),
    {
        let d = Dict { entries: Vec::new() };
        assert(d@ =~= Map::<Seq<char>, V>::empty());
        d
    }

    /// The position of the first entry whose key is not below `k`.
    fn lower_bound(&self, k: &str) -> (p: usize)
        ensures
            p <= self.entries@.len(),
            forall|i: int| 0 <= i < p ==> seq_lt(#[trigger] self.entries@[i].0@, k@),
            p < self.entries@.len() ==> !seq_lt(self.entries@[p as int].0@, k@),
    {
        let mut p: usize = 0;
        while p < self.entries.len()
            invariant
                p <= self.entries@.len(),
                forall|i: int| 0 <= i < p ==> seq_lt(#[trigger] self.entries@[i].0@, k@),
            decreases self.entries@.len() - p,
        {
            if compare(self.entries[p].0.as_str(), k) != Order::Less {
                return p;
            }
            p = p + 1;
        }
        p
    }

    /// Sets the value under `k`, replacing any earlier value.
    pub fn insert(&mut self, k: String, v: V)
        ensures
            final(self)@ == old(self)@.insert(k@, v),
    {
        proof {
            use_type_invariant(&*self);
        }
        let p = self.lower_bound(k.as_str());
        let mut list: Vec<(String, V)> = Vec::new();
        std::mem::swap(&mut list, &mut self.entries);
        let same = p < list.len() && compare(list[p].0.as_str(), k.as_str()) == Order::Equal;
        if same {
            proof {
                lemma_entry_update(list@, p as int, (k, v));
            }
            list.set(p, (k, v));
        } else {
            proof {
                assert forall|i: int| p <= i < list@.len() implies seq_lt(k@, #[trigger] list@[i].0@) by {
                    lemma_lt_total(k@, list@[p as int].0@);
                    if i > p {
                        assert(seq_lt(list@[p as int].0@, list@[i].0@));
                        lemma_lt_transitive(k@, list@[p as int].0@, list@[i].0@);
                    }
                }
                lemma_entry_insert(list@, p as int, (k, v));
            }
            list.insert(p, (k, v));
        }
        self.entries = list;
    }

    /// The value under `k`, if any.
    pub fn get(&self, k: &str) -> (r: Option<&V>)
        ensures
            match r {
                Some(v) => self@.contains_key(k@) && self@[k@] == *v,
                None => !self@.contains_key(k@),
            },
    {
        proof {
            use_type_invariant(self);
        }
        let p = self.lower_bound(k);
        if p < self.entries.len() && compare(self.entries[p].0.as_str(), k) == Order::Equal {
            proof {
                lemma_entry_at(self.entries@, p as int);
            }
            Some(&self.entries[p].1)
        } else {
            proof {
                if has_key(self.entries@, k@) {
                    let w = choose|w: int| 0 <= w < self.entries@.len() && self.entries@[w].0@ == k@;
                    lemma_lt_irreflexive(k@);
                    if w > p {
                        assert(seq_lt(self.entries@[p as int].0@, self.entries@[w].0@));
                        lemma_lt_total(self.entries@[p as int].0@, k@);
                    }
                }
            }
            None
        }
    }

    /// Whether some value is stored under `k`.
    pub fn contains_key(&self, k: &str) -> (r: bool)
        ensures
            r == self@.contains_key(k@),
    {
        self.get(k).is_some()
    }

    /// Every key, in ascending order.
    pub fn keys(&self) -> (r: Vec<String>)
        ensures
            forall|i: int, j: int| 0 <= i < j < r@.len() ==> seq_lt(#[trigger] r@[i]@, #[trigger] r@[j]@),
            forall|i: int| 0 <= i < r@.len() ==> #[trigger] self@.contains_key(r@[i]@),
            forall|k: Seq<char>| #[trigger] self@.contains_key(k) ==> key_views(r@).contains(k),
    {
        proof {
            use_type_invariant(self);
        }
        let mut r: Vec<String> = Vec::new();
        let mut i: usize = 0;
        while i < self.entries.len()
            invariant
                i <= self.entries@.len(),
                keys_ascending(self.entries@),
                r@.len() == i,
                forall|j: int| 0 <= j < i ==> (#[trigger] r@[j])@ == self.entries@[j].0@,
            decreases self.entries@.len() - i,
        {
            r.push(self.entries[i].0.clone());
            i = i + 1;
        }
        proof {
            assert forall|a: int, b: int| 0 <= a < b < r@.len() implies seq_lt(#[trigger] r@[a]@, #[trigger] r@[b]@) by {
                assert(seq_lt(self.entries@[a].0@, self.entries@[b].0@));
            }
            assert forall|a: int| 0 <= a < r@.len() implies #[trigger] self@.contains_key(r@[a]@) by {
                lemma_entry_at(self.entries@, a);
            }
            assert forall|k: Seq<char>| #[trigger] self@.contains_key(k) implies key_views(r@).contains(k) by {
                let w = choose|w: int| 0 <= w < self.entries@.len() && self.entries@[w].0@ == k;
                assert(key_views(r@)[w] == k);
            }
        }
        r
    }

    /// Every entry, in ascending key order.
    pub fn pairs(&self) -> (r: &Vec<(String, V)>)
        ensures
            keys_ascending(r@),
            entries_map(r@) == self@,
    {
        proof {
            use_type_invariant(self);
        }
        &self.entries
    }
}

} // verus!
