//! Stable ordering of records by a strict rank.
//!
//! The version list is ordered by engine kind and then newest family first,
//! and the persisted registry by creation time and then id. Both go through
//! [`sort_ranked`], which returns the same records in rank order.

use vstd::prelude::*;
use vstd::multiset::Multiset;
use crate::engine::{Instance, Version};
use crate::text::{compare, lemma_lt_irreflexive, lemma_lt_total, lemma_lt_transitive, seq_lt, Order};
use crate::engine::DbType;
use crate::versions::{family_key, law_bundled_families, newer, spec_families};

verus! {

/// A record type with a strict, transitive rank: `a.ranks_before(b)` when `a`
/// must come before `b`.
pub trait Ranked: Sized {
    /// Whether `self` must come before `other`.
    spec fn ranks_before(self, other: Self) -> bool;

    /// Whether `self` must come before `other`, computed.
    fn before(&self, other: &Self) -> (r: bool)
        ensures
            r == self.ranks_before(*other),
    ;

    /// Nothing ranks before itself.
    proof fn lemma_irreflexive(a: Self)
        ensures
            !a.ranks_before(a),
    ;

    /// Ranking is transitive.
    proof fn lemma_transitive(a: Self, b: Self, c: Self)
        requires
            a.ranks_before(b),
            b.ranks_before(c),
        ensures
            a.ranks_before(c),
    ;
}

/// No record of `s` ranks before one that precedes it.
pub open spec fn in_rank_order<T: Ranked>(s: Seq<T>) -> bool {
    forall|i: int, j: int| 0 <= i < j < s.len() ==> !(#[trigger] s[j]).ranks_before(#[trigger] s[i])
}

/// The records of `items`, each as often as it occurs, in rank order.
pub fn sort_ranked<T: Ranked>(items: Vec<T>) -> (r: Vec<T>)
    ensures
        r@.to_multiset() == items@.to_multiset(),
        in_rank_order(r@),
{
    broadcast use vstd::seq_lib::group_to_multiset_ensures;

    let ghost all = items@;
    let mut rest = items;
    let mut out: Vec<T> = Vec::new();
    while rest.len() > 0
        invariant
            out@.to_multiset().add(rest@.to_multiset()) == all.to_multiset(),
            in_rank_order(out@),
            forall|i: int, j: int|
                0 <= i < out@.len() && 0 <= j < rest@.len() ==> !(#[trigger] rest@[j]).ranks_before(
                    #[trigger] out@[i],
                ),
        decreases rest@.len(),
    {
        let mut best: usize = 0;
        let mut j: usize = 1;
        proof {
            T::lemma_irreflexive(rest@[0]);
        }
        while j < rest.len()
            invariant
                0 < rest@.len(),
                best < j <= rest@.len(),
                forall|k: int| 0 <= k < j ==> !(#[trigger] rest@[k]).ranks_before(rest@[best as int]),
            decreases rest@.len() - j,
        {
            if rest[j].before(&rest[best]) {
                proof {
                    assert forall|k: int| 0 <= k < j + 1 implies !(#[trigger] rest@[k]).ranks_before(
                        rest@[j as int],
                    ) by {
                        if k == j {
                            T::lemma_irreflexive(rest@[k]);
                        } else if rest@[k].ranks_before(rest@[j as int]) {
                            T::lemma_transitive(rest@[k], rest@[j as int], rest@[best as int]);
                        }
                    }
                }
                best = j;
            }
            j = j + 1;
        }
        let ghost before_rest = rest@;
        let ghost before_out = out@;
        let x = rest.remove(best);
        proof {
            assert(rest@ == before_rest.remove(best as int));
            vstd::seq_lib::to_multiset_remove(before_rest, best as int);
        }
        out.push(x);
        proof {
            assert(out@ == before_out.push(x));
            before_out.to_multiset_ensures();
            before_rest.to_multiset_ensures();
            assert(out@.to_multiset() == before_out.to_multiset().insert(x));
            assert(before_rest.to_multiset().count(x) > 0) by {
                assert(before_rest.contains(x)) by {
                    assert(before_rest[best as int] == x);
                }
            }
            assert(out@.to_multiset().add(rest@.to_multiset()) =~= all.to_multiset());
            assert forall|a: int, b: int| 0 <= a < b < out@.len() implies !(#[trigger] out@[b]).ranks_before(
                #[trigger] out@[a],
            ) by {
                if b == before_out.len() {
                    assert(out@[b] == before_rest[best as int]);
                    assert(out@[a] == before_out[a]);
                } else {
                    assert(out@[b] == before_out[b]);
                    assert(out@[a] == before_out[a]);
                }
            }
            assert forall|a: int, k: int|
                0 <= a < out@.len() && 0 <= k < rest@.len() implies !(#[trigger] rest@[k]).ranks_before(
                #[trigger] out@[a],
            ) by {
                let src = if k < best {
                    k
                } else {
                    k + 1
                };
                assert(rest@[k] == before_rest[src]);
                if a == before_out.len() {
                    assert(out@[a] == before_rest[best as int]);
                } else {
                    assert(out@[a] == before_out[a]);
                }
            }
        }
    }
    proof {
        assert(rest@.to_multiset() =~= Multiset::<T>::empty());
        assert(out@.to_multiset().add(rest@.to_multiset()) =~= out@.to_multiset());
    }
    out
}

/// The order of the version list: by engine id, then newest family first.
pub open spec fn version_ranks_before(a: Version, b: Version) -> bool {
    ||| seq_lt(a.db_type.id(), b.db_type.id())
    ||| (a.db_type.id() == b.db_type.id() && seq_lt(b.major@, a.major@))
}

impl Ranked for Version {
    open spec fn ranks_before(self, other: Self) -> bool {
        version_ranks_before(self, other)
    }

    fn before(&self, other: &Self) -> (r: bool) {
        match compare(self.db_type.as_str(), other.db_type.as_str()) {
            Order::Less => true,
            Order::Greater => false,
            Order::Equal => compare(other.major.as_str(), self.major.as_str()) == Order::Less,
        }
    }

    proof fn lemma_irreflexive(a: Self) {
        lemma_lt_irreflexive(a.db_type.id());
        lemma_lt_irreflexive(a.major@);
    }

    proof fn lemma_transitive(a: Self, b: Self, c: Self) {
        lemma_lt_total(a.db_type.id(), b.db_type.id());
        lemma_lt_total(b.db_type.id(), c.db_type.id());
        lemma_lt_total(a.db_type.id(), c.db_type.id());
        lemma_lt_irreflexive(a.db_type.id());
        if seq_lt(a.db_type.id(), b.db_type.id()) && seq_lt(b.db_type.id(), c.db_type.id()) {
            lemma_lt_transitive(a.db_type.id(), b.db_type.id(), c.db_type.id());
        }
        if seq_lt(c.major@, b.major@) && seq_lt(b.major@, a.major@) {
            lemma_lt_transitive(c.major@, b.major@, a.major@);
        }
    }
}

/// Each bundled family reads as a larger string than every older family of
/// its kind listed after it.
proof fn lemma_families_descend_as_text(db: DbType)
    ensures
        forall|i: int, j: int|
            0 <= i < j < spec_families(db).len() ==> seq_lt(
                #[trigger] spec_families(db)[j],
                #[trigger] spec_families(db)[i],
            ),
{
    reveal_strlit("18");
    reveal_strlit("17");
    reveal_strlit("16");
    reveal_strlit("15");
    reveal_strlit("9.4");
    reveal_strlit("9.3");
    reveal_strlit("8.4");
    reveal_strlit("8.0");
    reveal_strlit("11.8");
    reveal_strlit("11.4");
    reveal_strlit("11.2");
    reveal_strlit("10.11");
    reveal_strlit("8.1");
    reveal_strlit("7.2");
    reveal_strlit("7.4");
    reveal_strlit("6.2");
    reveal_strlit("7.0");
    reveal_strlit("6.0");
    reveal_strlit("5.0");
    reveal_with_fuel(seq_lt, 5);
    let f = spec_families(db);
    assert forall|i: int, j: int| 0 <= i < j < f.len() implies seq_lt(#[trigger] f[j], #[trigger] f[i]) by {
        reveal_with_fuel(seq_lt, 5);
    }
}

/// Within one engine kind, the version list puts a bundled family before
/// every older bundled family (older by release line, as [`family_key`]
/// reads it) and never after one, so the bundled families come out newest
/// first.
pub proof fn law_newer_family_ranks_first(a: Version, b: Version)
    requires
        a.db_type == b.db_type,
        spec_families(a.db_type).contains(a.major@),
        spec_families(a.db_type).contains(b.major@),
    ensures
        newer(family_key(a.major@), family_key(b.major@)) ==> a.ranks_before(b),
        newer(family_key(b.major@), family_key(a.major@)) ==> !a.ranks_before(b),
{
    law_bundled_families(a.db_type);
    lemma_families_descend_as_text(a.db_type);
    let f = spec_families(a.db_type);
    let i = choose|i: int| 0 <= i < f.len() && f[i] == a.major@;
    let j = choose|j: int| 0 <= j < f.len() && f[j] == b.major@;
    lemma_lt_irreflexive(a.db_type.id());
    if i < j {
        assert(seq_lt(f[j], f[i]));
        assert(newer(family_key(f[i]), family_key(f[j])));
    } else if j < i {
        assert(seq_lt(f[i], f[j]));
        assert(newer(family_key(f[j]), family_key(f[i])));
        lemma_lt_total(f[i], f[j]);
    } else {
        lemma_lt_irreflexive(f[i]);
    }
}

/// The order of the persisted registry: by creation time, then id.
pub open spec fn instance_ranks_before(a: Instance, b: Instance) -> bool {
    ||| seq_lt(a.created_at@, b.created_at@)
    ||| (a.created_at@ == b.created_at@ && seq_lt(a.id@, b.id@))
}

impl Ranked for Instance {
    open spec fn ranks_before(self, other: Self) -> bool {
        instance_ranks_before(self, other)
    }

    fn before(&self, other: &Self) -> (r: bool) {
        match compare(self.created_at.as_str(), other.created_at.as_str()) {
            Order::Less => true,
            Order::Greater => false,
            Order::Equal => compare(self.id.as_str(), other.id.as_str()) == Order::Less,
        }
    }

    proof fn lemma_irreflexive(a: Self) {
        lemma_lt_irreflexive(a.created_at@);
        lemma_lt_irreflexive(a.id@);
    }

    proof fn lemma_transitive(a: Self, b: Self, c: Self) {
        lemma_lt_total(a.created_at@, b.created_at@);
        lemma_lt_total(b.created_at@, c.created_at@);
        lemma_lt_total(a.created_at@, c.created_at@);
        lemma_lt_irreflexive(a.created_at@);
        if seq_lt(a.created_at@, b.created_at@) && seq_lt(b.created_at@, c.created_at@) {
            lemma_lt_transitive(a.created_at@, b.created_at@, c.created_at@);
        }
        if seq_lt(a.id@, b.id@) && seq_lt(b.id@, c.id@) {
            lemma_lt_transitive(a.id@, b.id@, c.id@);
        }
    }
}

} // verus!
