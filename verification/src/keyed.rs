//! Keyed record sequences.
//!
//! Every piece of exchange state is a vector of records, each carrying a key
//! (a symbol, a pool id, a farm id and account, ...).  This module gives the
//! spec-level reading of such a vector as a lookup structure — the first
//! record with a given key — together with the lemmas that track lookups and
//! value sums across updates, insertions and removals.

use vstd::prelude::*;

verus! {

/// A record with a key.
pub trait KeyedRec: Sized {
    /// The key type.
    type K;

    /// The record's key.
    spec fn key(self) -> Self::K;
}

/// The first record in `s` whose key is `k`, if any.
pub open spec fn first_match<E: KeyedRec>(s: Seq<E>, k: E::K) -> Option<E>
    decreases s.len(),
{
    if s.len() == 0 {
        None
    } else if s[0].key() == k {
        Some(s[0])
    } else {
        first_match(s.drop_first(), k)
    }
}

/// Whether some record in `s` has key `k`.
pub open spec fn has_key<E: KeyedRec>(s: Seq<E>, k: E::K) -> bool {
    first_match(s, k) is Some
}

/// Whether the records of `s` have pairwise distinct keys.
pub open spec fn unique_keys<E: KeyedRec>(s: Seq<E>) -> bool {
    forall|i: int, j: int| 0 <= i < j < s.len() ==> s[i].key() != s[j].key()
}

/// Distinctness of keys carries over to the tail of a sequence.
pub proof fn lemma_unique_drop_first<E: KeyedRec>(s: Seq<E>)
    requires
        unique_keys(s),
        s.len() > 0,
    ensures
        unique_keys(s.drop_first()),
{
    assert forall|i: int, j: int|
        0 <= i < j < s.drop_first().len() implies s.drop_first()[i].key()
        != s.drop_first()[j].key() by {
        assert(s.drop_first()[i] == s[i + 1]);
        assert(s.drop_first()[j] == s[j + 1]);
    }
}

/// Under distinct keys, looking up the key of the record at index `i` finds
/// that record.
pub proof fn lemma_first_match_found<E: KeyedRec>(s: Seq<E>, i: int)
    requires
        unique_keys(s),
        0 <= i < s.len(),
    ensures
        first_match(s, s[i].key()) == Some(s[i]),
    decreases s.len(),
{
    if i > 0 {
        assert(s[0].key() != s[i].key());
        lemma_unique_drop_first(s);
        lemma_first_match_found(s.drop_first(), i - 1);
        assert(s.drop_first()[i - 1] == s[i]);
    }
}

/// A lookup misses exactly when no record has the key.
pub proof fn lemma_first_match_none<E: KeyedRec>(s: Seq<E>, k: E::K)
    ensures
        (first_match(s, k) is None) <==> (forall|i: int|
            0 <= i < s.len() ==> (#[trigger] s[i].key()) != k),
    decreases s.len(),
{
    if s.len() > 0 {
        lemma_first_match_none(s.drop_first(), k);
        if s[0].key() != k {
            assert forall|i: int| 1 <= i < s.len() implies (#[trigger] s[i].key()) != k || !(
            first_match(s, k) is None) by {
                assert(s.drop_first()[i - 1] == s[i]);
            }
            if first_match(s, k) is None {
                assert forall|i: int| 0 <= i < s.len() implies (#[trigger] s[i].key()) != k by {
                    if i >= 1 {
                        assert(s.drop_first()[i - 1] == s[i]);
                    }
                }
            }
        }
    }
}

/// What a lookup returns when some record matches: the record found lies in
/// the sequence.
pub proof fn lemma_first_match_is_present<E: KeyedRec>(s: Seq<E>, k: E::K)
    requires
        first_match(s, k) is Some,
    ensures
        exists|i: int|
            0 <= i < s.len() && s[i] == first_match(s, k)->Some_0 && (#[trigger] s[i].key()) == k,
    decreases s.len(),
{
    if s.len() > 0 {
        if s[0].key() == k {
            assert(s[0] == first_match(s, k)->Some_0 && s[0].key() == k);
        } else {
            lemma_first_match_is_present(s.drop_first(), k);
            let i = choose|i: int|
                0 <= i < s.drop_first().len() && s.drop_first()[i] == first_match(
                    s.drop_first(),
                    k,
                )->Some_0 && (#[trigger] s.drop_first()[i].key()) == k;
            assert(s[i + 1] == s.drop_first()[i]);
            assert(s[i + 1].key() == k);
        }
    }
}

/// A lookup returns the record at the first matching index.
pub proof fn lemma_first_match_at<E: KeyedRec>(s: Seq<E>, i: int, k: E::K)
    requires
        0 <= i < s.len(),
        s[i].key() == k,
        forall|j: int| 0 <= j < i ==> (#[trigger] s[j].key()) != k,
    ensures
        first_match(s, k) == Some(s[i]),
    decreases s.len(),
{
    if i > 0 {
        assert(s[0].key() != k);
        assert(s.drop_first()[i - 1] == s[i]);
        assert forall|j: int| 0 <= j < i - 1 implies (#[trigger] s.drop_first()[j].key()) != k by {
            assert(s.drop_first()[j] == s[j + 1]);
        }
        lemma_first_match_at(s.drop_first(), i - 1, k);
    }
}

/// How a lookup reads through a record replacement that keeps the key at
/// index `i`.
pub proof fn lemma_first_match_update<E: KeyedRec>(s: Seq<E>, i: int, e: E, k: E::K)
    requires
        unique_keys(s),
        0 <= i < s.len(),
        e.key() == s[i].key(),
    ensures
        unique_keys(s.update(i, e)),
        first_match(s.update(i, e), k) == (if k == e.key() {
            Some(e)
        } else {
            first_match(s, k)
        }),
    decreases s.len(),
{
    let t = s.update(i, e);
    assert forall|a: int, b: int| 0 <= a < b < t.len() implies t[a].key() != t[b].key() by {
        assert(t[a] == if a == i {
            e
        } else {
            s[a]
        });
        assert(t[b] == if b == i {
            e
        } else {
            s[b]
        });
    }
    if i == 0 {
        if k != e.key() {
            assert(t.drop_first() =~= s.drop_first());
        }
    } else {
        assert(t[0] == s[0]);
        lemma_unique_drop_first(s);
        assert(t.drop_first() =~= s.drop_first().update(i - 1, e));
        assert(s.drop_first()[i - 1] == s[i]);
        lemma_first_match_update(s.drop_first(), i - 1, e, k);
        if s[0].key() == k {
            if k == e.key() {
                assert(s[0].key() != s[i].key());
                assert(false);
            }
        }
    }
}

/// How a lookup reads through appending a record with a fresh key.
pub proof fn lemma_first_match_push<E: KeyedRec>(s: Seq<E>, e: E, k: E::K)
    requires
        first_match(s, e.key()) is None,
    ensures
        first_match(s.push(e), k) == (if k == e.key() {
            Some(e)
        } else {
            first_match(s, k)
        }),
        unique_keys(s) ==> unique_keys(s.push(e)),
    decreases s.len(),
{
    let t = s.push(e);
    lemma_first_match_none(s, e.key());
    if unique_keys(s) {
        assert forall|a: int, b: int| 0 <= a < b < t.len() implies t[a].key() != t[b].key() by {
            if b == s.len() {
                assert(t[a] == s[a]);
                assert(t[b] == e);
            } else {
                assert(t[a] == s[a]);
                assert(t[b] == s[b]);
            }
        }
    }
    if s.len() == 0 {
        assert(t.len() == 1);
        assert(t[0] == e);
        if k != e.key() {
            assert(first_match(t, k) == first_match(t.drop_first(), k));
            assert(t.drop_first().len() == 0);
        }
    } else {
        assert(t[0] == s[0]);
        assert(t.drop_first() =~= s.drop_first().push(e));
        lemma_first_match_push(s.drop_first(), e, k);
    }
}

/// How a lookup reads through removing the record at index `i`.
pub proof fn lemma_first_match_remove<E: KeyedRec>(s: Seq<E>, i: int, k: E::K)
    requires
        unique_keys(s),
        0 <= i < s.len(),
    ensures
        unique_keys(s.remove(i)),
        first_match(s.remove(i), k) == (if k == s[i].key() {
            None
        } else {
            first_match(s, k)
        }),
    decreases s.len(),
{
    let t = s.remove(i);
    assert forall|a: int, b: int| 0 <= a < b < t.len() implies t[a].key() != t[b].key() by {
        assert(t[a] == if a < i {
            s[a]
        } else {
            s[a + 1]
        });
        assert(t[b] == if b < i {
            s[b]
        } else {
            s[b + 1]
        });
    }
    if i == 0 {
        assert(t =~= s.drop_first());
        if k == s[0].key() {
            lemma_first_match_none(s.drop_first(), k);
            assert forall|j: int| 0 <= j < s.drop_first().len() implies (
            #[trigger] s.drop_first()[j].key()) != k by {
                assert(s.drop_first()[j] == s[j + 1]);
            }
        }
    } else {
        assert(t[0] == s[0]);
        lemma_unique_drop_first(s);
        assert(t.drop_first() =~= s.drop_first().remove(i - 1));
        assert(s.drop_first()[i - 1] == s[i]);
        lemma_first_match_remove(s.drop_first(), i - 1, k);
        if s[0].key() == k && k == s[i].key() {
            assert(false);
        }
    }
}

/// A record carrying a non-negative quantity.
pub trait ValuedRec: Sized {
    /// The record's quantity.
    spec fn val(self) -> int;
}

/// The sum of the quantities of all records in `s`.
pub open spec fn sum_vals<E: ValuedRec>(s: Seq<E>) -> int
    decreases s.len(),
{
    if s.len() == 0 {
        0
    } else {
        s[0].val() + sum_vals(s.drop_first())
    }
}

/// Whether every record's quantity is non-negative.
pub open spec fn all_vals_nonneg<E: ValuedRec>(s: Seq<E>) -> bool {
    forall|i: int| 0 <= i < s.len() ==> (#[trigger] s[i].val()) >= 0
}

/// How the sum changes when the record at index `i` is replaced.
pub proof fn lemma_sum_update<E: ValuedRec>(s: Seq<E>, i: int, e: E)
    requires
        0 <= i < s.len(),
    ensures
        sum_vals(s.update(i, e)) == sum_vals(s) - s[i].val() + e.val(),
    decreases s.len(),
{
    let t = s.update(i, e);
    if i == 0 {
        assert(t.drop_first() =~= s.drop_first());
    } else {
        assert(t[0] == s[0]);
        assert(t.drop_first() =~= s.drop_first().update(i - 1, e));
        assert(s.drop_first()[i - 1] == s[i]);
        lemma_sum_update(s.drop_first(), i - 1, e);
    }
}

/// How the sum changes when a record is appended.
pub proof fn lemma_sum_push<E: ValuedRec>(s: Seq<E>, e: E)
    ensures
        sum_vals(s.push(e)) == sum_vals(s) + e.val(),
    decreases s.len(),
{
    let t = s.push(e);
    if s.len() == 0 {
        assert(t.len() == 1);
        assert(t[0] == e);
        assert(t.drop_first() =~= Seq::<E>::empty());
        assert(sum_vals(t.drop_first()) == 0);
        assert(sum_vals(t) == e.val());
    } else {
        assert(t[0] == s[0]);
        assert(t.drop_first() =~= s.drop_first().push(e));
        lemma_sum_push(s.drop_first(), e);
    }
}

/// How the sum changes when the record at index `i` is removed.
pub proof fn lemma_sum_remove<E: ValuedRec>(s: Seq<E>, i: int)
    requires
        0 <= i < s.len(),
    ensures
        sum_vals(s.remove(i)) == sum_vals(s) - s[i].val(),
    decreases s.len(),
{
    let t = s.remove(i);
    if i == 0 {
        assert(t =~= s.drop_first());
    } else {
        assert(t[0] == s[0]);
        assert(t.drop_first() =~= s.drop_first().remove(i - 1));
        assert(s.drop_first()[i - 1] == s[i]);
        lemma_sum_remove(s.drop_first(), i - 1);
    }
}

/// Under non-negative quantities, every record's quantity is at most the sum.
pub proof fn lemma_sum_ge_element<E: ValuedRec>(s: Seq<E>, i: int)
    requires
        all_vals_nonneg(s),
        0 <= i < s.len(),
    ensures
        s[i].val() <= sum_vals(s),
        sum_vals(s) >= 0,
    decreases s.len(),
{
    assert forall|j: int| 0 <= j < s.drop_first().len() implies (#[trigger] s.drop_first()[j].val())
        >= 0 by {
        assert(s.drop_first()[j] == s[j + 1]);
    }
    if i == 0 {
        lemma_sum_nonneg(s.drop_first());
    } else {
        assert(s.drop_first()[i - 1] == s[i]);
        lemma_sum_ge_element(s.drop_first(), i - 1);
    }
}

/// Under non-negative quantities, two records at distinct indices together
/// hold at most the sum.
pub proof fn lemma_sum_ge_two<E: ValuedRec>(s: Seq<E>, i: int, j: int)
    requires
        all_vals_nonneg(s),
        0 <= i < s.len(),
        0 <= j < s.len(),
        i != j,
    ensures
        s[i].val() + s[j].val() <= sum_vals(s),
{
    lemma_sum_remove(s, i);
    let t = s.remove(i);
    let j2: int = if j < i {
        j
    } else {
        j - 1
    };
    assert(t[j2] == s[j]);
    assert forall|k: int| 0 <= k < t.len() implies (#[trigger] t[k].val()) >= 0 by {
        assert(t[k] == if k < i {
            s[k]
        } else {
            s[k + 1]
        });
    }
    lemma_sum_ge_element(t, j2);
    lemma_sum_ge_element(s, i);
}

/// A sum of non-negative quantities is non-negative.
pub proof fn lemma_sum_nonneg<E: ValuedRec>(s: Seq<E>)
    requires
        all_vals_nonneg(s),
    ensures
        sum_vals(s) >= 0,
    decreases s.len(),
{
    if s.len() > 0 {
        assert forall|j: int|
            0 <= j < s.drop_first().len() implies (#[trigger] s.drop_first()[j].val()) >= 0 by {
            assert(s.drop_first()[j] == s[j + 1]);
        }
        lemma_sum_nonneg(s.drop_first());
    }
}

} // verus!
