//! Summation over the values of a finite map from string keys to amounts,
//! with the algebra that transfers rely on: how the sum moves under an
//! insert or a remove, and bounds relating single entries to the whole sum.

use vstd::prelude::*;

verus! {

/// The sum of all values of a finite map; zero on an infinite domain, which
/// never arises in this crate.
pub open spec fn map_sum(m: Map<Seq<char>, u128>) -> int
    decreases m.dom().len(),
    when m.dom().finite()
    via map_sum_decreases
{
    if m.dom().len() == 0 {
        0
    } else {
        let k = m.dom().choose();
        map_sum(m.remove(k)) + m[k]
    }
}

#[via_fn]
proof fn map_sum_decreases(m: Map<Seq<char>, u128>) {
    if m.dom().len() != 0 {
        let k = m.dom().choose();
        vstd::set_lib::lemma_set_empty_equivalency_len(m.dom());
        assert(m.dom().contains(k));
        assert(m.remove(k).dom() =~= m.dom().remove(k));
    }
}

/// Removing a present key takes exactly its value out of the sum.
pub proof fn lemma_map_sum_remove(m: Map<Seq<char>, u128>, k: Seq<char>)
    requires
        m.dom().finite(),
        m.dom().contains(k),
    ensures
        map_sum(m) == map_sum(m.remove(k)) + m[k],
    decreases m.dom().len(),
{
    let k0 = m.dom().choose();
    assert(m.dom().len() != 0);
    assert(m.dom().contains(k0));
    assert(map_sum(m) == map_sum(m.remove(k0)) + m[k0]);
    if k0 == k {
    } else {
        assert(m.remove(k0).dom() =~= m.dom().remove(k0));
        assert(m.remove(k).dom() =~= m.dom().remove(k));
        lemma_map_sum_remove(m.remove(k0), k);
        lemma_map_sum_remove(m.remove(k), k0);
        assert(m.remove(k0).remove(k) =~= m.remove(k).remove(k0));
        assert(map_sum(m.remove(k)) == map_sum(m.remove(k).remove(k0)) + m.remove(k)[k0]);
        assert(map_sum(m) == map_sum(m.remove(k)) + m[k]) by {
            assert(map_sum(m) == map_sum(m.remove(k0).remove(k)) + m[k] + m[k0]);
        }
    }
}

/// The sum of a map is never negative.
pub proof fn lemma_map_sum_nonneg(m: Map<Seq<char>, u128>)
    requires
        m.dom().finite(),
    ensures
        map_sum(m) >= 0,
    decreases m.dom().len(),
{
    if m.dom().len() != 0 {
        let k = m.dom().choose();
        vstd::set_lib::lemma_set_empty_equivalency_len(m.dom());
        assert(m.dom().contains(k));
        assert(m.remove(k).dom() =~= m.dom().remove(k));
        lemma_map_sum_nonneg(m.remove(k));
    }
}

/// Inserting under a fresh key adds exactly the new value.
pub proof fn lemma_map_sum_insert_fresh(m: Map<Seq<char>, u128>, k: Seq<char>, v: u128)
    requires
        m.dom().finite(),
        !m.dom().contains(k),
    ensures
        map_sum(m.insert(k, v)) == map_sum(m) + v,
{
    let m2 = m.insert(k, v);
    assert(m2.dom().finite());
    assert(m2.dom().contains(k));
    lemma_map_sum_remove(m2, k);
    assert(m2.remove(k) =~= m);
}

/// Overwriting a present key trades the old value for the new one.
pub proof fn lemma_map_sum_insert_existing(m: Map<Seq<char>, u128>, k: Seq<char>, v: u128)
    requires
        m.dom().finite(),
        m.dom().contains(k),
    ensures
        map_sum(m.insert(k, v)) == map_sum(m) - m[k] + v,
{
    let m2 = m.insert(k, v);
    assert(m2.dom() =~= m.dom());
    lemma_map_sum_remove(m2, k);
    lemma_map_sum_remove(m, k);
    assert(m2.remove(k) =~= m.remove(k));
}

/// A single entry never exceeds the sum.
pub proof fn lemma_map_sum_bound(m: Map<Seq<char>, u128>, k: Seq<char>)
    requires
        m.dom().finite(),
        m.dom().contains(k),
    ensures
        m[k] <= map_sum(m),
{
    lemma_map_sum_remove(m, k);
    assert(m.remove(k).dom() =~= m.dom().remove(k));
    lemma_map_sum_nonneg(m.remove(k));
}

/// Two entries under distinct keys together never exceed the sum.
pub proof fn lemma_map_sum_bound_two(m: Map<Seq<char>, u128>, k1: Seq<char>, k2: Seq<char>)
    requires
        m.dom().finite(),
        m.dom().contains(k1),
        m.dom().contains(k2),
        k1 != k2,
    ensures
        m[k1] + m[k2] <= map_sum(m),
{
    lemma_map_sum_remove(m, k1);
    assert(m.remove(k1).dom() =~= m.dom().remove(k1));
    lemma_map_sum_bound(m.remove(k1), k2);
}

} // verus!
