//! A map from string keys to values, backed by a vector of pairs with
//! pairwise-distinct keys. Both sub-ledgers, the type index and the approval
//! registry are instances of it.
//!
//! The logical content is exposed two ways: `kv()` is the sequence of
//! key/value pairs in storage order, and `m()` is the induced mathematical
//! map. Contracts on the ledger are stated over `m()`; `kv()` pins down the
//! enumeration order where a caller needs it.

use vstd::prelude::*;

verus! {

/// Does the pair sequence hold an entry for key `k`?
pub open spec fn has_key<V>(s: Seq<(Seq<char>, V)>, k: Seq<char>) -> bool {
    exists|i: int| 0 <= i < s.len() && s[i].0 == k
}

/// The index of key `k` in `s`; meaningful when `k` occurs and the keys are
/// pairwise distinct, in which case it is the unique occurrence.
pub open spec fn key_index<V>(s: Seq<(Seq<char>, V)>, k: Seq<char>) -> int {
    choose|i: int| 0 <= i < s.len() && s[i].0 == k
}

/// No two entries share a key.
pub open spec fn distinct_keys<V>(s: Seq<(Seq<char>, V)>) -> bool {
    forall|i: int, j: int| 0 <= i < j < s.len() ==> s[i].0 != s[j].0
}

/// The mathematical map induced by a pair sequence; later entries win, which
/// is immaterial once the keys are distinct.
pub open spec fn map_of<V>(s: Seq<(Seq<char>, V)>) -> Map<Seq<char>, V>
    decreases s.len(),
{
    if s.len() == 0 {
        Map::empty()
    } else {
        map_of(s.drop_last()).insert(s.last().0, s.last().1)
    }
}

pub proof fn lemma_map_of_contains<V>(s: Seq<(Seq<char>, V)>, k: Seq<char>)
    ensures
        map_of(s).dom().contains(k) <==> has_key(s, k),
    decreases s.len(),
{
    if s.len() == 0 {
    } else {
        lemma_map_of_contains(s.drop_last(), k);
        if has_key(s.drop_last(), k) {
            let i = choose|i: int| 0 <= i < s.drop_last().len() && s.drop_last()[i].0 == k;
            assert(s[i].0 == k);
        }
        if s.last().0 == k {
            assert(s[s.len() - 1].0 == k);
        }
        if has_key(s, k) && s.last().0 != k {
            let i = choose|i: int| 0 <= i < s.len() && s[i].0 == k;
            assert(s.drop_last()[i].0 == k);
        }
    }
}

pub proof fn lemma_map_of_index<V>(s: Seq<(Seq<char>, V)>, i: int)
    requires
        distinct_keys(s),
        0 <= i < s.len(),
    ensures
        map_of(s).dom().contains(s[i].0),
        map_of(s)[s[i].0] == s[i].1,
    decreases s.len(),
{
    if i == s.len() - 1 {
    } else {
        lemma_map_of_index(s.drop_last(), i);
        assert(s.drop_last()[i] == s[i]);
        assert(s[i].0 != s.last().0);
    }
}

pub proof fn lemma_map_of_finite<V>(s: Seq<(Seq<char>, V)>)
    ensures
        map_of(s).dom().finite(),
    decreases s.len(),
{
    if s.len() == 0 {
    } else {
        lemma_map_of_finite(s.drop_last());
    }
}

pub proof fn lemma_map_of_len<V>(s: Seq<(Seq<char>, V)>)
    requires
        distinct_keys(s),
    ensures
        map_of(s).dom().finite(),
        map_of(s).dom().len() == s.len(),
    decreases s.len(),
{
    lemma_map_of_finite(s);
    if s.len() == 0 {
        assert(map_of(s).dom() =~= Set::<Seq<char>>::empty());
    } else {
        lemma_map_of_len(s.drop_last());
        lemma_map_of_contains(s.drop_last(), s.last().0);
        assert(!has_key(s.drop_last(), s.last().0)) by {
            if has_key(s.drop_last(), s.last().0) {
                let i = choose|i: int|
                    0 <= i < s.drop_last().len() && s.drop_last()[i].0 == s.last().0;
                assert(s[i].0 == s[s.len() - 1].0);
            }
        }
    }
}

pub proof fn lemma_map_of_push<V>(s: Seq<(Seq<char>, V)>, k: Seq<char>, v: V)
    ensures
        map_of(s.push((k, v))) == map_of(s).insert(k, v),
{
    assert(s.push((k, v)).drop_last() =~= s);
    assert(s.push((k, v)).last() == (k, v));
}

pub proof fn lemma_map_of_update<V>(s: Seq<(Seq<char>, V)>, i: int, v: V)
    requires
        distinct_keys(s),
        0 <= i < s.len(),
    ensures
        map_of(s.update(i, (s[i].0, v))) == map_of(s).insert(s[i].0, v),
    decreases s.len(),
{
    let k = s[i].0;
    let t = s.update(i, (k, v));
    if i == s.len() - 1 {
        assert(t.drop_last() =~= s.drop_last());
        assert(map_of(t) =~= map_of(s).insert(k, v));
    } else {
        assert(t.drop_last() =~= s.drop_last().update(i, (k, v)));
        lemma_map_of_update(s.drop_last(), i, v);
        assert(s.drop_last()[i] == s[i]);
        assert(k != s.last().0);
        assert(t.last() == s.last());
        assert(map_of(t) =~= map_of(s).insert(k, v));
    }
}

pub proof fn lemma_map_of_remove<V>(s: Seq<(Seq<char>, V)>, i: int)
    requires
        distinct_keys(s),
        0 <= i < s.len(),
    ensures
        map_of(s.remove(i)) == map_of(s).remove(s[i].0),
    decreases s.len(),
{
    let k = s[i].0;
    if i == s.len() - 1 {
        assert(s.remove(i) =~= s.drop_last());
        lemma_map_of_contains(s.drop_last(), k);
        assert(!has_key(s.drop_last(), k)) by {
            if has_key(s.drop_last(), k) {
                let j = choose|j: int| 0 <= j < s.drop_last().len() && s.drop_last()[j].0 == k;
                assert(s[j].0 == s[i].0);
            }
        }
        assert(map_of(s.remove(i)) =~= map_of(s).remove(k));
    } else {
        assert(s.remove(i).drop_last() =~= s.drop_last().remove(i));
        assert(s.remove(i).last() == s.last());
        lemma_map_of_remove(s.drop_last(), i);
        assert(s.drop_last()[i] == s[i]);
        assert(k != s.last().0);
        assert(map_of(s.remove(i)) =~= map_of(s).remove(k));
    }
}

/// A vector-backed map from `String` keys to values of type `V`, with
/// pairwise-distinct keys.
#[derive(Debug)]
pub struct StrMap<V> {
    entries: Vec<(String, V)>,
}

impl<V> StrMap<V> {
    /// The key/value pairs in storage order, keys as character sequences.
    pub closed spec fn kv(self) -> Seq<(Seq<char>, V)> {
        self.entries@.map_values(|p: (String, V)| (p.0@, p.1))
    }

    /// Well-formed: no two entries share a key.
    pub open spec fn wf(self) -> bool {
        distinct_keys(self.kv())
    }

    /// The mathematical map this value represents.
    pub open spec fn m(self) -> Map<Seq<char>, V> {
        map_of(self.kv())
    }

    pub open spec fn contains(self, k: Seq<char>) -> bool {
        self.m().dom().contains(k)
    }

    pub fn new() -> (r: Self)
        ensures
            r.wf(),
            r.kv() == Seq::<(Seq<char>, V)>::empty(),
            r.m() == Map::<Seq<char>, V>::empty(),
    {
        let r = StrMap { entries: Vec::new() };
        proof {
            assert(r.kv() =~= Seq::<(Seq<char>, V)>::empty());
            assert(r.m() =~= Map::<Seq<char>, V>::empty());
        }
        r
    }

    fn find(&self, k: &String) -> (r: Option<usize>)
        ensures
            match r {
                Some(i) => i < self.kv().len() && self.kv()[i as int].0 == k@,
                None => !has_key(self.kv(), k@),
            },
    {
        let n = self.entries.len();
        let mut i: usize = 0;
        while i < n
            invariant
                i <= n,
                n == self.kv().len(),
                forall|j: int| 0 <= j < i ==> self.kv()[j].0 != k@,
            decreases n - i,
        {
            if self.entries[i].0 == *k {
                return Some(i);
            }
            i += 1;
        }
        None
    }

    pub fn contains_key(&self, k: &String) -> (r: bool)
        requires
            self.wf(),
        ensures
            r == self.contains(k@),
    {
        proof {
            lemma_map_of_contains(self.kv(), k@);
        }
        match self.find(k) {
            Some(_) => true,
            None => false,
        }
    }

    pub fn get(&self, k: &String) -> (r: Option<&V>)
        requires
            self.wf(),
        ensures
            match r {
                Some(v) => self.contains(k@) && *v == self.m()[k@],
                None => !self.contains(k@),
            },
    {
        proof {
            lemma_map_of_contains(self.kv(), k@);
        }
        match self.find(k) {
            Some(i) => {
                proof {
                    lemma_map_of_index(self.kv(), i as int);
                }
                Some(&self.entries[i].1)
            },
            None => None,
        }
    }

    pub fn insert(&mut self, k: String, v: V)
        requires
            old(self).wf(),
        ensures
            final(self).wf(),
            final(self).m() == old(self).m().insert(k@, v),
            old(self).contains(k@) ==> {
                &&& 0 <= key_index(old(self).kv(), k@) < old(self).kv().len()
                &&& old(self).kv()[key_index(old(self).kv(), k@)].0 == k@
                &&& final(self).kv() == old(self).kv().update(key_index(old(self).kv(), k@), (k@, v))
            },
            !old(self).contains(k@) ==> final(self).kv() == old(self).kv().push((k@, v)),
    {
        proof {
            lemma_map_of_contains(self.kv(), k@);
        }
        match self.find(&k) {
            Some(i) => {
                proof {
                    let s = old(self).kv();
                    let ki = key_index(s, k@);
                    assert(0 <= ki < s.len() && s[ki].0 == k@);
                    assert(ki == i as int);
                    lemma_map_of_update(s, i as int, v);
                }
                self.entries.set(i, (k, v));
                proof {
                    assert(self.kv() =~= old(self).kv().update(i as int, (k@, v)));
                    assert(forall|a: int, b: int|
                        0 <= a < b < self.kv().len() ==> self.kv()[a].0 == if a == i as int {
                            k@
                        } else {
                            old(self).kv()[a].0
                        } && self.kv()[b].0 == if b == i as int {
                            k@
                        } else {
                            old(self).kv()[b].0
                        });
                    assert(distinct_keys(self.kv()));
                }
            },
            None => {
                proof {
                    lemma_map_of_push(self.kv(), k@, v);
                }
                self.entries.push((k, v));
                proof {
                    assert(self.kv() =~= old(self).kv().push((k@, v)));
                    let s = self.kv();
                    assert forall|a: int, b: int| 0 <= a < b < s.len() implies s[a].0 != s[b].0 by {
                        if b == s.len() - 1 {
                            assert(s[a] == old(self).kv()[a]);
                            assert(!has_key(old(self).kv(), k@));
                        } else {
                            assert(s[a] == old(self).kv()[a]);
                            assert(s[b] == old(self).kv()[b]);
                        }
                    }
                }
            },
        }
    }

    pub fn remove(&mut self, k: &String) -> (r: Option<V>)
        requires
            old(self).wf(),
        ensures
            final(self).wf(),
            final(self).m() == old(self).m().remove(k@),
            match r {
                Some(v) => {
                    &&& old(self).contains(k@)
                    &&& v == old(self).m()[k@]
                    &&& 0 <= key_index(old(self).kv(), k@) < old(self).kv().len()
                    &&& old(self).kv()[key_index(old(self).kv(), k@)].0 == k@
                    &&& final(self).kv() == old(self).kv().remove(key_index(old(self).kv(), k@))
                },
                None => !old(self).contains(k@) && *final(self) == *old(self),
            },
    {
        proof {
            lemma_map_of_contains(self.kv(), k@);
        }
        match self.find(k) {
            Some(i) => {
                proof {
                    let s = old(self).kv();
                    let ki = key_index(s, k@);
                    assert(0 <= ki < s.len() && s[ki].0 == k@);
                    assert(ki == i as int);
                    lemma_map_of_index(s, i as int);
                    lemma_map_of_remove(s, i as int);
                }
                let p = self.entries.remove(i);
                proof {
                    assert(self.kv() =~= old(self).kv().remove(i as int));
                    let s = self.kv();
                    let t = old(self).kv();
                    assert forall|a: int, b: int| 0 <= a < b < s.len() implies s[a].0 != s[b].0 by {
                        let a0 = if a < i as int { a } else { a + 1 };
                        let b0 = if b < i as int { b } else { b + 1 };
                        assert(s[a] == t[a0]);
                        assert(s[b] == t[b0]);
                    }
                }
                Some(p.1)
            },
            None => {
                proof {
                    assert(old(self).m().remove(k@) =~= old(self).m());
                }
                None
            },
        }
    }

    pub fn len(&self) -> (n: usize)
        ensures
            n == self.kv().len(),
    {
        self.entries.len()
    }

    /// The number of keys, as the size of the map's domain.
    pub fn key_count(&self) -> (n: usize)
        requires
            self.wf(),
        ensures
            self.m().dom().finite(),
            n == self.m().dom().len(),
    {
        proof {
            lemma_map_of_len(self.kv());
        }
        self.entries.len()
    }
}

impl<V: Copy> StrMap<V> {
    /// A copy with the same entries in the same order, for handing the
    /// map's content out without giving the original up.
    pub fn duplicate(&self) -> (r: Self)
        ensures
            r.kv() == self.kv(),
    {
        let n = self.entries.len();
        let mut copied: Vec<(String, V)> = Vec::new();
        let mut i: usize = 0;
        while i < n
            invariant
                i <= n,
                n == self.entries@.len(),
                copied@.len() == i,
                forall|j: int| 0 <= j < i ==> copied@[j] == self.entries@[j],
            decreases n - i,
        {
            let p = &self.entries[i];
            copied.push((p.0.clone(), p.1));
            i += 1;
        }
        let r = StrMap { entries: copied };
        proof {
            assert(r.entries@ =~= self.entries@);
        }
        r
    }
}

} // verus!
