//! Lists kept by key.
use crate::types::faithful_key;
use vstd::prelude::*;

verus! {

/// A list of `X` for each of some keys, in the order in which it was filled.
pub struct ListMap<K, X> {
    entries: Vec<(K, Vec<X>)>,
}

/// The list under `k`; where there is none, an empty one.
pub open spec fn list_of<K, X>(m: Map<K, Seq<X>>, k: K) -> Seq<X> {
    if m.contains_key(k) {
        m[k]
    } else {
        Seq::empty()
    }
}

/// Where there is a list under a key, that is it; elsewhere it is empty.
pub proof fn lists_are_by_key<K, X>(m: Map<K, Seq<X>>, k: K)
    ensures
        m.contains_key(k) ==> list_of(m, k) == m[k],
        !m.contains_key(k) ==> list_of(m, k).len() == 0,
{
}

impl<K, X> ListMap<K, X> {
    spec fn at(self, k: K) -> int {
        choose|i: int| 0 <= i < self.entries.len() && (#[trigger] self.entries[i]).0 == k
    }

    /// No key occurs twice.
    pub closed spec fn wf(self) -> bool {
        forall|i: int, j: int|
            0 <= i < j < self.entries.len() ==> (#[trigger] self.entries[i]).0 != (
            #[trigger] self.entries[j]).0
    }

    /// The lists by their keys.
    pub closed spec fn view(self) -> Map<K, Seq<X>> {
        Map::new(
            |k: K|
                exists|i: int| 0 <= i < self.entries.len() && (#[trigger] self.entries[i]).0 == k,
            |k: K| self.entries[self.at(k)].1@,
        )
    }

    proof fn lemma_entry(self, i: int)
        requires
            self.wf(),
            0 <= i < self.entries.len(),
        ensures
            self@.contains_key(self.entries[i].0),
            self@[self.entries[i].0] == self.entries[i].1@,
            self.at(self.entries[i].0) == i,
    {
        let k = self.entries[i].0;
        let j = self.at(k);
        assert(self.entries[i].0 == k);
        assert(0 <= j < self.entries.len() && self.entries[j].0 == k);
    }

    /// No list under any key.
    pub fn new() -> (m: Self)
        ensures
            m@ == Map::<K, Seq<X>>::empty(),
            m.wf(),
    {
        let m = ListMap { entries: Vec::new() };
        assert(m@ =~= Map::<K, Seq<X>>::empty());
        m
    }

    /// Where `k` stands.
    fn find(&self, k: &K) -> (r: Option<usize>) where K: PartialEq + Clone
        requires
            faithful_key::<K>(),
            self.wf(),
        ensures
            match r {
                Some(i) => i < self.entries.len() && self.entries[i as int].0 == *k
                    && self@.contains_key(*k) && self@[*k] == self.entries[i as int].1@,
                None => !self@.contains_key(*k),
            },
    {
        let n: usize = self.entries.len();
        let mut i: usize = 0;
        while i < n
            invariant
                faithful_key::<K>(),
                self.wf(),
                n == self.entries.len(),
                i <= n,
                forall|j: int| 0 <= j < i ==> (#[trigger] self.entries[j]).0 != *k,
            decreases n - i,
        {
            if self.entries[i].0 == *k {
                proof {
                    self.lemma_entry(i as int);
                }
                return Some(i);
            }
            i = i + 1;
        }
        None
    }

    /// Takes the list under `k` out.
    pub fn take(&mut self, k: &K) -> (r: Option<Vec<X>>) where K: PartialEq + Clone
        requires
            faithful_key::<K>(),
            old(self).wf(),
        ensures
            final(self).wf(),
            final(self)@ == old(self)@.remove(*k),
            match r {
                Some(l) => old(self)@.contains_key(*k) && l@ == old(self)@[*k],
                None => !old(self)@.contains_key(*k),
            },
    {
        match self.find(k) {
            Some(i) => {
                let (_, l) = self.entries.swap_remove(i);
                proof {
                    let n = old(self).entries.len() - 1;
                    assert forall|j: int| 0 <= j < n implies #[trigger] self.entries[j]
                        == old(self).entries[if j == i { n } else { j }] by {}
                    assert(self.wf());
                    let m = self@;
                    let o = old(self)@.remove(*k);
                    assert forall|q: K| #[trigger] o.contains_key(q) implies m.contains_key(q) && m[q]
                        == o[q] by {
                        let j = old(self).at(q);
                        old(self).lemma_entry(j);
                        let h = if j == n { i as int } else { j };
                        assert(self.entries[h] == old(self).entries[j]);
                        self.lemma_entry(h);
                    }
                    assert forall|q: K| #[trigger] m.contains_key(q) implies o.contains_key(q) by {
                        let h = self.at(q);
                        let j = if h == i { n } else { h };
                        assert(self.entries[h] == old(self).entries[j]);
                        old(self).lemma_entry(j);
                    }
                    assert(m =~= o);
                }
                Some(l)
            },
            None => {
                assert(self@ =~= old(self)@.remove(*k));
                None
            },
        }
    }

    /// Puts a list under `k`, where there is none.
    pub fn put(&mut self, k: K, l: Vec<X>)
        requires
            old(self).wf(),
            !old(self)@.contains_key(k),
        ensures
            final(self).wf(),
            final(self)@ == old(self)@.insert(k, l@),
    {
        let ghost o = *self;
        self.entries.push((k, l));
        proof {
            let n = o.entries.len() as int;
            assert forall|j: int| 0 <= j < n implies (#[trigger] self.entries[j]) == o.entries[j]
                && self.entries[j].0 != k by {
                o.lemma_entry(j);
            }
            assert(self.wf());
            self.lemma_entry(n);
            let want = o@.insert(k, l@);
            assert forall|q: K| #[trigger] want.contains_key(q) implies self@.contains_key(q)
                && self@[q] == want[q] by {
                if q != k {
                    let j = o.at(q);
                    o.lemma_entry(j);
                    assert(self.entries[j] == o.entries[j]);
                    self.lemma_entry(j);
                }
            }
            assert forall|q: K| #[trigger] self@.contains_key(q) implies want.contains_key(q) by {
                let h = self.at(q);
                if h < n {
                    assert(self.entries[h] == o.entries[h]);
                    o.lemma_entry(h);
                }
            }
            assert(self@ =~= want);
        }
    }

    /// Adds `x` at the end of the list under `k`.
    pub fn push(&mut self, k: K, x: X) where K: PartialEq + Clone
        requires
            faithful_key::<K>(),
            old(self).wf(),
        ensures
            final(self).wf(),
            final(self)@ == old(self)@.insert(k, list_of(old(self)@, k).push(x)),
    {
        let mut l = match self.take(&k) {
            Some(l) => l,
            None => Vec::new(),
        };
        l.push(x);
        self.put(k, l);
        assert(self@ =~= old(self)@.insert(k, list_of(old(self)@, k).push(x)));
    }

    /// Takes the last of the list under `k`, which is there from then on.
    pub fn pop(&mut self, k: K) -> (r: Option<X>) where K: PartialEq + Clone
        requires
            faithful_key::<K>(),
            old(self).wf(),
        ensures
            final(self).wf(),
            ({
                let l = list_of(old(self)@, k);
                if l.len() == 0 {
                    r is None && final(self)@ == old(self)@.insert(k, l)
                } else {
                    r == Some(l.last()) && final(self)@ == old(self)@.insert(k, l.drop_last())
                }
            }),
    {
        let mut l = match self.take(&k) {
            Some(l) => l,
            None => Vec::new(),
        };
        let r = l.pop();
        let ghost left = l@;
        self.put(k, l);
        assert(self@ =~= old(self)@.insert(k, left));
        r
    }
}

} // verus!
