//! A flat lookup table keyed by [`Uri`].
//!
//! The table is a plain association list whose keys are pairwise distinct
//! identifiers; its mathematical model is the finite map from the identifiers'
//! segment lists to the deep views of the stored values. Insertion overwrites
//! an existing binding, so the model of every operation is exact.

use crate::uri::{Segs, Uri};
use vstd::prelude::*;

verus! {

/// An identifier-keyed map with a [`Map`] model.
pub struct UriMap<V> {
    entries: Vec<(Uri, V)>,
}

impl<V: DeepView> UriMap<V> {
    /// The raw bindings, in insertion order.
    pub closed spec fn entries_seq(&self) -> Seq<(Uri, V)> {
        self.entries@
    }

    /// Keys are well-formed and pairwise distinct.
    pub open spec fn wf(&self) -> bool {
        &&& forall|i: int|
            0 <= i < self.entries_seq().len() ==> (#[trigger] self.entries_seq()[i]).0.wf()
        &&& forall|i: int, j: int|
            0 <= i < j < self.entries_seq().len() ==> (#[trigger] self.entries_seq()[i]).0@ != (
            #[trigger] self.entries_seq()[j]).0@
    }

    /// The finite map this table stands for.
    pub open spec fn as_map(&self) -> Map<Segs, V::V> {
        Map::new(
            |k: Segs|
                exists|i: int|
                    0 <= i < self.entries_seq().len() && (#[trigger] self.entries_seq()[i]).0@
                        == k,
            |k: Segs|
                {
                    let i = choose|i: int|
                        0 <= i < self.entries_seq().len() && (#[trigger] self.entries_seq()[i]).0@
                            == k;
                    self.entries_seq()[i].1.deep_view()
                },
        )
    }

    /// Creates an empty table.
    pub fn new() -> (m: UriMap<V>)
        ensures
            m.wf(),
            m.as_map() == Map::<Segs, V::V>::empty(),
            m.entries_seq().len() == 0,
    {
        let m = UriMap::<V> { entries: Vec::new() };
        proof {
            assert(m.as_map() =~= Map::<Segs, V::V>::empty());
        }
        m
    }

    /// The number of bindings.
    pub fn len(&self) -> (n: usize)
        ensures
            n == self.entries_seq().len(),
    {
        self.entries.len()
    }

    /// The binding at position `i`, for iteration.
    pub fn entry_at(&self, i: usize) -> (r: &(Uri, V))
        requires
            i < self.entries_seq().len(),
        ensures
            *r == self.entries_seq()[i as int],
    {
        &self.entries[i]
    }

    /// Finds the position of a key, if bound.
    fn position(&self, key: &Uri) -> (r: Option<usize>)
        ensures
            match r {
                Some(i) => i < self.entries_seq().len() && self.entries_seq()[i as int].0@ == key@,
                None => forall|i: int|
                    0 <= i < self.entries_seq().len() ==> (#[trigger] self.entries_seq()[i]).0@
                        != key@,
            },
    {
        let n = self.entries.len();
        let mut i: usize = 0;
        while i < n
            invariant
                0 <= i <= n,
                n == self.entries_seq().len(),
                forall|j: int| 0 <= j < i ==> (#[trigger] self.entries_seq()[j]).0@ != key@,
            decreases n - i,
        {
            if self.entries[i].0 == *key {
                return Some(i);
            }
            i = i + 1;
        }
        None
    }

    /// Whether the key is bound.
    pub fn contains_key(&self, key: &Uri) -> (r: bool)
        ensures
            r == self.as_map().contains_key(key@),
    {
        self.position(key).is_some()
    }

    /// Looks a key up; returns its value exactly when the key is bound.
    pub fn get(&self, key: &Uri) -> (r: Option<&V>)
        requires
            self.wf(),
        ensures
            r is Some <==> self.as_map().contains_key(key@),
            r matches Some(v) ==> v.deep_view() == self.as_map()[key@],
    {
        match self.position(key) {
            Some(i) => {
                let v = &self.entries[i].1;
                proof {
                    lemma_unique_entry(self.entries_seq(), key@, i as int);
                }
                Some(v)
            },
            None => None,
        }
    }

    /// Each listed binding is bound in the map to its own value, and every
    /// bound key is listed.
    pub proof fn lemma_entries_in_map(&self)
        requires
            self.wf(),
        ensures
            forall|i: int|
                0 <= i < self.entries_seq().len() ==> self.as_map().contains_key(
                    (#[trigger] self.entries_seq()[i]).0@,
                ) && self.as_map()[self.entries_seq()[i].0@]
                    == self.entries_seq()[i].1.deep_view(),
            forall|k: Segs| #[trigger]
                self.as_map().contains_key(k) ==> exists|i: int|
                    0 <= i < self.entries_seq().len() && (#[trigger] self.entries_seq()[i]).0@
                        == k && self.as_map()[k] == self.entries_seq()[i].1.deep_view(),
    {
        assert forall|i: int| 0 <= i < self.entries_seq().len() implies self.as_map().contains_key(
            (#[trigger] self.entries_seq()[i]).0@,
        ) && self.as_map()[self.entries_seq()[i].0@]
            == self.entries_seq()[i].1.deep_view() by {
            let k = self.entries_seq()[i].0@;
            assert(self.as_map().contains_key(k));
            lemma_unique_entry(self.entries_seq(), k, i);
        }
        assert forall|k: Segs| #[trigger] self.as_map().contains_key(k) implies exists|i: int|
            0 <= i < self.entries_seq().len() && (#[trigger] self.entries_seq()[i]).0@ == k
                && self.as_map()[k] == self.entries_seq()[i].1.deep_view() by {
            let i = choose|i: int|
                0 <= i < self.entries_seq().len() && (#[trigger] self.entries_seq()[i]).0@ == k;
            lemma_unique_entry(self.entries_seq(), k, i);
            assert(self.entries_seq()[i].0@ == k && self.as_map()[k]
                == self.entries_seq()[i].1.deep_view());
        }
    }

    /// Binds `key` to `value`, replacing any earlier binding of the key.
    pub fn insert(&mut self, key: Uri, value: V)
        requires
            old(self).wf(),
            key.wf(),
        ensures
            final (self).wf(),
            final (self).as_map() == old(self).as_map().insert(key@, value.deep_view()),
            final (self).entries_seq().len() <= old(self).entries_seq().len() + 1,
    {
        let ghost k = key@;
        let ghost vv = value.deep_view();
        match self.position(&key) {
            Some(i) => {
                self.entries[i].1 = value;
                proof {
                    let pre = old(self).entries_seq();
                    let es = self.entries_seq();
                    assert(forall|j: int| 0 <= j < es.len() ==> (#[trigger] es[j]).0 == pre[j].0);
                    assert(es[i as int].1.deep_view() == vv);
                    assert(self.wf());
                    lemma_maps_agree::<V>(*old(self), *self, k, vv, i as int);
                }
            },
            None => {
                self.entries.push((key, value));
                proof {
                    let pre = old(self).entries_seq();
                    let es = self.entries_seq();
                    let n = es.len() - 1;
                    assert(forall|j: int| 0 <= j < n ==> es[j] == pre[j]);
                    assert(es[n].0@ == k && es[n].1.deep_view() == vv);
                    assert(self.wf());
                    assert forall|q: Segs| true implies self.as_map().contains_key(q) == old(
                        self,
                    ).as_map().insert(k, vv).contains_key(q) by {
                        if q == k {
                            assert(es[n].0@ == q);
                        } else {
                            if self.as_map().contains_key(q) {
                                let i = choose|i: int|
                                    0 <= i < es.len() && (#[trigger] es[i]).0@ == q;
                                assert(pre[i].0@ == q);
                            }
                            if old(self).as_map().contains_key(q) {
                                let i = choose|i: int|
                                    0 <= i < pre.len() && (#[trigger] pre[i]).0@ == q;
                                assert(es[i].0@ == q);
                            }
                        }
                    }
                    assert forall|q: Segs| self.as_map().contains_key(q) implies self.as_map()[q]
                        == old(self).as_map().insert(k, vv)[q] by {
                        let i = choose|i: int| 0 <= i < es.len() && (#[trigger] es[i]).0@ == q;
                        lemma_unique_entry(es, q, i);
                        if q == k {
                            assert(es[n].0@ == q);
                            assert(self.as_map()[q] == es[n].1.deep_view());
                        } else {
                            assert(es[i].0@ == q && i < n);
                            assert(pre[i].0@ == q);
                            lemma_unique_entry(pre, q, i);
                            assert(old(self).as_map()[q] == pre[i].1.deep_view());
                            assert(self.as_map()[q] == es[i].1.deep_view());
                        }
                    }
                    assert(self.as_map() =~= old(self).as_map().insert(k, vv));
                }
            },
        }
    }
}

/// In a list with pairwise distinct keys, every entry holding key `k` is the
/// entry at the known position `h`, so the map value chosen for `k` is that
/// entry's value.
proof fn lemma_unique_entry<U: DeepView>(es: Seq<(Uri, U)>, k: Segs, h: int)
    requires
        forall|i: int, j: int|
            0 <= i < j < es.len() ==> (#[trigger] es[i]).0@ != (#[trigger] es[j]).0@,
        0 <= h < es.len(),
        es[h].0@ == k,
    ensures
        forall|g: int| 0 <= g < es.len() && (#[trigger] es[g]).0@ == k ==> es[g] == es[h],
{
    assert forall|g: int| 0 <= g < es.len() && (#[trigger] es[g]).0@ == k implies es[g] == es[h] by {
        if g < h {
            assert(es[g].0@ != es[h].0@);
        } else if g > h {
            assert(es[h].0@ != es[g].0@);
        }
    }
}

/// After overwriting the value at position `i` (whose key is `k`) the map is
/// the old map with `k` rebound.
proof fn lemma_maps_agree<V: DeepView>(pre: UriMap<V>, post: UriMap<V>, k: Segs, vv: V::V, i: int)
    requires
        pre.wf(),
        post.wf(),
        pre.entries_seq().len() == post.entries_seq().len(),
        forall|j: int|
            0 <= j < post.entries_seq().len() ==> (#[trigger] post.entries_seq()[j]).0
                == pre.entries_seq()[j].0,
        forall|j: int|
            0 <= j < post.entries_seq().len() && j != i ==> (#[trigger] post.entries_seq()[j])
                == pre.entries_seq()[j],
        0 <= i < post.entries_seq().len(),
        post.entries_seq()[i].0@ == k,
        post.entries_seq()[i].1.deep_view() == vv,
    ensures
        post.as_map() == pre.as_map().insert(k, vv),
{
    let es = post.entries_seq();
    let ps = pre.entries_seq();
    assert forall|q: Segs| true implies post.as_map().contains_key(q) == pre.as_map().insert(
        k,
        vv,
    ).contains_key(q) by {
        if q == k {
            assert(es[i].0@ == q);
        } else {
            if post.as_map().contains_key(q) {
                let g = choose|g: int| 0 <= g < es.len() && (#[trigger] es[g]).0@ == q;
                assert(ps[g].0@ == q);
            }
            if pre.as_map().contains_key(q) {
                let g = choose|g: int| 0 <= g < ps.len() && (#[trigger] ps[g]).0@ == q;
                assert(es[g].0@ == q);
            }
        }
    }
    assert forall|q: Segs| post.as_map().contains_key(q) implies post.as_map()[q]
        == pre.as_map().insert(k, vv)[q] by {
        let g = choose|g: int| 0 <= g < es.len() && (#[trigger] es[g]).0@ == q;
        lemma_unique_entry(es, q, g);
        if q == k {
            assert(es[i].0@ == q);
            assert(es[g] == es[i]);
            assert(post.as_map()[q] == es[i].1.deep_view());
        } else {
            assert(g != i);
            assert(ps[g].0@ == q);
            lemma_unique_entry(ps, q, g);
            assert(pre.as_map()[q] == ps[g].1.deep_view());
            assert(post.as_map()[q] == es[g].1.deep_view());
        }
    }
    assert(post.as_map() =~= pre.as_map().insert(k, vv));
}

} // verus!
