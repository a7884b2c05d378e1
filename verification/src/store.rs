use vstd::prelude::*;

use crate::var::{InferenceValue, UniverseIndex};

verus! {

/// Exact duplication: the copy has the same model as the original.
pub trait ViewClone: View + Sized {
    fn view_clone(&self) -> (r: Self)
        ensures
            r@ == self@,
    ;
}

/// One slot of the union-find forest: a class representative carrying the
/// class's value, or a redirect to an earlier slot of the same class.
#[derive(Debug)]
pub enum StoreEntry<V> {
    Root(InferenceValue<V>),
    Redirect(usize),
}

/// An array-backed union-find forest over integer keys, each class annotated
/// with an `InferenceValue`. Redirects always point to strictly smaller
/// indices, which yields acyclicity.
#[derive(Debug)]
pub struct UnifyStore<V> {
    pub entries: Vec<StoreEntry<V>>,
}

/// The model of one slot: the value behind a root is replaced by its model.
pub open spec fn entry_view_of<V: View>(e: StoreEntry<V>) -> StoreEntry<V::V> {
    match e {
        StoreEntry::Root(InferenceValue::Unbound(u)) => StoreEntry::Root(
            InferenceValue::Unbound(u),
        ),
        StoreEntry::Root(InferenceValue::Bound(v)) => StoreEntry::Root(InferenceValue::Bound(v@)),
        StoreEntry::Redirect(j) => StoreEntry::Redirect(j),
    }
}

impl<V> UnifyStore<V> {
    pub open spec fn len(self) -> nat {
        self.entries@.len()
    }

    /// Redirects point strictly downward, so every chain terminates.
    pub open spec fn wf(self) -> bool {
        forall|i: int|
            0 <= i < self.entries@.len() ==> ((#[trigger] self.entries@[i]) is Redirect
                ==> self.entries@[i]->Redirect_0 < i)
    }

    /// The representative of key `i`'s class.
    pub open spec fn root_of(self, i: int) -> int
        decreases i,
        when self.wf() && 0 <= i < self.entries@.len()
    {
        if self.entries@[i] is Redirect {
            self.root_of(self.entries@[i]->Redirect_0 as int)
        } else {
            i
        }
    }

    /// The value of key `i`'s class.
    pub open spec fn value_of(self, i: int) -> InferenceValue<V> {
        self.entries@[self.root_of(i)]->Root_0
    }

    pub proof fn lemma_root_of(self, i: int)
        requires
            self.wf(),
            0 <= i < self.len(),
        ensures
            0 <= self.root_of(i) <= i,
            self.entries@[self.root_of(i)] is Root,
            self.root_of(self.root_of(i)) == self.root_of(i),
        decreases i,
    {
        if self.entries@[i] is Redirect {
            self.lemma_root_of(self.entries@[i]->Redirect_0 as int);
        }
    }

    /// Two stores that agree on all slots up to `j` give `j` the same
    /// representative and value.
    pub proof fn lemma_root_agree(s1: Self, s2: Self, j: int)
        requires
            s1.wf(),
            s2.wf(),
            0 <= j < s1.len(),
            j < s2.len(),
            forall|k: int| 0 <= k <= j ==> s1.entries@[k] == s2.entries@[k],
        ensures
            s1.root_of(j) == s2.root_of(j),
            s1.value_of(j) == s2.value_of(j),
        decreases j,
    {
        s1.lemma_root_of(j);
        if s1.entries@[j] is Redirect {
            Self::lemma_root_agree(s1, s2, s1.entries@[j]->Redirect_0 as int);
        }
    }

    /// Replacing the entry at a root slot by another root entry moves no key
    /// to a different representative.
    pub proof fn lemma_root_update(s1: Self, s2: Self, p: int, j: int)
        requires
            s1.wf(),
            s2.wf(),
            s1.len() == s2.len(),
            0 <= p < s1.len(),
            0 <= j < s1.len(),
            s1.entries@[p] is Root,
            s2.entries@[p] is Root,
            forall|k: int| 0 <= k < s1.len() && k != p ==> s1.entries@[k] == s2.entries@[k],
        ensures
            s2.root_of(j) == s1.root_of(j),
        decreases j,
    {
        if s1.entries@[j] is Redirect {
            Self::lemma_root_update(s1, s2, p, s1.entries@[j]->Redirect_0 as int);
        }
    }

    /// After redirecting root `hi` to root `lo`, the keys previously rooted
    /// at `hi` move to `lo` and every other key keeps its representative.
    pub proof fn lemma_root_union(s1: Self, s2: Self, hi: int, lo: int, j: int)
        requires
            s1.wf(),
            s2.wf(),
            s1.len() == s2.len(),
            0 <= lo < hi < s1.len(),
            0 <= j < s1.len(),
            s1.entries@[hi] is Root,
            s1.entries@[lo] is Root,
            s2.entries@[hi] is Redirect,
            s2.entries@[hi]->Redirect_0 == lo,
            s2.entries@[lo] is Root,
            s2.wf(),
            forall|k: int| 0 <= k < s1.len() && k != hi && k != lo ==> s1.entries@[k]
                == s2.entries@[k],
        ensures
            s2.root_of(j) == if s1.root_of(j) == hi {
                lo
            } else {
                s1.root_of(j)
            },
        decreases j,
    {
        if j == hi {
            assert(s2.root_of(j) == s2.root_of(lo));
            assert(s2.root_of(lo) == lo);
            assert(s1.root_of(j) == hi);
        } else if j == lo {
            assert(s1.root_of(j) == lo);
            assert(s2.root_of(j) == lo);
        } else {
            if s1.entries@[j] is Redirect {
                let t = s1.entries@[j]->Redirect_0 as int;
                assert(s2.entries@[j] == s1.entries@[j]);
                Self::lemma_root_union(s1, s2, hi, lo, t);
            } else {
                assert(s1.root_of(j) == j);
                assert(s2.entries@[j] == s1.entries@[j]);
                assert(s2.root_of(j) == j);
            }
        }
    }

    /// Creates a fresh key, unbound in the given universe.
    pub fn new_key(&mut self, ui: UniverseIndex) -> (k: usize)
        requires
            old(self).wf(),
        ensures
            final(self).wf(),
            k == old(self).len(),
            final(self).len() == old(self).len() + 1,
            final(self).root_of(k as int) == k as int,
            final(self).value_of(k as int) == InferenceValue::<V>::Unbound(ui),
            forall|j: int| 0 <= j < old(self).len() ==> final(self).root_of(j) == old(self).root_of(j),
            forall|j: int| 0 <= j < old(self).len() ==> final(self).value_of(j) == old(self).value_of(j),
    {
        let k = self.entries.len();
        self.entries.push(StoreEntry::Root(InferenceValue::Unbound(ui)));
        proof {
            assert forall|j: int| 0 <= j < old(self).len() implies final(self).root_of(j) == old(self).root_of(j) && final(self).value_of(j) == old(self).value_of(j) by {
                Self::lemma_root_agree(*old(self), *self, j);
            }
        }
        k
    }

    /// The number of keys created so far.
    pub fn key_count(&self) -> (r: usize)
        ensures
            r == self.len(),
    {
        self.entries.len()
    }

    /// Walks the redirect chain of `k` to its class representative.
    pub fn find_root(&self, k: usize) -> (r: usize)
        requires
            self.wf(),
            k < self.len(),
        ensures
            r as int == self.root_of(k as int),
            r < self.len(),
            self.entries@[r as int] is Root,
        decreases k,
    {
        proof {
            self.lemma_root_of(k as int);
        }
        match &self.entries[k] {
            StoreEntry::Redirect(j) => self.find_root(*j),
            StoreEntry::Root(_) => k,
        }
    }

    /// The current value of `k`'s class.
    pub fn probe(&self, k: usize) -> (r: &InferenceValue<V>)
        requires
            self.wf(),
            k < self.len(),
        ensures
            *r == self.value_of(k as int),
    {
        let root = self.find_root(k);
        match &self.entries[root] {
            StoreEntry::Root(v) => v,
            StoreEntry::Redirect(_) => vstd::pervasive::unreached(),
        }
    }

    /// Sets the value of `k`'s whole class, leaving the partition untouched.
    pub fn set_value(&mut self, k: usize, v: InferenceValue<V>)
        requires
            old(self).wf(),
            k < old(self).len(),
        ensures
            final(self).wf(),
            final(self).len() == old(self).len(),
            forall|j: int| 0 <= j < old(self).len() ==> final(self).root_of(j) == old(self).root_of(j),
            forall|j: int|
                0 <= j < old(self).len() && old(self).root_of(j) == old(self).root_of(k as int)
                    ==> final(self).value_of(j) == v,
            forall|j: int|
                0 <= j < old(self).len() && old(self).root_of(j) != old(self).root_of(k as int)
                    ==> final(self).value_of(j) == old(self).value_of(j),
    {
        let root = self.find_root(k);
        self.entries[root] = StoreEntry::Root(v);
        proof {
            assert(final(self).entries@ =~= old(self).entries@.update(
                root as int,
                StoreEntry::Root(v),
            ));
            assert forall|j: int| 0 <= j < old(self).len() implies final(self).root_of(j) == old(self).root_of(j) by {
                Self::lemma_root_update(*old(self), *self, root as int, j);
            }
            assert forall|j: int| 0 <= j < old(self).len() implies (if old(self).root_of(j) == old(self).root_of(k as int) {
                final(self).value_of(j) == v
            } else {
                final(self).value_of(j) == old(self).value_of(j)
            }) by {
                old(self).lemma_root_of(j);
            }
        }
    }

    /// Merges the classes of two unbound keys; the merged class is unbound in
    /// the more restrictive (smaller) of the two universes.
    pub fn union(&mut self, a: usize, b: usize)
        requires
            old(self).wf(),
            a < old(self).len(),
            b < old(self).len(),
            old(self).value_of(a as int) is Unbound,
            old(self).value_of(b as int) is Unbound,
        ensures
            final(self).wf(),
            final(self).len() == old(self).len(),
            old(self).root_of(a as int) == old(self).root_of(b as int) ==> *final(self) == *old(
                self,
            ),
            final(self).root_of(a as int) == final(self).root_of(b as int),
            forall|j: int|
                0 <= j < old(self).len() ==> final(self).root_of(j) == (if old(self).root_of(j)
                    == old(self).root_of(a as int) || old(self).root_of(j) == old(self).root_of(
                    b as int,
                ) {
                    final(self).root_of(a as int)
                } else {
                    old(self).root_of(j)
                }),
            forall|j: int|
                0 <= j < old(self).len() && (old(self).root_of(j) == old(self).root_of(a as int)
                    || old(self).root_of(j) == old(self).root_of(b as int)) ==> final(self).value_of(j) == InferenceValue::<V>::Unbound(
                    old(self).value_of(a as int)->Unbound_0.spec_min(
                        old(self).value_of(b as int)->Unbound_0,
                    ),
                ),
            forall|j: int|
                0 <= j < old(self).len() && old(self).root_of(j) != old(self).root_of(a as int)
                    && old(self).root_of(j) != old(self).root_of(b as int) ==> final(self).value_of(j) == old(self).value_of(j),
    {
        let ra = self.find_root(a);
        let rb = self.find_root(b);
        let ua = match &self.entries[ra] {
            StoreEntry::Root(InferenceValue::Unbound(u)) => *u,
            _ => vstd::pervasive::unreached(),
        };
        let ub = match &self.entries[rb] {
            StoreEntry::Root(InferenceValue::Unbound(u)) => *u,
            _ => vstd::pervasive::unreached(),
        };
        let merged = if ua.counter <= ub.counter {
            ua
        } else {
            ub
        };
        if ra == rb {
            return ;
        }
        let hi: usize = if ra > rb {
            ra
        } else {
            rb
        };
        let lo: usize = if ra > rb {
            rb
        } else {
            ra
        };
        self.entries[hi] = StoreEntry::Redirect(lo);
        self.entries[lo] = StoreEntry::Root(InferenceValue::Unbound(merged));
        proof {
            let s1 = *old(self);
            let s2 = *self;
            assert(s2.entries@ =~= s1.entries@.update(hi as int, StoreEntry::Redirect(
                lo as usize,
            )).update(lo as int, StoreEntry::Root(InferenceValue::Unbound(merged))));
            assert forall|i: int| 0 <= i < s2.entries@.len() implies ((#[trigger] s2.entries@[i])
                is Redirect ==> s2.entries@[i]->Redirect_0 < i) by {}
            assert forall|j: int| 0 <= j < s1.len() implies s2.root_of(j) == (if s1.root_of(j)
                == hi as int {
                lo as int
            } else {
                s1.root_of(j)
            }) by {
                Self::lemma_root_union(s1, s2, hi as int, lo as int, j);
            }
            assert forall|j: int| 0 <= j < s1.len() implies (if s1.root_of(j) == s1.root_of(
                a as int,
            ) || s1.root_of(j) == s1.root_of(b as int) {
                s2.value_of(j) == InferenceValue::<V>::Unbound(
                    s1.value_of(a as int)->Unbound_0.spec_min(s1.value_of(b as int)->Unbound_0),
                )
            } else {
                s2.value_of(j) == s1.value_of(j)
            }) by {
                s1.lemma_root_of(j);
                s1.lemma_root_of(a as int);
                s1.lemma_root_of(b as int);
            }
        }
    }
}

impl<V: View> UnifyStore<V> {
    /// The model of the store: each slot's model, in order.
    pub open spec fn store_view(self) -> Seq<StoreEntry<V::V>> {
        Seq::new(self.entries@.len(), |i: int| entry_view_of(self.entries@[i]))
    }

    /// The model of the value of key `i`'s class.
    pub open spec fn value_view(self, i: int) -> InferenceValue<V::V> {
        match self.value_of(i) {
            InferenceValue::Unbound(u) => InferenceValue::Unbound(u),
            InferenceValue::Bound(v) => InferenceValue::Bound(v@),
        }
    }

    /// Entries with equal models have the same shape.
    pub proof fn lemma_entry_view(e1: StoreEntry<V>, e2: StoreEntry<V>)
        requires
            entry_view_of(e1) == entry_view_of(e2),
        ensures
            e1 is Redirect <==> e2 is Redirect,
            e1 is Redirect ==> e1->Redirect_0 == e2->Redirect_0,
            e1 is Root ==> ((e1->Root_0 is Unbound <==> e2->Root_0 is Unbound) && (e1->Root_0
                is Unbound ==> e1->Root_0->Unbound_0 == e2->Root_0->Unbound_0) && (e1->Root_0
                is Bound ==> e1->Root_0->Bound_0@ == e2->Root_0->Bound_0@)),
    {
        match (e1, e2) {
            (StoreEntry::Root(InferenceValue::Unbound(_)), StoreEntry::Root(_)) => {}
            (StoreEntry::Root(InferenceValue::Bound(_)), StoreEntry::Root(_)) => {}
            (StoreEntry::Redirect(_), StoreEntry::Redirect(_)) => {}
            _ => {}
        }
    }

    /// Stores with equal models are well-formed together and give every key
    /// the same representative and the same value model.
    pub proof fn lemma_same_view(s1: Self, s2: Self, j: int)
        requires
            s1.wf(),
            s1.store_view() == s2.store_view(),
            0 <= j < s1.len(),
        ensures
            s2.wf(),
            s2.len() == s1.len(),
            s2.root_of(j) == s1.root_of(j),
            s2.value_view(j) == s1.value_view(j),
        decreases j,
    {
        assert(s1.store_view().len() == s1.len());
        assert(s2.store_view().len() == s2.len());
        assert forall|i: int| 0 <= i < s1.len() implies entry_view_of(s1.entries@[i])
            == entry_view_of(s2.entries@[i]) by {
            assert(s2.len() == s1.len());
            assert(s1.store_view()[i] == entry_view_of(s1.entries@[i]));
            assert(s2.store_view()[i] == entry_view_of(s2.entries@[i]));
            assert(s1.store_view()[i] == s2.store_view()[i]);
        }
        assert forall|i: int| 0 <= i < s2.entries@.len() implies ((#[trigger] s2.entries@[i])
            is Redirect ==> s2.entries@[i]->Redirect_0 < i) by {
            Self::lemma_entry_view(s1.entries@[i], s2.entries@[i]);
        }
        if s1.entries@[j] is Redirect {
            Self::lemma_entry_view(s1.entries@[j], s2.entries@[j]);
            Self::lemma_same_view(s1, s2, s1.entries@[j]->Redirect_0 as int);
        } else {
            s1.lemma_root_of(j);
            Self::lemma_entry_view(s1.entries@[j], s2.entries@[j]);
            assert(s2.root_of(j) == j);
            assert(s1.root_of(j) == j);
        }
    }

    /// Copies the store exactly: the copy has the same model.
    pub fn duplicate(&self) -> (r: Self) where V: crate::store::ViewClone
        requires
            self.wf(),
        ensures
            r.wf(),
            r.len() == self.len(),
            r.store_view() == self.store_view(),
            forall|j: int| 0 <= j < self.len() ==> r.root_of(j) == self.root_of(j),
            forall|j: int| 0 <= j < self.len() ==> r.value_view(j) == self.value_view(j),
    {
        let mut out: Vec<StoreEntry<V>> = Vec::new();
        let n = self.entries.len();
        let mut i: usize = 0;
        while i < n
            invariant
                i <= n,
                n == self.entries@.len(),
                out@.len() == i as int,
                forall|j: int| 0 <= j < i ==> entry_view_of(out@[j]) == entry_view_of(
                    self.entries@[j],
                ),
            decreases n - i,
        {
            let e = match &self.entries[i] {
                StoreEntry::Root(InferenceValue::Unbound(u)) => StoreEntry::Root(
                    InferenceValue::Unbound(*u),
                ),
                StoreEntry::Root(InferenceValue::Bound(v)) => StoreEntry::Root(
                    InferenceValue::Bound(v.view_clone()),
                ),
                StoreEntry::Redirect(j) => StoreEntry::Redirect(*j),
            };
            out.push(e);
            i += 1;
        }
        let r = UnifyStore { entries: out };
        proof {
            assert(r.store_view() =~= self.store_view());
            assert forall|i2: int| 0 <= i2 < r.entries@.len() implies ((#[trigger] r.entries@[i2])
                is Redirect ==> r.entries@[i2]->Redirect_0 < i2) by {
                assert(entry_view_of(r.entries@[i2]) == entry_view_of(self.entries@[i2]));
            }
            assert forall|j: int| 0 <= j < self.len() implies r.root_of(j) == self.root_of(j)
                && r.value_view(j) == self.value_view(j) by {
                Self::lemma_same_view(*self, r, j);
            }
        }
        r
    }
}

} // verus!
