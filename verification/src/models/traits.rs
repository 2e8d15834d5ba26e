//! Canonical order, applied bottom-up.

use vstd::prelude::*;
use crate::sorting::{
    lemma_stable_sort_fixpoint, lemma_stable_sort_permutes, lemma_stable_sort_sorted, sort, sorted,
    stable_sort, Ranked,
};

verus! {

/// A record that owns lists, each of which has a canonical order.
///
/// `canonical` gives the record with every list below it sorted, the lists
/// of its elements first; `is_canonical` holds of a record in which every
/// such list is sorted already.
pub trait RecursiveSort: DeepView + Sized {
    /// The record with every list below it in canonical order.
    spec fn canonical(v: <Self as DeepView>::V) -> <Self as DeepView>::V;

    /// Whether every list below the record is sorted.
    spec fn is_canonical(v: <Self as DeepView>::V) -> bool;

    /// Brings every list below `self` into canonical order.
    fn recursive_sort(&mut self)
        ensures
            final(self).deep_view() == Self::canonical(old(self).deep_view()),
            Self::is_canonical(final(self).deep_view()),
    ;

    /// In the canonical form every list is sorted.
    proof fn lemma_canonical_sorted(v: <Self as DeepView>::V)
        ensures
            Self::is_canonical(Self::canonical(v)),
    ;

    /// A record whose lists are sorted is its own canonical form.
    proof fn lemma_canonical_fixpoint(v: <Self as DeepView>::V)
        requires
            Self::is_canonical(v),
        ensures
            Self::canonical(v) == v,
    ;
}

/// Whether every element of `s` is canonical.
pub open spec fn all_canonical<T: RecursiveSort>(s: Seq<T::V>) -> bool {
    forall|i: int| 0 <= i < s.len() ==> T::is_canonical(#[trigger] s[i])
}

/// The canonical form of each element of `s`, in the order of `s`.
pub open spec fn each_canonical<T: RecursiveSort>(s: Seq<T::V>) -> Seq<T::V> {
    s.map_values(|v: T::V| T::canonical(v))
}

/// Canonical elements stay canonical when they are sorted.
pub proof fn lemma_sort_keeps_canonical<T: RecursiveSort + Ranked>(s: Seq<T::V>)
    requires
        all_canonical::<T>(s),
    ensures
        all_canonical::<T>(stable_sort::<T>(s)),
{
    broadcast use vstd::seq_lib::to_multiset_contains;

    let t = stable_sort::<T>(s);
    lemma_stable_sort_permutes::<T>(s);
    assert forall|i: int| 0 <= i < t.len() implies T::is_canonical(#[trigger] t[i]) by {
        assert(t.contains(t[i]));
        assert(t.to_multiset().count(t[i]) > 0);
        assert(s.contains(t[i]));
        let k = choose|k: int| 0 <= k < s.len() && s[k] == t[i];
        assert(T::is_canonical(s[k]));
    }
}

impl<T: RecursiveSort + Ranked> RecursiveSort for Vec<T> {
    open spec fn canonical(v: Seq<T::V>) -> Seq<T::V> {
        stable_sort::<T>(each_canonical::<T>(v))
    }

    open spec fn is_canonical(v: Seq<T::V>) -> bool {
        sorted::<T>(v) && all_canonical::<T>(v)
    }

    /// Brings each element into canonical order, then sorts the elements.
    fn recursive_sort(&mut self) {
        let ghost orig = self.deep_view();
        let mut i: usize = 0;
        while i < self.len()
            invariant
                i <= self.len(),
                self.len() == orig.len(),
                forall|k: int|
                    0 <= k < i ==> (#[trigger] self[k]).deep_view() == T::canonical(orig[k]),
                forall|k: int| i <= k < self.len() ==> (#[trigger] self[k]).deep_view() == orig[k],
            decreases self.len() - i,
        {
            self[i].recursive_sort();
            i += 1;
        }
        assert(self.deep_view() =~= each_canonical::<T>(orig));
        sort(self);
        proof {
            Self::lemma_canonical_sorted(orig);
        }
    }

    proof fn lemma_canonical_sorted(v: Seq<T::V>) {
        let each = each_canonical::<T>(v);
        assert forall|i: int| 0 <= i < each.len() implies T::is_canonical(#[trigger] each[i]) by {
            T::lemma_canonical_sorted(v[i]);
        }
        lemma_sort_keeps_canonical::<T>(each);
        lemma_stable_sort_sorted::<T>(each);
    }

    proof fn lemma_canonical_fixpoint(v: Seq<T::V>) {
        let each = each_canonical::<T>(v);
        assert forall|i: int| 0 <= i < v.len() implies each[i] == v[i] by {
            T::lemma_canonical_fixpoint(v[i]);
        }
        assert(each =~= v);
        lemma_stable_sort_fixpoint::<T>(v);
    }
}

impl<T: RecursiveSort> RecursiveSort for Option<T> {
    open spec fn canonical(v: Option<T::V>) -> Option<T::V> {
        match v {
            Some(x) => Some(T::canonical(x)),
            None => None,
        }
    }

    open spec fn is_canonical(v: Option<T::V>) -> bool {
        match v {
            Some(x) => T::is_canonical(x),
            None => true,
        }
    }

    /// Brings what the option holds, if anything, into canonical order.
    fn recursive_sort(&mut self) {
        match self {
            Some(x) => {
                x.recursive_sort();
            },
            None => {},
        }
    }

    proof fn lemma_canonical_sorted(v: Option<T::V>) {
        if v is Some {
            T::lemma_canonical_sorted(v->0);
        }
    }

    proof fn lemma_canonical_fixpoint(v: Option<T::V>) {
        if v is Some {
            T::lemma_canonical_fixpoint(v->0);
        }
    }
}

} // verus!
