//! A stable sort over a total preorder, with its specification.

use vstd::prelude::*;
use vstd::seq_lib::to_multiset_insert;

verus! {

/// A type whose values are ranked by a total preorder on their models.
pub trait Ranked: DeepView + Sized {
    /// Whether `a` may stand before `b`: `a` ranks below `b` or level with it.
    spec fn ranks_le(a: <Self as DeepView>::V, b: <Self as DeepView>::V) -> bool;

    /// Whether `self` may stand before `other`.
    fn precedes(&self, other: &Self) -> (r: bool)
        ensures
            r == Self::ranks_le(self.deep_view(), other.deep_view()),
    ;

    /// Any two values are ranked one way or the other.
    proof fn lemma_ranks_total(a: <Self as DeepView>::V, b: <Self as DeepView>::V)
        ensures
            Self::ranks_le(a, b) || Self::ranks_le(b, a),
    ;

    /// The ranking is transitive.
    proof fn lemma_ranks_transitive(
        a: <Self as DeepView>::V,
        b: <Self as DeepView>::V,
        c: <Self as DeepView>::V,
    )
        requires
            Self::ranks_le(a, b),
            Self::ranks_le(b, c),
        ensures
            Self::ranks_le(a, c),
    ;
}

/// Whether each element of `s` may stand before the next.
pub open spec fn sorted<T: Ranked>(s: Seq<T::V>) -> bool {
    forall|i: int| 0 <= i < s.len() - 1 ==> T::ranks_le(#[trigger] s[i], s[i + 1])
}

/// In a sorted sequence every element may stand before every later one.
pub proof fn lemma_sorted_pairs<T: Ranked>(s: Seq<T::V>, i: int, j: int)
    requires
        sorted::<T>(s),
        0 <= i <= j < s.len(),
    ensures
        T::ranks_le(s[i], s[j]),
    decreases j - i,
{
    if i == j {
        T::lemma_ranks_total(s[i], s[i]);
    } else if i + 1 == j {
    } else {
        lemma_sorted_pairs::<T>(s, i, j - 1);
        assert(T::ranks_le(s[j - 1], s[j - 1 + 1]));
        T::lemma_ranks_transitive(s[i], s[j - 1], s[j]);
    }
}

/// Where `x` goes into `s`: behind the last element that may stand before it.
pub open spec fn slot<T: Ranked>(s: Seq<T::V>, x: T::V) -> int
    decreases s.len(),
{
    if s.len() == 0 {
        0
    } else if T::ranks_le(s.last(), x) {
        s.len() as int
    } else {
        slot::<T>(s.drop_last(), x)
    }
}

/// The stable sort of `s`: its elements taken in turn, each put behind the
/// last element already placed that may stand before it.
pub open spec fn stable_sort<T: Ranked>(s: Seq<T::V>) -> Seq<T::V>
    decreases s.len(),
{
    if s.len() == 0 {
        Seq::empty()
    } else {
        let head = stable_sort::<T>(s.drop_last());
        head.insert(slot::<T>(head, s.last()), s.last())
    }
}

/// The slot lies in the sequence; the element before it may stand before
/// `x`, and no element from it onwards may.
pub proof fn lemma_slot<T: Ranked>(s: Seq<T::V>, x: T::V)
    ensures
        0 <= slot::<T>(s, x) <= s.len(),
        slot::<T>(s, x) > 0 ==> T::ranks_le(s[slot::<T>(s, x) - 1], x),
        forall|i: int| slot::<T>(s, x) <= i < s.len() ==> !T::ranks_le(#[trigger] s[i], x),
    decreases s.len(),
{
    if s.len() > 0 && !T::ranks_le(s.last(), x) {
        lemma_slot::<T>(s.drop_last(), x);
        let p = slot::<T>(s, x);
        assert forall|i: int| p <= i < s.len() implies !T::ranks_le(#[trigger] s[i], x) by {
            if i < s.len() - 1 {
                assert(s.drop_last()[i] == s[i]);
            }
        }
        if p > 0 {
            assert(s.drop_last()[p - 1] == s[p - 1]);
        }
    }
}

/// Putting an element at its slot keeps a sorted sequence sorted.
pub proof fn lemma_insert_sorted<T: Ranked>(s: Seq<T::V>, x: T::V)
    requires
        sorted::<T>(s),
    ensures
        sorted::<T>(s.insert(slot::<T>(s, x), x)),
{
    let p = slot::<T>(s, x);
    let t = s.insert(p, x);
    lemma_slot::<T>(s, x);
    assert forall|i: int| 0 <= i < t.len() - 1 implies T::ranks_le(#[trigger] t[i], t[i + 1]) by {
        if i + 1 < p {
            assert(t[i] == s[i] && t[i + 1] == s[i + 1]);
        } else if i + 1 == p {
            assert(t[i] == s[p - 1] && t[i + 1] == x);
        } else if i == p {
            assert(t[i] == x && t[i + 1] == s[p]);
            T::lemma_ranks_total(x, s[p]);
        } else {
            assert(t[i] == s[i - 1] && t[i + 1] == s[i - 1 + 1]);
        }
    }
}

/// The stable sort is sorted.
pub proof fn lemma_stable_sort_sorted<T: Ranked>(s: Seq<T::V>)
    ensures
        sorted::<T>(stable_sort::<T>(s)),
    decreases s.len(),
{
    if s.len() > 0 {
        lemma_stable_sort_sorted::<T>(s.drop_last());
        lemma_insert_sorted::<T>(stable_sort::<T>(s.drop_last()), s.last());
    }
}

/// The stable sort holds the same elements, each as often as before.
pub proof fn lemma_stable_sort_permutes<T: Ranked>(s: Seq<T::V>)
    ensures
        stable_sort::<T>(s).to_multiset() == s.to_multiset(),
        stable_sort::<T>(s).len() == s.len(),
    decreases s.len(),
{
    broadcast use vstd::seq_lib::to_multiset_build;

    if s.len() > 0 {
        let head = stable_sort::<T>(s.drop_last());
        lemma_stable_sort_permutes::<T>(s.drop_last());
        lemma_slot::<T>(head, s.last());
        to_multiset_insert(head, slot::<T>(head, s.last()), s.last());
        assert(s.drop_last().push(s.last()) =~= s);
    } else {
        assert(stable_sort::<T>(s) =~= s);
    }
}

/// The stable sort leaves a sorted sequence as it is.
pub proof fn lemma_stable_sort_fixpoint<T: Ranked>(s: Seq<T::V>)
    requires
        sorted::<T>(s),
    ensures
        stable_sort::<T>(s) == s,
    decreases s.len(),
{
    if s.len() > 0 {
        let head = s.drop_last();
        assert forall|i: int| 0 <= i < head.len() - 1 implies T::ranks_le(
            #[trigger] head[i],
            head[i + 1],
        ) by {
            assert(head[i] == s[i] && head[i + 1] == s[i + 1]);
        }
        lemma_stable_sort_fixpoint::<T>(head);
        if head.len() > 0 {
            assert(head.last() == s[s.len() - 2]);
            assert(T::ranks_le(s[s.len() - 2], s[s.len() - 2 + 1]));
        }
        assert(head.insert(head.len() as int, s.last()) =~= s);
    } else {
        assert(stable_sort::<T>(s) =~= s);
    }
}

/// The test for ranking level with `x`: each may stand before the other.
pub open spec fn level_with<T: Ranked>(x: T::V) -> spec_fn(T::V) -> bool {
    |y: T::V| T::ranks_le(x, y) && T::ranks_le(y, x)
}

/// The stable sort is stable: the elements that rank level with a given one
/// stand in the order in which they stood before.
pub proof fn lemma_stable_sort_stable<T: Ranked>(s: Seq<T::V>, x: T::V)
    ensures
        stable_sort::<T>(s).filter(level_with::<T>(x)) == s.filter(level_with::<T>(x)),
    decreases s.len(),
{
    let level = level_with::<T>(x);
    if s.len() == 0 {
        assert(stable_sort::<T>(s) =~= s);
    } else {
        let last = s.last();
        let head = stable_sort::<T>(s.drop_last());
        let p = slot::<T>(head, last);
        let front = head.take(p);
        let back = head.skip(p);
        lemma_stable_sort_stable::<T>(s.drop_last(), x);
        lemma_slot::<T>(head, last);
        assert(s.drop_last().push(last) =~= s);
        s.drop_last().lemma_filter_push(last, level);
        assert(head =~= front + back);
        assert(head.insert(p, last) =~= front + seq![last] + back);
        Seq::filter_distributes_over_add(front, back, level);
        Seq::filter_distributes_over_add(front + seq![last], back, level);
        Seq::filter_distributes_over_add(front, seq![last], level);
        assert(seq![last] =~= Seq::<T::V>::empty().push(last));
        Seq::<T::V>::empty().lemma_filter_push(last, level);
        assert(Seq::<T::V>::empty().filter(level) =~= Seq::<T::V>::empty()) by {
            reveal(Seq::filter);
        }
        if level(last) {
            assert forall|i: int| 0 <= i < back.len() implies !level(#[trigger] back[i]) by {
                assert(back[i] == head[p + i]);
                if level(back[i]) {
                    T::lemma_ranks_transitive(back[i], x, last);
                }
            }
            assert(back.all(|y: T::V| !level(y)));
            back.lemma_all_neg_filter_empty(level);
            assert(back.filter(level) =~= Seq::<T::V>::empty());
            assert(front.filter(level) + seq![last] + back.filter(level) =~= (front.filter(level)
                + back.filter(level)).push(last));
        } else {
            assert(front.filter(level) + Seq::<T::V>::empty() + back.filter(level)
                =~= front.filter(level) + back.filter(level));
        }
    }
}

/// Sorting twice gives what sorting once gives.
pub proof fn lemma_stable_sort_idempotent<T: Ranked>(s: Seq<T::V>)
    ensures
        stable_sort::<T>(stable_sort::<T>(s)) == stable_sort::<T>(s),
{
    lemma_stable_sort_sorted::<T>(s);
    lemma_stable_sort_fixpoint::<T>(stable_sort::<T>(s));
}

/// In a sorted sequence the slot of `x` is the place that parts the
/// elements that may stand before `x` from those that may not.
pub proof fn lemma_slot_parts<T: Ranked>(s: Seq<T::V>, x: T::V, p: int)
    requires
        0 <= p <= s.len(),
        forall|k: int| 0 <= k < p ==> T::ranks_le(#[trigger] s[k], x),
        forall|k: int| p <= k < s.len() ==> !T::ranks_le(#[trigger] s[k], x),
    ensures
        slot::<T>(s, x) == p,
    decreases s.len(),
{
    if s.len() > 0 && p < s.len() {
        assert(!T::ranks_le(s[s.len() - 1], x));
        let head = s.drop_last();
        assert forall|k: int| 0 <= k < p implies T::ranks_le(#[trigger] head[k], x) by {
            assert(head[k] == s[k]);
        }
        assert forall|k: int| p <= k < head.len() implies !T::ranks_le(#[trigger] head[k], x) by {
            assert(head[k] == s[k]);
        }
        lemma_slot_parts::<T>(head, x, p);
    } else if s.len() > 0 {
        assert(T::ranks_le(s[s.len() - 1], x));
    }
}

/// The slot of `x` among the first `n` elements of `v`, which are sorted:
/// found by one comparison where `x` may stay behind them all, else by
/// halving.
fn find_slot<T: Ranked>(v: &Vec<T>, n: usize, x: &T) -> (p: usize)
    requires
        n <= v.len(),
        sorted::<T>(v.deep_view().take(n as int)),
    ensures
        p == slot::<T>(v.deep_view().take(n as int), x.deep_view()),
        p <= n,
{
    let ghost head = v.deep_view().take(n as int);
    let ghost key = x.deep_view();
    if n == 0 {
        return 0;
    }
    assert(head.last() == v[n - 1].deep_view());
    if v[n - 1].precedes(x) {
        return n;
    }
    let mut lo: usize = 0;
    let mut hi: usize = n - 1;
    while lo < hi
        invariant
            lo <= hi < n <= v.len(),
            head == v.deep_view().take(n as int),
            key == x.deep_view(),
            sorted::<T>(head),
            forall|k: int| 0 <= k < lo ==> T::ranks_le(#[trigger] head[k], key),
            forall|k: int| hi <= k < n ==> !T::ranks_le(#[trigger] head[k], key),
        decreases hi - lo,
    {
        let mid = lo + (hi - lo) / 2;
        assert(head[mid as int] == v[mid as int].deep_view());
        if v[mid].precedes(x) {
            assert forall|k: int| 0 <= k < mid + 1 implies T::ranks_le(#[trigger] head[k], key) by {
                lemma_sorted_pairs::<T>(head, k, mid as int);
                T::lemma_ranks_transitive(head[k], head[mid as int], key);
            }
            lo = mid + 1;
        } else {
            assert forall|k: int| mid <= k < n implies !T::ranks_le(#[trigger] head[k], key) by {
                lemma_sorted_pairs::<T>(head, mid as int, k);
                if T::ranks_le(head[k], key) {
                    T::lemma_ranks_transitive(head[mid as int], head[k], key);
                }
            }
            hi = mid;
        }
    }
    proof {
        lemma_slot_parts::<T>(head, key, lo as int);
    }
    lo
}

/// Sorts `v` in place by the ranking of its elements. Elements that rank
/// level keep the order in which they stood.
pub fn sort<T: Ranked>(v: &mut Vec<T>)
    ensures
        final(v).deep_view() == stable_sort::<T>(old(v).deep_view()),
        sorted::<T>(final(v).deep_view()),
        final(v).deep_view().to_multiset() == old(v).deep_view().to_multiset(),
{
    let ghost orig = v.deep_view();
    let mut i: usize = 0;
    assert(v.deep_view().take(0) =~= stable_sort::<T>(orig.take(0)));
    while i < v.len()
        invariant
            i <= v.len(),
            v.len() == orig.len(),
            v.deep_view().take(i as int) == stable_sort::<T>(orig.take(i as int)),
            v.deep_view().skip(i as int) == orig.skip(i as int),
        decreases v.len() - i,
    {
        let ghost before = v.deep_view();
        let ghost head = before.take(i as int);
        let x = v.remove(i);
        assert(x.deep_view() == before[i as int]);
        assert(before[i as int] == before.skip(i as int)[0]);
        assert(x.deep_view() == orig[i as int]);
        let ghost mid = v.deep_view();
        assert(mid =~= before.remove(i as int));
        assert(mid.take(i as int) =~= head);
        proof {
            lemma_stable_sort_sorted::<T>(orig.take(i as int));
        }
        let p = find_slot(v, i, &x);
        proof {
            assert(orig.take(i + 1).drop_last() =~= orig.take(i as int));
            assert(orig.take(i + 1).last() == orig[i as int]);
        }
        v.insert(p, x);
        assert(v.deep_view() =~= mid.insert(p as int, x.deep_view()));
        assert(v.deep_view().take(i + 1) =~= head.insert(p as int, x.deep_view()));
        let ghost tail = v.deep_view().skip(i + 1);
        assert forall|k: int| 0 <= k < orig.len() - i - 1 implies #[trigger] tail[k] == orig.skip(
            i + 1,
        )[k] by {
            assert(mid[i + k] == before[i + k + 1]);
            assert(before[i + k + 1] == before.skip(i as int)[k + 1]);
        }
        assert(v.deep_view().skip(i + 1) =~= orig.skip(i + 1));
        i += 1;
    }
    proof {
        assert(v.deep_view().take(i as int) =~= v.deep_view());
        assert(orig.take(i as int) =~= orig);
        lemma_stable_sort_sorted::<T>(orig);
        lemma_stable_sort_permutes::<T>(orig);
    }
}

/// The stable sort of a list that may be absent.
pub open spec fn stable_sort_opt<T: Ranked>(s: Option<Seq<T::V>>) -> Option<Seq<T::V>> {
    match s {
        Some(list) => Some(stable_sort::<T>(list)),
        None => None,
    }
}

/// Whether a list that may be absent is sorted where it is present.
pub open spec fn sorted_opt<T: Ranked>(s: Option<Seq<T::V>>) -> bool {
    match s {
        Some(list) => sorted::<T>(list),
        None => true,
    }
}

/// The stable sort of a list that may be absent is sorted.
pub proof fn lemma_stable_sort_opt_sorted<T: Ranked>(s: Option<Seq<T::V>>)
    ensures
        sorted_opt::<T>(stable_sort_opt::<T>(s)),
{
    if s is Some {
        lemma_stable_sort_sorted::<T>(s->0);
    }
}

/// The stable sort leaves a list that may be absent, and is sorted where
/// present, as it is.
pub proof fn lemma_stable_sort_opt_fixpoint<T: Ranked>(s: Option<Seq<T::V>>)
    requires
        sorted_opt::<T>(s),
    ensures
        stable_sort_opt::<T>(s) == s,
{
    if s is Some {
        lemma_stable_sort_fixpoint::<T>(s->0);
    }
}

/// Sorts the list that `v` holds, if any, as `sort` does.
pub fn sort_opt<T: Ranked>(v: &mut Option<Vec<T>>)
    ensures
        final(v).deep_view() == stable_sort_opt::<T>(old(v).deep_view()),
        sorted_opt::<T>(final(v).deep_view()),
{
    match v {
        Some(list) => {
            sort(list);
        },
        None => {},
    }
}

} // verus!
