//! Stable sorting by a total preorder.
//!
//! The sorted arrangement of a sequence is defined by placing its items one
//! by one, from the last to the first, each in front of the first item it
//! precedes. Items that precede each other therefore keep their order.

use vstd::prelude::*;
use vstd::seq_lib::lemma_multiset_commutative;

verus! {

/// Values that can be put in order by executable code.
pub trait Ranked: Sized {
    /// The value can be compared in executable code.
    spec fn comparable(&self) -> bool;

    /// `self` may stand before `other`.
    spec fn precedes(&self, other: &Self) -> bool;

    /// Whether `self` may stand before `other`.
    fn comes_first(&self, other: &Self) -> (r: bool)
        requires
            self.comparable(),
            other.comparable(),
        ensures
            r == self.precedes(other),
    ;
}

/// The order that [`Ranked::precedes`] gives, as a relation.
pub open spec fn rank_order<T: Ranked>() -> spec_fn(T, T) -> bool {
    |a: T, b: T| a.precedes(&b)
}

/// Of two values one may stand before the other.
pub open spec fn total<T>(le: spec_fn(T, T) -> bool) -> bool {
    forall|a: T, b: T| #[trigger] le(a, b) || le(b, a)
}

/// What may stand before a value may stand before all that the value may
/// stand before.
pub open spec fn transitive<T>(le: spec_fn(T, T) -> bool) -> bool {
    forall|a: T, b: T, c: T| #[trigger] le(a, b) && #[trigger] le(b, c) ==> le(a, c)
}

/// `t` with `x` put in front of the first item that `x` may stand before, at
/// the end if there is none.
pub open spec fn placed<T>(x: T, t: Seq<T>, le: spec_fn(T, T) -> bool) -> Seq<T>
    decreases t.len(),
{
    if t.len() == 0 {
        seq![x]
    } else if le(x, t[0]) {
        seq![x] + t
    } else {
        seq![t[0]] + placed(x, t.drop_first(), le)
    }
}

/// The stable sorted arrangement of `s` under `le`.
pub open spec fn sorted<T>(s: Seq<T>, le: spec_fn(T, T) -> bool) -> Seq<T>
    decreases s.len(),
{
    if s.len() == 0 {
        s
    } else {
        placed(s[0], sorted(s.drop_first(), le), le)
    }
}

/// Every item may stand before every later one.
pub open spec fn ordered<T>(s: Seq<T>, le: spec_fn(T, T) -> bool) -> bool {
    forall|i: int, j: int| #![trigger s[i], s[j]] 0 <= i < j < s.len() ==> le(s[i], s[j])
}

/// Placing `x` at the position found by scanning from the front is
/// inserting it there.
pub proof fn lemma_placed_is_insert<T>(x: T, t: Seq<T>, p: int, le: spec_fn(T, T) -> bool)
    requires
        0 <= p <= t.len(),
        forall|j: int| 0 <= j < p ==> !le(x, #[trigger] t[j]),
        p < t.len() ==> le(x, t[p]),
    ensures
        placed(x, t, le) == t.insert(p, x),
    decreases t.len(),
{
    if t.len() == 0 {
        assert(t.insert(p, x) =~= seq![x]);
    } else if le(x, t[0]) {
        assert(p == 0);
        assert(t.insert(0, x) =~= seq![x] + t);
    } else {
        assert(p >= 1);
        let rest = t.drop_first();
        assert forall|j: int| 0 <= j < p - 1 implies !le(x, #[trigger] rest[j]) by {
            assert(rest[j] == t[j + 1]);
        }
        lemma_placed_is_insert(x, rest, p - 1, le);
        assert(t.insert(p, x) =~= seq![t[0]] + rest.insert(p - 1, x));
    }
}

/// Placing an item keeps every other item and adds this one.
pub proof fn lemma_placed_items<T>(x: T, t: Seq<T>, le: spec_fn(T, T) -> bool)
    ensures
        placed(x, t, le).len() == t.len() + 1,
        placed(x, t, le).to_multiset() == t.to_multiset().insert(x),
    decreases t.len(),
{
    broadcast use vstd::seq_lib::group_to_multiset_ensures;

    let one = seq![x];
    assert(one =~= Seq::<T>::empty().push(x));
    assert(one.to_multiset() =~= Seq::<T>::empty().to_multiset().insert(x));
    assert(Seq::<T>::empty().to_multiset().len() == 0);
    assert(Seq::<T>::empty().to_multiset() =~= vstd::multiset::Multiset::<T>::empty());
    if t.len() == 0 {
        assert(t =~= Seq::<T>::empty());
    } else if le(x, t[0]) {
        lemma_multiset_commutative(one, t);
        assert(placed(x, t, le).to_multiset() =~= t.to_multiset().insert(x));
    } else {
        let first = seq![t[0]];
        let rest = t.drop_first();
        lemma_placed_items(x, rest, le);
        lemma_multiset_commutative(first, placed(x, rest, le));
        lemma_multiset_commutative(first, rest);
        assert(t =~= first + rest);
        assert(placed(x, t, le).to_multiset() =~= t.to_multiset().insert(x));
    }
}

/// Placing an item in an ordered sequence leaves it ordered.
pub proof fn lemma_placed_ordered<T>(x: T, t: Seq<T>, le: spec_fn(T, T) -> bool)
    requires
        total(le),
        transitive(le),
        ordered(t, le),
    ensures
        ordered(placed(x, t, le), le),
    decreases t.len(),
{
    let out = placed(x, t, le);
    if t.len() == 0 {
    } else if le(x, t[0]) {
        assert forall|i: int, j: int| #![trigger out[i], out[j]] 0 <= i < j < out.len() implies le(
            out[i],
            out[j],
        ) by {
            if i == 0 {
                if j > 1 {
                    assert(le(t[0], t[j - 1]));
                    assert(le(x, t[0]) && le(t[0], t[j - 1]));
                }
            } else {
                assert(le(t[i - 1], t[j - 1]));
            }
        }
    } else {
        let rest = t.drop_first();
        assert forall|i: int, j: int| #![trigger rest[i], rest[j]] 0 <= i < j
            < rest.len() implies le(rest[i], rest[j]) by {
            assert(le(t[i + 1], t[j + 1]));
        }
        lemma_placed_ordered(x, rest, le);
        lemma_placed_items(x, rest, le);
        let tail = placed(x, rest, le);
        assert(le(x, t[0]) || le(t[0], x));
        assert forall|k: int| 0 <= k < tail.len() implies le(t[0], #[trigger] tail[k]) by {
            broadcast use vstd::seq_lib::group_to_multiset_ensures;

            assert(tail.contains(tail[k]));
            assert(tail.to_multiset().count(tail[k]) > 0);
            if tail[k] != x {
                assert(rest.to_multiset().count(tail[k]) > 0);
                assert(rest.contains(tail[k]));
                let m = choose|m: int| 0 <= m < rest.len() && rest[m] == tail[k];
                assert(le(t[0], t[m + 1]));
            }
        }
        assert forall|i: int, j: int| #![trigger out[i], out[j]] 0 <= i < j < out.len() implies le(
            out[i],
            out[j],
        ) by {
            if i == 0 {
                assert(out[j] == tail[j - 1]);
            } else {
                assert(le(tail[i - 1], tail[j - 1]));
            }
        }
    }
}

/// The sorted arrangement is ordered, and holds the items of the sequence,
/// each as often as the sequence does.
pub proof fn lemma_sorted_is_ordered_permutation<T>(s: Seq<T>, le: spec_fn(T, T) -> bool)
    requires
        total(le),
        transitive(le),
    ensures
        ordered(sorted(s, le), le),
        sorted(s, le).len() == s.len(),
        sorted(s, le).to_multiset() == s.to_multiset(),
    decreases s.len(),
{
    if s.len() > 0 {
        broadcast use vstd::seq_lib::group_to_multiset_ensures;

        let rest = s.drop_first();
        lemma_sorted_is_ordered_permutation(rest, le);
        lemma_placed_ordered(s[0], sorted(rest, le), le);
        lemma_placed_items(s[0], sorted(rest, le), le);
        lemma_multiset_commutative(seq![s[0]], rest);
        assert(s =~= seq![s[0]] + rest);
        assert(seq![s[0]] =~= Seq::<T>::empty().push(s[0]));
        assert(Seq::<T>::empty().to_multiset().len() == 0);
        assert(Seq::<T>::empty().to_multiset() =~= vstd::multiset::Multiset::<T>::empty());
        assert(sorted(s, le).to_multiset() =~= s.to_multiset());
    }
}

/// The sorted arrangement has the length of the sequence.
pub proof fn lemma_sorted_len<T>(s: Seq<T>, le: spec_fn(T, T) -> bool)
    ensures
        sorted(s, le).len() == s.len(),
    decreases s.len(),
{
    if s.len() > 0 {
        lemma_sorted_len(s.drop_first(), le);
        lemma_placed_items(s[0], sorted(s.drop_first(), le), le);
    }
}

/// Sorting leaves an ordered sequence as it is: items that may stand either
/// way round are never exchanged.
pub proof fn lemma_sorted_keeps_ordered<T>(s: Seq<T>, le: spec_fn(T, T) -> bool)
    requires
        ordered(s, le),
    ensures
        sorted(s, le) == s,
    decreases s.len(),
{
    if s.len() > 0 {
        let rest = s.drop_first();
        assert forall|i: int, j: int| #![trigger rest[i], rest[j]] 0 <= i < j
            < rest.len() implies le(rest[i], rest[j]) by {
            assert(le(s[i + 1], s[j + 1]));
        }
        lemma_sorted_keeps_ordered(rest, le);
        if rest.len() > 0 {
            assert(rest[0] == s[1]);
            assert(le(s[0], s[1]));
        }
        assert(seq![s[0]] + rest =~= s);
    }
}

/// Sorting and then mapping is mapping and then sorting, where the map
/// carries one order onto the other.
pub proof fn lemma_sorted_maps<T, V>(
    s: Seq<T>,
    f: spec_fn(T) -> V,
    le: spec_fn(T, T) -> bool,
    image_le: spec_fn(V, V) -> bool,
)
    requires
        forall|a: T, b: T| #[trigger] le(a, b) == image_le(f(a), f(b)),
    ensures
        sorted(s, le).map_values(f) == sorted(s.map_values(f), image_le),
    decreases s.len(),
{
    if s.len() == 0 {
        assert(sorted(s, le).map_values(f) =~= sorted(s.map_values(f), image_le));
    } else {
        let rest = s.drop_first();
        lemma_sorted_maps(rest, f, le, image_le);
        assert(s.map_values(f).drop_first() =~= rest.map_values(f));
        lemma_placed_maps(s[0], sorted(rest, le), f, le, image_le);
    }
}

/// Placing and then mapping is mapping and then placing, where the map
/// carries one order onto the other.
pub proof fn lemma_placed_maps<T, V>(
    x: T,
    t: Seq<T>,
    f: spec_fn(T) -> V,
    le: spec_fn(T, T) -> bool,
    image_le: spec_fn(V, V) -> bool,
)
    requires
        forall|a: T, b: T| #[trigger] le(a, b) == image_le(f(a), f(b)),
    ensures
        placed(x, t, le).map_values(f) == placed(f(x), t.map_values(f), image_le),
    decreases t.len(),
{
    let image = t.map_values(f);
    if t.len() == 0 {
        assert(placed(x, t, le).map_values(f) =~= seq![f(x)]);
    } else if le(x, t[0]) {
        assert(image_le(f(x), image[0]));
        assert((seq![x] + t).map_values(f) =~= seq![f(x)] + image);
    } else {
        assert(!image_le(f(x), image[0]));
        lemma_placed_maps(x, t.drop_first(), f, le, image_le);
        assert(image.drop_first() =~= t.drop_first().map_values(f));
        assert((seq![t[0]] + placed(x, t.drop_first(), le)).map_values(f) =~= seq![image[0]]
            + placed(f(x), image.drop_first(), image_le));
    }
}

/// Sorts `items`, keeping the order of items that may stand either way
/// round.
pub fn stable_sort<T: Ranked>(items: Vec<T>) -> (out: Vec<T>)
    requires
        forall|i: int| 0 <= i < items.len() ==> (#[trigger] items[i]).comparable(),
    ensures
        out@ == sorted(items@, rank_order::<T>()),
{
    let ghost all = items@;
    let ghost le = rank_order::<T>();
    let mut rest = items;
    let mut out: Vec<T> = Vec::new();
    assert(all.skip(all.len() as int) =~= Seq::<T>::empty());
    assert(all.take(all.len() as int) =~= all);
    while rest.len() > 0
        invariant
            rest.len() <= all.len(),
            rest@ == all.take(rest.len() as int),
            le == rank_order::<T>(),
            out@ == sorted(all.skip(rest.len() as int), le),
            forall|i: int| 0 <= i < all.len() ==> (#[trigger] all[i]).comparable(),
            forall|i: int| 0 <= i < out.len() ==> (#[trigger] out[i]).comparable(),
        decreases rest.len(),
    {
        let ghost n = rest.len() as int;
        let x = rest.pop().unwrap();
        assert(x == all[n - 1]);
        assert(rest@ =~= all.take(n - 1));
        let mut p: usize = 0;
        while p < out.len() && !x.comes_first(&out[p])
            invariant
                p <= out.len(),
                x.comparable(),
                le == rank_order::<T>(),
                forall|i: int| 0 <= i < out.len() ==> (#[trigger] out[i]).comparable(),
                forall|j: int| 0 <= j < p ==> !le(x, #[trigger] out[j]),
            decreases out.len() - p,
        {
            p = p + 1;
        }
        proof {
            lemma_placed_is_insert(x, out@, p as int, le);
            let tail = all.skip(n - 1);
            assert(tail[0] == x);
            assert(tail.drop_first() =~= all.skip(n));
            out@.insert_ensures(p as int, x);
        }
        let ghost previous = out@;
        out.insert(p, x);
        assert forall|i: int| 0 <= i < out.len() implies (#[trigger] out[i]).comparable() by {
            if i < p {
                assert(out[i] == previous[i]);
            } else if i > p {
                assert(out[i] == previous[i - 1]);
            }
        }
    }
    assert(all.skip(0) =~= all);
    out
}

} // verus!
