//! The first item of a sequence that meets a condition.

use vstd::prelude::*;

verus! {

/// The index of the first item of `s` that meets `wanted`.
pub open spec fn first_match<T>(s: Seq<T>, wanted: spec_fn(T) -> bool) -> Option<int>
    decreases s.len(),
{
    if s.len() == 0 {
        None
    } else if wanted(s[0]) {
        Some(0)
    } else {
        match first_match(s.drop_first(), wanted) {
            Some(i) => Some(i + 1),
            None => None,
        }
    }
}

/// `i` is the index of an item that meets `wanted`, and no earlier item does.
pub open spec fn is_first_match<T>(s: Seq<T>, wanted: spec_fn(T) -> bool, i: int) -> bool {
    &&& 0 <= i < s.len()
    &&& wanted(s[i])
    &&& forall|j: int| 0 <= j < i ==> !wanted(#[trigger] s[j])
}

/// No item of `s` meets `wanted`.
pub open spec fn no_match<T>(s: Seq<T>, wanted: spec_fn(T) -> bool) -> bool {
    forall|j: int| 0 <= j < s.len() ==> !wanted(#[trigger] s[j])
}

/// [`first_match`] finds the first item that meets the condition, and finds
/// none only where there is none.
pub proof fn lemma_first_match<T>(s: Seq<T>, wanted: spec_fn(T) -> bool)
    ensures
        match first_match(s, wanted) {
            Some(i) => is_first_match(s, wanted, i),
            None => no_match(s, wanted),
        },
    decreases s.len(),
{
    if s.len() > 0 && !wanted(s[0]) {
        let rest = s.drop_first();
        lemma_first_match(rest, wanted);
        match first_match(rest, wanted) {
            Some(i) => {
                assert(rest[i] == s[i + 1]);
                assert forall|j: int| 0 <= j < i + 1 implies !wanted(#[trigger] s[j]) by {
                    if j > 0 {
                        assert(rest[j - 1] == s[j]);
                    }
                }
            },
            None => {
                assert forall|j: int| 0 <= j < s.len() implies !wanted(#[trigger] s[j]) by {
                    if j > 0 {
                        assert(rest[j - 1] == s[j]);
                    }
                }
            },
        }
    }
}

/// An index that is a first match is what [`first_match`] returns.
pub proof fn lemma_first_match_is<T>(s: Seq<T>, wanted: spec_fn(T) -> bool, i: int)
    requires
        is_first_match(s, wanted, i),
    ensures
        first_match(s, wanted) == Some(i),
{
    lemma_first_match(s, wanted);
    match first_match(s, wanted) {
        Some(k) => {
            if k < i {
                assert(!wanted(s[k]));
            } else if i < k {
                assert(!wanted(s[i]));
            }
        },
        None => {
            assert(!wanted(s[i]));
        },
    }
}

/// Where nothing matches, [`first_match`] returns nothing.
pub proof fn lemma_first_match_none<T>(s: Seq<T>, wanted: spec_fn(T) -> bool)
    requires
        no_match(s, wanted),
    ensures
        first_match(s, wanted) is None,
{
    lemma_first_match(s, wanted);
    if first_match(s, wanted) is Some {
        assert(!wanted(s[first_match(s, wanted)->0]));
    }
}

/// Adding an item at the end changes the first match only where there was
/// none and the new item is one.
pub proof fn lemma_first_match_push<T>(s: Seq<T>, wanted: spec_fn(T) -> bool, x: T)
    ensures
        first_match(s.push(x), wanted) == (match first_match(s, wanted) {
            Some(i) => Some(i),
            None => if wanted(x) {
                Some(s.len() as int)
            } else {
                None
            },
        }),
{
    lemma_first_match(s, wanted);
    let longer = s.push(x);
    match first_match(s, wanted) {
        Some(i) => {
            assert(longer[i] == s[i]);
            assert forall|j: int| 0 <= j < i implies !wanted(#[trigger] longer[j]) by {
                assert(longer[j] == s[j]);
            }
            lemma_first_match_is(longer, wanted, i);
        },
        None => {
            assert forall|j: int| 0 <= j < s.len() implies !wanted(#[trigger] longer[j]) by {
                assert(longer[j] == s[j]);
            }
            if wanted(x) {
                lemma_first_match_is(longer, wanted, s.len() as int);
            } else {
                lemma_first_match_none(longer, wanted);
            }
        },
    }
}

/// Two sequences whose items meet the condition at the same places have the
/// same first match.
pub proof fn lemma_first_match_alike<T>(s: Seq<T>, t: Seq<T>, wanted: spec_fn(T) -> bool)
    requires
        s.len() == t.len(),
        forall|j: int| 0 <= j < s.len() ==> wanted(#[trigger] s[j]) == wanted(t[j]),
    ensures
        first_match(s, wanted) == first_match(t, wanted),
{
    lemma_first_match(s, wanted);
    match first_match(s, wanted) {
        Some(i) => {
            assert(wanted(s[i]) == wanted(t[i]));
            assert forall|j: int| 0 <= j < i implies !wanted(#[trigger] t[j]) by {
                assert(wanted(s[j]) == wanted(t[j]));
            }
            lemma_first_match_is(t, wanted, i);
        },
        None => {
            assert forall|j: int| 0 <= j < t.len() implies !wanted(#[trigger] t[j]) by {
                assert(wanted(s[j]) == wanted(t[j]));
            }
            lemma_first_match_none(t, wanted);
        },
    }
}

/// Two conditions that the items of a sequence meet at the same places have
/// the same first match.
pub proof fn lemma_first_match_same_answers<T>(
    s: Seq<T>,
    wanted: spec_fn(T) -> bool,
    other: spec_fn(T) -> bool,
)
    requires
        forall|j: int| 0 <= j < s.len() ==> wanted(#[trigger] s[j]) == other(s[j]),
    ensures
        first_match(s, wanted) == first_match(s, other),
{
    lemma_first_match(s, wanted);
    match first_match(s, wanted) {
        Some(i) => {
            assert(wanted(s[i]) == other(s[i]));
            assert forall|j: int| 0 <= j < i implies !other(#[trigger] s[j]) by {
                assert(wanted(s[j]) == other(s[j]));
            }
            lemma_first_match_is(s, other, i);
        },
        None => {
            assert forall|j: int| 0 <= j < s.len() implies !other(#[trigger] s[j]) by {
                assert(wanted(s[j]) == other(s[j]));
            }
            lemma_first_match_none(s, other);
        },
    }
}

} // verus!
