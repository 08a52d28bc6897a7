//! The first place in a sequence where something holds.

use vstd::prelude::*;

verus! {

/// The first place in `s` where `p` holds.
pub open spec fn first_where<A>(s: Seq<A>, p: spec_fn(A) -> bool) -> Option<int>
    decreases s.len(),
{
    if s.len() == 0 {
        None
    } else {
        match first_where(s.drop_last(), p) {
            Some(i) => Some(i),
            None => if p(s.last()) {
                Some(s.len() - 1)
            } else {
                None
            },
        }
    }
}

/// `first_where` gives a place where `p` holds and before which it does not,
/// or none where there is none.
pub proof fn lemma_first_where<A>(s: Seq<A>, p: spec_fn(A) -> bool)
    ensures
        first_where(s, p) is Some ==> {
            &&& 0 <= first_where(s, p)->0 < s.len()
            &&& p(s[first_where(s, p)->0])
            &&& forall|j: int| 0 <= j < first_where(s, p)->0 ==> !p(#[trigger] s[j])
        },
        first_where(s, p) is None ==> forall|j: int| 0 <= j < s.len() ==> !p(#[trigger] s[j]),
    decreases s.len(),
{
    if s.len() > 0 {
        let rest = s.drop_last();
        lemma_first_where(rest, p);
        match first_where(rest, p) {
            Some(i) => {
                assert(rest[i] == s[i]);
                assert forall|j: int| 0 <= j < i implies !p(#[trigger] s[j]) by {
                    assert(rest[j] == s[j]);
                }
            },
            None => {
                assert forall|j: int| 0 <= j < s.len() - 1 implies !p(#[trigger] s[j]) by {
                    assert(rest[j] == s[j]);
                }
            },
        }
    }
}

/// A place where `p` holds, and before which it does not, is the first.
pub proof fn lemma_first_at<A>(s: Seq<A>, p: spec_fn(A) -> bool, i: int)
    requires
        0 <= i < s.len(),
        p(s[i]),
        forall|j: int| 0 <= j < i ==> !p(#[trigger] s[j]),
    ensures
        first_where(s, p) == Some(i),
{
    lemma_first_where(s, p);
    if first_where(s, p) is Some {
        let k = first_where(s, p)->0;
        if k < i {
            assert(p(s[k]));
        } else if i < k {
            assert(!p(s[i]));
        }
    }
}

/// Where `p` holds nowhere there is no first place.
pub proof fn lemma_first_none<A>(s: Seq<A>, p: spec_fn(A) -> bool)
    requires
        forall|j: int| 0 <= j < s.len() ==> !p(#[trigger] s[j]),
    ensures
        first_where(s, p) is None,
{
    lemma_first_where(s, p);
    if first_where(s, p) is Some {
        assert(p(s[first_where(s, p)->0]));
    }
}

/// How many of `s` are there.
pub open spec fn count_some<A>(s: Seq<Option<A>>) -> nat
    decreases s.len(),
{
    if s.len() == 0 {
        0
    } else {
        count_some(s.drop_last()) + (if s.last() is Some {
            1nat
        } else {
            0
        })
    }
}

/// No more are there than there are places.
pub proof fn lemma_count_some<A>(s: Seq<Option<A>>)
    ensures
        count_some(s) <= s.len(),
    decreases s.len(),
{
    if s.len() > 0 {
        lemma_count_some(s.drop_last());
    }
}

/// The least number from `n` to 8 that is not among `taken`.
pub open spec fn free_from(taken: Seq<int>, n: int) -> Option<int>
    decreases 9 - n,
{
    if n > 8 {
        None
    } else if taken.contains(n) {
        free_from(taken, n + 1)
    } else {
        Some(n)
    }
}

/// What `free_from` finds is not taken, and everything below it is.
pub proof fn lemma_free_from(taken: Seq<int>, n: int)
    ensures
        free_from(taken, n) is Some ==> n <= free_from(taken, n)->0 <= 8 && !taken.contains(
            free_from(taken, n)->0,
        ),
        free_from(taken, n) is None ==> forall|k: int| n <= k <= 8 ==> taken.contains(k),
    decreases 9 - n,
{
    if n <= 8 {
        lemma_free_from(taken, n + 1);
    }
}

/// Fewer than eight numbers leave one of eight free.
pub proof fn lemma_some_free(taken: Seq<int>)
    requires
        taken.len() < 8,
    ensures
        free_from(taken, 1) is Some,
{
    lemma_free_from(taken, 1);
    if free_from(taken, 1) is None {
        let eight = vstd::set_lib::set_int_range(1, 9);
        vstd::set_lib::lemma_int_range(1, 9);
        taken.lemma_cardinality_of_set();
        assert(eight.subset_of(taken.to_set()));
        vstd::set_lib::lemma_len_subset(eight, taken.to_set());
    }
}

} // verus!
