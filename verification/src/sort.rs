//! Stable sorting.
use vstd::prelude::*;
use vstd::relations::{strongly_connected, transitive};

verus! {

/// `s` with `x` behind the last element that goes before it or ties with it.
pub open spec fn insert_sorted<T>(s: Seq<T>, x: T, le: spec_fn(T, T) -> bool) -> Seq<T>
    decreases s.len(),
{
    if s.len() == 0 || le(s.last(), x) {
        s.push(x)
    } else {
        insert_sorted(s.drop_last(), x, le).push(s.last())
    }
}

/// The elements of `s` in the order of `le`; elements that tie keep their order.
pub open spec fn stable_sort<T>(s: Seq<T>, le: spec_fn(T, T) -> bool) -> Seq<T>
    decreases s.len(),
{
    if s.len() == 0 {
        s
    } else {
        insert_sorted(stable_sort(s.drop_last(), le), s.last(), le)
    }
}

/// In the order of `le`.
pub open spec fn is_sorted<T>(s: Seq<T>, le: spec_fn(T, T) -> bool) -> bool {
    forall|i: int, j: int| 0 <= i < j < s.len() ==> le(#[trigger] s[i], #[trigger] s[j])
}

/// Any two elements compare, and comparisons carry over.
pub open spec fn is_ranking<T>(le: spec_fn(T, T) -> bool) -> bool {
    strongly_connected(le) && transitive(le)
}

pub proof fn lemma_insert_sorted_at<T>(s: Seq<T>, x: T, le: spec_fn(T, T) -> bool, at: int)
    requires
        0 <= at <= s.len(),
        at > 0 ==> le(s[at - 1], x),
        forall|k: int| at <= k < s.len() ==> !le(#[trigger] s[k], x),
    ensures
        insert_sorted(s, x, le) == s.insert(at, x),
    decreases s.len(),
{
    if at == s.len() {
        assert(s.insert(at, x) =~= s.push(x));
    } else {
        assert(!le(s[s.len() - 1], x));
        assert forall|k: int| at <= k < s.len() - 1 implies !le(
            #[trigger] s.drop_last()[k],
            x,
        ) by {
            assert(s.drop_last()[k] == s[k]);
        }
        lemma_insert_sorted_at(s.drop_last(), x, le, at);
        assert(s.drop_last().insert(at, x).push(s.last()) =~= s.insert(at, x));
    }
}

proof fn lemma_insertion_point<T>(s: Seq<T>, x: T, le: spec_fn(T, T) -> bool) -> (at: int)
    ensures
        0 <= at <= s.len(),
        at > 0 ==> le(s[at - 1], x),
        forall|k: int| at <= k < s.len() ==> !le(#[trigger] s[k], x),
    decreases s.len(),
{
    if s.len() == 0 || le(s.last(), x) {
        s.len() as int
    } else {
        let at = lemma_insertion_point(s.drop_last(), x, le);
        assert forall|k: int| at <= k < s.len() implies !le(#[trigger] s[k], x) by {
            if k < s.len() - 1 {
                assert(s.drop_last()[k] == s[k]);
            }
        }
        at
    }
}

/// The elements that tie with `x`, in their order.
pub open spec fn ties<T>(s: Seq<T>, x: T, le: spec_fn(T, T) -> bool) -> Seq<T>
    decreases s.len(),
{
    if s.len() == 0 {
        s
    } else if le(s.last(), x) && le(x, s.last()) {
        ties(s.drop_last(), x, le).push(s.last())
    } else {
        ties(s.drop_last(), x, le)
    }
}

proof fn lemma_insert_keeps<T>(s: Seq<T>, x: T, le: spec_fn(T, T) -> bool)
    requires
        is_ranking(le),
        is_sorted(s, le),
    ensures
        is_sorted(insert_sorted(s, x, le), le),
        insert_sorted(s, x, le).to_multiset() == s.to_multiset().insert(x),
        insert_sorted(s, x, le).len() == s.len() + 1,
{
    broadcast use vstd::seq_lib::group_to_multiset_ensures;

    let at = lemma_insertion_point(s, x, le);
    lemma_insert_sorted_at(s, x, le, at);
    let r = s.insert(at, x);
    assert forall|i: int, j: int| 0 <= i < j < r.len() implies le(
        #[trigger] r[i],
        #[trigger] r[j],
    ) by {
        if j == at {
            if i < at - 1 {
                assert(le(s[i], s[at - 1]));
            }
        } else if i == at {
            assert(!le(s[j - 1], x));
        } else if j < at {
            assert(le(s[i], s[j]));
        } else if i < at {
            assert(le(s[i], s[j - 1]));
        } else {
            assert(le(s[i - 1], s[j - 1]));
        }
    }
}

proof fn lemma_insert_keeps_ties<T>(s: Seq<T>, x: T, y: T, le: spec_fn(T, T) -> bool)
    requires
        is_ranking(le),
    ensures
        ties(insert_sorted(s, x, le), y, le) == if le(x, y) && le(y, x) {
            ties(s, y, le).push(x)
        } else {
            ties(s, y, le)
        },
    decreases s.len(),
{
    if s.len() == 0 || le(s.last(), x) {
        assert(s.push(x).drop_last() =~= s);
    } else {
        let rest = insert_sorted(s.drop_last(), x, le);
        lemma_insert_keeps_ties(s.drop_last(), x, y, le);
        assert(rest.push(s.last()).drop_last() =~= rest);
        if le(s.last(), y) && le(y, s.last()) && le(x, y) && le(y, x) {
            assert(le(s.last(), x));
        }
    }
}

/// Sorting gives the same elements in order, and elements that tie stay in
/// the order they were in.
pub proof fn law_stable_sort<T>(s: Seq<T>, le: spec_fn(T, T) -> bool)
    requires
        is_ranking(le),
    ensures
        is_sorted(stable_sort(s, le), le),
        stable_sort(s, le).to_multiset() == s.to_multiset(),
        stable_sort(s, le).len() == s.len(),
        forall|y: T| #[trigger] ties(stable_sort(s, le), y, le) == ties(s, y, le),
    decreases s.len(),
{
    broadcast use vstd::seq_lib::group_to_multiset_ensures;

    if s.len() > 0 {
        law_stable_sort(s.drop_last(), le);
        let sorted = stable_sort(s.drop_last(), le);
        lemma_insert_keeps(sorted, s.last(), le);
        assert(s =~= s.drop_last().push(s.last()));
        assert forall|y: T| #[trigger] ties(stable_sort(s, le), y, le) == ties(s, y, le) by {
            lemma_insert_keeps_ties(sorted, s.last(), y, le);
            assert(ties(sorted, y, le) == ties(s.drop_last(), y, le));
        }
    }
}

/// Sorting rearranges: every element comes from a place of its own, goes before
/// no smaller one, and behind those that tie with it and stood before it.
pub proof fn law_sorting_rearranges<T>(s: Seq<T>, le: spec_fn(T, T) -> bool) -> (places: Seq<int>)
    requires
        is_ranking(le),
    ensures
        stable_sort(s, le).len() == s.len(),
        places.len() == s.len(),
        forall|i: int|
            0 <= i < s.len() ==> 0 <= #[trigger] places[i] < s.len() && stable_sort(s, le)[i]
                == s[places[i]],
        forall|k: int| 0 <= k < s.len() ==> #[trigger] places.contains(k),
        forall|i: int, j: int|
            #![trigger places[i], places[j]]
            0 <= i < j < s.len() ==> places[i] != places[j] && le(s[places[i]], s[places[j]]) && (
            le(s[places[j]], s[places[i]]) ==> places[i] < places[j]),
    decreases s.len(),
{
    if s.len() == 0 {
        seq![]
    } else {
        let rest = s.drop_last();
        let x = s.last();
        let n = rest.len() as int;
        let before = law_sorting_rearranges(rest, le);
        let sorted = stable_sort(rest, le);
        let at = lemma_insertion_point(sorted, x, le);
        lemma_insert_sorted_at(sorted, x, le, at);
        let places = before.insert(at, n);
        assert forall|i: int| 0 <= i < s.len() implies 0 <= #[trigger] places[i] < s.len()
            && stable_sort(s, le)[i] == s[places[i]] by {
            if i < at {
                assert(places[i] == before[i]);
            } else if i > at {
                assert(places[i] == before[i - 1]);
            }
        }
        assert forall|k: int| 0 <= k < s.len() implies #[trigger] places.contains(k) by {
            if k == n {
                assert(places[at] == n);
            } else {
                assert(before.contains(k));
                let i = choose|i: int| 0 <= i < before.len() && before[i] == k;
                if i < at {
                    assert(places[i] == k);
                } else {
                    assert(places[i + 1] == k);
                }
            }
        }
        assert forall|i: int, j: int|
            #![trigger places[i], places[j]]
            0 <= i < j < s.len() implies places[i] != places[j] && le(s[places[i]], s[places[j]])
            && (le(s[places[j]], s[places[i]]) ==> places[i] < places[j]) by {
            let a = if i < at {
                i
            } else {
                i - 1
            };
            let b = if j < at {
                j
            } else {
                j - 1
            };
            if i != at && j != at {
                assert(places[i] == before[a] && places[j] == before[b]);
                assert(rest[before[a]] == s[before[a]] && rest[before[b]] == s[before[b]]);
            } else if j == at {
                assert(places[i] == before[i]);
                assert(sorted[i] == rest[before[i]]);
                if i < at - 1 {
                    assert(before[at - 1] == before[at - 1]);
                    assert(le(rest[before[i]], rest[before[at - 1]]));
                    assert(sorted[at - 1] == rest[before[at - 1]]);
                }
            } else {
                assert(places[j] == before[j - 1]);
                assert(sorted[j - 1] == rest[before[j - 1]]);
                assert(!le(sorted[j - 1], x));
            }
        }
        places
    }
}

} // verus!
