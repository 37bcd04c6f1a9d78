//! What an edit distance means: the fewest single-char edits between two strings.
use crate::approx::edit_distance;
use vstd::prelude::*;

verus! {

/// `b` comes from `a` by inserting, deleting or substituting one char.
pub open spec fn one_edit(a: Seq<char>, b: Seq<char>) -> bool {
    ||| exists|i: int, c: char| 0 <= i <= a.len() && b == #[trigger] a.insert(i, c)
    ||| exists|i: int| 0 <= i < a.len() && b == #[trigger] a.remove(i)
    ||| exists|i: int, c: char| 0 <= i < a.len() && b == #[trigger] a.update(i, c)
}

/// `b` comes from `a` by exactly `count` such edits, one after the other.
pub open spec fn reachable(a: Seq<char>, b: Seq<char>, count: nat) -> bool
    decreases count,
{
    if count == 0 {
        a == b
    } else {
        exists|between: Seq<char>| #[trigger]
            one_edit(a, between) && reachable(between, b, (count - 1) as nat)
    }
}

proof fn lemma_shorter_target(a: Seq<char>, b: Seq<char>)
    requires
        b.len() > 0,
    ensures
        edit_distance(a, b) <= edit_distance(a, b.drop_last()) + 1,
{
}

proof fn lemma_removal(a: Seq<char>, b: Seq<char>, i: int)
    requires
        0 <= i < a.len(),
    ensures
        edit_distance(a, b) <= edit_distance(a.remove(i), b) + 1,
    decreases a.len() + b.len(),
{
    let e = a.remove(i);
    if i == a.len() - 1 {
        assert(e =~= a.drop_last());
    } else {
        assert(e.drop_last() =~= a.drop_last().remove(i));
        assert(e.last() == a.last());
        if b.len() > 0 {
            lemma_removal(a.drop_last(), b.drop_last(), i);
            lemma_removal(a.drop_last(), b, i);
            lemma_removal(a, b.drop_last(), i);
        }
    }
}

proof fn lemma_insertion(a: Seq<char>, b: Seq<char>, i: int, c: char)
    requires
        0 <= i <= a.len(),
    ensures
        edit_distance(a, b) <= edit_distance(a.insert(i, c), b) + 1,
    decreases a.len() + b.len(),
{
    let e = a.insert(i, c);
    if b.len() > 0 {
        lemma_shorter_target(a, b);
        lemma_insertion(a, b.drop_last(), i, c);
        if i == a.len() {
            assert(e.drop_last() =~= a);
        } else {
            assert(e.drop_last() =~= a.drop_last().insert(i, c));
            assert(e.last() == a.last());
            lemma_insertion(a.drop_last(), b.drop_last(), i, c);
            lemma_insertion(a.drop_last(), b, i, c);
        }
    }
}

proof fn lemma_substitution(a: Seq<char>, b: Seq<char>, i: int, c: char)
    requires
        0 <= i < a.len(),
    ensures
        edit_distance(a, b) <= edit_distance(a.update(i, c), b) + 1,
    decreases a.len() + b.len(),
{
    let e = a.update(i, c);
    if b.len() > 0 {
        lemma_substitution(a, b.drop_last(), i, c);
        if i == a.len() - 1 {
            assert(e.drop_last() =~= a.drop_last());
        } else {
            assert(e.drop_last() =~= a.drop_last().update(i, c));
            assert(e.last() == a.last());
            lemma_substitution(a.drop_last(), b.drop_last(), i, c);
            lemma_substitution(a.drop_last(), b, i, c);
        }
    }
}

proof fn lemma_self_distance(a: Seq<char>)
    ensures
        edit_distance(a, a) == 0,
    decreases a.len(),
{
    if a.len() > 0 {
        lemma_self_distance(a.drop_last());
    }
}

proof fn lemma_one_edit_distance(a: Seq<char>, between: Seq<char>, b: Seq<char>)
    requires
        one_edit(a, between),
    ensures
        edit_distance(a, b) <= edit_distance(between, b) + 1,
{
    if exists|i: int, c: char| 0 <= i <= a.len() && between == #[trigger] a.insert(i, c) {
        let (i, c) = choose|i: int, c: char|
            0 <= i <= a.len() && between == #[trigger] a.insert(i, c);
        lemma_insertion(a, b, i, c);
    } else if exists|i: int| 0 <= i < a.len() && between == #[trigger] a.remove(i) {
        let i = choose|i: int| 0 <= i < a.len() && between == #[trigger] a.remove(i);
        lemma_removal(a, b, i);
    } else {
        let (i, c) = choose|i: int, c: char|
            0 <= i < a.len() && between == #[trigger] a.update(i, c);
        lemma_substitution(a, b, i, c);
    }
}

/// No sequence of edits is shorter than the edit distance.
pub proof fn law_edit_distance_is_a_lower_bound(a: Seq<char>, b: Seq<char>, count: nat)
    requires
        reachable(a, b, count),
    ensures
        edit_distance(a, b) <= count,
    decreases count,
{
    if count == 0 {
        lemma_self_distance(a);
    } else {
        let between = choose|between: Seq<char>| #[trigger]
            one_edit(a, between) && reachable(between, b, (count - 1) as nat);
        law_edit_distance_is_a_lower_bound(between, b, (count - 1) as nat);
        lemma_one_edit_distance(a, between, b);
    }
}

proof fn lemma_reachable_in_two(a: Seq<char>, m: Seq<char>, b: Seq<char>, first: nat, second: nat)
    requires
        reachable(a, m, first),
        reachable(m, b, second),
    ensures
        reachable(a, b, first + second),
    decreases first,
{
    if first > 0 {
        let between = choose|between: Seq<char>| #[trigger]
            one_edit(a, between) && reachable(between, m, (first - 1) as nat);
        lemma_reachable_in_two(between, m, b, (first - 1) as nat, second);
        assert(one_edit(a, between));
        assert((first - 1) as nat + second == (first + second - 1) as nat);
    }
}

proof fn lemma_one_edit_reachable(a: Seq<char>, b: Seq<char>)
    requires
        one_edit(a, b),
    ensures
        reachable(a, b, 1),
{
    assert(reachable(b, b, 0));
    assert(one_edit(a, b) && reachable(b, b, (1 - 1) as nat));
}

proof fn lemma_one_edit_then_push(a: Seq<char>, b: Seq<char>, last: char)
    requires
        one_edit(a, b),
    ensures
        one_edit(a.push(last), b.push(last)),
{
    if exists|i: int, c: char| 0 <= i <= a.len() && b == #[trigger] a.insert(i, c) {
        let (i, c) = choose|i: int, c: char| 0 <= i <= a.len() && b == #[trigger] a.insert(i, c);
        assert(b.push(last) =~= a.push(last).insert(i, c));
    } else if exists|i: int| 0 <= i < a.len() && b == #[trigger] a.remove(i) {
        let i = choose|i: int| 0 <= i < a.len() && b == #[trigger] a.remove(i);
        assert(b.push(last) =~= a.push(last).remove(i));
    } else {
        let (i, c) = choose|i: int, c: char| 0 <= i < a.len() && b == #[trigger] a.update(i, c);
        assert(b.push(last) =~= a.push(last).update(i, c));
    }
}

proof fn lemma_reachable_then_push(a: Seq<char>, b: Seq<char>, count: nat, last: char)
    requires
        reachable(a, b, count),
    ensures
        reachable(a.push(last), b.push(last), count),
    decreases count,
{
    if count > 0 {
        let between = choose|between: Seq<char>| #[trigger]
            one_edit(a, between) && reachable(between, b, (count - 1) as nat);
        lemma_reachable_then_push(between, b, (count - 1) as nat, last);
        lemma_one_edit_then_push(a, between, last);
    }
}

/// Some sequence of edits is exactly as long as the edit distance.
pub proof fn law_edit_distance_is_reached(a: Seq<char>, b: Seq<char>)
    ensures
        reachable(a, b, edit_distance(a, b)),
    decreases a.len() + b.len(),
{
    let n = edit_distance(a, b);
    if a.len() == 0 && b.len() == 0 {
        assert(a =~= b);
    } else if b.len() == 0 {
        let shorter = a.drop_last();
        law_edit_distance_is_reached(shorter, b);
        assert(shorter =~= a.remove(a.len() - 1));
        assert(one_edit(a, shorter));
        lemma_one_edit_reachable(a, shorter);
        reveal_with_fuel(edit_distance, 2);
        lemma_reachable_in_two(a, shorter, b, 1, edit_distance(shorter, b));
    } else if a.len() == 0 {
        let shorter = b.drop_last();
        law_edit_distance_is_reached(a, shorter);
        assert(b =~= shorter.insert(shorter.len() as int, b.last()));
        assert(one_edit(shorter, b));
        lemma_one_edit_reachable(shorter, b);
        lemma_reachable_in_two(a, shorter, b, edit_distance(a, shorter), 1);
    } else if n == edit_distance(a, b.drop_last()) + 1 {
        let shorter = b.drop_last();
        law_edit_distance_is_reached(a, shorter);
        assert(b =~= shorter.insert(shorter.len() as int, b.last()));
        assert(one_edit(shorter, b));
        lemma_one_edit_reachable(shorter, b);
        lemma_reachable_in_two(a, shorter, b, edit_distance(a, shorter), 1);
    } else if n == edit_distance(a.drop_last(), b) + 1 {
        let shorter = a.drop_last();
        law_edit_distance_is_reached(shorter, b);
        assert(shorter =~= a.remove(a.len() - 1));
        assert(one_edit(a, shorter));
        lemma_one_edit_reachable(a, shorter);
        lemma_reachable_in_two(a, shorter, b, 1, edit_distance(shorter, b));
    } else {
        let distance = edit_distance(a.drop_last(), b.drop_last());
        law_edit_distance_is_reached(a.drop_last(), b.drop_last());
        lemma_reachable_then_push(a.drop_last(), b.drop_last(), distance, a.last());
        assert(a =~= a.drop_last().push(a.last()));
        let between = b.drop_last().push(a.last());
        if a.last() == b.last() {
            assert(between =~= b);
        } else {
            assert(b =~= between.update(b.len() - 1, b.last()));
            assert(one_edit(between, b));
            lemma_one_edit_reachable(between, b);
            lemma_reachable_in_two(a, between, b, distance, 1);
        }
    }
}

} // verus!
