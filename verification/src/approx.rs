//! Typo-tolerant matching: a bounded edit-distance substring match.
use vstd::arithmetic::div_mod::lemma_fundamental_div_mod_converse;
use vstd::prelude::*;

verus! {

pub open spec fn min(a: nat, b: nat) -> nat {
    if a <= b {
        a
    } else {
        b
    }
}

/// Cost of aligning two chars: nothing when they are equal, one substitution otherwise.
pub open spec fn cost(a: char, b: char) -> nat {
    if a == b {
        0
    } else {
        1
    }
}

/// Levenshtein distance: the fewest insertions, deletions and substitutions
/// of single chars that turn `a` into `b`.
pub open spec fn edit_distance(a: Seq<char>, b: Seq<char>) -> nat
    decreases a.len() + b.len(),
{
    if a.len() == 0 {
        b.len()
    } else if b.len() == 0 {
        a.len()
    } else {
        min(
            edit_distance(a.drop_last(), b.drop_last()) + cost(a.last(), b.last()),
            min(edit_distance(a.drop_last(), b) + 1, edit_distance(a, b.drop_last()) + 1),
        )
    }
}

/// The least edit distance between `query` and a suffix of `text` that
/// starts at or before `last_start`.
pub open spec fn least_over_starts(query: Seq<char>, text: Seq<char>, last_start: nat) -> nat
    decreases last_start,
{
    if last_start == 0 {
        edit_distance(query, text)
    } else {
        min(
            least_over_starts(query, text, (last_start - 1) as nat),
            edit_distance(query, text.skip(last_start as int)),
        )
    }
}

/// The least edit distance between the first `row` chars of `query` and a
/// piece of `text` (possibly empty) that ends before position `col`.
pub open spec fn ending_at(query: Seq<char>, text: Seq<char>, row: int, col: int) -> nat {
    least_over_starts(query.take(row), text.take(col), col as nat)
}

/// The leftmost end position, among `0..=last_end`, of a piece of `text`
/// that is closest to `query`.
pub open spec fn best_end(query: Seq<char>, text: Seq<char>, last_end: nat) -> int
    decreases last_end,
{
    if last_end == 0 {
        0
    } else {
        let before = best_end(query, text, (last_end - 1) as nat);
        if ending_at(query, text, query.len() as int, last_end as int) < ending_at(
            query,
            text,
            query.len() as int,
            before,
        ) {
            last_end as int
        } else {
            before
        }
    }
}

/// The least edit distance between `query` and any substring of `text`.
pub open spec fn substring_distance(query: Seq<char>, text: Seq<char>) -> nat {
    ending_at(query, text, query.len() as int, best_end(query, text, text.len()))
}

/// The position `col` as a highlight, if it has one.
pub open spec fn highlight(col: int) -> Seq<u32> {
    if col <= u32::MAX {
        seq![col as u32]
    } else {
        seq![]
    }
}

/// The text positions that an optimal alignment of the first `row` query
/// chars, ending before text position `col`, pairs with an equal query char.
/// Diagonal steps come first, so that equal chars are paired where possible.
pub open spec fn aligned(query: Seq<char>, text: Seq<char>, row: int, col: int) -> Seq<u32>
    decreases row + col,
{
    if row <= 0 || col <= 0 {
        seq![]
    } else {
        let here = ending_at(query, text, row, col);
        let diagonal = cost(query[row - 1], text[col - 1]);
        if here == ending_at(query, text, row - 1, col - 1) + diagonal {
            if diagonal == 0 {
                aligned(query, text, row - 1, col - 1) + highlight(col - 1)
            } else {
                aligned(query, text, row - 1, col - 1)
            }
        } else if here == ending_at(query, text, row - 1, col) + 1 {
            aligned(query, text, row - 1, col)
        } else {
            aligned(query, text, row, col - 1)
        }
    }
}

/// The outcome of an approximate match: the distance of the closest
/// substring and the positions to highlight, if it is close enough.
pub open spec fn approx_outcome(query: Seq<char>, text: Seq<char>, max_errors: u32) -> Option<
    (u32, Seq<u32>),
> {
    if query.len() == 0 || text.len() == 0 || query.len() > u16::MAX {
        None
    } else if substring_distance(query, text) > max_errors {
        None
    } else {
        Some(
            (
                substring_distance(query, text) as u32,
                aligned(query, text, query.len() as int, best_end(query, text, text.len())),
            ),
        )
    }
}

proof fn lemma_least_is_lower_bound(query: Seq<char>, text: Seq<char>, last_start: nat, s: nat)
    requires
        s <= last_start,
    ensures
        least_over_starts(query, text, last_start) <= edit_distance(query, text.skip(s as int)),
    decreases last_start,
{
    assert(text.skip(0) =~= text);
    if s < last_start {
        lemma_least_is_lower_bound(query, text, (last_start - 1) as nat, s);
    }
}

proof fn lemma_least_is_attained(query: Seq<char>, text: Seq<char>, last_start: nat) -> (s: nat)
    ensures
        s <= last_start,
        least_over_starts(query, text, last_start) == edit_distance(query, text.skip(s as int)),
    decreases last_start,
{
    assert(text.skip(0) =~= text);
    if last_start == 0 {
        0
    } else if least_over_starts(query, text, (last_start - 1) as nat) <= edit_distance(
        query,
        text.skip(last_start as int),
    ) {
        lemma_least_is_attained(query, text, (last_start - 1) as nat)
    } else {
        last_start
    }
}

/// Row zero of the table: a match may start anywhere.
proof fn lemma_first_row(query: Seq<char>, text: Seq<char>, col: int)
    requires
        0 <= col <= text.len(),
    ensures
        ending_at(query, text, 0, col) == 0,
{
    lemma_least_is_lower_bound(query.take(0), text.take(col), col as nat, col as nat);
    assert(text.take(col).skip(col).len() == 0);
}

/// Column zero of the table: every query char so far is deleted.
proof fn lemma_first_col(query: Seq<char>, text: Seq<char>, row: int)
    requires
        0 <= row <= query.len(),
    ensures
        ending_at(query, text, row, 0) == row,
{
    assert(text.take(0).len() == 0);
    assert(query.take(row).len() == row);
}

/// Sellers' recurrence.
proof fn lemma_recurrence(query: Seq<char>, text: Seq<char>, row: int, col: int)
    requires
        1 <= row <= query.len(),
        1 <= col <= text.len(),
    ensures
        ending_at(query, text, row, col) == min(
            ending_at(query, text, row - 1, col - 1) + cost(query[row - 1], text[col - 1]),
            min(ending_at(query, text, row - 1, col) + 1, ending_at(query, text, row, col - 1) + 1),
        ),
{
    let q = query.take(row);
    let t = text.take(col);
    let q1 = query.take(row - 1);
    let t1 = text.take(col - 1);
    assert(q.drop_last() =~= q1);
    let n = col as nat;
    let m = (col - 1) as nat;
    let here = ending_at(query, text, row, col);
    let c = cost(query[row - 1], text[col - 1]);
    let diagonal = ending_at(query, text, row - 1, col - 1) + c;
    let delete = ending_at(query, text, row - 1, col) + 1;
    let insert = ending_at(query, text, row, col - 1) + 1;

    assert forall|s: int| 0 <= s < col implies #[trigger] t.skip(s).drop_last() == t1.skip(s)
        && t.skip(s).len() > 0 && t.skip(s).last() == text[col - 1] by {
        assert(t.skip(s).drop_last() =~= t1.skip(s));
    }
    // No candidate is below the table entry.
    let a = lemma_least_is_attained(q1, t1, m);
    lemma_least_is_lower_bound(q, t, n, a);
    assert(t.skip(a as int).drop_last() == t1.skip(a as int));
    assert(here <= diagonal);
    let d = lemma_least_is_attained(q1, t, n);
    lemma_least_is_lower_bound(q, t, n, d);
    if d < col {
        assert(t.skip(d as int).drop_last() == t1.skip(d as int));
    } else {
        assert(t.skip(d as int).len() == 0);
        reveal_with_fuel(edit_distance, 2);
    }
    assert(here <= delete);
    let i = lemma_least_is_attained(q, t1, m);
    lemma_least_is_lower_bound(q, t, n, i);
    assert(t.skip(i as int).drop_last() == t1.skip(i as int));
    assert(here <= insert);
    // The table entry is one of the candidates, or above one of them.
    let s = lemma_least_is_attained(q, t, n);
    if s < col {
        assert(t.skip(s as int).drop_last() == t1.skip(s as int));
        lemma_least_is_lower_bound(q1, t1, m, s);
        lemma_least_is_lower_bound(q1, t, n, s);
        lemma_least_is_lower_bound(q, t1, m, s);
    } else {
        assert(t.skip(s as int).len() == 0);
        lemma_least_is_lower_bound(q1, t, n, n);
        assert(t.skip(n as int).len() == 0);
        reveal_with_fuel(edit_distance, 2);
    }
}

/// Every table entry of a row is at most the row's number.
proof fn lemma_entry_bound(query: Seq<char>, text: Seq<char>, row: int, col: int)
    requires
        0 <= row <= query.len(),
        0 <= col <= text.len(),
    ensures
        ending_at(query, text, row, col) <= row,
{
    lemma_least_is_lower_bound(query.take(row), text.take(col), col as nat, col as nat);
    assert(text.take(col).skip(col).len() == 0);
}

/// The table entry at a row-major index into a table `width` columns wide.
pub open spec fn table_entry(query: Seq<char>, text: Seq<char>, index: int) -> nat {
    let width = text.len() + 1;
    ending_at(query, text, index / (width as int), index % (width as int))
}

/// The whole table, row by row.
pub open spec fn table(query: Seq<char>, text: Seq<char>) -> Seq<u16> {
    Seq::new(
        (query.len() + 1) * (text.len() + 1),
        |index: int| table_entry(query, text, index) as u16,
    )
}

proof fn lemma_index(query: Seq<char>, text: Seq<char>, row: int, col: int)
    requires
        0 <= row <= query.len(),
        0 <= col <= text.len(),
    ensures
        0 <= row * (text.len() + 1) + col < (query.len() + 1) * (text.len() + 1),
        table_entry(query, text, row * (text.len() + 1) + col) == ending_at(query, text, row, col),
{
    let width = (text.len() + 1) as int;
    lemma_fundamental_div_mod_converse(row * width + col, width, row, col);
    assert(0 <= row * width <= query.len() * width) by (nonlinear_arith)
        requires
            0 <= row <= query.len(),
            width > 0,
    ;
    assert((query.len() + 1) * width == query.len() * width + width) by (nonlinear_arith);
}

/// Edit distance tolerated by the typo-tolerant pass for a query of `len`
/// chars: none for one or two chars (everything would match), one typo up
/// to five chars, two up to nine, three beyond.
pub fn max_errors(len: usize) -> (errors: u32)
    ensures
        errors == error_budget(len as nat),
        errors == (if len < 3 {
            0int
        } else if len < 6 {
            1
        } else if len < 10 {
            2
        } else {
            3
        }),
{
    if len <= 2 {
        0
    } else if len <= 5 {
        1
    } else if len <= 9 {
        2
    } else {
        3
    }
}

pub open spec fn error_budget(len: nat) -> u32 {
    if len <= 2 {
        0
    } else if len <= 5 {
        1
    } else if len <= 9 {
        2
    } else {
        3
    }
}

/// Fills `scratch` with the table of least distances, row by row.
fn fill_table(query: &[char], text: &[char], scratch: &mut Vec<u16>)
    requires
        query.len() <= u16::MAX,
        (query.len() + 1) * (text.len() + 1) <= usize::MAX,
    ensures
        final(scratch)@ == table(query@, text@),
{
    let ghost q = query@;
    let ghost t = text@;
    let query_len: usize = query.len();
    let text_len: usize = text.len();
    let ghost cells = (q.len() + 1) * (t.len() + 1);
    assert(t.len() + 1 <= cells && cells == q.len() * (t.len() + 1) + (t.len() + 1))
        by (nonlinear_arith)
        requires
            cells == (q.len() + 1) * (t.len() + 1),
    ;
    let width: usize = text_len + 1;
    scratch.clear();
    // Row 0 stays zero: a match may start anywhere in `text`.
    let mut col: usize = 0;
    while col < width
        invariant
            col <= width,
            width == t.len() + 1,
            scratch@.len() == col,
            forall|i: int| 0 <= i < col ==> scratch@[i] == #[trigger] table_entry(q, t, i),
        decreases width - col,
    {
        proof {
            lemma_index(q, t, 0, col as int);
            lemma_first_row(q, t, col as int);
        }
        scratch.push(0);
        col += 1;
    }
    let mut row: usize = 1;
    while row <= query_len
        invariant
            1 <= row <= query_len + 1,
            query_len == q.len(),
            query_len <= u16::MAX,
            text_len == t.len(),
            width == t.len() + 1,
            query@ == q,
            text@ == t,
            cells == (q.len() + 1) * (t.len() + 1),
            cells <= usize::MAX,
            scratch@.len() == row * width,
            forall|i: int| 0 <= i < row * width ==> scratch@[i] == #[trigger] table_entry(q, t, i),
        decreases query_len + 1 - row,
    {
        // Column 0: the first `row` query chars against an empty prefix of
        // `text`, i.e. `row` deletions.
        proof {
            lemma_index(q, t, row as int, 0);
            lemma_first_col(q, t, row as int);
        }
        scratch.push(row as u16);
        let mut col: usize = 1;
        while col <= text_len
            invariant
                1 <= row <= query_len,
                1 <= col <= text_len + 1,
                query_len == q.len(),
                query_len <= u16::MAX,
                text_len == t.len(),
                width == t.len() + 1,
                query@ == q,
                text@ == t,
                cells == (q.len() + 1) * (t.len() + 1),
                cells <= usize::MAX,
                scratch@.len() == row * width + col,
                forall|i: int|
                    0 <= i < row * width + col ==> scratch@[i] == #[trigger] table_entry(q, t, i),
            decreases text_len + 1 - col,
        {
            let ghost base = scratch@;
            proof {
                lemma_index(q, t, row as int, col as int);
                lemma_index(q, t, row - 1, col - 1);
                lemma_index(q, t, row - 1, col as int);
                lemma_index(q, t, row as int, col - 1);
                lemma_recurrence(q, t, row as int, col as int);
                lemma_entry_bound(q, t, row as int, col as int);
                lemma_entry_bound(q, t, row - 1, col - 1);
                lemma_entry_bound(q, t, row - 1, col as int);
                lemma_entry_bound(q, t, row as int, col - 1);
                assert(row * width == (row - 1) * width + width) by (nonlinear_arith);
            }
            let above: usize = (row - 1) * width + col;
            let here: usize = row * width + col;
            let step: u16 = if query[row - 1] != text[col - 1] {
                1
            } else {
                0
            };
            let substitute: u16 = scratch[above - 1].saturating_add(step);
            let delete: u16 = scratch[above].saturating_add(1);
            let insert: u16 = scratch[here - 1].saturating_add(1);
            let mut least: u16 = substitute;
            if delete < least {
                least = delete;
            }
            if insert < least {
                least = insert;
            }
            scratch.push(least);
            col += 1;
        }
        assert((row + 1) * width == row * width + width) by (nonlinear_arith);
        row += 1;
    }
    assert(scratch@ =~= table(q, t)) by {
        assert(row * width == cells);
        assert forall|i: int| 0 <= i < cells implies scratch@[i] == #[trigger] table(q, t)[i] by {
            assert(scratch@[i] == table_entry(q, t, i));
        }
    }
}

/// Approximate substring match (Sellers' algorithm): the minimal edit
/// distance (insertion, deletion, substitution) between `query` and any
/// substring of `text`. Returns the distance and the text positions whose
/// chars align exactly with query chars (for highlighting), or `None` when
/// even the best substring needs more than `max_errors` edits. `scratch`
/// is the reused table of `(query.len() + 1) x (text.len() + 1)` cells;
/// every cell is at most `query.len()`, so `u16` is plenty.
pub fn approx_match(
    query: &[char],
    text: &[char],
    max_errors: u32,
    scratch: &mut Vec<u16>,
) -> (outcome: Option<(u32, Vec<u32>)>)
    requires
        2 * ((query.len() + 1) * (text.len() + 1)) <= isize::MAX,
    ensures
        approx_view(outcome) == approx_outcome(query@, text@, max_errors),
        final(scratch)@ == if query.len() == 0 || text.len() == 0 || query.len() > u16::MAX {
            old(scratch)@
        } else {
            table(query@, text@)
        },
{
    let ghost q = query@;
    let ghost t = text@;
    let query_len: usize = query.len();
    let text_len: usize = text.len();
    if query_len == 0 || text_len == 0 || query_len > u16::MAX as usize {
        return None;
    }
    assert(q.len() + t.len() + 1 <= (q.len() + 1) * (t.len() + 1)) by (nonlinear_arith);
    fill_table(query, text, scratch);
    let width: usize = text_len + 1;
    proof {
        lemma_index(q, t, query_len as int, 0);
    }
    // Best end position in the last row (leftmost on ties).
    let last_row: usize = query_len * width;
    let mut col: usize = 0;
    let mut best: u16 = scratch[last_row];
    proof {
        lemma_entry_bound(q, t, query_len as int, 0);
    }
    let mut end: usize = 1;
    while end < width
        invariant
            1 <= end <= width,
            0 <= col < end,
            width == t.len() + 1,
            query_len == q.len(),
            query_len <= u16::MAX,
            last_row == q.len() * (t.len() + 1),
            (q.len() + 1) * (t.len() + 1) <= usize::MAX,
            scratch@ == table(q, t),
            col == best_end(q, t, (end - 1) as nat),
            best == ending_at(q, t, q.len() as int, col as int),
        decreases width - end,
    {
        proof {
            lemma_index(q, t, query_len as int, end as int);
            lemma_entry_bound(q, t, query_len as int, end as int);
        }
        let candidate: u16 = scratch[last_row + end];
        if candidate < best {
            col = end;
            best = candidate;
        }
        end += 1;
    }
    if best as u32 > max_errors {
        return None;
    }
    // Trace back, preferring diagonal steps so equal chars get highlighted.
    let mut row: usize = query_len;
    let mut backwards: Vec<u32> = Vec::new();
    let ghost whole = aligned(q, t, row as int, col as int);
    assert(whole =~= whole + backwards@.reverse());
    while row > 0 && col > 0
        invariant
            row <= query_len,
            col <= text_len,
            query_len == q.len(),
            query_len <= u16::MAX,
            text_len == t.len(),
            width == t.len() + 1,
            query@ == q,
            text@ == t,
            (q.len() + 1) * (t.len() + 1) <= usize::MAX,
            scratch@ == table(q, t),
            whole == aligned(q, t, row as int, col as int) + backwards@.reverse(),
        decreases row + col,
    {
        let ghost taken = backwards@;
        proof {
            lemma_index(q, t, row as int, col as int);
            lemma_index(q, t, row - 1, col - 1);
            lemma_index(q, t, row - 1, col as int);
            lemma_entry_bound(q, t, row as int, col as int);
            lemma_entry_bound(q, t, row - 1, col - 1);
            lemma_entry_bound(q, t, row - 1, col as int);
            assert(row * width == (row - 1) * width + width) by (nonlinear_arith);
        }
        let above: usize = (row - 1) * width + col;
        let here: u16 = scratch[row * width + col];
        let step: u16 = if query[row - 1] != text[col - 1] {
            1
        } else {
            0
        };
        if here == scratch[above - 1].saturating_add(step) {
            if step == 0 {
                if col - 1 <= u32::MAX as usize {
                    backwards.push((col - 1) as u32);
                }
            }
            assert(whole =~= aligned(q, t, row - 1, col - 1) + backwards@.reverse());
            row -= 1;
            col -= 1;
        } else if here == scratch[above].saturating_add(1) {
            row -= 1;
        } else {
            col -= 1;
        }
    }
    let mut matched: Vec<u32> = Vec::new();
    let mut left: usize = backwards.len();
    while left > 0
        invariant
            left <= backwards.len(),
            matched@ == backwards@.skip(left as int).reverse(),
        decreases left,
    {
        left -= 1;
        matched.push(backwards[left]);
        assert(matched@ =~= backwards@.skip(left as int).reverse());
    }
    assert(backwards@.skip(0) =~= backwards@);
    assert(matched@ =~= whole);
    Some((best as u32, matched))
}

/// An outcome with its positions as a sequence.
pub open spec fn approx_view(outcome: Option<(u32, Vec<u32>)>) -> Option<(u32, Seq<u32>)> {
    match outcome {
        Some((distance, positions)) => Some((distance, positions@)),
        None => None,
    }
}

proof fn lemma_best_end_is_least(query: Seq<char>, text: Seq<char>, last_end: nat, end: int)
    requires
        0 <= end <= last_end,
    ensures
        0 <= best_end(query, text, last_end) <= last_end,
        ending_at(query, text, query.len() as int, best_end(query, text, last_end)) <= ending_at(
            query,
            text,
            query.len() as int,
            end,
        ),
    decreases last_end,
{
    if last_end > 0 {
        if end < last_end {
            lemma_best_end_is_least(query, text, (last_end - 1) as nat, end);
        } else {
            lemma_best_end_is_least(query, text, (last_end - 1) as nat, last_end - 1);
        }
    }
}

/// No substring of the text is closer to the query than the reported
/// distance, and one is exactly that close.
pub proof fn law_distance_is_least_over_substrings(query: Seq<char>, text: Seq<char>)
    ensures
        forall|i: int, j: int|
            0 <= i <= j <= text.len() ==> substring_distance(query, text) <= #[trigger] edit_distance(
                query,
                text.subrange(i, j),
            ),
        exists|i: int, j: int|
            0 <= i <= j <= text.len() && substring_distance(query, text)
                == #[trigger] edit_distance(query, text.subrange(i, j)),
{
    assert(query.take(query.len() as int) =~= query);
    assert forall|i: int, j: int|
        0 <= i <= j <= text.len() implies substring_distance(query, text)
        <= #[trigger] edit_distance(query, text.subrange(i, j)) by {
        lemma_best_end_is_least(query, text, text.len(), j);
        lemma_least_is_lower_bound(query, text.take(j), j as nat, i as nat);
        assert(text.take(j).skip(i) =~= text.subrange(i, j));
    }
    lemma_best_end_is_least(query, text, text.len(), 0);
    let j = best_end(query, text, text.len());
    let i = lemma_least_is_attained(query, text.take(j), j as nat);
    assert(text.take(j).skip(i as int) =~= text.subrange(i as int, j));
    assert(substring_distance(query, text) == edit_distance(query, text.subrange(i as int, j)));
}

/// The query positions that go with the text positions of `aligned`.
pub open spec fn aligned_query(query: Seq<char>, text: Seq<char>, row: int, col: int) -> Seq<int>
    decreases row + col,
{
    if row <= 0 || col <= 0 {
        seq![]
    } else {
        let here = ending_at(query, text, row, col);
        let diagonal = cost(query[row - 1], text[col - 1]);
        if here == ending_at(query, text, row - 1, col - 1) + diagonal {
            if diagonal == 0 && col - 1 <= u32::MAX {
                aligned_query(query, text, row - 1, col - 1).push(row - 1)
            } else {
                aligned_query(query, text, row - 1, col - 1)
            }
        } else if here == ending_at(query, text, row - 1, col) + 1 {
            aligned_query(query, text, row - 1, col)
        } else {
            aligned_query(query, text, row, col - 1)
        }
    }
}

/// Whether `positions` names, in ascending order, chars of `text` that are
/// equal to chars of `query` taken in order.
pub open spec fn is_common_subsequence(
    query: Seq<char>,
    text: Seq<char>,
    from_query: Seq<int>,
    positions: Seq<u32>,
) -> bool {
    &&& from_query.len() == positions.len()
    &&& forall|k: int|
        #![trigger positions[k]]
        #![trigger from_query[k]]
        0 <= k < positions.len() ==> 0 <= from_query[k] < query.len() && positions[k] < text.len()
            && query[from_query[k]] == text[positions[k] as int]
    &&& forall|k: int, l: int|
        #![trigger positions[k], positions[l]]
        #![trigger from_query[k], from_query[l]]
        0 <= k < l < positions.len() ==> from_query[k] < from_query[l] && positions[k]
            < positions[l]
}

proof fn lemma_subsequence_of_longer(
    query: Seq<char>,
    text: Seq<char>,
    row: int,
    col: int,
    longer_row: int,
    longer_col: int,
    from_query: Seq<int>,
    positions: Seq<u32>,
)
    requires
        0 <= row <= longer_row <= query.len(),
        0 <= col <= longer_col <= text.len(),
        is_common_subsequence(query.take(row), text.take(col), from_query, positions),
    ensures
        is_common_subsequence(
            query.take(longer_row),
            text.take(longer_col),
            from_query,
            positions,
        ),
{
    assert forall|k: int| 0 <= k < positions.len() implies query.take(longer_row)[(#[trigger]
    from_query[k])] == text.take(longer_col)[positions[k] as int] by {
        assert(query.take(row)[from_query[k]] == text.take(col)[positions[k] as int]);
    }
}

proof fn lemma_alignment(query: Seq<char>, text: Seq<char>, row: int, col: int)
    requires
        0 <= row <= query.len(),
        0 <= col <= text.len(),
    ensures
        is_common_subsequence(
            query.take(row),
            text.take(col),
            aligned_query(query, text, row, col),
            aligned(query, text, row, col),
        ),
        text.len() <= u32::MAX ==> row <= aligned(query, text, row, col).len() + ending_at(
            query,
            text,
            row,
            col,
        ),
        aligned(query, text, row, col).len() <= row,
        text.len() <= u32::MAX && aligned(query, text, row, col).len() > 0 ==> col - aligned(
            query,
            text,
            row,
            col,
        )[0] <= aligned(query, text, row, col).len() + ending_at(query, text, row, col),
    decreases row + col,
{
    if row == 0 {
    } else if col == 0 {
        lemma_first_col(query, text, row);
    } else {
        lemma_recurrence(query, text, row, col);
        lemma_alignment(query, text, row - 1, col - 1);
        lemma_alignment(query, text, row - 1, col);
        lemma_alignment(query, text, row, col - 1);
        let (r, c) = if ending_at(query, text, row, col) == ending_at(query, text, row - 1, col - 1)
            + cost(query[row - 1], text[col - 1]) {
            (row - 1, col - 1)
        } else if ending_at(query, text, row, col) == ending_at(query, text, row - 1, col) + 1 {
            (row - 1, col)
        } else {
            (row, col - 1)
        };
        lemma_subsequence_of_longer(
            query,
            text,
            r,
            c,
            row,
            col,
            aligned_query(query, text, r, c),
            aligned(query, text, r, c),
        );
    }
}

/// The highlighted chars form a common subsequence of the query and the
/// text. At most as many query chars as the distance go without one, and at
/// most as many text chars between the first and the last highlighted one.
pub proof fn law_highlights_are_a_common_subsequence(
    query: Seq<char>,
    text: Seq<char>,
    max_errors: u32,
)
    requires
        approx_outcome(query, text, max_errors) is Some,
    ensures
        (approx_outcome(query, text, max_errors)->0).0 <= max_errors,
        exists|from_query: Seq<int>| #[trigger]
            is_common_subsequence(
                query,
                text,
                from_query,
                (approx_outcome(query, text, max_errors)->0).1,
            ),
        (approx_outcome(query, text, max_errors)->0).1.len() <= query.len(),
        text.len() <= u32::MAX ==> ({
            let (distance, positions) = approx_outcome(query, text, max_errors)->0;
            &&& query.len() <= positions.len() + distance
            &&& positions.len() > 0 ==> (positions.last() - positions[0] + 1) - positions.len()
                <= distance
        }),
{
    let end = best_end(query, text, text.len());
    lemma_best_end_is_least(query, text, text.len(), 0);
    lemma_alignment(query, text, query.len() as int, end);
    lemma_entry_bound(query, text, query.len() as int, end);
    let from_query = aligned_query(query, text, query.len() as int, end);
    let positions = aligned(query, text, query.len() as int, end);
    lemma_subsequence_of_longer(
        query,
        text,
        query.len() as int,
        end,
        query.len() as int,
        text.len() as int,
        from_query,
        positions,
    );
    assert(query.take(query.len() as int) =~= query);
    assert(text.take(text.len() as int) =~= text);
    assert(positions == (approx_outcome(query, text, max_errors)->0).1);
    assert(is_common_subsequence(
        query,
        text,
        from_query,
        (approx_outcome(query, text, max_errors)->0).1,
    ));
}

/// The best end is the first position at which a piece as close as any ends.
proof fn lemma_best_end_is_first(query: Seq<char>, text: Seq<char>, last_end: nat, end: int)
    requires
        0 <= end <= last_end,
        ending_at(query, text, query.len() as int, end) <= ending_at(
            query,
            text,
            query.len() as int,
            best_end(query, text, last_end),
        ),
    ensures
        best_end(query, text, last_end) <= end,
    decreases last_end,
{
    if last_end > 0 {
        lemma_best_end_is_least(query, text, last_end, (last_end - 1) as int);
        lemma_best_end_is_least(query, text, (last_end - 1) as nat, 0);
        if end < last_end {
            lemma_best_end_is_least(query, text, last_end, end);
            lemma_best_end_is_least(query, text, (last_end - 1) as nat, end);
            if best_end(query, text, last_end) == best_end(query, text, (last_end - 1) as nat) {
                lemma_best_end_is_first(query, text, (last_end - 1) as nat, end);
            }
        }
    }
}

/// Of several pieces as close to the query, the one that ends first is
/// highlighted.
pub proof fn law_highlights_end_leftmost(
    query: Seq<char>,
    text: Seq<char>,
    max_errors: u32,
    start: int,
    end: int,
)
    requires
        approx_outcome(query, text, max_errors) is Some,
        0 <= start <= end <= text.len(),
        edit_distance(query, text.subrange(start, end)) == (approx_outcome(
            query,
            text,
            max_errors,
        )->0).0,
    ensures
        ({
            let positions = (approx_outcome(query, text, max_errors)->0).1;
            positions.len() > 0 ==> positions.last() < end
        }),
{
    let best = best_end(query, text, text.len());
    assert(query.take(query.len() as int) =~= query);
    lemma_least_is_lower_bound(query, text.take(end), end as nat, start as nat);
    assert(text.take(end).skip(start) =~= text.subrange(start, end));
    lemma_best_end_is_first(query, text, text.len(), end);
    lemma_best_end_is_least(query, text, text.len(), 0);
    lemma_alignment(query, text, query.len() as int, best);
    let positions = aligned(query, text, query.len() as int, best);
    if positions.len() > 0 {
        let k = positions.len() - 1;
        assert(positions[k] < text.take(best).len());
    }
}

/// The tolerated distance grows with the length of the query: none up to two
/// chars, one up to five, two up to nine, three for every longer query.
pub proof fn law_tolerated_distance(len: nat)
    ensures
        len <= 2 ==> error_budget(len) == 0,
        3 <= len <= 5 ==> error_budget(len) == 1,
        6 <= len <= 9 ==> error_budget(len) == 2,
        10 <= len ==> error_budget(len) == 3,
{
}

/// There is a match exactly if some piece of the text is within the tolerated
/// distance, and its distance is the least that any piece has. Nothing matches
/// an empty query or text, nor a query of more than 65535 chars.
pub proof fn law_match_is_the_closest_piece(query: Seq<char>, text: Seq<char>, max_errors: u32)
    ensures
        approx_outcome(query, text, max_errors) is Some <==> 0 < query.len() <= 0xffff && text.len()
            > 0 && exists|i: int, j: int|
            0 <= i <= j <= text.len() && #[trigger] edit_distance(query, text.subrange(i, j))
                <= max_errors,
        approx_outcome(query, text, max_errors) matches Some((distance, _)) ==> {
            &&& forall|i: int, j: int|
                0 <= i <= j <= text.len() ==> distance <= #[trigger] edit_distance(
                    query,
                    text.subrange(i, j),
                )
            &&& exists|i: int, j: int|
                0 <= i <= j <= text.len() && distance == #[trigger] edit_distance(
                    query,
                    text.subrange(i, j),
                )
        },
{
    law_distance_is_least_over_substrings(query, text);
    let (i, j) = choose|i: int, j: int|
        0 <= i <= j <= text.len() && substring_distance(query, text) == #[trigger] edit_distance(
            query,
            text.subrange(i, j),
        );
    assert(substring_distance(query, text) == edit_distance(query, text.subrange(i, j)));
}

proof fn lemma_one_char_less(a: Seq<char>, b: Seq<char>)
    ensures
        b.len() > 0 ==> edit_distance(a, b.drop_last()) <= edit_distance(a, b) + 1,
        a.len() > 0 ==> edit_distance(a.drop_last(), b) <= edit_distance(a, b) + 1,
    decreases a.len() + b.len(),
{
    if a.len() > 0 && b.len() > 0 {
        let (x, y) = (a.drop_last(), b.drop_last());
        lemma_one_char_less(x, b);
        lemma_one_char_less(a, y);
        lemma_one_char_less(x, y);
        assert(edit_distance(a, y) <= edit_distance(x, y) + 1);
        assert(edit_distance(x, b) <= edit_distance(x, y) + 1);
    }
}

proof fn lemma_neighbours(query: Seq<char>, text: Seq<char>, row: int, col: int)
    requires
        1 <= row <= query.len(),
        1 <= col <= text.len(),
    ensures
        ending_at(query, text, row - 1, col - 1) <= ending_at(query, text, row - 1, col) + 1,
        ending_at(query, text, row - 1, col - 1) <= ending_at(query, text, row, col - 1) + 1,
{
    let (q, q1) = (query.take(row), query.take(row - 1));
    let (t, t1) = (text.take(col), text.take(col - 1));
    let m = (col - 1) as nat;
    assert(q.drop_last() =~= q1);
    let d = lemma_least_is_attained(q1, t, col as nat);
    if d < col {
        assert(t.skip(d as int).drop_last() =~= t1.skip(d as int));
        lemma_one_char_less(q1, t.skip(d as int));
        lemma_least_is_lower_bound(q1, t1, m, d);
    } else {
        assert(t.skip(d as int) =~= t1.skip(m as int));
        lemma_least_is_lower_bound(q1, t1, m, m);
    }
    let i = lemma_least_is_attained(q, t1, m);
    lemma_one_char_less(q, t1.skip(i as int));
    lemma_least_is_lower_bound(q1, t1, m, i);
}

/// `least` is the least edit distance between the first `row` chars of the query
/// and a piece of the text that ends before `col`.
pub open spec fn is_least_at(
    query: Seq<char>,
    text: Seq<char>,
    row: int,
    col: int,
    least: nat,
) -> bool {
    &&& forall|i: int|
        0 <= i <= col ==> least <= #[trigger] edit_distance(query.take(row), text.subrange(i, col))
    &&& exists|i: int|
        0 <= i <= col && least == #[trigger] edit_distance(query.take(row), text.subrange(i, col))
}

proof fn lemma_least_at(query: Seq<char>, text: Seq<char>, row: int, col: int)
    requires
        0 <= row <= query.len(),
        0 <= col <= text.len(),
    ensures
        is_least_at(query, text, row, col, ending_at(query, text, row, col)),
{
    let (q, t) = (query.take(row), text.take(col));
    assert forall|i: int| 0 <= i <= col implies ending_at(query, text, row, col)
        <= #[trigger] edit_distance(q, text.subrange(i, col)) by {
        lemma_least_is_lower_bound(q, t, col as nat, i as nat);
        assert(t.skip(i) =~= text.subrange(i, col));
    }
    let i = lemma_least_is_attained(q, t, col as nat);
    assert(t.skip(i as int) =~= text.subrange(i as int, col));
    assert(ending_at(query, text, row, col) == edit_distance(q, text.subrange(i as int, col)));
}

/// Which chars are highlighted, from the end of the closest piece backwards: two
/// equal chars are always paired. Two different ones are one typo if that is no
/// detour; else the char of the query is one too many if that is none; else the
/// char of the text is.
pub proof fn law_equal_chars_are_paired(
    query: Seq<char>,
    text: Seq<char>,
    row: int,
    col: int,
    here: nat,
    replaced: nat,
    extra: nat,
)
    requires
        0 <= row <= query.len(),
        0 <= col <= text.len() <= 0xffff_ffff,
    ensures
        row == 0 || col == 0 ==> aligned(query, text, row, col).len() == 0,
        row > 0 && col > 0 && query[row - 1] == text[col - 1] ==> aligned(query, text, row, col)
            == aligned(query, text, row - 1, col - 1).push((col - 1) as u32),
        row > 0 && col > 0 && query[row - 1] != text[col - 1] && is_least_at(
            query,
            text,
            row,
            col,
            here,
        ) && is_least_at(query, text, row - 1, col - 1, replaced) && is_least_at(
            query,
            text,
            row - 1,
            col,
            extra,
        ) ==> aligned(query, text, row, col) == if here == replaced + 1 {
            aligned(query, text, row - 1, col - 1)
        } else if here == extra + 1 {
            aligned(query, text, row - 1, col)
        } else {
            aligned(query, text, row, col - 1)
        },
{
    if row > 0 && col > 0 {
        lemma_recurrence(query, text, row, col);
        lemma_neighbours(query, text, row, col);
        if query[row - 1] == text[col - 1] {
            assert(aligned(query, text, row - 1, col - 1) + highlight(col - 1) =~= aligned(
                query,
                text,
                row - 1,
                col - 1,
            ).push((col - 1) as u32));
        } else {
            lemma_least_at(query, text, row, col);
            lemma_least_at(query, text, row - 1, col - 1);
            lemma_least_at(query, text, row - 1, col);
            if is_least_at(query, text, row, col, here) {
                lemma_least_is_unique(query, text, row, col, here);
            }
            if is_least_at(query, text, row - 1, col - 1, replaced) {
                lemma_least_is_unique(query, text, row - 1, col - 1, replaced);
            }
            if is_least_at(query, text, row - 1, col, extra) {
                lemma_least_is_unique(query, text, row - 1, col, extra);
            }
        }
    }
}

proof fn lemma_least_is_unique(query: Seq<char>, text: Seq<char>, row: int, col: int, least: nat)
    requires
        0 <= row <= query.len(),
        0 <= col <= text.len(),
        is_least_at(query, text, row, col, least),
    ensures
        least == ending_at(query, text, row, col),
{
    lemma_least_at(query, text, row, col);
    let other = ending_at(query, text, row, col);
    let i = choose|i: int|
        0 <= i <= col && least == #[trigger] edit_distance(query.take(row), text.subrange(i, col));
    let j = choose|j: int|
        0 <= j <= col && other == #[trigger] edit_distance(query.take(row), text.subrange(j, col));
    assert(other <= edit_distance(query.take(row), text.subrange(i, col)));
    assert(least <= edit_distance(query.take(row), text.subrange(j, col)));
}

/// What is highlighted of a match: the alignment of the whole query with the
/// closest piece that ends first.
pub proof fn law_highlighted_piece(query: Seq<char>, text: Seq<char>, max_errors: u32) -> (end: int)
    requires
        approx_outcome(query, text, max_errors) is Some,
    ensures
        ({
            let (distance, positions) = approx_outcome(query, text, max_errors)->0;
            &&& 0 <= end <= text.len()
            &&& is_least_at(query, text, query.len() as int, end, distance as nat)
            &&& forall|sooner: int|
                0 <= sooner < end ==> !#[trigger] is_least_at(
                    query,
                    text,
                    query.len() as int,
                    sooner,
                    distance as nat,
                )
            &&& positions == aligned(query, text, query.len() as int, end)
        }),
{
    let n = query.len() as int;
    let end = best_end(query, text, text.len());
    let distance = (approx_outcome(query, text, max_errors)->0).0 as nat;
    lemma_best_end_is_least(query, text, text.len(), 0);
    lemma_least_at(query, text, n, end);
    assert forall|sooner: int| 0 <= sooner < end implies !#[trigger] is_least_at(
        query,
        text,
        n,
        sooner,
        distance,
    ) by {
        if is_least_at(query, text, n, sooner, distance) {
            lemma_least_is_unique(query, text, n, sooner, distance);
            lemma_best_end_is_first(query, text, text.len(), sooner);
        }
    }
    end
}

} // verus!
