//! Tab names: truncation to a number of cells, with match highlighting.
use crate::style::MATCH;
use crate::text::chars_of;
use crate::width::{cells, char_cells, fitting_prefix, lemma_cells_concat, sanitize_char, sanitized};
use vstd::prelude::*;

verus! {

/// A name as it is shown: every control char replaced.
pub open spec fn shown_name(name: Seq<char>) -> Seq<char> {
    name.map_values(|c: char| sanitized(c))
}

/// Highlight positions are `u32`, so no more than this many chars are written.
pub open spec fn addressable(name: Seq<char>) -> Seq<char> {
    if name.len() <= 0x1_0000_0000 {
        name
    } else {
        name.take(0x1_0000_0000)
    }
}

/// The part of a name that is written within a budget of cells.
pub open spec fn name_part(name: Seq<char>, budget: nat) -> Seq<char> {
    fitting_prefix(addressable(shown_name(name)), budget)
}

/// Whether position `i` is highlighted. Indices are read from the front
/// while they are at most `i`, so an index behind a larger one is lost;
/// among ascending indices each one counts.
pub open spec fn is_highlighted(indices: Seq<u32>, i: int) -> bool {
    exists|j: int|
        0 <= j < indices.len() && #[trigger] indices[j] == i && forall|k: int|
            0 <= k < j ==> #[trigger] indices[k] <= i
}

/// A text with `MATCH` before and `restore` after every highlighted char.
pub open spec fn highlighted(text: Seq<char>, indices: Seq<u32>, restore: Seq<char>) -> Seq<char>
    decreases text.len(),
{
    if text.len() == 0 {
        seq![]
    } else {
        let before = highlighted(text.drop_last(), indices, restore);
        if is_highlighted(indices, text.len() - 1) {
            before + MATCH@ + seq![text.last()] + restore
        } else {
            before + seq![text.last()]
        }
    }
}

/// A name cut to `max_cells` cells: whole if it fits, else with an ellipsis
/// in the last cell.
pub open spec fn truncated_name(
    name: Seq<char>,
    indices: Seq<u32>,
    max_cells: nat,
    restore: Seq<char>,
) -> Seq<char> {
    if max_cells == 0 {
        seq![]
    } else if cells(shown_name(name)) <= max_cells {
        highlighted(name_part(name, max_cells), indices, restore)
    } else if max_cells == 1 {
        seq!['…']
    } else {
        highlighted(name_part(name, (max_cells - 1) as nat), indices, restore).push('…')
    }
}

/// The cells that a cut name takes.
pub open spec fn truncated_cells(name: Seq<char>, max_cells: nat) -> nat {
    if max_cells == 0 {
        0
    } else if cells(shown_name(name)) <= max_cells {
        cells(name_part(name, max_cells))
    } else if max_cells == 1 {
        1
    } else {
        cells(name_part(name, (max_cells - 1) as nat)) + 1
    }
}

/// Among ascending indices, a position is highlighted exactly if it is one of them.
pub proof fn law_ascending_indices_all_count(indices: Seq<u32>, i: int)
    requires
        forall|j: int, k: int| 0 <= j <= k < indices.len() ==> indices[j] <= indices[k],
    ensures
        is_highlighted(indices, i) <==> exists|j: int|
            0 <= j < indices.len() && #[trigger] indices[j] == i,
{
}

/// Indices count up to the first one that is larger than the position: what
/// stands behind that one is lost.
pub proof fn law_index_behind_a_larger_one_is_lost(indices: Seq<u32>, i: int, larger: int)
    requires
        0 <= larger < indices.len(),
        indices[larger] > i,
    ensures
        is_highlighted(indices, i) <==> is_highlighted(indices.take(larger), i),
        larger > 0 && indices[larger - 1] == i && (forall|k: int|
            0 <= k < larger ==> #[trigger] indices[k] <= i) ==> is_highlighted(indices, i),
{
    let front = indices.take(larger);
    if is_highlighted(indices, i) {
        let j = choose|j: int|
            0 <= j < indices.len() && #[trigger] indices[j] == i && forall|k: int|
                0 <= k < j ==> #[trigger] indices[k] <= i;
        if larger < j {
            assert(indices[larger] <= i);
        }
        assert(front[j] == i);
        assert forall|k: int| 0 <= k < j implies #[trigger] front[k] <= i by {
            assert(front[k] == indices[k]);
        }
    }
    if is_highlighted(front, i) {
        let j = choose|j: int|
            0 <= j < front.len() && #[trigger] front[j] == i && forall|k: int|
                0 <= k < j ==> #[trigger] front[k] <= i;
        assert(indices[j] == i);
        assert forall|k: int| 0 <= k < j implies #[trigger] indices[k] <= i by {
            assert(front[k] == indices[k]);
        }
    }
    if larger > 0 && indices[larger - 1] == i && (forall|k: int|
        0 <= k < larger ==> #[trigger] indices[k] <= i) {
        assert(indices[larger - 1] == i);
    }
}

pub proof fn lemma_fitting_prefix_bound(s: Seq<char>, budget: nat)
    ensures
        cells(fitting_prefix(s, budget)) <= budget,
        fitting_prefix(s, budget).len() <= s.len(),
        fitting_prefix(s, budget) == s.take(fitting_prefix(s, budget).len() as int),
    decreases s.len(),
{
    if cells(s) > budget {
        lemma_fitting_prefix_bound(s.drop_last(), budget);
        let n = fitting_prefix(s, budget).len() as int;
        assert(s.drop_last().take(n) =~= s.take(n));
    } else {
        assert(s.take(s.len() as int) =~= s);
    }
}

proof fn lemma_fitting_prefix(s: Seq<char>, budget: nat, len: int)
    requires
        0 <= len <= s.len(),
        cells(s.take(len)) <= budget,
        len < s.len() ==> cells(s.take(len + 1)) > budget,
    ensures
        fitting_prefix(s, budget) == s.take(len),
    decreases s.len(),
{
    if len == s.len() {
        assert(s.take(len) =~= s);
    } else {
        assert(s =~= s.take(len + 1) + s.skip(len + 1));
        lemma_cells_concat(s.take(len + 1), s.skip(len + 1));
        assert(s.drop_last().take(len) =~= s.take(len));
        if len < s.len() - 1 {
            assert(s.drop_last().take(len + 1) =~= s.take(len + 1));
        }
        lemma_fitting_prefix(s.drop_last(), budget, len);
    }
}

/// Skips the indices from `next` on that are at most `i`, and says whether
/// one of them is `i`. Consumes every index up to `i`: duplicates or stale
/// positions must not wedge the reading and hide later highlights.
fn consume_indices(indices: &[u32], next: usize, i: usize) -> (consumed: (usize, bool))
    requires
        next <= indices.len(),
        i <= u32::MAX,
        forall|k: int| 0 <= k < next ==> (#[trigger] indices@[k]) < i,
    ensures
        next <= consumed.0 <= indices.len(),
        forall|k: int| 0 <= k < consumed.0 ==> (#[trigger] indices@[k]) < i + 1,
        consumed.1 == is_highlighted(indices@, i as int),
{
    let mut after: usize = next;
    let mut is_match: bool = false;
    while after < indices.len() && indices[after] as usize <= i
        invariant
            next <= after <= indices.len(),
            i <= u32::MAX,
            forall|k: int| 0 <= k < next ==> (#[trigger] indices@[k]) < i,
            forall|k: int| next <= k < after ==> #[trigger] indices@[k] <= i,
            is_match <==> exists|j: int| next <= j < after && #[trigger] indices@[j] == i,
        decreases indices.len() - after,
    {
        if indices[after] as usize == i {
            is_match = true;
        }
        after += 1;
    }
    proof {
        if is_match {
            let j = choose|j: int| next <= j < after && #[trigger] indices@[j] == i;
            assert(forall|k: int| 0 <= k < j ==> #[trigger] indices@[k] <= i);
        }
        if is_highlighted(indices@, i as int) {
            let j = choose|j: int|
                0 <= j < indices@.len() && #[trigger] indices@[j] == i && forall|k: int|
                    0 <= k < j ==> #[trigger] indices@[k] <= i;
            if j >= after {
                assert(indices@[after as int] <= i);
            }
        }
    }
    (after, is_match)
}

/// A char, with `MATCH` before and `restore` after it if it is highlighted.
spec fn marked(c: char, is_match: bool, restore: Seq<char>) -> Seq<char> {
    if is_match {
        MATCH@ + seq![c] + restore
    } else {
        seq![c]
    }
}

fn push_char(out: &mut String, c: char, is_match: bool, restore: &str)
    ensures
        final(out)@ == old(out)@ + marked(c, is_match, restore@),
{
    let ghost before = out@;
    if is_match {
        out.push_str(MATCH);
        out.push(c);
        out.push_str(restore);
    } else {
        out.push(c);
    }
    assert(out@ =~= before + marked(c, is_match, restore@));
}

/// Writes name chars (sanitized, with match highlight at `indices`) until the
/// next char would exceed `budget` display cells. Returns cells written.
pub fn push_name_chars(
    out: &mut String,
    name: &str,
    indices: &[u32],
    budget: usize,
    restore: &str,
) -> (used: usize)
    ensures
        final(out)@ == old(out)@ + highlighted(name_part(name@, budget as nat), indices@, restore@),
        used == cells(name_part(name@, budget as nat)),
        used <= budget,
{
    let chars: Vec<char> = chars_of(name);
    let ghost before = out@;
    let ghost text = addressable(shown_name(name@));
    let mut used: usize = 0;
    let mut next: usize = 0;
    let mut i: usize = 0;
    assert(text.take(0) =~= seq![]);
    assert(out@ =~= before + highlighted(text.take(0), indices@, restore@));
    while i < chars.len() && i <= u32::MAX as usize
        invariant_except_break
            0 <= i <= chars.len(),
            i <= 0x1_0000_0000,
            chars@ == name@,
            text == addressable(shown_name(name@)),
            used == cells(text.take(i as int)),
            used <= budget,
            next <= indices.len(),
            forall|k: int| 0 <= k < next ==> (#[trigger] indices@[k]) < i,
            out@ == before + highlighted(text.take(i as int), indices@, restore@),
        ensures
            0 <= i <= text.len(),
            text == addressable(shown_name(name@)),
            used == cells(text.take(i as int)),
            used <= budget,
            i < text.len() ==> cells(text.take(i + 1)) > budget,
            out@ == before + highlighted(text.take(i as int), indices@, restore@),
        decreases chars.len() - i,
    {
        let c: char = sanitize_char(chars[i]);
        let w: usize = char_cells(c);
        assert(text[i as int] == c);
        assert(text.take(i + 1).drop_last() =~= text.take(i as int));
        if w > budget - used {
            break;
        }
        used += w;
        let (after, is_match): (usize, bool) = consume_indices(indices, next, i);
        next = after;
        let ghost written = out@;
        push_char(out, c, is_match, restore);
        proof {
            let sofar = highlighted(text.take(i as int), indices@, restore@);
            let more = marked(c, is_match, restore@);
            assert(written + more =~= before + (sofar + more));
            assert(sofar + more =~= highlighted(text.take(i + 1), indices@, restore@));
        }
        i += 1;
    }
    proof {
        lemma_fitting_prefix(text, budget as nat, i as int);
    }
    used
}

/// Writes the (possibly truncated) tab name directly into `out`, with
/// match highlighting at every position in `indices` (sorted ascending;
/// duplicates are tolerated). `restore` is the SGR emitted after each
/// highlighted char: `RESET` on plain rows, `BELL_RESTORE` inside a bell
/// row. Truncation and the return value are measured in display cells
/// (UAX #11), not codepoints, so wide chars (emoji, CJK) do not break
/// frame alignment. Returns the number of visible cells written.
pub fn push_truncated_name(
    out: &mut String,
    name: &str,
    indices: &[u32],
    max_cells: usize,
    restore: &str,
) -> (written: usize)
    ensures
        final(out)@ == old(out)@ + truncated_name(name@, indices@, max_cells as nat, restore@),
        written == truncated_cells(name@, max_cells as nat),
        written <= max_cells,
{
    let ghost before = out@;
    if max_cells == 0 {
        assert(out@ =~= before + truncated_name(name@, indices@, 0, restore@));
        return 0;
    }
    let fits: bool = name_fits(name, max_cells);
    if fits {
        return push_name_chars(out, name, indices, max_cells, restore);
    }
    if max_cells == 1 {
        out.push('…');
        assert(out@ =~= before + seq!['…']);
        return 1;
    }
    // Reserve one cell for the trailing ellipsis.
    let written: usize = push_name_chars(out, name, indices, max_cells - 1, restore);
    out.push('…');
    assert(out@ =~= before + truncated_name(name@, indices@, max_cells as nat, restore@));
    written + 1
}

/// Whether a name, control chars replaced, fits into a number of cells.
fn name_fits(name: &str, max_cells: usize) -> (fits: bool)
    ensures
        fits == (cells(shown_name(name@)) <= max_cells),
{
    let chars: Vec<char> = chars_of(name);
    let ghost text = shown_name(name@);
    let mut total: usize = 0;
    let mut i: usize = 0;
    assert(text.take(0) =~= seq![]);
    while i < chars.len()
        invariant
            i <= chars.len(),
            chars@ == name@,
            text == shown_name(name@),
            total == cells(text.take(i as int)),
            total <= max_cells,
        decreases chars.len() - i,
    {
        let w: usize = char_cells(sanitize_char(chars[i]));
        assert(text.take(i + 1).drop_last() =~= text.take(i as int));
        if w > max_cells - total {
            proof {
                assert(text =~= text.take(i + 1) + text.skip(i + 1));
                lemma_cells_concat(text.take(i + 1), text.skip(i + 1));
            }
            return false;
        }
        total += w;
        i += 1;
    }
    assert(text.take(i as int) =~= text);
    true
}

} // verus!
