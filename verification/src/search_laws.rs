//! What holds of every list of results.
use crate::approx::{error_budget, law_highlights_are_a_common_subsequence};
use crate::fuzzy::{
    folds_apart_to, is_variant_letter, lemma_variant_ahead, nucleo_takes, own_folding,
    starts_variant_word, MatchKind,
};
use crate::search::{
    access_count, approx_hit, approx_rows, compared_name, frequency_order, fuzzy_rows, is_ascending,
    law_sorted_unique, listed_rows, match_list, nucleo_hits, rank_order, results, sorted_unique,
    tolerates_typos,
};
use crate::sort::{is_ranking, law_stable_sort, stable_sort, ties};
use crate::tabs::{Row, TabModel};
use vstd::prelude::*;
use vstd::relations::{strongly_connected, transitive};

verus! {

proof fn lemma_orders(counts: Map<usize, u64>)
    ensures
        is_ranking(rank_order()),
        is_ranking(frequency_order(counts)),
{
    assert(strongly_connected(frequency_order(counts)));
    assert(transitive(frequency_order(counts)));
    assert(strongly_connected(rank_order()));
    assert(transitive(rank_order()));
}

/// A row that is in a sorted list is in the unsorted one too.
proof fn lemma_sort_members(s: Seq<Row>, le: spec_fn(Row, Row) -> bool, row: Row)
    requires
        is_ranking(le),
    ensures
        stable_sort(s, le).contains(row) <==> s.contains(row),
{
    law_stable_sort(s, le);
    s.to_multiset_ensures();
    stable_sort(s, le).to_multiset_ensures();
    assert(s.to_multiset().count(row) == stable_sort(s, le).to_multiset().count(row));
}

/// The tab is one of these, and not the active one.
pub open spec fn is_other_tab(tabs: Seq<TabModel>, tab: TabModel) -> bool {
    tabs.contains(tab) && !tab.active
}

proof fn lemma_more_tabs(tabs: Seq<TabModel>, tab: TabModel)
    requires
        tabs.len() > 0,
        is_other_tab(tabs.drop_last(), tab),
    ensures
        is_other_tab(tabs, tab),
{
    let i = choose|i: int| 0 <= i < tabs.len() - 1 && tabs.drop_last()[i] == tab;
    assert(tabs[i] == tab);
}

proof fn lemma_listed_rows(tabs: Seq<TabModel>, row: Row)
    ensures
        listed_rows(tabs).contains(row) <==> is_other_tab(tabs, row.tab) && row == (Row {
            kind: MatchKind::Listed,
            tab: row.tab,
            indices: seq![],
        }),
    decreases tabs.len(),
{
    if tabs.len() > 0 {
        let rest = tabs.drop_last();
        let new = Row { kind: MatchKind::Listed, tab: tabs.last(), indices: seq![] };
        lemma_listed_rows(rest, row);
        if is_other_tab(rest, row.tab) {
            lemma_more_tabs(tabs, row.tab);
        }
        if is_other_tab(tabs, row.tab) && row.tab != tabs.last() {
            let i = choose|i: int| 0 <= i < tabs.len() && tabs[i] == row.tab;
            assert(rest[i] == row.tab);
        }
        if !tabs.last().active {
            let before = listed_rows(rest);
            let after = before.push(new);
            assert(after[before.len() as int] == new);
            assert(tabs[tabs.len() - 1] == tabs.last());
            if before.contains(row) {
                let i = choose|i: int| 0 <= i < before.len() && before[i] == row;
                assert(after[i] == row);
            }
            if after.contains(row) && row != new {
                let i = choose|i: int| 0 <= i < after.len() && after[i] == row;
                assert(before[i] == row);
            }
        }
    }
}

/// Without a query the list is in order of use: a tab that was jumped to more
/// often comes first, and among equals the one at the smaller position.
pub proof fn law_empty_query_lists_by_use(
    tabs: Seq<TabModel>,
    counts: Map<usize, u64>,
    i: int,
    j: int,
)
    requires
        0 <= i < j < results(seq![], tabs, counts).len(),
    ensures
        ({
            let a = results(seq![], tabs, counts)[i].tab;
            let b = results(seq![], tabs, counts)[j].tab;
            let (used_a, used_b) = (access_count(counts, a.tab_id), access_count(counts, b.tab_id));
            used_a > used_b || (used_a == used_b && a.position <= b.position)
        }),
{
    lemma_orders(counts);
    law_stable_sort(listed_rows(tabs), frequency_order(counts));
    let list = results(seq![], tabs, counts);
    assert(frequency_order(counts)(list[i], list[j]));
}

/// Without a query every tab but the active one is listed, as often as it is
/// reported, with nothing highlighted.
pub proof fn law_empty_query_lists_every_other_tab(tabs: Seq<TabModel>, counts: Map<usize, u64>)
    ensures
        results(seq![], tabs, counts).to_multiset() == listed_rows(tabs).to_multiset(),
        forall|row: Row| #[trigger]
            results(seq![], tabs, counts).contains(row) <==> is_other_tab(tabs, row.tab) && row
                == (Row { kind: MatchKind::Listed, tab: row.tab, indices: seq![] }),
{
    lemma_orders(counts);
    law_stable_sort(listed_rows(tabs), frequency_order(counts));
    assert forall|row: Row| #[trigger]
        results(seq![], tabs, counts).contains(row) <==> is_other_tab(tabs, row.tab) && row == (
    Row { kind: MatchKind::Listed, tab: row.tab, indices: seq![] }) by {
        lemma_sort_members(listed_rows(tabs), frequency_order(counts), row);
        lemma_listed_rows(tabs, row);
    }
}

/// The row of a tab that nucleo found.
pub open spec fn fuzzy_row(tab: TabModel, hit: (u32, Seq<u32>)) -> Row {
    Row { kind: MatchKind::Fuzzy(hit.0), tab, indices: sorted_unique(hit.1) }
}

/// The row of a tab that the typo-tolerant pass found.
pub open spec fn approx_row(tab: TabModel, hit: (u32, Seq<u32>)) -> Row {
    Row { kind: MatchKind::Approx(hit.0), tab, indices: hit.1 }
}

/// The row of a tab for what nucleo found of it, if it is listed at all:
/// nucleo's match, else the approximate one.
pub open spec fn row_for(query: Seq<char>, tab: TabModel, hit: Option<(u32, Seq<u32>)>) -> Option<
    Row,
> {
    if tab.active {
        None
    } else {
        match hit {
            Some(found) => Some(fuzzy_row(tab, found)),
            None => if tolerates_typos(query) {
                match approx_hit(query, tab.name) {
                    Some(found) => Some(approx_row(tab, found)),
                    None => None,
                }
            } else {
                None
            },
        }
    }
}

/// Tab `i` has this row.
pub open spec fn is_row_of(
    query: Seq<char>,
    tabs: Seq<TabModel>,
    hits: Seq<Option<(u32, Seq<u32>)>>,
    row: Row,
    i: int,
) -> bool {
    0 <= i < tabs.len() && row_for(query, tabs[i], hits[i]) == Some(row)
}

proof fn lemma_contains_push(s: Seq<Row>, x: Row, row: Row)
    ensures
        s.push(x).contains(row) <==> s.contains(row) || row == x,
{
    let t = s.push(x);
    if s.contains(row) {
        let i = choose|i: int| 0 <= i < s.len() && s[i] == row;
        assert(t[i] == row);
    }
    if row == x {
        assert(t[s.len() as int] == row);
    }
    if t.contains(row) && row != x {
        let i = choose|i: int| 0 <= i < t.len() && t[i] == row;
        assert(s[i] == row);
    }
}

proof fn lemma_contains_concat(a: Seq<Row>, b: Seq<Row>, row: Row)
    ensures
        (a + b).contains(row) <==> a.contains(row) || b.contains(row),
{
    let t = a + b;
    if a.contains(row) {
        let i = choose|i: int| 0 <= i < a.len() && a[i] == row;
        assert(t[i] == row);
    }
    if b.contains(row) {
        let i = choose|i: int| 0 <= i < b.len() && b[i] == row;
        assert(t[a.len() + i] == row);
    }
    if t.contains(row) {
        let i = choose|i: int| 0 <= i < t.len() && t[i] == row;
        if i < a.len() {
            assert(a[i] == row);
        } else {
            assert(b[i - a.len()] == row);
        }
    }
}

/// What the two passes list together is one row for each tab that has one.
proof fn lemma_pass_members(
    query: Seq<char>,
    tabs: Seq<TabModel>,
    hits: Seq<Option<(u32, Seq<u32>)>>,
    row: Row,
)
    ensures
        fuzzy_rows(tabs, hits).contains(row) || approx_rows(query, tabs, hits).contains(row) <==> (
        exists|i: int| #[trigger] is_row_of(query, tabs, hits, row, i)),
        fuzzy_rows(tabs, hits).contains(row) ==> row.kind is Fuzzy,
        approx_rows(query, tabs, hits).contains(row) ==> row.kind is Approx && tolerates_typos(
            query,
        ),
    decreases tabs.len(),
{
    if tabs.len() > 0 {
        let rest = tabs.drop_last();
        let last = tabs.len() - 1;
        lemma_pass_members(query, rest, hits, row);
        let own = row_for(query, tabs.last(), hits[last]);
        match own {
            Some(new) => {
                lemma_contains_push(fuzzy_rows(rest, hits), new, row);
                lemma_contains_push(approx_rows(query, rest, hits), new, row);
                if row == new {
                    assert(is_row_of(query, tabs, hits, row, last));
                }
            },
            None => {},
        }
        if exists|i: int| #[trigger] is_row_of(query, rest, hits, row, i) {
            let i = choose|i: int| #[trigger] is_row_of(query, rest, hits, row, i);
            assert(is_row_of(query, tabs, hits, row, i));
        }
        if exists|i: int| #[trigger] is_row_of(query, tabs, hits, row, i) {
            let i = choose|i: int| #[trigger] is_row_of(query, tabs, hits, row, i);
            if i < last {
                assert(is_row_of(query, rest, hits, row, i));
            }
        }
    } else {
        assert(fuzzy_rows(tabs, hits) =~= seq![]);
    }
}

/// A query lists exactly the tabs that match, each with its row: nucleo's
/// match of a tab, or where nucleo found none and the query may hold typos,
/// the approximate one. The active tab is never listed.
pub proof fn law_query_lists_the_matches(
    query: Seq<char>,
    tabs: Seq<TabModel>,
    hits: Seq<Option<(u32, Seq<u32>)>>,
    row: Row,
)
    ensures
        match_list(query, tabs, hits).contains(row) <==> exists|i: int| #[trigger]
            is_row_of(query, tabs, hits, row, i),
        match_list(query, tabs, hits).contains(row) ==> !row.tab.active,
{
    lemma_orders(Map::empty());
    let (fuzzy, approx) = (fuzzy_rows(tabs, hits), approx_rows(query, tabs, hits));
    lemma_sort_members(fuzzy + approx, rank_order(), row);
    lemma_contains_concat(fuzzy, approx, row);
    lemma_pass_members(query, tabs, hits, row);
}

/// Every fuzzy match ranks above every approximate one; fuzzy matches come by
/// falling score, approximate ones by growing distance.
pub proof fn law_fuzzy_matches_rank_above_typo_matches(
    query: Seq<char>,
    tabs: Seq<TabModel>,
    hits: Seq<Option<(u32, Seq<u32>)>>,
    i: int,
    j: int,
)
    requires
        0 <= i < j < match_list(query, tabs, hits).len(),
    ensures
        match (match_list(query, tabs, hits)[i].kind, match_list(query, tabs, hits)[j].kind) {
            (MatchKind::Fuzzy(a), MatchKind::Fuzzy(b)) => a >= b,
            (MatchKind::Fuzzy(_), MatchKind::Approx(_)) => true,
            (MatchKind::Approx(a), MatchKind::Approx(b)) => a <= b,
            _ => false,
        },
{
    lemma_orders(Map::empty());
    let list = match_list(query, tabs, hits);
    let (fuzzy, approx) = (fuzzy_rows(tabs, hits), approx_rows(query, tabs, hits));
    law_stable_sort(fuzzy + approx, rank_order());
    assert(rank_order()(list[i], list[j]));
    assert forall|k: int| 0 <= k < list.len() implies !((#[trigger] list[k]).kind is Listed) by {
        assert(list.contains(list[k]));
        lemma_sort_members(fuzzy + approx, rank_order(), list[k]);
        lemma_contains_concat(fuzzy, approx, list[k]);
        lemma_pass_members(query, tabs, hits, list[k]);
    }
}

/// Matches of equal rank keep the order of their tabs.
pub proof fn law_ties_keep_tab_order(
    query: Seq<char>,
    tabs: Seq<TabModel>,
    hits: Seq<Option<(u32, Seq<u32>)>>,
    row: Row,
)
    ensures
        ties(match_list(query, tabs, hits), row, rank_order()) == ties(
            fuzzy_rows(tabs, hits) + approx_rows(query, tabs, hits),
            row,
            rank_order(),
        ),
{
    lemma_orders(Map::empty());
    law_stable_sort(fuzzy_rows(tabs, hits) + approx_rows(query, tabs, hits), rank_order());
}

/// A query that is very short or uses nucleo's operators gets nucleo's
/// matches only.
pub proof fn law_no_typo_matches_without_tolerance(
    query: Seq<char>,
    tabs: Seq<TabModel>,
    hits: Seq<Option<(u32, Seq<u32>)>>,
    row: Row,
)
    requires
        !tolerates_typos(query),
        match_list(query, tabs, hits).contains(row),
    ensures
        row.kind is Fuzzy,
{
    lemma_orders(Map::empty());
    let (fuzzy, approx) = (fuzzy_rows(tabs, hits), approx_rows(query, tabs, hits));
    lemma_sort_members(fuzzy + approx, rank_order(), row);
    lemma_contains_concat(fuzzy, approx, row);
    lemma_pass_members(query, tabs, hits, row);
}

/// Every row of the list, whatever the query, is one of a reported tab that
/// is not the active one.
pub proof fn law_active_tab_is_never_listed(
    query: Seq<char>,
    tabs: Seq<TabModel>,
    counts: Map<usize, u64>,
    i: int,
)
    requires
        0 <= i < results(query, tabs, counts).len(),
    ensures
        is_other_tab(tabs, results(query, tabs, counts)[i].tab),
{
    let list = results(query, tabs, counts);
    let row = list[i];
    assert(list.contains(row));
    if query.len() == 0 {
        assert(query =~= seq![]);
        law_empty_query_lists_every_other_tab(tabs, counts);
    } else {
        let hits = nucleo_hits(query, tabs);
        law_query_lists_the_matches(query, tabs, hits, row);
        let k = choose|k: int| #[trigger] is_row_of(query, tabs, hits, row, k);
        assert(tabs[k] == row.tab);
    }
}

/// The highlighted positions of every row are ascending, each once.
pub proof fn law_highlights_are_ascending(
    query: Seq<char>,
    tabs: Seq<TabModel>,
    counts: Map<usize, u64>,
    i: int,
)
    requires
        0 <= i < results(query, tabs, counts).len(),
    ensures
        is_ascending(results(query, tabs, counts)[i].indices),
{
    let list = results(query, tabs, counts);
    let row = list[i];
    assert(list.contains(row));
    if query.len() == 0 {
        assert(query =~= seq![]);
        law_empty_query_lists_every_other_tab(tabs, counts);
    } else {
        let hits = nucleo_hits(query, tabs);
        law_query_lists_the_matches(query, tabs, hits, row);
        let k = choose|k: int| #[trigger] is_row_of(query, tabs, hits, row, k);
        match hits[k] {
            Some(found) => {
                law_sorted_unique(found.1);
            },
            None => {
                law_highlights_are_a_common_subsequence(
                    query,
                    compared_name(query, tabs[k].name),
                    error_budget(query.len()),
                );
            },
        }
    }
}

/// An approximate match is within the edit distance that the length of the
/// query allows.
pub proof fn law_typo_matches_are_within_budget(
    query: Seq<char>,
    tabs: Seq<TabModel>,
    hits: Seq<Option<(u32, Seq<u32>)>>,
    row: Row,
)
    requires
        match_list(query, tabs, hits).contains(row),
        row.kind is Approx,
    ensures
        row.kind->Approx_0 <= error_budget(query.len()),
{
    law_query_lists_the_matches(query, tabs, hits, row);
    let k = choose|k: int| #[trigger] is_row_of(query, tabs, hits, row, k);
    law_highlights_are_a_common_subsequence(
        query,
        compared_name(query, tabs[k].name),
        error_budget(query.len()),
    );
}

proof fn lemma_pass_len(
    query: Seq<char>,
    tabs: Seq<TabModel>,
    hits: Seq<Option<(u32, Seq<u32>)>>,
)
    ensures
        fuzzy_rows(tabs, hits).len() + approx_rows(query, tabs, hits).len() <= tabs.len(),
        listed_rows(tabs).len() <= tabs.len(),
    decreases tabs.len(),
{
    if tabs.len() > 0 {
        lemma_pass_len(query, tabs.drop_last(), hits);
    }
}

/// No tab is listed twice: there are at most as many rows as tabs.
pub proof fn law_no_more_rows_than_tabs(
    query: Seq<char>,
    tabs: Seq<TabModel>,
    counts: Map<usize, u64>,
)
    ensures
        results(query, tabs, counts).len() <= tabs.len(),
{
    let hits = nucleo_hits(query, tabs);
    lemma_orders(counts);
    lemma_pass_len(query, tabs, hits);
    law_stable_sort(listed_rows(tabs), frequency_order(counts));
    law_stable_sort(fuzzy_rows(tabs, hits) + approx_rows(query, tabs, hits), rank_order());
}

/// nucleo takes a name in which no letter has a case folding of its own with
/// every query, and a query without variants of ASCII letters with every name.
pub proof fn law_ordinary_pairs_are_taken(query: Seq<char>, name: Seq<char>)
    requires
        (forall|i: int| 0 <= i < name.len() ==> own_folding(#[trigger] name[i]) is None) || (
        forall|k: int| 0 <= k < query.len() ==> !is_variant_letter(#[trigger] query[k])),
    ensures
        nucleo_takes(query, name),
{
    if exists|i: int, n: int|
        #![trigger query[i], name[n]]
        0 <= i < query.len() && 0 <= n < name.len() && starts_variant_word(query, i)
            && folds_apart_to(name[n], query[i]) {
        let (i, n) = choose|i: int, n: int|
            #![trigger query[i], name[n]]
            0 <= i < query.len() && 0 <= n < name.len() && starts_variant_word(query, i)
                && folds_apart_to(name[n], query[i]);
        lemma_variant_ahead(query, i);
        assert(own_folding(name[n]) is Some);
    }
}

} // verus!
