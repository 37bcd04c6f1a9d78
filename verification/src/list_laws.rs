//! Which tabs are listed, how, and in what order.
use crate::approx::{
    edit_distance, is_common_subsequence, law_distance_is_least_over_substrings,
    law_highlights_are_a_common_subsequence, law_highlights_end_leftmost, substring_distance,
};
use crate::edits::{law_edit_distance_is_a_lower_bound, law_edit_distance_is_reached, reachable};
use crate::fuzzy::{nucleo_indices, nucleo_lower_case, MatchKind};
use crate::search::{
    approx_hit, approx_rows, compared_name, frequency_order, fuzzy_rows, law_sorted_unique,
    listed_rows, nucleo_hits, rank_order, results, tolerates_typos,
};
use crate::search_laws::{approx_row, fuzzy_row};
use crate::sort::{is_ranking, law_sorting_rearranges};
use crate::tabs::{Row, TabModel};
use crate::text::unicode_uppercase;
use vstd::prelude::*;
use vstd::relations::{strongly_connected, transitive};

verus! {

/// Each row has its tab at its place among the tabs, and no two rows share one.
pub open spec fn are_places(list: Seq<Row>, tabs: Seq<TabModel>, places: Seq<int>) -> bool {
    &&& places.len() == list.len()
    &&& forall|i: int|
        0 <= i < places.len() ==> 0 <= #[trigger] places[i] < tabs.len() && list[i].tab
            == tabs[places[i]]
    &&& forall|i: int, j: int|
        0 <= i < j < places.len() ==> #[trigger] places[i] != #[trigger] places[j]
}

/// How often a tab was jumped to: never, if it has no count.
pub open spec fn uses(counts: Map<usize, u64>, tab: TabModel) -> int {
    if counts.contains_key(tab.tab_id) {
        counts[tab.tab_id] as int
    } else {
        0
    }
}

proof fn lemma_rankings(counts: Map<usize, u64>)
    ensures
        is_ranking(rank_order()),
        is_ranking(frequency_order(counts)),
{
    assert(strongly_connected(frequency_order(counts)));
    assert(transitive(frequency_order(counts)));
    assert(strongly_connected(rank_order()));
    assert(transitive(rank_order()));
}

/// Places that go up, of tabs of which something holds; none is left out.
spec fn are_all_places(places: Seq<int>, len: int, wanted: spec_fn(int) -> bool) -> bool {
    &&& forall|i: int|
        0 <= i < places.len() ==> 0 <= #[trigger] places[i] < len && wanted(places[i])
    &&& forall|i: int, j: int|
        0 <= i < j < places.len() ==> #[trigger] places[i] < #[trigger] places[j]
    &&& forall|k: int| 0 <= k < len && #[trigger] wanted(k) ==> places.contains(k)
}

proof fn lemma_next_place(places: Seq<int>, len: int, wanted: spec_fn(int) -> bool)
    requires
        are_all_places(places, len, wanted),
        len >= 0,
    ensures
        wanted(len) ==> are_all_places(places.push(len), len + 1, wanted),
        !wanted(len) ==> are_all_places(places, len + 1, wanted),
{
    let more = places.push(len);
    if wanted(len) {
        assert forall|k: int| 0 <= k < len + 1 && #[trigger] wanted(k) implies more.contains(k) by {
            if k == len {
                assert(more[places.len() as int] == len);
            } else {
                let i = choose|i: int| 0 <= i < places.len() && places[i] == k;
                assert(more[i] == k);
            }
        }
    }
}

proof fn lemma_listed_places(tabs: Seq<TabModel>, len: int) -> (places: Seq<int>)
    requires
        0 <= len <= tabs.len(),
    ensures
        are_all_places(places, len, |k: int| !tabs[k].active),
        listed_rows(tabs.take(len)).len() == places.len(),
        forall|i: int|
            0 <= i < places.len() ==> listed_rows(tabs.take(len))[i] == (Row {
                kind: MatchKind::Listed,
                tab: tabs[#[trigger] places[i]],
                indices: seq![],
            }),
    decreases len,
{
    if len == 0 {
        seq![]
    } else {
        let before = lemma_listed_places(tabs, len - 1);
        assert(tabs.take(len).drop_last() =~= tabs.take(len - 1));
        lemma_next_place(before, len - 1, |k: int| !tabs[k].active);
        if tabs[len - 1].active {
            before
        } else {
            before.push(len - 1)
        }
    }
}

/// Without a query every tab but the active one is listed once, with nothing
/// highlighted: the tab that was jumped to more often first, among equals the
/// one at the smaller position, and among those the one reported first.
pub proof fn law_list_without_a_query(tabs: Seq<TabModel>, counts: Map<usize, u64>) -> (places: Seq<
    int,
>)
    ensures
        ({
            let list = results(seq![], tabs, counts);
            &&& are_places(list, tabs, places)
            &&& forall|k: int|
                places.contains(k) <==> 0 <= k < tabs.len() && !(#[trigger] tabs[k]).active
            &&& forall|i: int|
                0 <= i < list.len() ==> (#[trigger] list[i]).kind is Listed
                    && list[i].indices.len() == 0
            &&& forall|i: int, j: int|
                #![trigger list[i], list[j]]
                0 <= i < j < list.len() ==> {
                    let (a, b) = (list[i].tab, list[j].tab);
                    ||| uses(counts, a) > uses(counts, b)
                    ||| uses(counts, a) == uses(counts, b) && a.position < b.position
                    ||| uses(counts, a) == uses(counts, b) && a.position == b.position && places[i]
                        < places[j]
                }
        }),
{
    let list = results(seq![], tabs, counts);
    let rows = listed_rows(tabs);
    let order = frequency_order(counts);
    lemma_rankings(counts);
    assert(tabs.take(tabs.len() as int) =~= tabs);
    let sources = lemma_listed_places(tabs, tabs.len() as int);
    let from = law_sorting_rearranges(rows, order);
    let places = Seq::new(list.len(), |i: int| sources[from[i]]);
    assert forall|i: int| 0 <= i < list.len() implies list[i] == (Row {
        kind: MatchKind::Listed,
        tab: tabs[#[trigger] places[i]],
        indices: seq![],
    }) && 0 <= places[i] < tabs.len() by {
        assert(0 <= from[i] < rows.len());
        assert(sources[from[i]] == places[i]);
    }
    assert forall|i: int| 0 <= i < list.len() implies (#[trigger] list[i]).kind is Listed
        && list[i].indices.len() == 0 by {
        assert(list[i].tab == tabs[places[i]]);
    }
    assert forall|i: int, j: int| 0 <= i < j < list.len() implies #[trigger] places[i]
        != #[trigger] places[j] by {
        assert(from[i] != from[j]);
        assert(sources[from[i]] == places[i] && sources[from[j]] == places[j]);
    }
    assert forall|k: int|
        places.contains(k) <==> 0 <= k < tabs.len() && !(#[trigger] tabs[k]).active by {
        let wanted = |k: int| !tabs[k].active;
        if places.contains(k) {
            let i = choose|i: int| 0 <= i < places.len() && places[i] == k;
            assert(0 <= from[i] < rows.len());
            assert(wanted(sources[from[i]]));
        }
        if 0 <= k < tabs.len() && !tabs[k].active {
            assert(wanted(k));
            assert(sources.contains(k));
            let m = choose|m: int| 0 <= m < sources.len() && sources[m] == k;
            assert(from.contains(m));
            let i = choose|i: int| 0 <= i < from.len() && from[i] == m;
            assert(places[i] == k);
        }
    }
    assert forall|i: int, j: int|
        #![trigger list[i], list[j]]
        0 <= i < j < list.len() implies ({
        let (a, b) = (list[i].tab, list[j].tab);
        ||| uses(counts, a) > uses(counts, b)
        ||| uses(counts, a) == uses(counts, b) && a.position < b.position
        ||| uses(counts, a) == uses(counts, b) && a.position == b.position && places[i] < places[j]
    }) by {
        assert(from[i] != from[j]);
        assert(order(rows[from[i]], rows[from[j]]));
        assert(list[i] == rows[from[i]] && list[j] == rows[from[j]]);
        assert(sources[from[i]] == places[i] && sources[from[j]] == places[j]);
    }
    places
}

/// The typos that a query of this many chars may hold.
pub open spec fn typo_limit(len: nat) -> nat {
    if len < 3 {
        0
    } else if len < 6 {
        1
    } else if len < 10 {
        2
    } else {
        3
    }
}

/// The query uses nucleo's syntax beyond words.
pub open spec fn has_operator(query: Seq<char>) -> bool {
    exists|i: int|
        0 <= i < query.len() && seq!['!', '^', '$', '\'', '\\'].contains(#[trigger] query[i])
}

/// The query holds an uppercase char.
pub open spec fn has_uppercase(query: Seq<char>) -> bool {
    exists|i: int|
        0 <= i < query.len() && (0x41 <= ((#[trigger] query[i]) as u32) <= 0x5a || (query[i] as u32
            >= 0x80 && unicode_uppercase(query[i])))
}

/// A name as a query is compared with it: in lower case, unless the query
/// holds an uppercase char.
pub open spec fn compared_with(query: Seq<char>, name: Seq<char>) -> Seq<char> {
    Seq::new(
        name.len(),
        |i: int|
            if has_uppercase(query) {
                name[i]
            } else if 0x41 <= (name[i] as u32) <= 0x5a {
                (name[i] as u32 + 0x20) as char
            } else if (name[i] as u32) < 0x80 {
                name[i]
            } else {
                nucleo_lower_case(name[i])
            },
    )
}

/// The query becomes a piece of the text by this many edits at most, each of
/// which inserts, deletes or replaces one char.
pub open spec fn is_within(query: Seq<char>, text: Seq<char>, typos: nat) -> bool {
    exists|start: int, end: int, count: nat|
        0 <= start <= end <= text.len() && count <= typos && #[trigger] reachable(
            query,
            text.subrange(start, end),
            count,
        )
}

/// The name is close enough to the query.
pub open spec fn is_typo_match(query: Seq<char>, name: Seq<char>) -> bool {
    &&& query.len() >= 3
    &&& !has_operator(query)
    &&& name.len() <= 512
    &&& is_within(query, compared_with(query, name), typo_limit(query.len()))
}

/// Highlights of a fuzzy match: the positions that nucleo found, ascending and
/// each once.
pub open spec fn are_fuzzy_highlights(indices: Seq<u32>, positions: Seq<u32>) -> bool {
    &&& forall|i: int, j: int| 0 <= i < j < indices.len() ==> indices[i] < indices[j]
    &&& forall|v: u32| #[trigger] indices.contains(v) <==> positions.contains(v)
}

/// Highlights of a typo match: chars that the query and the text share, in
/// order. At most as many chars of the query go without one, and at most as
/// many chars between two of them, as there are typos; and no piece of the
/// text as close to the query ends before the last one.
pub open spec fn are_typo_highlights(
    query: Seq<char>,
    text: Seq<char>,
    typos: nat,
    indices: Seq<u32>,
) -> bool {
    &&& exists|from_query: Seq<int>| #[trigger]
        is_common_subsequence(query, text, from_query, indices)
    &&& indices.len() <= query.len() <= indices.len() + typos
    &&& indices.len() > 0 ==> {
        &&& indices.last() - indices[0] + 1 <= indices.len() + typos
        &&& forall|start: int, end: int|
            0 <= start <= end <= text.len() && #[trigger] reachable(
                query,
                text.subrange(start, end),
                typos,
            ) ==> indices.last() < end
    }
}

/// A row for a query is nucleo's match of its tab, with nucleo's score and
/// positions; if nucleo has none, it is a match with the fewest typos that
/// lead to a piece of the name.
pub open spec fn is_match_row(query: Seq<char>, row: Row) -> bool {
    match nucleo_indices(query, row.tab.name) {
        Some((score, positions)) => row.kind == MatchKind::Fuzzy(score) && are_fuzzy_highlights(
            row.indices,
            positions,
        ),
        None => {
            let text = compared_with(query, row.tab.name);
            match row.kind {
                MatchKind::Approx(typos) => {
                    &&& is_within(query, text, typos as nat)
                    &&& forall|fewer: nat| fewer < typos ==> !#[trigger] is_within(query, text, fewer)
                    &&& are_typo_highlights(query, text, typos as nat, row.indices)
                },
                _ => false,
            }
        },
    }
}

/// A match goes before another one: any of nucleo's before one with typos, one
/// of nucleo's with a higher score, one with fewer typos, and of equal ones the
/// one whose tab is reported first.
pub open spec fn goes_before(a: MatchKind, place_a: int, b: MatchKind, place_b: int) -> bool {
    match (a, b) {
        (MatchKind::Fuzzy(x), MatchKind::Fuzzy(y)) => x > y || (x == y && place_a < place_b),
        (MatchKind::Fuzzy(_), MatchKind::Approx(_)) => true,
        (MatchKind::Approx(x), MatchKind::Approx(y)) => x < y || (x == y && place_a < place_b),
        _ => false,
    }
}

proof fn lemma_within(query: Seq<char>, text: Seq<char>, typos: nat)
    ensures
        is_within(query, text, typos) <==> substring_distance(query, text) <= typos,
{
    law_distance_is_least_over_substrings(query, text);
    if is_within(query, text, typos) {
        let (start, end, count) = choose|start: int, end: int, count: nat|
            0 <= start <= end <= text.len() && count <= typos && #[trigger] reachable(
                query,
                text.subrange(start, end),
                count,
            );
        law_edit_distance_is_a_lower_bound(query, text.subrange(start, end), count);
        assert(substring_distance(query, text) <= edit_distance(
            query,
            text.subrange(start, end),
        ));
    }
    if substring_distance(query, text) <= typos {
        let (start, end) = choose|start: int, end: int|
            0 <= start <= end <= text.len() && substring_distance(query, text)
                == #[trigger] edit_distance(query, text.subrange(start, end));
        law_edit_distance_is_reached(query, text.subrange(start, end));
    }
}

proof fn lemma_compared(query: Seq<char>, name: Seq<char>)
    ensures
        compared_name(query, name) == compared_with(query, name),
        tolerates_typos(query) <==> query.len() >= 3 && !has_operator(query),
{
    let operators = seq!['!', '^', '$', '\'', '\\'];
    assert(operators[0] == '!' && operators[1] == '^' && operators[2] == '$');
    assert(operators[3] == '\'' && operators[4] == '\\');
    assert forall|c: char|
        operators.contains(c) <==> #[trigger] crate::search::is_operator(c) by {}
    if has_operator(query) {
        let i = choose|i: int|
            0 <= i < query.len() && seq!['!', '^', '$', '\'', '\\'].contains(#[trigger] query[i]);
        assert(crate::search::is_operator(query[i]));
    }
    if crate::approx::error_budget(query.len()) > 0 && !tolerates_typos(query) {
        let i = choose|i: int|
            0 <= i < query.len() && crate::search::is_operator(#[trigger] query[i]);
        assert(operators.contains(query[i]));
    }
    assert(has_uppercase(query) <==> !crate::search::ignores_case(query)) by {
        if has_uppercase(query) {
            let i = choose|i: int|
                0 <= i < query.len() && (0x41 <= ((#[trigger] query[i]) as u32) <= 0x5a || (
                query[i] as u32 >= 0x80 && unicode_uppercase(query[i])));
            assert(crate::text::is_upper(query[i]));
        }
    }
    assert(compared_name(query, name) =~= compared_with(query, name));
}

proof fn lemma_approx_hit(query: Seq<char>, name: Seq<char>)
    requires
        query.len() <= 128,
    ensures
        tolerates_typos(query) && approx_hit(query, name) is Some <==> is_typo_match(query, name),
        tolerates_typos(query) ==> (approx_hit(query, name) matches Some((typos, indices)) ==> {
            let text = compared_with(query, name);
            &&& is_within(query, text, typos as nat)
            &&& forall|fewer: nat| fewer < typos ==> !#[trigger] is_within(query, text, fewer)
            &&& are_typo_highlights(query, text, typos as nat, indices)
        }),
{
    lemma_compared(query, name);
    let text = compared_with(query, name);
    let budget = crate::approx::error_budget(query.len());
    lemma_within(query, text, budget as nat);
    if query.len() > 0 && text.len() == 0 {
        law_distance_is_least_over_substrings(query, text);
        let (start, end) = choose|start: int, end: int|
            0 <= start <= end <= text.len() && substring_distance(query, text)
                == #[trigger] edit_distance(query, text.subrange(start, end));
        assert(text.subrange(start, end).len() == 0);
    }
    if tolerates_typos(query) && approx_hit(query, name) is Some {
        let (typos, indices) = approx_hit(query, name)->0;
        assert forall|n: nat|
            #[trigger] is_within(query, text, n) <==> substring_distance(query, text) <= n by {
            lemma_within(query, text, n);
        }
        law_highlights_are_a_common_subsequence(query, text, budget);
        law_distance_is_least_over_substrings(query, text);
        if indices.len() > 0 {
            assert forall|start: int, end: int|
                0 <= start <= end <= text.len() && #[trigger] reachable(
                    query,
                    text.subrange(start, end),
                    typos as nat,
                ) implies indices.last() < end by {
                law_edit_distance_is_a_lower_bound(
                    query,
                    text.subrange(start, end),
                    typos as nat,
                );
                assert(substring_distance(query, text) <= edit_distance(
                    query,
                    text.subrange(start, end),
                ));
                law_highlights_end_leftmost(query, text, budget, start, end);
            }
        }
    }
}

proof fn lemma_match_places(
    query: Seq<char>,
    tabs: Seq<TabModel>,
    hits: Seq<Option<(u32, Seq<u32>)>>,
    len: int,
) -> (places: (Seq<int>, Seq<int>))
    requires
        0 <= len <= tabs.len(),
    ensures
        are_all_places(places.0, len, |k: int| !tabs[k].active && hits[k] is Some),
        are_all_places(
            places.1,
            len,
            |k: int|
                !tabs[k].active && hits[k] is None && tolerates_typos(query) && approx_hit(
                    query,
                    tabs[k].name,
                ) is Some,
        ),
        fuzzy_rows(tabs.take(len), hits).len() == places.0.len(),
        approx_rows(query, tabs.take(len), hits).len() == places.1.len(),
        forall|i: int|
            0 <= i < places.0.len() ==> fuzzy_rows(tabs.take(len), hits)[i] == fuzzy_row(
                tabs[#[trigger] places.0[i]],
                hits[places.0[i]]->0,
            ),
        forall|i: int|
            0 <= i < places.1.len() ==> approx_rows(query, tabs.take(len), hits)[i] == approx_row(
                tabs[#[trigger] places.1[i]],
                approx_hit(query, tabs[places.1[i]].name)->0,
            ),
    decreases len,
{
    if len == 0 {
        (seq![], seq![])
    } else {
        let (fuzzy, approx) = lemma_match_places(query, tabs, hits, len - 1);
        let tab = tabs[len - 1];
        let is_fuzzy = |k: int| !tabs[k].active && hits[k] is Some;
        let is_approx = |k: int|
            !tabs[k].active && hits[k] is None && tolerates_typos(query) && approx_hit(
                query,
                tabs[k].name,
            ) is Some;
        assert(tabs.take(len).drop_last() =~= tabs.take(len - 1));
        lemma_next_place(fuzzy, len - 1, is_fuzzy);
        lemma_next_place(approx, len - 1, is_approx);
        (
            if is_fuzzy(len - 1) {
                fuzzy.push(len - 1)
            } else {
                fuzzy
            },
            if is_approx(len - 1) {
                approx.push(len - 1)
            } else {
                approx
            },
        )
    }
}

/// A query lists every tab but the active one that nucleo matches or whose name
/// is close enough, wherever it stands among the tabs, and no other. Each is
/// listed once, with its match, and the better match goes first.
pub proof fn law_list_of_a_query(
    query: Seq<char>,
    tabs: Seq<TabModel>,
    counts: Map<usize, u64>,
) -> (places: Seq<int>)
    requires
        0 < query.len() <= 128,
    ensures
        ({
            let list = results(query, tabs, counts);
            &&& are_places(list, tabs, places)
            &&& forall|k: int|
                places.contains(k) <==> 0 <= k < tabs.len() && !(#[trigger] tabs[k]).active && (
                nucleo_indices(query, tabs[k].name) is Some || is_typo_match(query, tabs[k].name))
            &&& forall|i: int| 0 <= i < list.len() ==> is_match_row(query, #[trigger] list[i])
            &&& forall|i: int, j: int|
                #![trigger list[i], list[j]]
                0 <= i < j < list.len() ==> goes_before(
                    list[i].kind,
                    places[i],
                    list[j].kind,
                    places[j],
                )
        }),
{
    let list = results(query, tabs, counts);
    let hits = nucleo_hits(query, tabs);
    let n = tabs.len() as int;
    assert(tabs.take(n) =~= tabs);
    let (fuzzy, approx) = lemma_match_places(query, tabs, hits, n);
    let is_fuzzy = |k: int| !tabs[k].active && hits[k] is Some;
    let is_approx = |k: int|
        !tabs[k].active && hits[k] is None && tolerates_typos(query) && approx_hit(
            query,
            tabs[k].name,
        ) is Some;
    let rows = fuzzy_rows(tabs, hits) + approx_rows(query, tabs, hits);
    let sources = fuzzy + approx;
    let order = rank_order();
    lemma_rankings(counts);
    let from = law_sorting_rearranges(rows, order);
    let places = Seq::new(list.len(), |i: int| sources[from[i]]);
    assert forall|m: int| 0 <= m < sources.len() implies 0 <= #[trigger] sources[m] < n && (
    is_fuzzy(sources[m]) || is_approx(sources[m])) && rows[m].tab == tabs[sources[m]]
        && is_match_row(query, rows[m]) && (rows[m].kind is Fuzzy <==> m < fuzzy.len()) by {
        if m < fuzzy.len() {
            assert(sources[m] == fuzzy[m]);
            assert(is_fuzzy(fuzzy[m]));
            law_sorted_unique((hits[fuzzy[m]]->0).1);
        } else {
            let k = approx[m - fuzzy.len()];
            assert(sources[m] == k);
            assert(is_approx(k));
            lemma_approx_hit(query, tabs[k].name);
        }
    }
    assert forall|a: int, b: int| 0 <= a < sources.len() && 0 <= b < sources.len() && a != b implies
        #[trigger] sources[a] != #[trigger] sources[b] by {
        if a < fuzzy.len() {
            assert(is_fuzzy(fuzzy[a]));
        } else {
            assert(is_approx(approx[a - fuzzy.len()]));
        }
        if b < fuzzy.len() {
            assert(is_fuzzy(fuzzy[b]));
        } else {
            assert(is_approx(approx[b - fuzzy.len()]));
        }
    }
    assert forall|i: int| 0 <= i < list.len() implies 0 <= #[trigger] places[i] < n && list[i].tab
        == tabs[places[i]] by {
        assert(0 <= from[i] < rows.len());
        assert(sources[from[i]] == places[i]);
    }
    assert forall|i: int| 0 <= i < list.len() implies is_match_row(query, #[trigger] list[i]) by {
        assert(0 <= from[i] < rows.len());
        assert(sources[from[i]] == places[i]);
    }
    assert forall|k: int|
        places.contains(k) <==> 0 <= k < tabs.len() && !(#[trigger] tabs[k]).active && (
        nucleo_indices(query, tabs[k].name) is Some || is_typo_match(query, tabs[k].name)) by {
        if 0 <= k < n {
            lemma_approx_hit(query, tabs[k].name);
        }
        if places.contains(k) {
            let i = choose|i: int| 0 <= i < places.len() && places[i] == k;
            assert(0 <= from[i] < rows.len());
            assert(sources[from[i]] == k);
            lemma_approx_hit(query, tabs[k].name);
        }
        if 0 <= k < n && (is_fuzzy(k) || is_approx(k)) {
            let m = if is_fuzzy(k) {
                assert(fuzzy.contains(k));
                choose|m: int| 0 <= m < fuzzy.len() && fuzzy[m] == k
            } else {
                assert(approx.contains(k));
                let m = choose|m: int| 0 <= m < approx.len() && approx[m] == k;
                m + fuzzy.len()
            };
            assert(sources[m] == k);
            assert(from.contains(m));
            let i = choose|i: int| 0 <= i < from.len() && from[i] == m;
            assert(places[i] == k);
        }
    }
    assert forall|i: int, j: int|
        #![trigger list[i], list[j]]
        0 <= i < j < list.len() implies goes_before(
        list[i].kind,
        places[i],
        list[j].kind,
        places[j],
    ) by {
        let (a, b) = (from[i], from[j]);
        assert(a != b && order(rows[a], rows[b]));
        assert(list[i] == rows[a] && list[j] == rows[b]);
        assert(sources[a] == places[i] && sources[b] == places[j]);
        assert(is_match_row(query, rows[a]) && is_match_row(query, rows[b]));
        if order(rows[b], rows[a]) {
            if b < fuzzy.len() {
                assert(fuzzy[a] < fuzzy[b]);
            } else {
                assert(approx[a - fuzzy.len()] < approx[b - fuzzy.len()]);
            }
        }
    }
    places
}

} // verus!
