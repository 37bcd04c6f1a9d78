//! What the list shows: all tabs by frequency, or the matches of a query.
use crate::approx::{approx_match, approx_outcome, error_budget, max_errors};
use crate::fuzzy::{
    hit_view, is_name_len, lower_case, nucleo_indices, nucleo_takes, rank_le, FuzzyMatcher,
    MatchKind, MAX_QUERY_CHARS,
};
use crate::sort::{insert_sorted, lemma_insert_sorted_at, stable_sort};
use crate::tabs::{rows_of, tab_models, Row, Scored, TabEntry, TabModel};
use crate::text::{chars_of, is_upper};
use nucleo_matcher::chars::to_lower_case;
use std::collections::BTreeMap;
use std::rc::Rc;
use vstd::prelude::*;

verus! {

/// Tab names longer than this skip the typo-tolerant pass (O(query x name)).
pub const APPROX_MAX_NAME_CHARS: usize = 512;

/// Characters with a special meaning in nucleo's query syntax (`!` negation,
/// `^` prefix, `$` suffix, `'` substring, `\` escape). Queries using them get
/// nucleo's exact semantics only, with no typo-tolerant fallback that could
/// contradict e.g. a negation.
pub open spec fn is_operator(c: char) -> bool {
    c == '!' || c == '^' || c == '$' || c == '\'' || c == '\\'
}

fn char_is_operator(c: char) -> (operator: bool)
    ensures
        operator == is_operator(c),
{
    c == '!' || c == '^' || c == '$' || c == '\'' || c == '\\'
}

/// How often a tab was jumped to.
pub open spec fn access_count(counts: Map<usize, u64>, tab_id: usize) -> u64 {
    if counts.contains_key(tab_id) {
        counts[tab_id]
    } else {
        0
    }
}

/// Most-used first, then by position.
pub open spec fn frequency_order(counts: Map<usize, u64>) -> spec_fn(Row, Row) -> bool {
    |a: Row, b: Row|
        {
            let used_a = access_count(counts, a.tab.tab_id);
            let used_b = access_count(counts, b.tab.tab_id);
            used_a > used_b || (used_a == used_b && a.tab.position <= b.tab.position)
        }
}

/// Best match first.
pub open spec fn rank_order() -> spec_fn(Row, Row) -> bool {
    |a: Row, b: Row| rank_le(a.kind.ranking(), b.kind.ranking())
}

/// Every tab except the active one, in tab order.
pub open spec fn listed_rows(tabs: Seq<TabModel>) -> Seq<Row>
    decreases tabs.len(),
{
    if tabs.len() == 0 {
        seq![]
    } else if tabs.last().active {
        listed_rows(tabs.drop_last())
    } else {
        listed_rows(tabs.drop_last()).push(
            Row { kind: MatchKind::Listed, tab: tabs.last(), indices: seq![] },
        )
    }
}

/// The list for an empty query: every tab except the active one (that is
/// the header), most-used first, then by position.
pub open spec fn frequency_list(tabs: Seq<TabModel>, counts: Map<usize, u64>) -> Seq<Row> {
    stable_sort(listed_rows(tabs), frequency_order(counts))
}

/// `s` with `x` in its place, if it is not there yet.
pub open spec fn insert_unique(s: Seq<u32>, x: u32) -> Seq<u32>
    decreases s.len(),
{
    if s.len() == 0 || s.last() < x {
        s.push(x)
    } else if s.last() == x {
        s
    } else {
        insert_unique(s.drop_last(), x).push(s.last())
    }
}

/// The values of `s` in ascending order, each once.
pub open spec fn sorted_unique(s: Seq<u32>) -> Seq<u32>
    decreases s.len(),
{
    if s.len() == 0 {
        s
    } else {
        insert_unique(sorted_unique(s.drop_last()), s.last())
    }
}

pub open spec fn is_ascending(s: Seq<u32>) -> bool {
    forall|i: int, j: int| 0 <= i < j < s.len() ==> s[i] < s[j]
}

proof fn lemma_insert_unique_at(s: Seq<u32>, x: u32, at: int)
    requires
        is_ascending(s),
        0 <= at <= s.len(),
        at > 0 ==> s[at - 1] <= x,
        at < s.len() ==> s[at] > x,
    ensures
        insert_unique(s, x) == if at > 0 && s[at - 1] == x {
            s
        } else {
            s.insert(at, x)
        },
    decreases s.len(),
{
    if at == s.len() {
        if s.len() > 0 && s.last() == x {
        } else {
            assert(s.insert(at, x) =~= s.push(x));
        }
    } else {
        assert(s.last() > x);
        if at < s.len() - 1 {
            assert(s.drop_last()[at] == s[at]);
        }
        lemma_insert_unique_at(s.drop_last(), x, at);
        if at > 0 && s[at - 1] == x {
            assert(s.drop_last().push(s.last()) =~= s);
        } else {
            assert(s.drop_last().insert(at, x).push(s.last()) =~= s.insert(at, x));
        }
    }
}

proof fn lemma_insert_unique(s: Seq<u32>, x: u32)
    requires
        is_ascending(s),
    ensures
        is_ascending(insert_unique(s, x)),
        forall|v: u32| #[trigger] insert_unique(s, x).contains(v) <==> s.contains(v) || v == x,
    decreases s.len(),
{
    let r = insert_unique(s, x);
    if s.len() == 0 || s.last() < x {
        assert forall|v: u32| #[trigger] r.contains(v) <==> s.contains(v) || v == x by {
            if s.contains(v) {
                let i = choose|i: int| 0 <= i < s.len() && s[i] == v;
                assert(r[i] == v);
            }
            if v == x {
                assert(r[s.len() as int] == x);
            }
        }
    } else if s.last() == x {
        assert(s[s.len() - 1] == x);
    } else {
        let rest = insert_unique(s.drop_last(), x);
        lemma_insert_unique(s.drop_last(), x);
        assert forall|i: int, j: int| 0 <= i < j < r.len() implies r[i] < r[j] by {
            assert(rest.contains(rest[i]));
            if s.drop_last().contains(rest[i]) {
                let k = choose|k: int| 0 <= k < s.len() - 1 && s.drop_last()[k] == rest[i];
                assert(s[k] < s[s.len() - 1]);
            }
        }
        assert forall|v: u32| #[trigger] r.contains(v) <==> s.contains(v) || v == x by {
            if r.contains(v) {
                let i = choose|i: int| 0 <= i < r.len() && r[i] == v;
                if i < r.len() - 1 {
                    assert(rest.contains(v));
                    if s.drop_last().contains(v) {
                        let k = choose|k: int| 0 <= k < s.len() - 1 && s.drop_last()[k] == v;
                        assert(s[k] == v);
                    }
                } else {
                    assert(s[s.len() - 1] == v);
                }
            }
            if s.contains(v) {
                let k = choose|k: int| 0 <= k < s.len() && s[k] == v;
                if k < s.len() - 1 {
                    assert(s.drop_last()[k] == v);
                    assert(rest.contains(v));
                    let i = choose|i: int| 0 <= i < rest.len() && rest[i] == v;
                    assert(r[i] == v);
                } else {
                    assert(r[r.len() - 1] == v);
                }
            }
            if v == x {
                assert(rest.contains(v));
                let i = choose|i: int| 0 <= i < rest.len() && rest[i] == v;
                assert(r[i] == v);
            }
        }
    }
}

/// Highlight positions come out ascending, each once, and none is lost or added.
pub proof fn law_sorted_unique(s: Seq<u32>)
    ensures
        is_ascending(sorted_unique(s)),
        forall|v: u32| #[trigger] sorted_unique(s).contains(v) <==> s.contains(v),
    decreases s.len(),
{
    if s.len() > 0 {
        let before = s.drop_last();
        law_sorted_unique(before);
        lemma_insert_unique(sorted_unique(before), s.last());
        assert forall|v: u32| #[trigger] sorted_unique(s).contains(v) <==> s.contains(v) by {
            assert(sorted_unique(before).contains(v) <==> before.contains(v));
            if before.contains(v) {
                let i = choose|i: int| 0 <= i < before.len() && before[i] == v;
                assert(s[i] == v);
            }
            if v == s.last() {
                assert(s[s.len() - 1] == v);
            }
            if s.contains(v) {
                let i = choose|i: int| 0 <= i < s.len() && s[i] == v;
                if i < s.len() - 1 {
                    assert(before[i] == v);
                }
            }
        }
    }
}

/// Sorts positions and drops duplicates: nucleo appends the indices of every
/// pattern word without sorting or deduplicating them.
fn sort_positions(positions: &Vec<u32>) -> (sorted: Vec<u32>)
    ensures
        sorted@ == sorted_unique(positions@),
{
    let mut sorted: Vec<u32> = Vec::new();
    let mut i: usize = 0;
    assert(positions@.take(0) =~= seq![]);
    while i < positions.len()
        invariant
            i <= positions.len(),
            sorted@ == sorted_unique(positions@.take(i as int)),
        decreases positions.len() - i,
    {
        let x: u32 = positions[i];
        let ghost s = sorted@;
        proof {
            law_sorted_unique(positions@.take(i as int));
            assert(positions@.take(i + 1).drop_last() =~= positions@.take(i as int));
        }
        let mut at: usize = sorted.len();
        while at > 0 && sorted[at - 1] > x
            invariant
                0 <= at <= sorted.len(),
                at < sorted.len() ==> sorted@[at as int] > x,
            decreases at,
        {
            at -= 1;
        }
        proof {
            lemma_insert_unique_at(s, x, at as int);
        }
        if at == 0 || sorted[at - 1] != x {
            sorted.insert(at, x);
        }
        i += 1;
    }
    assert(positions@.take(i as int) =~= positions@);
    sorted
}

/// The tabs that nucleo matched, in tab order. `hits` holds what nucleo
/// found for each tab.
pub open spec fn fuzzy_rows(tabs: Seq<TabModel>, hits: Seq<Option<(u32, Seq<u32>)>>) -> Seq<Row>
    decreases tabs.len(),
{
    if tabs.len() == 0 {
        seq![]
    } else {
        let before = fuzzy_rows(tabs.drop_last(), hits);
        if tabs.last().active {
            before
        } else {
            match hits[tabs.len() - 1] {
                Some((score, positions)) => before.push(
                    Row {
                        kind: MatchKind::Fuzzy(score),
                        tab: tabs.last(),
                        indices: sorted_unique(positions),
                    },
                ),
                None => before,
            }
        }
    }
}

/// Whether a query gets the typo-tolerant pass: not when it is very short
/// (everything would match), nor when it uses nucleo's operator syntax.
pub open spec fn tolerates_typos(query: Seq<char>) -> bool {
    error_budget(query.len()) > 0 && forall|i: int|
        0 <= i < query.len() ==> !is_operator(#[trigger] query[i])
}

/// Smart case like nucleo: a query without uppercase matches case-insensitively.
pub open spec fn ignores_case(query: Seq<char>) -> bool {
    forall|i: int| 0 <= i < query.len() ==> !is_upper(#[trigger] query[i])
}

/// A tab name as the typo-tolerant pass compares it.
pub open spec fn compared_name(query: Seq<char>, name: Seq<char>) -> Seq<char> {
    if ignores_case(query) {
        name.map_values(|c: char| lower_case(c))
    } else {
        name
    }
}

/// The approximate match of one tab.
pub open spec fn approx_hit(query: Seq<char>, name: Seq<char>) -> Option<(u32, Seq<u32>)> {
    if name.len() > APPROX_MAX_NAME_CHARS {
        None
    } else {
        approx_outcome(query, compared_name(query, name), error_budget(query.len()))
    }
}

/// The tabs that nucleo did not match and that are close to the query, in tab order.
pub open spec fn approx_rows(
    query: Seq<char>,
    tabs: Seq<TabModel>,
    hits: Seq<Option<(u32, Seq<u32>)>>,
) -> Seq<Row>
    decreases tabs.len(),
{
    if tabs.len() == 0 {
        seq![]
    } else {
        let before = approx_rows(query, tabs.drop_last(), hits);
        if tabs.last().active || hits[tabs.len() - 1] is Some || !tolerates_typos(query) {
            before
        } else {
            match approx_hit(query, tabs.last().name) {
                Some((distance, positions)) => before.push(
                    Row {
                        kind: MatchKind::Approx(distance),
                        tab: tabs.last(),
                        indices: positions,
                    },
                ),
                None => before,
            }
        }
    }
}

/// The list for a query: nucleo's matches by score, then the approximate
/// ones by distance, ties in tab order.
pub open spec fn match_list(
    query: Seq<char>,
    tabs: Seq<TabModel>,
    hits: Seq<Option<(u32, Seq<u32>)>>,
) -> Seq<Row> {
    stable_sort(fuzzy_rows(tabs, hits) + approx_rows(query, tabs, hits), rank_order())
}

/// What nucleo finds for each tab; the active tab is not searched.
pub open spec fn nucleo_hits(query: Seq<char>, tabs: Seq<TabModel>) -> Seq<
    Option<(u32, Seq<u32>)>,
> {
    Seq::new(
        tabs.len(),
        |i: int|
            if tabs[i].active {
                None
            } else {
                nucleo_indices(query, tabs[i].name)
            },
    )
}

/// What the list holds for a query over the tabs and their counts.
pub open spec fn results(
    query: Seq<char>,
    tabs: Seq<TabModel>,
    counts: Map<usize, u64>,
) -> Seq<Row> {
    if query.len() == 0 {
        frequency_list(tabs, counts)
    } else {
        match_list(query, tabs, nucleo_hits(query, tabs))
    }
}

proof fn lemma_sort_push(s: Seq<Row>, x: Row, le: spec_fn(Row, Row) -> bool)
    ensures
        stable_sort(s.push(x), le) == insert_sorted(stable_sort(s, le), x, le),
{
    assert(s.push(x).drop_last() =~= s);
}

/// Puts a row into a list that is in frequency order.
fn insert_by_frequency(list: &mut Vec<Scored>, row: Scored, counts: &BTreeMap<usize, u64>)
    ensures
        rows_of(final(list)@) == insert_sorted(rows_of(old(list)@), row@, frequency_order(counts@)),
{
    let used: u64 = count_of(counts, row.tab.tab_id);
    let mut at: usize = list.len();
    while at > 0 && !goes_before(&list[at - 1], &row, used, counts)
        invariant
            0 <= at <= list.len(),
            used == access_count(counts@, row.tab.tab_id),
            forall|k: int|
                at <= k < list.len() ==> !frequency_order(counts@)(#[trigger] list@[k]@, row@),
        decreases at,
    {
        at -= 1;
    }
    proof {
        let s = rows_of(list@);
        assert forall|k: int| at <= k < s.len() implies !frequency_order(counts@)(
            #[trigger] s[k],
            row@,
        ) by {
            assert(s[k] == list@[k]@);
        }
        if at > 0 {
            assert(s[at - 1] == list@[at - 1]@);
        }
        lemma_insert_sorted_at(s, row@, frequency_order(counts@), at as int);
        assert(rows_of(list@.insert(at as int, row)) =~= s.insert(at as int, row@));
    }
    list.insert(at, row);
}

/// Whether a row goes before another row, whose tab was used `used` times, or ties with it.
fn goes_before(a: &Scored, b: &Scored, used: u64, counts: &BTreeMap<usize, u64>) -> (before: bool)
    requires
        used == access_count(counts@, b.tab.tab_id),
    ensures
        before == frequency_order(counts@)(a@, b@),
{
    let used_a: u64 = count_of(counts, a.tab.tab_id);
    used_a > used || (used_a == used && a.tab.position <= b.tab.position)
}

/// How often a tab was jumped to.
pub fn count_of(counts: &BTreeMap<usize, u64>, tab_id: usize) -> (count: u64)
    ensures
        count == access_count(counts@, tab_id),
{
    match counts.get(&tab_id) {
        Some(count) => *count,
        None => 0,
    }
}

/// Empty query: every tab except the active one (that is the header),
/// most-used first, then by position.
pub fn list_tabs(tabs: &Vec<TabEntry>, counts: &BTreeMap<usize, u64>) -> (list: Vec<Scored>)
    ensures
        rows_of(list@) == frequency_list(tab_models(tabs@), counts@),
{
    let ghost models = tab_models(tabs@);
    let ghost order = frequency_order(counts@);
    let mut list: Vec<Scored> = Vec::new();
    let mut i: usize = 0;
    assert(models.take(0) =~= seq![]);
    assert(rows_of(list@) =~= stable_sort(listed_rows(models.take(0)), order));
    while i < tabs.len()
        invariant
            i <= tabs.len(),
            models == tab_models(tabs@),
            order == frequency_order(counts@),
            rows_of(list@) == stable_sort(listed_rows(models.take(i as int)), order),
        decreases tabs.len() - i,
    {
        let info = &tabs[i].info;
        assert(models.take(i + 1).drop_last() =~= models.take(i as int));
        assert(models.take(i + 1).last() == info@);
        if !info.active {
            let row = Scored { kind: MatchKind::Listed, tab: Rc::clone(info), indices: Vec::new() };
            assert(row@ =~= Row { kind: MatchKind::Listed, tab: info@, indices: seq![] });
            proof {
                lemma_sort_push(listed_rows(models.take(i as int)), row@, order);
            }
            insert_by_frequency(&mut list, row, counts);
        }
        i += 1;
    }
    assert(models.take(i as int) =~= models);
    list
}

/// Puts a row into a list that is in rank order.
fn insert_by_rank(list: &mut Vec<Scored>, row: Scored)
    ensures
        rows_of(final(list)@) == insert_sorted(rows_of(old(list)@), row@, rank_order()),
{
    let key: (u8, u64) = row.kind.rank();
    let mut at: usize = list.len();
    while at > 0 && !ranks_before(list[at - 1].kind, key)
        invariant
            0 <= at <= list.len(),
            key == row.kind.ranking(),
            forall|k: int| at <= k < list.len() ==> !rank_order()(#[trigger] list@[k]@, row@),
        decreases at,
    {
        at -= 1;
    }
    proof {
        let s = rows_of(list@);
        assert forall|k: int| at <= k < s.len() implies !rank_order()(#[trigger] s[k], row@) by {
            assert(s[k] == list@[k]@);
        }
        if at > 0 {
            assert(s[at - 1] == list@[at - 1]@);
        }
        lemma_insert_sorted_at(s, row@, rank_order(), at as int);
        assert(rows_of(list@.insert(at as int, row)) =~= s.insert(at as int, row@));
    }
    list.insert(at, row);
}

/// Whether a match ranks before a sort key or ties with it.
fn ranks_before(kind: MatchKind, key: (u8, u64)) -> (before: bool)
    ensures
        before == rank_le(kind.ranking(), key),
{
    let own: (u8, u64) = kind.rank();
    own.0 < key.0 || (own.0 == key.0 && own.1 <= key.1)
}

/// What nucleo found for each tab, positions as sequences.
pub open spec fn hits_view(hits: Seq<Option<(u32, Vec<u32>)>>) -> Seq<Option<(u32, Seq<u32>)>> {
    hits.map_values(|hit: Option<(u32, Vec<u32>)>| hit_view(hit))
}

/// Whether a query gets the typo-tolerant pass.
fn query_tolerates_typos(query: &Vec<char>) -> (tolerant: bool)
    ensures
        tolerant == tolerates_typos(query@),
{
    if max_errors(query.len()) == 0 {
        return false;
    }
    let mut i: usize = 0;
    while i < query.len()
        invariant
            i <= query.len(),
            forall|k: int| 0 <= k < i ==> !is_operator(#[trigger] query@[k]),
        decreases query.len() - i,
    {
        if char_is_operator(query[i]) {
            return false;
        }
        i += 1;
    }
    true
}

/// Whether a query matches case-insensitively.
fn query_ignores_case(query: &Vec<char>) -> (ignores: bool)
    ensures
        ignores == ignores_case(query@),
{
    let mut i: usize = 0;
    while i < query.len()
        invariant
            i <= query.len(),
            forall|k: int| 0 <= k < i ==> !is_upper(#[trigger] query@[k]),
        decreases query.len() - i,
    {
        if query[i].is_uppercase() {
            return false;
        }
        i += 1;
    }
    true
}

/// Writes a tab name into `text` as the typo-tolerant pass compares it.
fn fold_name(name: &Vec<char>, fold_case: bool, text: &mut Vec<char>)
    ensures
        final(text)@ == if fold_case {
            name@.map_values(|c: char| lower_case(c))
        } else {
            name@
        },
{
    let ghost folded = if fold_case {
        name@.map_values(|c: char| lower_case(c))
    } else {
        name@
    };
    text.clear();
    let mut i: usize = 0;
    while i < name.len()
        invariant
            i <= name.len(),
            folded == if fold_case {
                name@.map_values(|c: char| lower_case(c))
            } else {
                name@
            },
            text@ == folded.take(i as int),
        decreases name.len() - i,
    {
        let c: char = name[i];
        text.push(
            if fold_case {
                to_lower_case(c)
            } else {
                c
            },
        );
        i += 1;
        assert(text@ =~= folded.take(i as int));
    }
    assert(folded.take(i as int) =~= folded);
}

/// Typo-tolerant pass over the tabs nucleo did not match: a bounded
/// edit-distance substring match (`approx_match`) so that `bakkend` or
/// `bacckend` still find `backend`. Smart case like nucleo (a query
/// without uppercase matches case-insensitively); no diacritic folding.
/// Skipped for very short queries (everything would match) and for
/// queries using nucleo's operator syntax. Adds its matches to a list that
/// holds nucleo's in rank order.
fn approx_pass(
    list: &mut Vec<Scored>,
    query: &str,
    tabs: &Vec<TabEntry>,
    hits: &Vec<Option<(u32, Vec<u32>)>>,
)
    requires
        query@.len() <= MAX_QUERY_CHARS,
        hits.len() == tabs.len(),
        forall|i: int| 0 <= i < tabs.len() ==> (#[trigger] tabs@[i]).wf(),
        rows_of(old(list)@) == stable_sort(
            fuzzy_rows(tab_models(tabs@), hits_view(hits@)),
            rank_order(),
        ),
    ensures
        rows_of(final(list)@) == match_list(query@, tab_models(tabs@), hits_view(hits@)),
{
    let ghost models = tab_models(tabs@);
    let ghost found = hits_view(hits@);
    let ghost fuzzy = fuzzy_rows(models, found);
    let chars: Vec<char> = chars_of(query);
    let tolerant: bool = query_tolerates_typos(&chars);
    let budget: u32 = max_errors(chars.len());
    let fold_case: bool = query_ignores_case(&chars);
    let mut text: Vec<char> = Vec::new();
    let mut scratch: Vec<u16> = Vec::new();
    let mut i: usize = 0;
    assert(models.take(0) =~= seq![]);
    assert(fuzzy + approx_rows(query@, models.take(0), found) =~= fuzzy);
    while i < tabs.len()
        invariant
            i <= tabs.len(),
            models == tab_models(tabs@),
            found == hits_view(hits@),
            chars@ == query@,
            query@.len() <= MAX_QUERY_CHARS,
            tolerant == tolerates_typos(query@),
            budget == error_budget(query@.len()),
            fold_case == ignores_case(query@),
            hits.len() == tabs.len(),
            forall|k: int| 0 <= k < tabs.len() ==> (#[trigger] tabs@[k]).wf(),
            rows_of(list@) == stable_sort(
                fuzzy + approx_rows(query@, models.take(i as int), found),
                rank_order(),
            ),
        decreases tabs.len() - i,
    {
        let entry = &tabs[i];
        let ghost done = approx_rows(query@, models.take(i as int), found);
        assert(models.take(i + 1).drop_last() =~= models.take(i as int));
        assert(models.take(i + 1).last() == entry@);
        assert(found[i as int] == hit_view(hits@[i as int]));
        assert(entry.wf());
        if tolerant && !entry.info.active && hits[i].is_none() && entry.chars.len()
            <= APPROX_MAX_NAME_CHARS {
            fold_name(&entry.chars, fold_case, &mut text);
            assert(text@ == compared_name(query@, entry@.name));
            assert(2 * ((chars@.len() + 1) * (text@.len() + 1)) <= isize::MAX) by {
                let (a, b) = (chars@.len(), text@.len());
                assert((a + 1) * (b + 1) <= 129 * 513) by (nonlinear_arith)
                    requires
                        a <= 128,
                        b <= 512,
                ;
            }
            if let Some((distance, positions)) = approx_match(
                chars.as_slice(),
                text.as_slice(),
                budget,
                &mut scratch,
            ) {
                let row = Scored {
                    kind: MatchKind::Approx(distance),
                    tab: Rc::clone(&entry.info),
                    indices: positions,
                };
                proof {
                    lemma_sort_push(fuzzy + done, row@, rank_order());
                    assert(fuzzy + done.push(row@) =~= (fuzzy + done).push(row@));
                }
                insert_by_rank(list, row);
            }
        }
        i += 1;
    }
    assert(models.take(i as int) =~= models);
}

/// nucleo takes the query with the name of every tab that is searched. An
/// empty query searches none.
pub open spec fn can_search(query: Seq<char>, tabs: Seq<TabModel>) -> bool {
    query.len() == 0 || forall|i: int|
        0 <= i < tabs.len() && !(#[trigger] tabs[i]).active ==> is_name_len(tabs[i].name.len())
            && nucleo_takes(query, tabs[i].name)
}

/// Asks nucleo about each tab but the active one.
pub fn fuzzy_hits(matcher: &mut FuzzyMatcher, query: &str, tabs: &Vec<TabEntry>) -> (hits: Vec<
    Option<(u32, Vec<u32>)>,
>)
    requires
        query@.len() <= MAX_QUERY_CHARS,
        forall|i: int| 0 <= i < tabs.len() ==> (#[trigger] tabs@[i]).wf(),
        can_search(query@, tab_models(tabs@)),
    ensures
        hits_view(hits@) == nucleo_hits(query@, tab_models(tabs@)),
{
    let ghost models = tab_models(tabs@);
    let mut hits: Vec<Option<(u32, Vec<u32>)>> = Vec::new();
    let mut i: usize = 0;
    while i < tabs.len()
        invariant
            i <= tabs.len(),
            query@.len() <= MAX_QUERY_CHARS,
            models == tab_models(tabs@),
            forall|k: int| 0 <= k < tabs.len() ==> (#[trigger] tabs@[k]).wf(),
            can_search(query@, models),
            hits_view(hits@) == nucleo_hits(query@, models).take(i as int),
        decreases tabs.len() - i,
    {
        let entry = &tabs[i];
        assert(entry.wf());
        assert(models[i as int] == entry@);
        let hit: Option<(u32, Vec<u32>)> = if entry.info.active {
            None
        } else {
            matcher.indices(query, &entry.haystack)
        };
        let ghost before = hits@;
        hits.push(hit);
        i += 1;
        assert(hits_view(hits@) =~= hits_view(before).push(hit_view(hit)));
        assert(hits_view(hits@) =~= nucleo_hits(query@, models).take(i as int));
    }
    assert(nucleo_hits(query@, models).take(i as int) =~= nucleo_hits(query@, models));
    hits
}

/// The list for a query, from what nucleo found for each tab: nucleo's
/// matches by score, then the typo-tolerant pass over what nucleo rejected.
pub fn rank_matches(
    query: &str,
    tabs: &Vec<TabEntry>,
    hits: &Vec<Option<(u32, Vec<u32>)>>,
) -> (list: Vec<Scored>)
    requires
        query@.len() <= MAX_QUERY_CHARS,
        hits.len() == tabs.len(),
        forall|i: int| 0 <= i < tabs.len() ==> (#[trigger] tabs@[i]).wf(),
    ensures
        rows_of(list@) == match_list(query@, tab_models(tabs@), hits_view(hits@)),
{
    let ghost models = tab_models(tabs@);
    let ghost found = hits_view(hits@);
    let mut list: Vec<Scored> = Vec::new();
    let mut i: usize = 0;
    assert(models.take(0) =~= seq![]);
    assert(rows_of(list@) =~= stable_sort(fuzzy_rows(models.take(0), found), rank_order()));
    while i < tabs.len()
        invariant
            i <= tabs.len(),
            models == tab_models(tabs@),
            found == hits_view(hits@),
            hits.len() == tabs.len(),
            rows_of(list@) == stable_sort(fuzzy_rows(models.take(i as int), found), rank_order()),
        decreases tabs.len() - i,
    {
        let entry = &tabs[i];
        assert(models.take(i + 1).drop_last() =~= models.take(i as int));
        assert(models.take(i + 1).last() == entry@);
        assert(found[i as int] == hit_view(hits@[i as int]));
        if !entry.info.active {
            if let Some((score, positions)) = &hits[i] {
                let row = Scored {
                    kind: MatchKind::Fuzzy(*score),
                    tab: Rc::clone(&entry.info),
                    indices: sort_positions(positions),
                };
                proof {
                    lemma_sort_push(fuzzy_rows(models.take(i as int), found), row@, rank_order());
                }
                insert_by_rank(&mut list, row);
            }
        }
        i += 1;
    }
    assert(models.take(i as int) =~= models);
    approx_pass(&mut list, query, tabs, hits);
    list
}

} // verus!
