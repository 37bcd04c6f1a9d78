//! Searching and listing tabs.
use std::rc::Rc;
use tab_quicksearch::fuzzy::{
    char_is_variant_letter, haystack_for, own_folding_of, takes_name_len, takes_pair, MatchKind,
};
use tab_quicksearch::search::{list_tabs, rank_matches};
use tab_quicksearch::state::State;
use tab_quicksearch::tabs::{Scored, TabEntry, TabInfo};

/// Tabs by name; position and `tab_id` follow the slice order and the
/// first tab is the active one (shown as the header, never listed).
fn state_with_tabs(names: &[&str]) -> State {
    let mut state = State {
        tabs_received: true,
        ..State::default()
    };
    for (position, name) in names.iter().enumerate() {
        let tab = TabInfo {
            position,
            tab_id: position,
            name: (*name).to_string(),
            active: position == 0,
            ..TabInfo::default()
        };
        state.tabs.push(TabEntry {
            haystack: haystack_for(name),
            chars: name.chars().collect(),
            info: Rc::new(tab),
        });
    }
    state
}

fn listed_names(state: &State) -> Vec<&str> {
    state.scored.iter().map(|s| s.tab.name.as_str()).collect()
}

fn names_of(list: &[Scored]) -> Vec<&str> {
    list.iter().map(|s| s.tab.name.as_str()).collect()
}

fn search<'a>(state: &'a mut State, query: &str) -> Vec<&'a str> {
    state.query = query.to_string();
    state.refresh_scores();
    listed_names(state)
}

#[test]
fn search_ranks_fuzzy_matches_above_typo_matches() {
    let mut state = state_with_tabs(&["active", "backend", "frontend", "notes"]);

    // Typo nucleo cannot bridge (no second k in the name): the approximate
    // pass finds it, every char but the substituted one highlighted.
    state.query = "bakkend".to_string();
    state.refresh_scores();
    assert_eq!(listed_names(&state), vec!["backend"]);
    assert_eq!(state.scored[0].kind, MatchKind::Approx(1));
    assert_eq!(state.scored[0].indices, vec![0, 1, 3, 4, 5, 6]);

    state.query = "back".to_string();
    state.refresh_scores();
    assert_eq!(listed_names(&state), vec!["backend"]);
    assert!(matches!(state.scored[0].kind, MatchKind::Fuzzy(_)));
    assert_eq!(state.scored[0].indices, vec![0, 1, 2, 3]);

    state.query = "bx".to_string(); // two chars: nucleo only, no typo pass
    state.refresh_scores();
    assert!(state.scored.is_empty());

    state.query = "!back".to_string(); // nucleo negation, no typo fallback
    state.refresh_scores();
    assert_eq!(listed_names(&state), vec!["frontend", "notes"]);

    state.query = "zzz".to_string();
    state.refresh_scores();
    assert!(state.scored.is_empty());
    assert_eq!(state.selected, 0);
}

#[test]
fn empty_query_lists_by_frequency_then_position() {
    let mut state = state_with_tabs(&["active", "alpha", "beta", "gamma"]);
    state.access_counts.insert(3, 5); // gamma
    state.access_counts.insert(2, 1); // beta
    state.refresh_scores();
    assert_eq!(listed_names(&state), vec!["gamma", "beta", "alpha"]);
    assert!(state.scored.iter().all(|s| s.kind == MatchKind::Listed));
}

#[test]
fn empty_query_lists_equal_positions_in_tab_order() {
    let mut state = state_with_tabs(&["active", "one", "two", "three"]);
    for entry in &mut state.tabs[1..] {
        let mut tab = (*entry.info).clone();
        tab.position = 4;
        entry.info = Rc::new(tab);
    }
    let list = list_tabs(&state.tabs, &state.access_counts);
    assert_eq!(names_of(&list), vec!["one", "two", "three"]);
    assert!(list.iter().all(|s| s.indices.is_empty()));
}

#[test]
fn active_tab_is_never_listed() {
    let mut state = state_with_tabs(&["backend", "backend two"]);
    assert_eq!(search(&mut state, ""), vec!["backend two"]);
    assert_eq!(search(&mut state, "back"), vec!["backend two"]);
    assert_eq!(search(&mut state, "bakkend"), vec!["backend two"]);
}

#[test]
fn query_syntax_of_the_matcher_works_as_is() {
    let names = ["active", "frontend logs", "backend logs", "logs", "api"];
    let mut state = state_with_tabs(&names);
    // All words must match, in any order.
    assert_eq!(search(&mut state, "logs back"), vec!["backend logs"]);
    // Anchors, substring, exclusion.
    assert_eq!(search(&mut state, "^log"), vec!["logs"]);
    assert_eq!(search(&mut state, "i$"), vec!["api"]);
    assert_eq!(search(&mut state, "'end"), vec!["frontend logs", "backend logs"]);
    assert_eq!(search(&mut state, "!logs"), vec!["api"]);
    // The positions of several words come out ascending, each once.
    search(&mut state, "logs ba end");
    assert_eq!(state.scored[0].indices, vec![0, 1, 4, 5, 6, 8, 9, 10, 11]);
}

#[test]
fn smart_case_of_the_matcher() {
    let mut state = state_with_tabs(&["active", "Backend", "backup"]);
    assert_eq!(search(&mut state, "bac").len(), 2);
    assert!(state.scored.iter().all(|s| matches!(s.kind, MatchKind::Fuzzy(_))));
    // With an uppercase char only the exact case is a fuzzy match; the other
    // one is a typo away.
    assert_eq!(search(&mut state, "Bac"), vec!["Backend", "backup"]);
    assert!(matches!(state.scored[0].kind, MatchKind::Fuzzy(_)));
    assert_eq!(state.scored[1].kind, MatchKind::Approx(1));
}

#[test]
fn typo_pass_folds_case_unless_the_query_has_uppercase() {
    let mut state = state_with_tabs(&["active", "BACKEND"]);
    assert_eq!(search(&mut state, "bakkend"), vec!["BACKEND"]);
    assert_eq!(state.scored[0].kind, MatchKind::Approx(1));
    assert!(search(&mut state, "Bakkend").is_empty());
    let mut state = state_with_tabs(&["active", "ÄRGERND"]);
    assert_eq!(search(&mut state, "ärgxrnd"), vec!["ÄRGERND"]);
    let mut state = state_with_tabs(&["active", "Backend"]);
    assert_eq!(search(&mut state, "Bakkend"), vec!["Backend"]);
    assert_eq!(state.scored[0].kind, MatchKind::Approx(1));
    // A non-ASCII uppercase char in the query counts too.
    let mut state = state_with_tabs(&["active", "ärgernd"]);
    assert_eq!(search(&mut state, "Ärgxrnd"), vec!["ärgernd"]);
    assert_eq!(state.scored[0].kind, MatchKind::Approx(2));
}

#[test]
fn very_long_names_skip_the_typo_pass() {
    let fits = format!("backend{}", "x".repeat(505));
    let long = format!("backend{}", "x".repeat(506));
    assert_eq!((fits.len(), long.len()), (512, 513));
    let mut state = state_with_tabs(&["active", &fits, &long]);
    assert_eq!(search(&mut state, "bakkend"), vec![fits.as_str()]);
    assert_eq!(search(&mut state, "backend").len(), 2);
}

#[test]
fn operators_keep_the_search_exact() {
    for query in ["bakken!", "^bakkend", "bakkend$", "'bakkend", "bak\\kend"] {
        let mut state = state_with_tabs(&["active", "backend"]);
        assert!(search(&mut state, query).is_empty(), "{query}");
    }
}

#[test]
fn typo_matches_come_by_distance_behind_fuzzy_ones() {
    let names = ["active", "abxxef", "abcxef", "a b c d e f", "abcdef"];
    let mut state = state_with_tabs(&names);
    let list = search(&mut state, "abcdef");
    assert_eq!(list, vec!["abcdef", "a b c d e f", "abcxef", "abxxef"]);
    let kinds: Vec<MatchKind> = state.scored.iter().map(|s| s.kind).collect();
    assert!(matches!(kinds[0], MatchKind::Fuzzy(_)));
    assert!(matches!(kinds[1], MatchKind::Fuzzy(_)));
    assert_eq!(kinds[2..], [MatchKind::Approx(1), MatchKind::Approx(2)]);
}

#[test]
fn ties_stay_in_tab_order() {
    let mut state = state_with_tabs(&["active", "log b", "log a", "log c"]);
    assert_eq!(search(&mut state, "log"), vec!["log b", "log a", "log c"]);
}

#[test]
fn ranking_of_given_hits() {
    let state = state_with_tabs(&["active", "alpha", "beta", "gamme"]);
    // Hits of the matcher for each tab: none counts for the active one, and
    // where there is none the typo pass decides.
    let hits = vec![
        Some((900, vec![0])),
        Some((10, vec![3, 0, 3, 1])),
        Some((20, vec![2])),
        None,
    ];
    let list = rank_matches("gamma", &state.tabs, &hits);
    assert_eq!(names_of(&list), vec!["beta", "alpha", "gamme"]);
    assert_eq!(list[0].kind, MatchKind::Fuzzy(20));
    assert_eq!(list[1].kind, MatchKind::Fuzzy(10));
    assert_eq!(list[1].indices, vec![0, 1, 3]);
    assert_eq!(list[2].kind, MatchKind::Approx(1));
    assert_eq!(list[2].indices, vec![0, 1, 2, 3]);
}

#[test]
fn positions_are_codepoints() {
    // A combining mark takes a position of its own.
    let mut state = state_with_tabs(&["active", "e\u{301}xy"]);
    assert_eq!(search(&mut state, "xy"), vec!["e\u{301}xy"]);
    assert_eq!(state.scored[0].indices, vec![2, 3]);
    let mut state = state_with_tabs(&["active", "日本語タブ"]);
    assert_eq!(search(&mut state, "タブ"), vec!["日本語タブ"]);
    assert_eq!(state.scored[0].indices, vec![3, 4]);
}

#[test]
fn normalization_follows_the_query() {
    let mut state = state_with_tabs(&["active", "Äpfel", "apfel"]);
    assert_eq!(search(&mut state, "apf").len(), 2);
    assert_eq!(search(&mut state, "äpf"), vec!["Äpfel", "apfel"]);
}

fn letters(s: &str) -> Vec<char> {
    s.chars().collect()
}

#[test]
fn pairs_that_the_matcher_takes() {
    // A long s folds to s: with an umlaut beside it in the query the matcher's
    // two foldings part.
    assert!(!takes_pair(&letters("sä"), &letters("ſxsyä")));
    assert!(takes_pair(&letters("sa"), &letters("ſxsyä")));
    assert!(takes_pair(&letters("tä"), &letters("ſxsyä")));
    assert!(takes_pair(&letters("sä"), &letters("xsyä")));
    assert!(takes_pair(&letters("λογοσ"), &letters("λόγος")));
    assert!(takes_pair(&letters("über"), &letters("µservice")));
    assert!(takes_pair(&[].to_vec(), &letters("ſ")));
    // Only the first char of a word counts, and only beside an umlaut in the
    // same word. A space behind a backslash is part of a word.
    assert!(takes_pair(&letters("äs"), &letters("äxſ")));
    assert!(!takes_pair(&letters("xä sä"), &letters("ſxsyä")));
    assert!(takes_pair(&letters("s ä"), &letters("ſxsyä")));
    assert!(takes_pair(&letters("x\\ sä"), &letters("ſxsyä")));
    assert!(!takes_pair(&letters("s\\ ä"), &letters("ſxsyä")));
    // What it takes it searches.
    let mut state = state_with_tabs(&["active", "äxſ"]);
    assert!(search(&mut state, "äs").is_empty());
    let mut state = state_with_tabs(&["active", "ſxsyä", "λόγος"]);
    assert_eq!(search(&mut state, "s ä"), vec!["ſxsyä"]);
    assert!(search(&mut state, "x\\ sä").is_empty());
    assert!(search(&mut state, "'sä").is_empty());
    assert_eq!(search(&mut state, "!sä"), vec!["ſxsyä", "λόγος"]);
    assert_eq!(search(&mut state, "sxsy"), vec!["ſxsyä"]);
    assert_eq!(search(&mut state, "λόγος"), vec!["λόγος"]);
}

#[test]
fn ascii_folds_letter_by_letter() {
    for c in (0..0x80u8).map(char::from) {
        assert_eq!(nucleo_matcher::chars::to_lower_case(c), c.to_ascii_lowercase(), "{c:?}");
        assert_eq!(c.is_uppercase(), c.is_ascii_uppercase(), "{c:?}");
    }
}

#[test]
fn lengths_of_names_that_the_matcher_takes() {
    assert!(takes_name_len(0));
    assert!(takes_name_len((u32::MAX as usize) / 128));
    assert!(!takes_name_len(usize::MAX / 128 + 1));
    assert!(!takes_name_len(usize::MAX));
}

#[test]
fn foldings_and_variants_of_every_char() {
    for c in (0..=0x10_ffffu32).filter_map(char::from_u32) {
        let folded = nucleo_matcher::chars::to_lower_case(c);
        let own = if c.is_lowercase() && folded != c {
            Some(folded as u32)
        } else {
            None
        };
        assert_eq!(own_folding_of(c), own, "{c:?}");
        if nucleo_matcher::chars::normalize(c) != c {
            assert!(char_is_variant_letter(c), "{c:?}");
        }
    }
}

#[test]
fn longest_query_and_long_names() {
    let name = "a".repeat(2000);
    let mut state = state_with_tabs(&["active", &name]);
    let query = "a".repeat(128);
    assert_eq!(search(&mut state, &query).len(), 1);
    assert!(matches!(state.scored[0].kind, MatchKind::Fuzzy(_)));
    assert_eq!(state.scored[0].indices.len(), 128);
}
