//! The picker as a whole: events, keys, mouse and timers.
use std::rc::Rc;
use tab_quicksearch::events::{BareKey, Direction, Event, HostCall, Key, Mouse};
use tab_quicksearch::fuzzy::{haystack_for, MatchKind, MAX_QUERY_CHARS};
use tab_quicksearch::layout::{ListArea, SizeCfg};
use tab_quicksearch::model::Visibility;
use tab_quicksearch::state::State;
use tab_quicksearch::tabs::{PaneInfo, PaneManifest, Scored, TabEntry, TabInfo};
use tab_quicksearch::timers::{TimerKind, BLINK_INTERVAL, JUMP_TIMEOUT, MAX_PENDING_TIMERS};

#[test]
fn geometry_reassert_rules() {
    let mut state = State::default(); // target 60×20
    let tab = TabInfo {
        position: 3,
        viewport_columns: 100,
        viewport_rows: 30,
        ..TabInfo::default()
    };
    state.tabs.push(TabEntry {
        haystack: haystack_for(&tab.name),
        chars: Vec::new(),
        info: Rc::new(tab),
    });
    // On target: nothing to do.
    assert!(!state.geometry_needs_reassert(3, 60, 20));
    // Larger in any dimension: always.
    assert!(state.geometry_needs_reassert(3, 61, 20));
    assert!(state.geometry_needs_reassert(3, 60, 21));
    // Smaller, but the target fits the viewport: re-assert.
    assert!(state.geometry_needs_reassert(3, 50, 15));
    // Smaller because the viewport is too small: leave alone.
    state.size.cols = 120;
    assert!(!state.geometry_needs_reassert(3, 50, 15));
    // Unknown tab: no viewport information, leave alone.
    state.size.cols = 60;
    assert!(!state.geometry_needs_reassert(7, 50, 15));
}

#[test]
fn visibility_needs_both_local_signals_and_no_host_veto() {
    let mut vis = Visibility {
        pane_focused: true,
        float_visible: true,
        ..Visibility::default()
    };
    assert!(vis.is_visible()); // no host signal at all
    vis.host_visible = Some(true);
    assert!(vis.is_visible());
    vis.host_visible = Some(false);
    assert!(!vis.is_visible()); // host veto
    vis.host_visible = None;
    vis.float_visible = false;
    assert!(!vis.is_visible()); // floating layer hidden
    vis.float_visible = true;
    vis.pane_focused = false;
    assert!(!vis.is_visible()); // not focused / suppressed
}

/// Three scored rows over a list area starting at pane row 5.
fn state_with_rows() -> State {
    let mut state = State::default();
    for position in 0..3 {
        let tab = TabInfo {
            position,
            ..TabInfo::default()
        };
        state.scored.push(Scored {
            kind: MatchKind::Listed,
            tab: Rc::new(tab),
            indices: Vec::new(),
        });
    }
    state.list_area = Some(ListArea {
        top: 5,
        rows: 10,
        left: 4,
        width: 60,
    });
    state
}

#[test]
fn list_index_at_hit_tests_populated_rows_only() {
    let mut state = state_with_rows();
    assert_eq!(state.list_index_at(5, 10), Some(0)); // first list row
    assert_eq!(state.list_index_at(7, 63), Some(2)); // last populated, right edge
    assert_eq!(state.list_index_at(8, 10), None); // empty list row
    assert_eq!(state.list_index_at(4, 10), None); // header above the list
    assert_eq!(state.list_index_at(5, 3), None); // left of the box
    assert_eq!(state.list_index_at(5, 64), None); // right of the box
    assert_eq!(state.list_index_at(-1, 10), None); // negative line

    // Scrolled list: row offsets shift with `scroll_offset`.
    state.scroll_offset = 2;
    assert_eq!(state.list_index_at(5, 10), Some(2));
    assert_eq!(state.list_index_at(6, 10), None);
    // No render yet: nothing to hit.
    state.list_area = None;
    assert_eq!(state.list_index_at(5, 10), None);
}

#[test]
fn move_selection_by_clamps_at_both_ends() {
    let mut state = state_with_rows();
    assert!(state.move_selection_by(Direction::Down, 2));
    assert_eq!(state.selected, 2);
    assert!(!state.move_selection_by(Direction::Down, 5)); // already last
    assert_eq!(state.selected, 2);
    assert!(state.move_selection_by(Direction::Up, 10));
    assert_eq!(state.selected, 0);
    assert!(!state.move_selection_by(Direction::Up, 1)); // already first
    state.scored.clear();
    assert!(!state.move_selection_by(Direction::Down, 1)); // empty list
}

#[test]
fn keyboard_moves_wrap_around() {
    let mut state = state_with_rows();
    state.move_selection(Direction::Up);
    assert_eq!(state.selected, 2);
    state.move_selection(Direction::Down);
    assert_eq!(state.selected, 0);
    state.move_selection(Direction::Down);
    assert_eq!(state.selected, 1);
    state.move_selection(Direction::Up);
    assert_eq!(state.selected, 0);
    state.scored.clear();
    state.selected = 5;
    state.move_selection(Direction::Up);
    assert_eq!(state.selected, 0);
}

#[test]
fn list_index_at_extreme_geometry() {
    let mut state = state_with_rows();
    state.list_area = Some(ListArea {
        top: 2,
        rows: usize::MAX,
        left: 1,
        width: usize::MAX,
    });
    state.scroll_offset = usize::MAX;
    assert_eq!(state.list_index_at(3, 1), None);
    state.scroll_offset = 0;
    assert_eq!(state.list_index_at(3, 1), Some(1));
}

/// A tab of the host's report.
fn tab(position: usize, name: &str) -> TabInfo {
    TabInfo {
        position,
        tab_id: 100 + position,
        name: name.to_string(),
        active: position == 0,
        are_floating_panes_visible: position == 0,
        viewport_columns: 200,
        viewport_rows: 50,
        ..TabInfo::default()
    }
}

fn tabs(names: &[&str]) -> Vec<TabInfo> {
    names.iter().enumerate().map(|(i, n)| tab(i, n)).collect()
}

fn own_pane(cols: usize, rows: usize) -> PaneInfo {
    PaneInfo {
        id: 7,
        is_plugin: true,
        is_focused: true,
        is_floating: true,
        is_suppressed: false,
        pane_rows: rows,
        pane_columns: cols,
    }
}

fn manifest(pane: PaneInfo) -> PaneManifest {
    let other = PaneInfo {
        is_plugin: false,
        ..pane
    };
    PaneManifest {
        panes: vec![(4, vec![other]), (0, vec![other, pane])],
    }
}

/// A picker that is ready, knows its tabs and is visible.
fn open_picker(names: &[&str]) -> State {
    let mut state = State::default();
    assert!(state.update(Event::PermissionGranted { plugin_id: 7 }));
    assert!(state.update(Event::TabUpdate(tabs(names))));
    assert!(state.update(Event::PaneUpdate(manifest(own_pane(60, 20)))));
    assert!(state.vis.visible);
    state.take_calls();
    state
}

fn press(bare_key: BareKey) -> Event {
    Event::Key(Key {
        bare_key,
        has_ctrl: false,
        has_alt: false,
    })
}

fn ctrl(c: char) -> Event {
    Event::Key(Key {
        bare_key: BareKey::Char(c),
        has_ctrl: true,
        has_alt: false,
    })
}

fn type_text(state: &mut State, text: &str) {
    for c in text.chars() {
        assert!(state.accepts(&press(BareKey::Char(c))));
        state.update(press(BareKey::Char(c)));
    }
}

fn names(state: &State) -> Vec<&str> {
    state.scored.iter().map(|s| s.tab.name.as_str()).collect()
}

#[test]
fn permission_opens_or_closes() {
    let mut state = State::default();
    assert!(state.update(Event::PermissionGranted { plugin_id: 9 }));
    assert!(state.ready);
    assert_eq!(
        state.take_calls(),
        vec![
            HostCall::ResizePane {
                plugin_id: 9,
                cols: 60,
                rows: 20
            },
            HostCall::SetBorderless { plugin_id: 9 },
        ]
    );
    assert!(state.take_calls().is_empty());
    let mut state = State::default();
    assert!(!state.update(Event::PermissionDenied));
    assert_eq!(state.take_calls(), vec![HostCall::CloseSelf]);
}

#[test]
fn configured_size_is_requested() {
    let mut state = State::default();
    state.load(&vec![
        ("max_cols".to_string(), "90".to_string()),
        ("max_rows".to_string(), "3".to_string()),
    ]);
    assert_eq!(state.size, SizeCfg { cols: 90, rows: 4 });
    state.update(Event::PermissionGranted { plugin_id: 1 });
    assert_eq!(
        state.calls[0],
        HostCall::ResizePane {
            plugin_id: 1,
            cols: 90,
            rows: 4
        }
    );
}

#[test]
fn nothing_happens_before_ready() {
    let mut state = State::default();
    state.update(Event::TabUpdate(tabs(&["a", "b"])));
    assert!(!state.update(press(BareKey::Char('x'))));
    assert!(!state.update(press(BareKey::Esc)));
    assert!(!state.update(Event::Mouse(Mouse::ScrollDown)));
    assert!(!state.update(Event::PaneUpdate(manifest(own_pane(60, 20)))));
    assert_eq!(state.query, "");
    assert!(state.take_calls().is_empty());
    assert!(!state.update(Event::Other));
}

#[test]
fn typing_filters_and_backspace_undoes() {
    let mut state = open_picker(&["main", "backend", "frontend", "notes"]);
    assert_eq!(names(&state), vec!["backend", "frontend", "notes"]);
    type_text(&mut state, "end");
    assert_eq!(names(&state).len(), 2);
    type_text(&mut state, "x");
    assert_eq!(state.query, "endx");
    assert!(state.update(press(BareKey::Backspace)));
    assert_eq!(state.query, "end");
    assert_eq!(names(&state).len(), 2);
    assert!(state.update(ctrl('u')));
    assert_eq!(state.query, "");
    assert!(state.update(press(BareKey::Backspace)));
    assert_eq!(names(&state), vec!["backend", "frontend", "notes"]);
}

#[test]
fn word_deletion() {
    let mut state = open_picker(&["main", "one"]);
    type_text(&mut state, "foo bar  ");
    assert!(state.update(ctrl('w')));
    assert_eq!(state.query, "foo ");
    assert!(state.update(ctrl('w')));
    assert_eq!(state.query, "");
    assert!(state.update(ctrl('w')));
    assert_eq!(state.query, "");
    // Any Unicode whitespace separates words.
    type_text(&mut state, "foo\u{3000}bär");
    assert!(state.update(ctrl('w')));
    assert_eq!(state.query, "foo\u{3000}");
}

#[test]
fn control_chars_and_long_pastes_are_refused() {
    let mut state = open_picker(&["main", "one"]);
    assert!(!state.update(press(BareKey::Char('\u{1b}'))));
    assert!(!state.update(press(BareKey::Char('\n'))));
    assert!(!state.update(press(BareKey::Char('\u{9b}'))));
    assert_eq!(state.query, "");
    for _ in 0..MAX_QUERY_CHARS {
        assert!(state.update(press(BareKey::Char('ä'))));
    }
    assert!(!state.update(press(BareKey::Char('b'))));
    assert_eq!(state.query.chars().count(), MAX_QUERY_CHARS);
}

#[test]
fn modified_chars_are_no_input() {
    let mut state = open_picker(&["main", "one"]);
    assert!(!state.update(ctrl('x')));
    assert!(!state.update(ctrl('1')));
    for has_ctrl in [false, true] {
        assert!(!state.update(Event::Key(Key {
            bare_key: BareKey::Char('q'),
            has_ctrl,
            has_alt: true
        })));
    }
    assert!(!state.update(press(BareKey::Other)));
    assert_eq!(state.query, "");
    assert!(state.take_calls().is_empty());
}

#[test]
fn enter_switches_counts_and_closes() {
    let mut state = open_picker(&["main", "alpha", "beta", "gamma"]);
    state.update(press(BareKey::Down));
    state.update(press(BareKey::Tab));
    assert_eq!(state.selected, 2);
    assert!(state.update(press(BareKey::Enter)));
    assert_eq!(state.take_calls(), vec![HostCall::SwitchTab(4), HostCall::HideSelf]);
    assert_eq!(state.access_counts.get(&103), Some(&1));
    assert_eq!(state.access_counts.len(), 1);
    // The most-used tab is first from now on.
    assert_eq!(names(&state), vec!["gamma", "alpha", "beta"]);
    assert_eq!((state.selected, state.scroll_offset), (0, 0));
    assert!(!state.vis.visible);
}

#[test]
fn enter_without_a_match_only_closes() {
    let mut state = open_picker(&["main", "alpha"]);
    type_text(&mut state, "zzzz");
    assert!(state.scored.is_empty());
    assert!(state.update(press(BareKey::Enter)));
    assert_eq!(state.take_calls(), vec![HostCall::HideSelf]);
    assert!(state.access_counts.is_empty());
    // A position beyond what the host takes is not switched to either.
    let mut far = tabs(&["main", "far"]);
    far[1].position = u32::MAX as usize;
    state.update(Event::TabUpdate(far));
    assert!(state.update(press(BareKey::Enter)));
    assert_eq!(state.take_calls(), vec![HostCall::HideSelf]);
    assert!(state.access_counts.is_empty());
}

#[test]
fn close_keys_switch_nowhere() {
    for event in [press(BareKey::Esc), ctrl('c'), ctrl('g')] {
        let mut state = open_picker(&["main", "alpha", "beta"]);
        type_text(&mut state, "alp");
        state.take_calls();
        assert!(state.update(event));
        assert_eq!(state.take_calls(), vec![HostCall::HideSelf]);
        assert_eq!(state.query, "");
        assert_eq!(names(&state), vec!["alpha", "beta"]);
        assert!(!state.vis.visible && !state.vis.pane_focused);
        assert!(state.access_counts.is_empty());
    }
}

#[test]
fn ctrl_moves_like_the_arrows() {
    let mut state = open_picker(&["main", "a", "b", "c"]);
    for (event, selected) in [
        (ctrl('n'), 1),
        (ctrl('j'), 2),
        (ctrl('p'), 1),
        (ctrl('k'), 0),
        (press(BareKey::Up), 2),
    ] {
        assert!(state.update(event));
        assert_eq!(state.selected, selected);
    }
}

#[test]
fn digit_jumps_at_once_with_few_tabs() {
    let mut state = open_picker(&["main", "alpha", "beta"]);
    assert!(state.update(press(BareKey::Char('3'))));
    assert_eq!(state.take_calls(), vec![HostCall::SwitchTab(3), HostCall::HideSelf]);
    assert_eq!(state.access_counts.get(&102), Some(&1));
    assert_eq!(state.query, "");
}

#[test]
fn digit_of_the_active_tab_only_closes() {
    let mut state = open_picker(&["main", "alpha", "beta"]);
    assert!(state.update(press(BareKey::Char('1'))));
    assert_eq!(state.take_calls(), vec![HostCall::HideSelf]);
    assert!(state.access_counts.is_empty());
}

#[test]
fn digit_without_a_tab_is_a_query() {
    let mut state = open_picker(&["main", "tab 7", "beta"]);
    assert!(state.update(press(BareKey::Char('7'))));
    assert_eq!(state.query, "7");
    assert_eq!(names(&state), vec!["tab 7"]);
    assert!(state.take_calls().is_empty());
    // So is a leading zero.
    let mut state = open_picker(&["main", "r0"]);
    assert!(state.update(press(BareKey::Char('0'))));
    assert_eq!(state.query, "0");
}

fn many_tabs(n: usize) -> Vec<String> {
    (0..n).map(|i| format!("tab{i}")).collect()
}

fn open_many(n: usize) -> State {
    let all = many_tabs(n);
    let refs: Vec<&str> = all.iter().map(String::as_str).collect();
    open_picker(&refs)
}

#[test]
fn digits_buffer_with_ten_tabs_or_more() {
    let mut state = open_many(12);
    assert!(state.update(press(BareKey::Char('1'))));
    assert_eq!(state.query, "1");
    assert_eq!(state.take_calls(), vec![HostCall::SetTimeout(JUMP_TIMEOUT)]);
    assert!(state.update(press(BareKey::Char('2'))));
    assert_eq!(state.take_calls(), vec![HostCall::SwitchTab(12), HostCall::HideSelf]);
    // The timeout of the first digit is void by now.
    assert!(!state.update(Event::Timer(JUMP_TIMEOUT)));
    assert!(state.take_calls().is_empty());
}

#[test]
fn penultimate_digit_jumps_on_timeout() {
    let mut state = open_many(12);
    state.update(press(BareKey::Char('2')));
    state.take_calls();
    assert!(state.update(Event::Timer(JUMP_TIMEOUT)));
    assert_eq!(state.take_calls(), vec![HostCall::SwitchTab(2), HostCall::HideSelf]);
}

#[test]
fn three_digit_positions_wait_after_the_second() {
    let mut state = open_many(120);
    state.update(press(BareKey::Char('1')));
    assert!(state.take_calls().is_empty());
    state.update(press(BareKey::Char('1')));
    assert_eq!(state.take_calls(), vec![HostCall::SetTimeout(JUMP_TIMEOUT)]);
    state.update(press(BareKey::Char('7')));
    assert_eq!(state.take_calls(), vec![HostCall::SwitchTab(117), HostCall::HideSelf]);
}

#[test]
fn newer_digit_voids_the_timeout() {
    let mut state = open_many(12);
    state.update(press(BareKey::Char('2')));
    state.update(press(BareKey::Backspace));
    state.update(press(BareKey::Char('3')));
    state.take_calls();
    assert!(!state.update(Event::Timer(JUMP_TIMEOUT))); // that of the 2
    assert_eq!(state.query, "3");
    assert!(state.update(Event::Timer(JUMP_TIMEOUT)));
    assert_eq!(state.take_calls(), vec![HostCall::SwitchTab(3), HostCall::HideSelf]);
}

#[test]
fn closing_voids_the_timeout() {
    let mut state = open_many(12);
    state.update(press(BareKey::Char('2')));
    state.update(press(BareKey::Esc));
    state.update(Event::TabUpdate(
        many_tabs(12).iter().enumerate().map(|(i, n)| tab(i, n)).collect(),
    ));
    state.update(Event::PaneUpdate(manifest(own_pane(60, 20))));
    state.update(press(BareKey::Char('x')));
    state.take_calls();
    assert!(!state.update(Event::Timer(JUMP_TIMEOUT)));
    assert!(state.take_calls().is_empty());
}

#[test]
fn timeout_needs_a_pure_digit_buffer_and_a_tab() {
    let mut state = open_many(12);
    state.update(press(BareKey::Char('2')));
    state.update(press(BareKey::Char('x')));
    assert!(!state.update(Event::Timer(JUMP_TIMEOUT)));
    assert_eq!(state.query, "2x");
    // Out of range at the last digit: a query.
    let mut state = open_many(12);
    state.update(press(BareKey::Char('9')));
    state.update(press(BareKey::Char('9')));
    assert_eq!(state.query, "99");
    assert!(!state.take_calls().contains(&HostCall::HideSelf));
}

#[test]
fn mouse_selects_confirms_and_scrolls() {
    let mut state = open_picker(&["main", "alpha", "beta", "gamma"]);
    state.render(20, 60);
    let area = state.list_area.unwrap();
    assert_eq!(area, ListArea { top: 5, rows: 14, left: 0, width: 60 });
    let line = |row: usize| (area.top + row) as isize;
    assert!(state.update(Event::Mouse(Mouse::LeftClick(line(2), 10))));
    assert_eq!(state.selected, 2);
    assert!(state.take_calls().is_empty());
    assert!(!state.update(Event::Mouse(Mouse::ScrollDown))); // last row
    assert!(state.update(Event::Mouse(Mouse::ScrollUp)));
    assert_eq!(state.selected, 1);
    assert!(!state.update(Event::Mouse(Mouse::LeftClick(line(9), 10))));
    assert!(!state.update(Event::Mouse(Mouse::Other)));
    assert!(state.update(Event::Mouse(Mouse::LeftClick(line(1), 10))));
    assert_eq!(state.take_calls(), vec![HostCall::SwitchTab(3), HostCall::HideSelf]);
}

#[test]
fn repeated_tab_update_changes_nothing() {
    let mut state = open_picker(&["main", "alpha"]);
    state.update(press(BareKey::Char('a')));
    assert!(!state.update(Event::TabUpdate(tabs(&["main", "alpha"]))));
    assert_eq!(state.query, "a");
    // Any difference is taken up.
    let mut changed = tabs(&["main", "alpha"]);
    changed[1].is_flashing_bell = true;
    assert!(state.update(Event::TabUpdate(changed)));
    assert_eq!(state.query, "a");
    assert_eq!(names(&state), vec!["alpha"]);
}

#[test]
fn counts_die_with_their_tabs() {
    let mut state = open_picker(&["main", "alpha", "beta"]);
    state.access_counts.insert(101, 3);
    state.access_counts.insert(102, 4);
    assert!(state.update(Event::TabUpdate(tabs(&["main", "alpha"]))));
    assert_eq!(state.access_counts.get(&101), Some(&3));
    assert_eq!(state.access_counts.get(&102), None);
}

#[test]
fn selection_stays_inside_a_shrinking_list() {
    let mut state = open_picker(&["main", "a", "b", "c"]);
    state.update(press(BareKey::Up));
    assert_eq!(state.selected, 2);
    state.update(Event::TabUpdate(tabs(&["main", "a"])));
    assert_eq!(state.selected, 0);
    state.update(Event::TabUpdate(tabs(&["main"])));
    assert!(state.scored.is_empty());
    assert_eq!(state.selected, 0);
}

#[test]
fn pane_updates_resize_when_needed() {
    let mut state = open_picker(&["main", "alpha"]);
    let resized = vec![
        HostCall::ResizePane {
            plugin_id: 7,
            cols: 60,
            rows: 20,
        },
        HostCall::SetBorderless { plugin_id: 7 },
    ];
    // On target: nothing. Off target: again.
    assert!(!state.update(Event::PaneUpdate(manifest(own_pane(60, 20)))));
    assert!(state.take_calls().is_empty());
    state.update(Event::PaneUpdate(manifest(own_pane(100, 20))));
    assert_eq!(state.take_calls(), resized);
    state.update(Event::PaneUpdate(manifest(own_pane(50, 10))));
    assert_eq!(state.take_calls(), resized); // the target fits the viewport
    // Tiled: left alone.
    let tiled = PaneInfo {
        is_floating: false,
        ..own_pane(100, 40)
    };
    state.update(Event::PaneUpdate(manifest(tiled)));
    assert!(state.take_calls().is_empty());
    assert!(!state.vis.visible);
    // Focused again: re-asserted even on target.
    assert!(state.update(Event::PaneUpdate(manifest(own_pane(60, 20)))));
    assert_eq!(state.take_calls(), resized);
    // Not in the manifest: unfocused.
    state.update(Event::PaneUpdate(PaneManifest { panes: Vec::new() }));
    assert!(!state.vis.pane_focused && !state.vis.visible);
}

#[test]
fn own_pane_is_found_in_any_order() {
    let pane = own_pane(100, 40);
    let elsewhere = PaneInfo {
        id: 8,
        ..own_pane(60, 20)
    };
    for reversed in [false, true] {
        let mut panes = vec![(3, vec![elsewhere]), (0, vec![elsewhere, pane]), (1, Vec::new())];
        if reversed {
            panes.reverse();
        }
        let mut state = open_picker(&["main", "alpha"]);
        state.update(Event::PaneUpdate(PaneManifest { panes }));
        assert_eq!(state.take_calls().len(), 2);
        assert!(state.vis.visible);
    }
}

#[test]
fn reopening_resizes_the_pane() {
    let mut state = open_picker(&["main", "alpha"]);
    state.update(press(BareKey::Esc));
    state.take_calls();
    state.update(Event::PaneUpdate(manifest(own_pane(60, 20))));
    assert_eq!(state.take_calls().len(), 2);
    assert!(!state.vis.visible); // until a tab update shows the floating layer
    assert!(state.update(Event::TabUpdate(tabs(&["main", "alpha"]))));
    assert!(state.vis.visible);
}

#[test]
fn host_veto_lasts_until_the_next_update() {
    let mut state = open_picker(&["main", "alpha"]);
    assert!(!state.update(Event::Visible(false)));
    assert!(!state.vis.visible);
    assert!(state.update(Event::Visible(true)));
    assert!(!state.update(Event::Visible(false)));
    assert!(state.update(Event::TabUpdate(tabs(&["main", "alpha"]))));
    assert!(state.vis.visible);
    assert_eq!(state.vis.host_visible, None);
    // A pane update lifts it too.
    assert!(!state.update(Event::Visible(false)));
    assert!(state.update(Event::PaneUpdate(manifest(own_pane(60, 20)))));
    assert!(state.vis.visible);
    assert_eq!(state.vis.host_visible, None);
}

fn bell_tabs() -> Vec<TabInfo> {
    let mut all = tabs(&["main", "alpha"]);
    all[1].has_bell_notification = true;
    all
}

#[test]
fn bell_blinks_while_visible() {
    let mut state = open_picker(&["main", "alpha"]);
    assert!(!state.has_bell_tab());
    assert!(state.update(Event::TabUpdate(bell_tabs())));
    assert_eq!(state.take_calls(), vec![HostCall::SetTimeout(BLINK_INTERVAL)]);
    // No second chain while one tick is in flight.
    state.update(Event::TabUpdate(bell_tabs()));
    state.update(Event::Visible(true));
    assert!(state.take_calls().is_empty());
    assert!(state.update(Event::Timer(BLINK_INTERVAL)));
    assert!(state.timers.bell_blink_on);
    assert!(state.update(Event::Timer(BLINK_INTERVAL)));
    assert!(!state.timers.bell_blink_on);
    assert_eq!(state.take_calls().len(), 2);
    // Hidden: the next tick ends the loop.
    state.update(press(BareKey::Esc));
    assert!(!state.update(Event::Timer(BLINK_INTERVAL)));
    assert!(!state.timers.blink_in_flight());
    assert_eq!(state.take_calls(), vec![HostCall::HideSelf]);
    // Shown again: the loop starts anew.
    state.update(Event::PaneUpdate(manifest(own_pane(60, 20))));
    assert!(state.update(Event::TabUpdate(bell_tabs())));
    assert!(state.take_calls().contains(&HostCall::SetTimeout(BLINK_INTERVAL)));
    assert!(state.update(Event::Timer(0)));
    assert!(state.timers.blink_in_flight());
}

#[test]
fn stray_timer_events_do_nothing() {
    let mut state = open_picker(&["main", "alpha"]);
    assert!(!state.update(Event::Timer(BLINK_INTERVAL)));
    assert!(state.take_calls().is_empty());
}

#[test]
fn timer_queue_stays_bounded() {
    let mut state = open_many(12);
    state.update(Event::TabUpdate({
        let all = many_tabs(12);
        let mut infos: Vec<TabInfo> = all.iter().enumerate().map(|(i, n)| tab(i, n)).collect();
        infos[3].has_bell_notification = true;
        infos
    }));
    for _ in 0..20 {
        state.update(press(BareKey::Char('2')));
        state.update(press(BareKey::Backspace));
    }
    assert_eq!(state.timers.pending.len(), MAX_PENDING_TIMERS);
    let blinks = state.timers.pending.iter().filter(|(k, _)| *k == TimerKind::Blink).count();
    assert_eq!(blinks, 1);
    assert_eq!(state.timers.jump_generation, 20);
}

#[test]
fn odd_pairs_are_not_accepted() {
    let mut state = open_picker(&["main", "ſxsyä"]);
    assert!(state.accepts(&press(BareKey::Char('s'))));
    state.update(press(BareKey::Char('s')));
    assert!(!state.accepts(&press(BareKey::Char('ä'))));
    assert!(state.accepts(&press(BareKey::Char('a'))));
    assert!(state.accepts(&press(BareKey::Enter)));
    assert!(state.accepts(&ctrl('u')));
    state.update(press(BareKey::Backspace));
    type_text(&mut state, "äs");
    assert_eq!(state.query, "äs");
    // The same pair from the side of the tabs.
    let mut state = open_picker(&["main", "alpha"]);
    type_text(&mut state, "sä");
    assert!(!state.accepts(&Event::TabUpdate(tabs(&["main", "ſxsyä"]))));
    assert!(state.accepts(&Event::TabUpdate(tabs(&["ſxsyä", "main"])))); // the header
    // Without a query nothing is searched, before the permission nothing is typed.
    let mut state = State::default();
    assert!(state.accepts(&Event::TabUpdate(tabs(&["main", "ſxsyä"]))));
    state.query = "s".to_string();
    state.update(Event::TabUpdate(tabs(&["main", "ſxsyä"])));
    assert!(state.accepts(&press(BareKey::Char('ä'))));
}

#[test]
fn only_the_counted_tab_needs_room() {
    let mut state = open_picker(&["main", "alpha", "beta"]);
    state.list_area = Some(ListArea {
        top: 2,
        rows: 5,
        left: 0,
        width: 60,
    });
    let click = |row: isize| Event::Mouse(Mouse::LeftClick(2 + row, 4));
    state.access_counts.insert(101, u64::MAX);
    // Row 0 is alpha, whose count is full.
    assert!(!state.accepts(&press(BareKey::Enter)));
    assert!(!state.accepts(&press(BareKey::Char('2'))));
    assert!(!state.accepts(&click(0)));
    // Beta's is not, and the active tab is not counted.
    assert!(state.accepts(&press(BareKey::Char('3'))));
    assert!(state.accepts(&press(BareKey::Char('1'))));
    assert!(state.accepts(&press(BareKey::Char('4'))));
    assert!(state.accepts(&click(1)));
    assert!(state.accepts(&click(9)));
    // What counts nothing is taken.
    for key in [BareKey::Esc, BareKey::Down, BareKey::Backspace, BareKey::Char('x')] {
        assert!(state.accepts(&press(key)));
    }
    assert!(state.accepts(&Event::Mouse(Mouse::ScrollDown)));
    assert!(state.accepts(&Event::Timer(JUMP_TIMEOUT)));
    assert!(state.accepts(&Event::TabUpdate(tabs(&["main", "alpha", "beta"]))));
    // The selection decides.
    state.update(press(BareKey::Down));
    assert!(state.accepts(&press(BareKey::Enter)));
    assert!(!state.accepts(&press(BareKey::Char('2'))));
    // An update without the tab prunes its count.
    state.update(Event::TabUpdate(tabs(&["main"])));
    assert!(state.access_counts.is_empty());
    // A timeout counts the tab that the buffer spells.
    let mut state = open_many(12);
    state.update(press(BareKey::Char('2')));
    assert!(state.accepts(&Event::Timer(JUMP_TIMEOUT)));
    state.access_counts.insert(101, u64::MAX);
    assert!(!state.accepts(&Event::Timer(JUMP_TIMEOUT)));
    state.access_counts.insert(101, u64::MAX - 1);
    assert!(state.accepts(&Event::Timer(JUMP_TIMEOUT)));
    assert!(state.update(Event::Timer(JUMP_TIMEOUT)));
    assert_eq!(state.access_counts.get(&101), Some(&u64::MAX));
}

#[test]
fn second_click_jumps() {
    let mut state = open_picker(&["main", "alpha", "beta"]);
    state.list_area = Some(ListArea {
        top: 2,
        rows: 5,
        left: 0,
        width: 60,
    });
    let click = || Event::Mouse(Mouse::LeftClick(3, 4));
    assert!(state.update(click()));
    assert_eq!(state.selected, 1);
    assert!(state.take_calls().is_empty());
    assert!(state.update(click()));
    assert_eq!(state.take_calls(), vec![HostCall::SwitchTab(3), HostCall::HideSelf]);
    assert_eq!(state.access_counts.get(&102), Some(&1));
    assert!(!state.vis.visible);
}

#[test]
fn keys_that_move_agree() {
    let ups = [press(BareKey::Up), ctrl('p'), ctrl('k')];
    let downs = [press(BareKey::Down), press(BareKey::Tab), ctrl('n'), ctrl('j')];
    for (keys, moved) in [(&ups[..], [3, 0, 1, 2]), (&downs[..], [1, 2, 3, 0])] {
        for key in keys {
            for (from, to) in moved.into_iter().enumerate() {
                let mut state = open_picker(&["main", "a", "b", "c", "d"]);
                state.selected = from;
                let key = match key {
                    Event::Key(key) => Event::Key(*key),
                    _ => unreachable!(),
                };
                assert!(state.update(key));
                assert_eq!(state.selected, to);
                assert!(state.query.is_empty() && state.take_calls().is_empty());
            }
        }
    }
}

#[test]
fn tabs_compare_in_every_field() {
    let base = tab(1, "x");
    assert!(base.same_as(&base.clone()));
    let changes: Vec<fn(&mut TabInfo)> = vec![
        |t| t.position = 9,
        |t| t.name.push('y'),
        |t| t.active = true,
        |t| t.panes_to_hide = 9,
        |t| t.is_fullscreen_active = true,
        |t| t.is_sync_panes_active = true,
        |t| t.are_floating_panes_visible = true,
        |t| t.other_focused_clients.push(3),
        |t| t.active_swap_layout_name = Some(String::new()),
        |t| t.is_swap_layout_dirty = true,
        |t| t.viewport_rows = 9,
        |t| t.viewport_columns = 9,
        |t| t.display_area_rows = 9,
        |t| t.display_area_columns = 9,
        |t| t.selectable_tiled_panes_count = 9,
        |t| t.selectable_floating_panes_count = 9,
        |t| t.tab_id = 9,
        |t| t.has_bell_notification = true,
        |t| t.is_flashing_bell = true,
    ];
    for change in changes {
        let mut other = base.clone();
        change(&mut other);
        assert!(!base.same_as(&other));
        assert!(other.same_as(&other.clone()));
    }
}
