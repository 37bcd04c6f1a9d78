//! What the picker draws.
use std::rc::Rc;
use tab_quicksearch::fuzzy::{haystack_for, MatchKind};
use tab_quicksearch::layout::{
    append_horizontal_border, append_padded, append_wrap, BoxPlacement, HighlightStyle, ListArea,
    RowFrame, SizeCfg,
};
use tab_quicksearch::render::{render_active_row, render_row};
use tab_quicksearch::state::State;
use tab_quicksearch::style::{
    ACTIVE, BELL, BELL_RESTORE, DIM, FRAME, MATCH, PROMPT, RESET, REVERSE, SELECTED,
};
use tab_quicksearch::tabs::{Scored, TabEntry, TabInfo};
use tab_quicksearch::width::visible_len;

/// Tabs by name; position and `tab_id` follow the slice order and the
/// first tab is the active one (shown as the header, never listed).
fn state_with_tabs(names: &[&str]) -> State {
    let mut state = State {
        tabs_received: true,
        ..State::default()
    };
    for (position, name) in names.iter().enumerate() {
        let tab = TabInfo {
            position,
            tab_id: position,
            name: (*name).to_string(),
            active: position == 0,
            ..TabInfo::default()
        };
        state.tabs.push(TabEntry {
            haystack: haystack_for(name),
            chars: name.chars().collect(),
            info: Rc::new(tab),
        });
    }
    state
}

#[test]
fn rendered_rows_are_exactly_one_pane_wide() {
    let mut state = state_with_tabs(&[
        "aktiv",
        "backend",
        "日本語のタブ",
        "🚀 deploy",
        "a-very-long-tab-name-that-does-not-fit-into-the-box-at-all-really",
    ]);
    let mut bell = (*state.tabs[1].info).clone();
    bell.has_bell_notification = true;
    state.tabs[1].info = Rc::new(bell);
    state.timers.bell_blink_on = true;

    // Pane larger than the 60×20 box: padding on every side, wide
    // chars, a selected bell row, a truncated name.
    state.refresh_scores();
    let mut out = String::new();
    state.render_box(&mut out, BoxPlacement::centered(24, 80, &state.size));
    let lines: Vec<&str> = out.lines().collect();
    assert_eq!(lines.len(), 20);
    for line in &lines {
        assert_eq!(visible_len(line), 80, "{line:?}");
    }
    assert!(out.contains('…'));
    // vpad_top 2 + top border, prompt, separator, header, separator.
    assert_eq!(
        state.list_area,
        Some(ListArea {
            top: 7,
            rows: 14,
            left: 10,
            width: 60
        })
    );

    // Bell row with match highlights keeps every row pane-wide too.
    state.query = "a".to_string();
    state.refresh_scores();
    let mut out = String::new();
    state.render_box(&mut out, BoxPlacement::centered(24, 80, &state.size));
    assert!(out.contains(BELL_RESTORE));
    assert!(out.lines().all(|line| visible_len(line) == 80));

    // Pane smaller than the box: the box shrinks, rows stay pane-wide.
    let mut out = String::new();
    state.render_box(&mut out, BoxPlacement::centered(10, 40, &state.size));
    assert_eq!(out.lines().count(), 10);
    assert!(out.lines().all(|line| visible_len(line) == 40));

    // Too small for the frame: blank rows, no list area.
    let mut out = String::new();
    state.render_box(&mut out, BoxPlacement::centered(3, 80, &state.size));
    assert_eq!(out.lines().count(), 3);
    assert!(state.list_area.is_none());

    // No matches, and "list not yet known" before the first tab update.
    state.query = "zzz".to_string();
    state.refresh_scores();
    let mut out = String::new();
    state.render_box(&mut out, BoxPlacement::centered(20, 60, &state.size));
    assert!(out.contains("no matches"));
    state.tabs_received = false;
    let mut out = String::new();
    state.render_box(&mut out, BoxPlacement::centered(20, 60, &state.size));
    assert!(!out.contains("no "));
}

#[test]
fn whole_pane_of_a_small_picker() {
    let mut state = state_with_tabs(&["main", "web"]);
    state.ready = true;
    state.size = SizeCfg { cols: 24, rows: 7 };
    state.query = "w".to_string();
    state.refresh_scores();
    let bar = format!("{FRAME}│{RESET}");
    let dashes = "─".repeat(22);
    let expected = [
        format!("{}", " ".repeat(26)),
        format!(" {FRAME}╭{dashes}╮{RESET} "),
        format!(
            " {bar}  {PROMPT}❯{RESET} w{REVERSE} {RESET}{}  {bar} ",
            " ".repeat(14)
        ),
        format!(" {FRAME}├{dashes}┤{RESET} "),
        format!(
            " {bar}  {ACTIVE}main{RESET}{DIM}{}  [0]{RESET}  {bar} ",
            " ".repeat(9)
        ),
        format!(" {FRAME}├{dashes}┤{RESET} "),
        format!(
            " {bar} {SELECTED} 2 - web{}  [0] {RESET} {bar} ",
            " ".repeat(6)
        ),
        format!(" {FRAME}╰{dashes}╯{RESET} "),
        format!("{}", " ".repeat(26)),
    ]
    .join("\n");
    assert_eq!(state.render(9, 26), expected);
    assert_eq!(
        state.list_area,
        Some(ListArea {
            top: 6,
            rows: 1,
            left: 1,
            width: 24
        })
    );
}

#[test]
fn blank_until_ready_and_on_tiny_panes() {
    let mut state = state_with_tabs(&["main", "web"]);
    state.list_area = Some(ListArea { top: 0, rows: 1, left: 0, width: 1 });
    assert_eq!(state.render(3, 4), "    \n    \n    ");
    assert_eq!(state.list_area, None);
    assert_eq!(state.render(0, 4), "");
    state.ready = true;
    let narrow = state.render(5, 19);
    assert!(narrow.lines().all(|l| l == " ".repeat(19)));
    assert_eq!(narrow.lines().count(), 5);
    assert_eq!(state.list_area, None);
    assert_eq!(state.render(3, 20).lines().count(), 3);
    assert_eq!(state.list_area, None);
}

#[test]
fn rows_left_over_without_a_header() {
    // Four rows: borders, prompt, separator, no list row, no header.
    let mut state = state_with_tabs(&["main", "web", "api"]);
    state.ready = true;
    state.refresh_scores();
    let out = state.render(4, 30);
    assert_eq!(out.lines().count(), 4);
    assert!(!out.contains("main") && !out.contains("web"));
    assert_eq!(state.list_area, Some(ListArea { top: 3, rows: 0, left: 0, width: 30 }));
    // Five rows: still no header, one list row.
    let out = state.render(5, 30);
    assert!(!out.contains("main") && out.contains("web"));
    // Seven rows: header and one list row.
    let out = state.render(7, 30);
    assert!(out.contains("main") && out.contains("web") && !out.contains("api"));
}

#[test]
fn list_without_rows_scrolls_back_and_forth() {
    let mut state = state_with_tabs(&["main", "web", "api"]);
    state.ready = true;
    state.refresh_scores();
    state.selected = 1;
    state.render(4, 30);
    assert_eq!(state.scroll_offset, 2);
    state.render(4, 30);
    assert_eq!(state.scroll_offset, 1);
}

#[test]
fn list_scrolls_to_the_selection() {
    let names: Vec<String> = (0..12).map(|i| format!("tab{i}")).collect();
    let refs: Vec<&str> = names.iter().map(String::as_str).collect();
    let mut state = state_with_tabs(&refs);
    state.ready = true;
    state.refresh_scores();
    for (selected, offset) in [(0, 0), (3, 0), (4, 1), (10, 7), (8, 7), (6, 6), (0, 0)] {
        state.selected = selected;
        let out = state.render(10, 40); // four list rows
        assert_eq!(state.scroll_offset, offset);
        let area = state.list_area.unwrap();
        let line = (area.top + selected - offset) as isize;
        assert_eq!(state.list_index_at(line, 5), Some(selected));
        let row = out.lines().nth(line as usize).unwrap();
        assert!(row.contains(SELECTED) && row.contains(&format!("tab{}", selected + 1)));
    }
}

#[test]
fn empty_list_messages() {
    let mut state = state_with_tabs(&[]);
    state.ready = true;
    let out = state.render(7, 30);
    // Three list rows, the message in the middle one: (24 - 7) / 2 cells in.
    let bar = format!("{FRAME}│{RESET}");
    let lines: Vec<&str> = out.lines().collect();
    assert_eq!(
        lines[4],
        format!("{bar}  {}{DIM}no tabs{RESET}{}  {bar}", " ".repeat(8), " ".repeat(9))
    );
    assert_eq!(lines[3], format!("{bar}{}{bar}", " ".repeat(28)));
    state.tabs_received = false;
    assert!(!state.render(7, 30).contains("no"));
    let mut state = state_with_tabs(&["main", "web"]);
    state.ready = true;
    state.query = "zzzz".to_string();
    state.refresh_scores();
    assert!(state.render(9, 30).contains("no matches"));
}

#[test]
fn highlights_of_a_row() {
    let plain = HighlightStyle::default();
    let selected = HighlightStyle { selected: true, ..plain };
    let bell_on = HighlightStyle { bell: true, blink_on: true, ..plain };
    let bell_off = HighlightStyle { bell: true, ..plain };
    let both_off = HighlightStyle { selected: true, bell: true, blink_on: false };
    let both_on = HighlightStyle { selected: true, bell: true, blink_on: true };
    let bar = format!("{FRAME}│{RESET}");
    for (style, outer) in [
        (plain, ""),
        (selected, SELECTED),
        (bell_on, BELL),
        (bell_off, ""),
        (both_off, ""),
        (both_on, SELECTED),
    ] {
        let mut out = String::from("x");
        append_wrap(&mut out, "ab", 4, style);
        let reset = if outer.is_empty() { "" } else { RESET };
        assert_eq!(out, format!("x{bar} {outer} ab   {reset} {bar}"));
    }
}

#[test]
fn frame_pieces() {
    let mut out = String::new();
    append_horizontal_border(&mut out, '╭', '╮', 5);
    assert_eq!(out, format!("{FRAME}╭───╮{RESET}"));
    let mut out = String::new();
    append_horizontal_border(&mut out, '╭', '╮', 1);
    assert_eq!(out, format!("{FRAME}╭╮{RESET}"));
    let mut out = String::new();
    append_padded(&mut out, 4, "ab");
    append_padded(&mut out, 1, "ab");
    assert_eq!(out, "ab  \nab\n");
    let frame = RowFrame { hpad: 1, cols: 7, trail: 2 };
    assert_eq!(frame.content_width(), 1);
    let mut out = String::new();
    frame.border(&mut out, '├', '┤');
    frame.wrapped(&mut out, "x", HighlightStyle::default());
    let bar = format!("{FRAME}│{RESET}");
    assert_eq!(out, format!(" {FRAME}├─────┤{RESET}  \n {bar}  x  {bar}  \n"));
}

#[test]
fn placement_in_the_pane() {
    let size = SizeCfg { cols: 60, rows: 20 };
    let place = BoxPlacement::centered(25, 81, &size);
    assert_eq!(
        place,
        BoxPlacement { rows: 20, cols: 60, hpad: 10, vpad_top: 2, outer_cols: 81 }
    );
    assert_eq!(place.vpad_bottom(25), 3);
    assert_eq!(place.vpad_bottom(4), 0);
    assert_eq!(place.row_frame().trail, 11);
    let place = BoxPlacement::centered(10, 40, &size);
    assert_eq!(
        place,
        BoxPlacement { rows: 10, cols: 40, hpad: 0, vpad_top: 0, outer_cols: 40 }
    );
    // A box beyond the pane leaves nothing to the right.
    let beyond = BoxPlacement { outer_cols: 5, ..place };
    assert_eq!(beyond.row_frame().trail, 0);
}

fn web_tab() -> TabInfo {
    TabInfo {
        position: 6,
        name: "web".to_string(),
        selectable_tiled_panes_count: 9,
        selectable_floating_panes_count: 3,
        ..TabInfo::default()
    }
}

#[test]
fn header_row_of_the_active_tab() {
    let mut out = String::new();
    render_active_row(&mut out, &web_tab(), 14);
    let gap = " ".repeat(5);
    assert_eq!(out, format!("{ACTIVE}web{RESET}{DIM}{gap}  [11]{RESET}"));
    // Too narrow for the count: the name alone, filled up.
    let mut out = String::new();
    render_active_row(&mut out, &web_tab(), 6);
    assert_eq!(out, format!("{ACTIVE}web{RESET}   "));
    // The picker's own pane is not counted, nor is there less than none.
    let mut lone = web_tab();
    lone.selectable_tiled_panes_count = 0;
    lone.selectable_floating_panes_count = 0;
    let mut out = String::new();
    render_active_row(&mut out, &lone, 10);
    assert!(out.contains("[0]"));
}

fn web_row() -> Scored {
    Scored {
        kind: MatchKind::Fuzzy(1),
        tab: Rc::new(web_tab()),
        indices: vec![1],
    }
}

#[test]
fn list_row_styles() {
    // Twenty cells: "{pos:>2} - " 5, name 9, gap 2, "[12]" 4.
    let row = |selected: bool, bell: bool, blink_on: bool| {
        let mut scored = web_row();
        let mut tab = web_tab();
        tab.has_bell_notification = bell;
        scored.tab = Rc::new(tab);
        let mut out = String::new();
        render_row(&mut out, &scored, selected, 20, 2, blink_on);
        assert_eq!(visible_len(&out), 20);
        out
    };
    let gap = " ".repeat(6);
    let dimmed =
        format!("{DIM} 7 - {RESET}w{MATCH}e{RESET}b{gap}  {DIM}[12]{RESET}");
    let in_bell = format!(" 7 - w{MATCH}e{BELL_RESTORE}b{gap}  [12]");
    let bare = format!(" 7 - web{gap}  [12]");
    assert_eq!(row(false, false, false), dimmed);
    assert_eq!(row(false, true, true), in_bell);
    assert_eq!(row(false, true, false), dimmed);
    assert_eq!(row(true, false, false), bare);
    assert_eq!(row(true, true, true), bare);
    assert_eq!(row(true, true, false), dimmed);
}

#[test]
fn narrow_list_row_shows_the_name_only() {
    let mut out = String::new();
    render_row(&mut out, &web_row(), false, 11, 2, false);
    assert_eq!(out, format!("web{}", " ".repeat(8)));
    let mut out = String::new();
    render_row(&mut out, &web_row(), false, 2, 2, false);
    assert_eq!(out, "w…");
}

#[test]
fn position_beyond_the_number_of_tabs_overruns_its_field() {
    let mut out = String::new();
    let mut scored = web_row();
    let mut tab = web_tab();
    tab.position = 99;
    scored.tab = Rc::new(tab);
    render_row(&mut out, &scored, true, 20, 1, false);
    assert_eq!(visible_len(&out), 22);
}

#[test]
fn prompt_shows_the_end_of_the_query() {
    let mut state = state_with_tabs(&[]);
    let mut content = String::from("old");
    state.query = "hello".to_string();
    state.build_prompt(&mut content, 6);
    assert_eq!(content, format!("{PROMPT}❯{RESET} llo{REVERSE} {RESET}"));
    state.build_prompt(&mut content, 2);
    assert_eq!(content, format!("{PROMPT}❯{RESET} {REVERSE} {RESET}"));
}

#[test]
fn numbers_beyond_the_machine_are_not_drawable() {
    let row = |tab: TabInfo| Scored {
        tab: Rc::new(tab),
        kind: MatchKind::Listed,
        indices: Vec::new(),
    };
    let mut state = state_with_tabs(&["main", "web"]);
    state.ready = true;
    state.scored = (0..30).map(|_| row(web_tab())).collect();
    assert!(state.can_be_drawn(20, 60));
    // A row's number of panes, if the row is shown.
    let mut tab = web_tab();
    tab.selectable_tiled_panes_count = usize::MAX;
    state.scored[13] = row(tab.clone());
    assert!(!state.can_be_drawn(20, 60)); // rows 0 to 13
    assert!(state.can_be_drawn(19, 60)); // rows 0 to 12
    assert!(state.can_be_drawn(3, 60) && state.can_be_drawn(20, 19)); // blank
    state.selected = 28;
    assert!(state.can_be_drawn(20, 60)); // rows 15 to 28
    assert_eq!(state.render(20, 60).lines().count(), 20);
    state.selected = 0;
    // A row's position, if the row has room for it.
    let mut far = web_tab();
    far.position = usize::MAX;
    state.scored[13] = row(far.clone());
    assert!(!state.can_be_drawn(20, 60));
    assert!(!state.can_be_drawn(20, 20));
    far.selectable_tiled_panes_count = 123_456_789;
    state.scored[13] = row(far.clone());
    assert!(!state.can_be_drawn(20, 60));
    assert!(state.can_be_drawn(20, 20)); // only the name is shown
    state.scroll_offset = 0;
    assert!(state.render(20, 20).contains("web"));
    // The header's number of panes, if there is a header; its position is
    // never shown.
    state.scored.truncate(5);
    far.selectable_tiled_panes_count = 1;
    far.active = true;
    state.tabs[0].info = Rc::new(far);
    assert!(state.can_be_drawn(20, 60));
    tab.active = true;
    state.tabs[0].info = Rc::new(tab);
    assert!(!state.can_be_drawn(20, 60));
    assert!(!state.can_be_drawn(6, 60));
    assert!(state.can_be_drawn(5, 60));
    // Nothing is shown before the picker is ready.
    state.ready = false;
    assert!(state.can_be_drawn(20, 60));
}
