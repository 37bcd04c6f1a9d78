//! What keys, clicks and timeouts do, as the user sees it.
use crate::events::{BareKey, Direction, Event, HostCall, Key, Mouse};
use crate::fuzzy::MAX_QUERY_CHARS;
use crate::model::{
    first_where, is_active, is_own_pane, lemma_first_where, lemma_nowhere, own_pane, StateModel,
    Visibility,
};
use crate::search::{access_count, results};
use crate::state_laws::is_settled;
use crate::tabs::{PaneInfo, PaneManifest, TabModel};
use crate::text::{decimal, is_control, is_digit, is_jump_buffer, law_decimal_round_trip, parsed};
use crate::timer_laws::{is_orderly, law_armed_timer_has_its_place};
use crate::timers::{TimerKind, BLINK_INTERVAL, JUMP_TIMEOUT};
use vstd::prelude::*;

verus! {

/// A char typed without modifiers.
pub open spec fn typed(c: char) -> Key {
    Key { bare_key: BareKey::Char(c), has_ctrl: false, has_alt: false }
}

/// Until the picker is ready, keys, clicks and pane updates change nothing
/// and ask for no render.
pub proof fn law_nothing_happens_before_ready(model: StateModel, event: Event)
    requires
        !model.ready,
        event is Key || event is Mouse || event is PaneUpdate,
    ensures
        model.updated(event) == (model, false),
{
}

/// Esc, Ctrl-c and Ctrl-g close the picker and switch to no tab.
pub proof fn law_close_keys_switch_nowhere(model: StateModel, key: Key)
    requires
        key.bare_key is Esc || (key.has_ctrl && (key.bare_key == BareKey::Char('c')
            || key.bare_key == BareKey::Char('g'))),
    ensures
        model.key_handled(key) == (model.hidden(), true),
        model.hidden().calls == model.calls.push(HostCall::HideSelf),
        model.hidden().access_counts == model.access_counts,
{
}

/// A closed picker starts over: nothing typed, the first row selected, every
/// tab listed in order of use, invisible; tabs and counts persist.
pub proof fn law_closing_starts_over(model: StateModel)
    ensures
        model.hidden().query.len() == 0,
        model.hidden().selected == 0,
        model.hidden().scroll_offset == 0,
        model.hidden().scored == results(seq![], model.tabs, model.access_counts),
        !model.hidden().vis.visible,
        !model.hidden().vis.pane_focused,
        model.hidden().tabs == model.tabs,
        model.hidden().access_counts == model.access_counts,
        model.hidden().timers.pending == model.timers.pending,
{
}

/// Enter on a row switches to its tab, counts the jump for that tab alone,
/// and closes the picker.
pub proof fn law_enter_switches_to_the_selection(model: StateModel, key: Key, tab: TabModel)
    requires
        key.bare_key is Enter,
        model.selected < model.scored.len(),
        tab == model.scored[model.selected as int].tab,
        tab.position < u32::MAX,
        access_count(model.access_counts, tab.tab_id) < u64::MAX,
    ensures
        ({
            let after = model.key_handled(key).0;
            &&& after.calls == model.calls.push(
                HostCall::SwitchTab((tab.position + 1) as u32),
            ).push(HostCall::HideSelf)
            &&& access_count(after.access_counts, tab.tab_id) == access_count(
                model.access_counts,
                tab.tab_id,
            ) + 1
            &&& forall|id: usize|
                id != tab.tab_id ==> #[trigger] access_count(after.access_counts, id)
                    == access_count(model.access_counts, id)
            &&& after.query.len() == 0
            &&& !after.vis.visible
        }),
{
}

/// The second click on a row jumps: the first one selects the row and does
/// nothing else; the same click again switches to the row's tab, counts the
/// jump for it, and closes the picker.
pub proof fn law_second_click_jumps(model: StateModel, line: isize, column: usize, row: int)
    requires
        model.row_at(line as int, column as int) == Some(row),
        row != model.selected,
        model.scored.len() <= usize::MAX,
        model.scored[row].tab.position < u32::MAX,
        access_count(model.access_counts, model.scored[row].tab.tab_id) < u64::MAX,
    ensures
        ({
            let click = Mouse::LeftClick(line, column);
            let tab = model.scored[row].tab;
            let (first, first_render) = model.mouse_handled(click);
            let (second, second_render) = first.mouse_handled(click);
            &&& first_render && second_render
            &&& first == (StateModel { selected: row as usize, ..model })
            &&& second.calls == model.calls.push(
                HostCall::SwitchTab((tab.position + 1) as u32),
            ).push(HostCall::HideSelf)
            &&& second.query.len() == 0
            &&& !second.vis.visible
            &&& access_count(second.access_counts, tab.tab_id) == access_count(
                model.access_counts,
                tab.tab_id,
            ) + 1
        }),
{
    let first = StateModel { selected: row as usize, ..model };
    assert(first.row_at(line as int, column as int) == Some(row));
}

/// A click on the selected row is Enter; a click on another row selects it.
pub proof fn law_click_selects_then_confirms(model: StateModel, line: isize, column: usize)
    requires
        model.row_at(line as int, column as int) is Some,
        model.scored.len() <= usize::MAX,
    ensures
        ({
            let row = model.row_at(line as int, column as int)->0;
            let click = Mouse::LeftClick(line, column);
            let enter = Key { bare_key: BareKey::Enter, has_ctrl: false, has_alt: false };
            let selected = StateModel { selected: row as usize, ..model };
            &&& row != model.selected ==> model.mouse_handled(click) == (selected, true)
            &&& row == model.selected ==> model.mouse_handled(click) == model.key_handled(enter)
            &&& selected.mouse_handled(click) == selected.key_handled(enter)
        }),
{
    let row = model.row_at(line as int, column as int)->0;
    let selected = StateModel { selected: row as usize, ..model };
    assert(selected.row_at(line as int, column as int) == Some(row));
}

/// The keyboard moves the selection around the list: down and up undo each
/// other, the last row is followed by the first, and the first preceded by
/// the last.
pub proof fn law_keyboard_moves_wrap(model: StateModel)
    requires
        model.selected < model.scored.len(),
        model.scored.len() <= usize::MAX,
    ensures
        model.selection_moved(Direction::Down).selection_moved(Direction::Up) == model,
        model.selection_moved(Direction::Up).selection_moved(Direction::Down) == model,
        model.selected + 1 < model.scored.len() ==> model.selection_moved(
            Direction::Down,
        ).selected == model.selected + 1,
        model.selected + 1 == model.scored.len() ==> model.selection_moved(
            Direction::Down,
        ).selected == 0,
        model.selected == 0 ==> model.selection_moved(Direction::Up).selected
            == model.scored.len() - 1,
{
    let len = model.scored.len() as int;
    let down = model.selection_moved(Direction::Down);
    let up = model.selection_moved(Direction::Up);
    assert(0 <= (model.selected + 1) % len < len);
    if model.selected + 1 == len {
        assert((model.selected + 1) % len == 0) by (nonlinear_arith)
            requires
                model.selected + 1 == len,
                len > 0,
        ;
    } else {
        assert((model.selected + 1) % len == model.selected + 1) by (nonlinear_arith)
            requires
                0 <= model.selected + 1 < len,
        ;
    }
    assert(down.selection_moved(Direction::Up) =~= model);
    if model.selected == 0 {
        assert(len % len == 0) by (nonlinear_arith)
            requires
                len > 0,
        ;
    } else {
        let s = model.selected as int;
        assert(s % len == s) by (nonlinear_arith)
            requires
                0 <= s < len,
        ;
    }
    assert(up.selection_moved(Direction::Down) =~= model);
}

/// The key moves the selection up.
pub open spec fn is_up_key(key: Key) -> bool {
    key.bare_key is Up || (key.has_ctrl && (key.bare_key == BareKey::Char('p') || key.bare_key
        == BareKey::Char('k')))
}

/// The key moves the selection down.
pub open spec fn is_down_key(key: Key) -> bool {
    key.bare_key is Down || key.bare_key is Tab || (key.has_ctrl && (key.bare_key == BareKey::Char(
        'n',
    ) || key.bare_key == BareKey::Char('j')))
}

/// Up, Ctrl-p and Ctrl-k are one key, and so are Down, Tab, Ctrl-n and
/// Ctrl-j: they move the selection around the list by one row, change nothing
/// else, count no jump and ask for a render.
pub proof fn law_move_keys_agree(model: StateModel, key: Key)
    requires
        model.selected < model.scored.len(),
        model.scored.len() <= usize::MAX,
        is_up_key(key) || is_down_key(key),
    ensures
        ({
            let len = model.scored.len() as int;
            let selected = if is_up_key(key) {
                (model.selected + len - 1) % len
            } else {
                (model.selected + 1) % len
            };
            &&& 0 <= selected < len
            &&& model.key_handled(key) == (
                StateModel { selected: selected as usize, ..model },
                true,
            )
            &&& model.accepts_key(key)
        }),
{
    let len = model.scored.len() as int;
    let s = model.selected as int;
    assert(0 <= (s + 1) % len < len);
    if s == 0 {
        assert((s + len - 1) % len == len - 1) by (nonlinear_arith)
            requires
                s == 0,
                len > 0,
        ;
    } else {
        assert((s + len - 1) % len == s - 1) by (nonlinear_arith)
            requires
                0 < s < len,
        ;
    }
}

/// The wheel stops at both ends, moves at most as far as asked, and says
/// whether it moved.
pub proof fn law_wheel_stops_at_the_ends(model: StateModel, dir: Direction, count: usize)
    requires
        model.selected < model.scored.len(),
        model.scored.len() <= usize::MAX,
    ensures
        ({
            let (after, moved) = model.selection_moved_by(dir, count);
            &&& after == (StateModel { selected: after.selected, ..model })
            &&& after.selected < model.scored.len()
            &&& moved == (after.selected != model.selected)
            &&& dir is Up ==> model.selected - count <= after.selected <= model.selected
            &&& dir is Down ==> model.selected <= after.selected <= model.selected + count
            &&& dir is Up && !moved ==> model.selected == 0 || count == 0
            &&& dir is Down && !moved ==> model.selected + 1 == model.scored.len() || count == 0
        }),
{
}

proof fn lemma_leading_digit(n: nat)
    requires
        n > 0,
    ensures
        decimal(n).len() > 0,
        is_digit(decimal(n)[0]),
        decimal(n)[0] != '0',
    decreases n,
{
    if n >= 10 {
        lemma_leading_digit(n / 10);
        assert(decimal(n)[0] == decimal(n / 10)[0]);
    }
}

proof fn lemma_position_parses(position: u32)
    requires
        position > 0,
    ensures
        parsed(decimal(position as nat), u32::MAX as nat) == Some(position as nat),
        is_jump_buffer(decimal(position as nat)),
{
    law_decimal_round_trip(position as nat);
    lemma_leading_digit(position as nat);
}

/// The last digit of a position is a digit of the quickjump buffer that the
/// digits before it make.
proof fn lemma_last_digit_is_pending(model: StateModel, position: u32)
    requires
        position > 0,
        decimal(position as nat).len() <= model.position_digits(),
        model.query == decimal(position as nat).drop_last(),
    ensures
        is_digit(decimal(position as nat).last()),
        model.jump_pending_for(decimal(position as nat).last()),
        model.query.push(decimal(position as nat).last()) == decimal(position as nat),
{
    let digits = decimal(position as nat);
    law_decimal_round_trip(position as nat);
    lemma_leading_digit(position as nat);
    assert(digits.drop_last().push(digits.last()) =~= digits);
    assert(is_digit(digits[digits.len() - 1]));
    if model.query.len() == 0 {
        assert(digits.last() == digits[0]);
    } else {
        assert(model.query[0] == digits[0]);
        assert forall|i: int| 0 <= i < model.query.len() implies is_digit(
            #[trigger] model.query[i],
        ) by {
            assert(model.query[i] == digits[i]);
        }
    }
}

/// The last digit of the longest position jumps at once: with fewer than ten
/// tabs a single digit does.
pub proof fn law_full_position_jumps_at_once(model: StateModel, position: u32)
    requires
        position > 0,
        decimal(position as nat).len() == model.position_digits(),
        model.tab_at(position) is Some,
        model.query == decimal(position as nat).drop_last(),
    ensures
        model.key_handled(typed(decimal(position as nat).last())) == (
            model.instantly_jumped(position),
            true,
        ),
{
    lemma_last_digit_is_pending(model, position);
    lemma_position_parses(position);
}

/// A position of one digit less waits for the timeout, and jumps then if
/// nothing else was typed and the picker is still shown.
pub proof fn law_shorter_position_jumps_on_timeout(model: StateModel, position: u32)
    requires
        position > 0,
        decimal(position as nat).len() + 1 == model.position_digits(),
        model.tab_at(position) is Some,
        model.query == decimal(position as nat).drop_last(),
        model.ready,
        model.vis.visible,
        is_orderly(model.timers),
    ensures
        ({
            let (waiting, render) = model.key_handled(typed(decimal(position as nat).last()));
            let generation = waiting.timers.jump_generation;
            &&& render
            &&& waiting.query == decimal(position as nat)
            &&& waiting.calls == model.calls.push(HostCall::SetTimeout(JUMP_TIMEOUT))
            &&& waiting.timers.pending.last() == (TimerKind::Jump { generation }, JUMP_TIMEOUT)
            &&& waiting.jump_timed_out(generation) == (waiting.instantly_jumped(position), true)
        }),
{
    lemma_last_digit_is_pending(model, position);
    lemma_position_parses(position);
    let fresh = model.timers.with_new_generation();
    assert(fresh.pending == model.timers.pending);
    let generation = fresh.jump_generation;
    law_armed_timer_has_its_place(fresh, TimerKind::Jump { generation }, JUMP_TIMEOUT);
    let waiting = model.key_handled(typed(decimal(position as nat).last())).0;
    assert(waiting.tab_at(position) == model.tab_at(position));
}

/// A jump switches to the tab at the position, unless that is the active one,
/// and closes the picker either way.
pub proof fn law_instant_jump(model: StateModel, position: u32, tab: TabModel)
    requires
        model.tab_at(position) == Some(tab),
    ensures
        ({
            let after = model.instantly_jumped(position);
            &&& !tab.active ==> after.calls == model.calls.push(
                HostCall::SwitchTab(position),
            ).push(HostCall::HideSelf)
            &&& tab.active ==> after.calls == model.calls.push(HostCall::HideSelf)
            &&& tab.active ==> after.access_counts == model.access_counts
            &&& after.query.len() == 0
            &&& !after.vis.visible
        }),
{
}

/// A superseded quickjump timeout does nothing.
pub proof fn law_superseded_timeout_is_void(model: StateModel, generation: u32)
    requires
        generation != model.timers.jump_generation,
    ensures
        model.jump_timed_out(generation) == (model, false),
{
}

/// Closing the picker voids the quickjump that was pending: its timeout does
/// nothing then, nor after the picker was opened again and until a new
/// quickjump is begun.
pub proof fn law_closing_voids_the_quickjump(model: StateModel, later: StateModel)
    requires
        later.timers.jump_generation == model.hidden().timers.jump_generation,
    ensures
        later.jump_timed_out(model.timers.jump_generation) == (later, false),
{
}

/// A char that is typed into the query is undone by Backspace.
pub proof fn law_backspace_undoes_typing(model: StateModel, c: char)
    requires
        !(is_digit(c) && model.jump_pending_for(c)),
        !is_control(c),
        model.query.len() < MAX_QUERY_CHARS,
    ensures
        ({
            let backspace = Key { bare_key: BareKey::Backspace, has_ctrl: false, has_alt: false };
            let (after, render) = model.key_handled(typed(c));
            &&& render
            &&& after.query == model.query.push(c)
            &&& after.selected == 0
            &&& after.key_handled(backspace) == (model.query_changed(model.query), true)
            &&& model.query_changed(model.query).query == model.query
            &&& model.query_changed(model.query).selected == 0
            &&& model.query_changed(model.query).scroll_offset == 0
        }),
{
    let backspace = Key { bare_key: BareKey::Backspace, has_ctrl: false, has_alt: false };
    let after = model.key_handled(typed(c)).0;
    assert(model.query.push(c).drop_last() =~= model.query);
    assert(after.key_handled(backspace).0 =~= model.query_changed(model.query));
}

/// Control chars are ignored, and so is everything typed into a full query.
pub proof fn law_query_takes_no_more(model: StateModel, c: char)
    requires
        is_control(c) || (model.query.len() >= MAX_QUERY_CHARS && !(is_digit(c)
            && model.jump_pending_for(c))),
    ensures
        model.key_handled(typed(c)) == (model, false),
{
}

/// Chars typed with Alt, and with Ctrl but for its commands, are ignored.
pub proof fn law_other_modified_chars_are_ignored(model: StateModel, c: char, ctrl: bool)
    requires
        ctrl ==> !(seq!['c', 'g', 'p', 'k', 'n', 'j', 'w', 'u'].contains(c)),
    ensures
        model.key_handled(Key { bare_key: BareKey::Char(c), has_ctrl: ctrl, has_alt: true }) == (
            model,
            false,
        ),
{
    let commands = seq!['c', 'g', 'p', 'k', 'n', 'j', 'w', 'u'];
    assert(commands[0] == 'c' && commands[1] == 'g' && commands[2] == 'p' && commands[3] == 'k');
    assert(commands[4] == 'n' && commands[5] == 'j' && commands[6] == 'w' && commands[7] == 'u');
}

/// A repeated tab update changes nothing and asks for no render.
pub proof fn law_repeated_tab_update_changes_nothing(model: StateModel, tabs: Seq<TabModel>)
    requires
        is_settled(model),
    ensures
        model.tabs_updated(tabs).0.tabs_updated(tabs) == (model.tabs_updated(tabs).0, false),
{
    let once = model.tabs_updated(tabs).0;
    crate::state_laws::lemma_tab_update_settles(model, tabs);
    assert(once.tabs_received && once.tabs == tabs);
    let float_visible = match first_where(tabs, is_active()) {
        Some(tab) => tab.are_floating_panes_visible,
        None => false,
    };
    let seen = StateModel {
        vis: Visibility { host_visible: None, float_visible, ..once.vis },
        ..once
    };
    assert(once.vis.host_visible is None && once.vis.float_visible == float_visible);
    assert(seen =~= once);
    assert(once.visibility_recomputed() =~= once);
    assert(once.blink_started() =~= once);
}

/// The host's veto hides the picker until the next tab update or pane update,
/// either of which lifts it.
pub proof fn law_veto_lasts_until_the_next_update(
    model: StateModel,
    tabs: Seq<TabModel>,
    manifest: PaneManifest,
)
    requires
        is_settled(model),
    ensures
        !model.shown(false).0.vis.visible,
        ({
            let after = model.shown(false).0.tabs_updated(tabs).0;
            &&& after.vis.host_visible is None
            &&& after.vis.visible == (after.vis.pane_focused && after.vis.float_visible)
            &&& after.vis.pane_focused == model.vis.pane_focused
        }),
        model.ready ==> {
            let after = model.shown(false).0.panes_updated(manifest).0;
            &&& after.vis.host_visible is None
            &&& after.vis.visible == (after.vis.pane_focused && after.vis.float_visible)
            &&& after.vis.float_visible == model.vis.float_visible
            &&& after.vis.pane_focused == match own_pane(manifest.panes@, model.plugin_id) {
                Some((_, pane)) => pane.is_floating && !pane.is_suppressed && pane.is_focused,
                None => false,
            }
        },
{
}

/// The picker finds its own pane whatever the order in which the host hands
/// out the tabs: if the id is that of one pane only, that pane is found.
pub proof fn law_own_pane_is_found_in_any_order(
    tabs: Seq<(usize, Vec<PaneInfo>)>,
    plugin_id: u32,
    i: int,
    j: int,
)
    requires
        0 <= i < tabs.len(),
        0 <= j < tabs[i].1@.len(),
        is_own_pane(plugin_id)(tabs[i].1@[j]),
        forall|k: int, l: int|
            0 <= k < tabs.len() && 0 <= l < tabs[k].1@.len() && is_own_pane(plugin_id)(
                #[trigger] tabs[k].1@[l],
            ) ==> k == i && l == j,
    ensures
        own_pane(tabs, plugin_id) == Some((tabs[i].0, tabs[i].1@[j])),
    decreases i,
{
    let wanted = is_own_pane(plugin_id);
    if i == 0 {
        lemma_first_where(tabs[0].1@, wanted, j);
    } else {
        assert forall|l: int| 0 <= l < tabs[0].1@.len() implies !wanted(
            #[trigger] tabs[0].1@[l],
        ) by {
            if wanted(tabs[0].1@[l]) {
                assert(0 == i);
            }
        }
        lemma_nowhere(tabs[0].1@, wanted);
        let rest = tabs.drop_first();
        assert forall|k: int, l: int|
            0 <= k < rest.len() && 0 <= l < rest[k].1@.len() && wanted(
                #[trigger] rest[k].1@[l],
            ) implies k == i - 1 && l == j by {
            assert(rest[k] == tabs[k + 1]);
            assert(wanted(tabs[k + 1].1@[l]));
        }
        law_own_pane_is_found_in_any_order(rest, plugin_id, i - 1, j);
    }
}

/// On every reopen the picker asks for its size and for no border again: a
/// closed picker does so when it learns that its floating pane is focused.
pub proof fn law_reopening_resizes_the_pane(
    model: StateModel,
    manifest: PaneManifest,
    tab_position: usize,
    pane: PaneInfo,
)
    requires
        model.ready,
        own_pane(manifest.panes@, model.plugin_id) == Some((tab_position, pane)),
        pane.is_floating && pane.is_focused && !pane.is_suppressed,
    ensures
        ({
            let closed = model.hidden();
            let after = closed.panes_updated(manifest).0;
            &&& after.calls == closed.calls.push(
                HostCall::ResizePane {
                    plugin_id: model.plugin_id,
                    cols: model.size.cols,
                    rows: model.size.rows,
                },
            ).push(HostCall::SetBorderless { plugin_id: model.plugin_id })
            &&& after.vis.pane_focused
        }),
{
}

/// On target a pane is left alone; larger than the target in any dimension it
/// is always sized again.
pub proof fn law_pane_geometry(model: StateModel, tab_position: usize, cols: usize, rows: usize)
    ensures
        !model.wants_resize(tab_position, model.size.cols, model.size.rows),
        cols > model.size.cols || rows > model.size.rows ==> model.wants_resize(
            tab_position,
            cols,
            rows,
        ),
{
}

/// The blink tick toggles the bell background while the bell is to be seen,
/// and ends in the dark otherwise.
pub proof fn law_blink_toggles_or_ends(model: StateModel)
    ensures
        model.vis.visible && model.has_bell_tab() ==> {
            let (after, render) = model.blinked();
            &&& render
            &&& after.timers.bell_blink_on == !model.timers.bell_blink_on
            &&& after.calls == model.calls.push(HostCall::SetTimeout(BLINK_INTERVAL))
        },
        !(model.vis.visible && model.has_bell_tab()) ==> {
            let (after, render) = model.blinked();
            &&& !render
            &&& !after.timers.bell_blink_on
            &&& after.calls == model.calls
            &&& after.timers.pending == model.timers.pending
        },
{
}

} // verus!
