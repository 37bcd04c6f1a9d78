//! What each event does, field by field.
use crate::events::{BareKey, Direction, Event, HostCall, Key, Mouse};
use crate::key_laws::{is_down_key, is_up_key, law_move_keys_agree, typed};
use crate::fuzzy::{is_name_len, nucleo_takes, own_folding};
use crate::layout::SizeCfg;
use crate::model::{
    first_where, infos, is_active, is_live, is_own_pane, lemma_first_where, lemma_nowhere, own_pane,
    StateModel, Visibility,
};
use crate::search::{can_search, results};
use crate::search_laws::law_ordinary_pairs_are_taken;
use crate::state_laws::{law_word_deletion, lemma_last_word};
use crate::tabs::{PaneInfo, PaneManifest, TabInfo, TabModel};
use crate::text::{all_digits, decimal_value, is_digit, is_space, law_decimal_len};
use crate::timers::{TimerKind, TimersModel};
use vstd::arithmetic::power::pow;
use vstd::prelude::*;

verus! {

/// The list starts over with this query, and nothing else changes.
pub open spec fn searched(model: StateModel, query: Seq<char>) -> StateModel {
    StateModel {
        query,
        selected: 0,
        scroll_offset: 0,
        scored: results(query, model.tabs, model.access_counts),
        ..model
    }
}

/// The picker is closed: with these counts, after these calls, nothing typed,
/// every tab listed, the first row selected, invisible, not blinking, and with
/// the pending quickjump void. Tabs, size and timers in flight stay.
pub open spec fn closed(
    model: StateModel,
    counts: Map<usize, u64>,
    calls: Seq<HostCall>,
) -> StateModel {
    StateModel {
        query: seq![],
        selected: 0,
        scroll_offset: 0,
        scored: results(seq![], model.tabs, counts),
        vis: Visibility {
            visible: false,
            pane_focused: false,
            float_visible: false,
            host_visible: None,
        },
        timers: TimersModel {
            bell_blink_on: false,
            pending: model.timers.pending,
            jump_generation: if model.timers.jump_generation == 0xffff_ffff {
                0
            } else {
                (model.timers.jump_generation + 1) as u32
            },
        },
        access_counts: counts,
        calls,
        ..model
    }
}

/// The picker is closed after a switch to a tab, whose count goes up by one.
pub open spec fn switched_to(model: StateModel, tab: TabModel) -> StateModel {
    let used: int = if model.access_counts.contains_key(tab.tab_id) {
        model.access_counts[tab.tab_id] as int
    } else {
        0
    };
    closed(
        model,
        model.access_counts.insert(tab.tab_id, (used + 1) as u64),
        model.calls.push(HostCall::SwitchTab((tab.position + 1) as u32)).push(HostCall::HideSelf),
    )
}

/// The selected row was confirmed: the picker switches to its tab, if there is
/// one that the host can number, and closes in any case.
pub open spec fn confirmed(model: StateModel) -> StateModel {
    if model.selected < model.scored.len() && model.scored[model.selected as int].tab.position
        < 0xffff_ffff {
        switched_to(model, model.scored[model.selected as int].tab)
    } else {
        closed(model, model.access_counts, model.calls.push(HostCall::HideSelf))
    }
}

/// A fresh picker knows no tabs, has nothing typed, and waits for its
/// permissions, 60 columns by 20 rows large.
pub proof fn law_fresh_picker()
    ensures
        ({
            let model = StateModel::initial();
            &&& model.tabs.len() == 0 && !model.tabs_received
            &&& model.query.len() == 0
            &&& model.selected == 0 && model.scroll_offset == 0
            &&& model.scored.len() == 0
            &&& model.size == (SizeCfg { cols: 60, rows: 20 })
            &&& !model.ready
            &&& model.plugin_id == 0
            &&& model.timers.pending.len() == 0 && !model.timers.bell_blink_on
            &&& model.timers.jump_generation == 0
            &&& !model.vis.visible && !model.vis.pane_focused && !model.vis.float_visible
            &&& model.vis.host_visible is None
            &&& model.list_area is None
            &&& forall|id: usize| !#[trigger] model.access_counts.contains_key(id)
            &&& model.calls.len() == 0
        }),
{
}

/// Keys and mouse events count once the picker is ready; the other events
/// always do.
pub proof fn law_events_reach_their_handlers(
    model: StateModel,
    key: Key,
    mouse: Mouse,
    elapsed: u64,
    shown: bool,
    tabs: Vec<TabInfo>,
    manifest: PaneManifest,
)
    ensures
        model.updated(Event::Key(key)) == if model.ready {
            model.key_handled(key)
        } else {
            (model, false)
        },
        model.updated(Event::Mouse(mouse)) == if model.ready {
            model.mouse_handled(mouse)
        } else {
            (model, false)
        },
        model.updated(Event::PaneUpdate(manifest)) == if model.ready {
            model.panes_updated(manifest)
        } else {
            (model, false)
        },
        model.updated(Event::Timer(elapsed)) == model.timer_fired(elapsed),
        model.updated(Event::Visible(shown)) == model.shown(shown),
        model.updated(Event::TabUpdate(tabs)) == model.tabs_updated(
            Seq::new(tabs@.len(), |i: int| tabs@[i]@),
        ),
        model.updated(Event::Other) == (model, false),
{
    assert(infos(tabs@) =~= Seq::new(tabs@.len(), |i: int| tabs@[i]@));
}

/// With its permissions the picker is ready and asks for its size and for no
/// border; without them it closes for good.
pub proof fn law_permissions(model: StateModel, plugin_id: u32)
    ensures
        model.updated(Event::PermissionGranted { plugin_id }) == (
            StateModel {
                ready: true,
                plugin_id,
                calls: model.calls + seq![
                    HostCall::ResizePane {
                        plugin_id,
                        cols: model.size.cols,
                        rows: model.size.rows,
                    },
                    HostCall::SetBorderless { plugin_id },
                ],
                ..model
            },
            true,
        ),
        model.updated(Event::PermissionDenied) == (
            StateModel { calls: model.calls + seq![HostCall::CloseSelf], ..model },
            false,
        ),
{
    assert(model.updated(Event::PermissionGranted { plugin_id }).0.calls =~= model.calls + seq![
        HostCall::ResizePane { plugin_id, cols: model.size.cols, rows: model.size.rows },
        HostCall::SetBorderless { plugin_id },
    ]);
    assert(model.updated(Event::PermissionDenied).0.calls =~= model.calls + seq![
        HostCall::CloseSelf,
    ]);
}

/// A closed picker is the same, however it was closed.
proof fn lemma_hidden(model: StateModel)
    ensures
        model.hidden() == closed(
            model,
            model.access_counts,
            model.calls.push(HostCall::HideSelf),
        ),
{
    assert(model.hidden() =~= closed(
        model,
        model.access_counts,
        model.calls.push(HostCall::HideSelf),
    ));
}

proof fn lemma_switched(model: StateModel, tab: TabModel)
    requires
        tab.position < 0xffff_ffff,
    ensures
        model.switched((tab.position + 1) as u32, tab.tab_id) == switched_to(model, tab),
{
    let recorded = model.called(HostCall::SwitchTab((tab.position + 1) as u32)).access_recorded(
        tab.tab_id,
    );
    lemma_hidden(recorded);
    assert(recorded.hidden() =~= switched_to(model, tab));
}

/// Esc, Ctrl-c and Ctrl-g close the picker without a switch; Enter confirms the
/// selected row. All ask for one more render.
pub proof fn law_closing_keys(model: StateModel, key: Key)
    ensures
        key.bare_key is Esc || (key.has_ctrl && (key.bare_key == BareKey::Char('c') || key.bare_key
            == BareKey::Char('g'))) ==> model.key_handled(key) == (
            closed(model, model.access_counts, model.calls.push(HostCall::HideSelf)),
            true,
        ),
        key.bare_key is Enter ==> model.key_handled(key) == (confirmed(model), true),
{
    lemma_hidden(model);
    lemma_confirmed(model);
}

proof fn lemma_confirmed(model: StateModel)
    ensures
        model.jumped_to_selected() == confirmed(model),
{
    lemma_hidden(model);
    if model.selected < model.scored.len() && model.scored[model.selected as int].tab.position
        < 0xffff_ffff {
        lemma_switched(model, model.scored[model.selected as int].tab);
    }
}

/// Ctrl-u clears the query, whatever it is.
pub proof fn law_ctrl_u_clears_the_query(model: StateModel, key: Key)
    requires
        key.has_ctrl && key.bare_key == BareKey::Char('u'),
    ensures
        model.key_handled(key) == (searched(model, seq![]), true),
{
    assert(model.key_handled(key).0 =~= searched(model, seq![]));
}

/// Backspace deletes the last char of the query, if there is one.
pub proof fn law_backspace_deletes_one_char(model: StateModel, key: Key)
    requires
        key.bare_key is Backspace,
    ensures
        model.query.len() == 0 ==> model.key_handled(key) == (searched(model, seq![]), true),
        model.query.len() > 0 ==> model.key_handled(key) == (
            searched(model, model.query.take(model.query.len() - 1)),
            true,
        ),
{
    if model.query.len() == 0 {
        assert(model.query =~= seq![]);
        assert(model.key_handled(key).0 =~= searched(model, seq![]));
    } else {
        assert(model.query.drop_last() =~= model.query.take(model.query.len() - 1));
        assert(model.key_handled(key).0 =~= searched(
            model,
            model.query.take(model.query.len() - 1),
        ));
    }
}

/// A char with the Unicode property `White_Space`.
pub open spec fn is_blank(c: char) -> bool {
    let code = c as u32;
    0x9 <= code <= 0xd || 0x2000 <= code <= 0x200a || seq![
        0x20u32,
        0x85,
        0xa0,
        0x1680,
        0x2028,
        0x2029,
        0x202f,
        0x205f,
        0x3000,
    ].contains(code)
}

proof fn lemma_blank(c: char)
    ensures
        is_blank(c) == is_space(c),
{
    let codes = seq![0x20u32, 0x85, 0xa0, 0x1680, 0x2028, 0x2029, 0x202f, 0x205f, 0x3000];
    assert(codes[0] == 0x20 && codes[1] == 0x85 && codes[2] == 0xa0 && codes[3] == 0x1680);
    assert(codes[4] == 0x2028 && codes[5] == 0x2029 && codes[6] == 0x202f && codes[7] == 0x205f);
    assert(codes[8] == 0x3000);
}

/// Ctrl-w deletes the last word of the query and the whitespace behind it: what
/// is kept ends with whitespace or is empty, and only a query of nothing but
/// whitespace loses no word.
pub proof fn law_ctrl_w_deletes_the_last_word(model: StateModel, key: Key) -> (word: (int, int))
    requires
        key.has_ctrl && key.bare_key == BareKey::Char('w'),
    ensures
        ({
            let (start, end) = word;
            let query = model.query;
            &&& 0 <= start <= end <= query.len()
            &&& forall|i: int| start <= i < end ==> !is_blank(#[trigger] query[i])
            &&& forall|i: int| end <= i < query.len() ==> is_blank(#[trigger] query[i])
            &&& start > 0 ==> is_blank(query[start - 1])
            &&& start == end ==> start == 0
            &&& model.key_handled(key) == (searched(model, query.take(start)), true)
        }),
{
    let query = model.query;
    law_word_deletion(query);
    let left = crate::model::without_last_word(query);
    let start = left.len() as int;
    let end = lemma_last_word(query);
    assert forall|i: int| 0 <= i < query.len() implies is_blank(#[trigger] query[i]) == is_space(
        query[i],
    ) by {
        lemma_blank(query[i]);
    }
    assert(model.key_handled(key).0 =~= searched(model, query.take(start)));
    if start > 0 {
        assert(left.last() == query[start - 1]);
    }
    (start, end)
}

/// A char that is no control char is typed at the end of the query, unless that
/// has 128 chars already or the char is a digit of a quickjump.
pub proof fn law_typing_appends_a_char(model: StateModel, c: char)
    requires
        !(0x30 <= (c as u32) <= 0x39),
    ensures
        (c as u32) < 0x20 || 0x7f <= (c as u32) < 0xa0 || model.query.len() >= 128
            ==> model.key_handled(typed(c)) == (model, false),
        !((c as u32) < 0x20 || 0x7f <= (c as u32) < 0xa0) && model.query.len() < 128
            ==> model.key_handled(typed(c)) == (searched(model, model.query + seq![c]), true),
{
    assert(model.query.push(c) =~= model.query + seq![c]);
    if !((c as u32) < 0x20 || 0x7f <= (c as u32) < 0xa0) && model.query.len() < 128 {
        assert(model.key_handled(typed(c)).0 =~= searched(model, model.query + seq![c]));
    }
}

/// Keys without a meaning change nothing and ask for no render: chars with Alt,
/// chars with Ctrl that are no command, and all keys but those of the picker.
pub proof fn law_other_keys_are_ignored(model: StateModel, key: Key)
    requires
        match key.bare_key {
            BareKey::Other => true,
            BareKey::Char(c) => if key.has_ctrl {
                !seq!['c', 'g', 'p', 'k', 'n', 'j', 'w', 'u'].contains(c)
            } else {
                key.has_alt
            },
            _ => false,
        },
    ensures
        model.key_handled(key) == (model, false),
{
    let commands = seq!['c', 'g', 'p', 'k', 'n', 'j', 'w', 'u'];
    assert(commands[0] == 'c' && commands[1] == 'g' && commands[2] == 'p' && commands[3] == 'k');
    assert(commands[4] == 'n' && commands[5] == 'j' && commands[6] == 'w' && commands[7] == 'u');
}

/// The keys that move the selection go around the list by one row and change
/// nothing else; in an empty list the first row stays selected.
pub proof fn law_keys_move_around_the_list(model: StateModel, key: Key)
    requires
        is_up_key(key) || is_down_key(key),
        model.selected < model.scored.len() || model.selected == 0,
        model.scored.len() <= usize::MAX,
    ensures
        ({
            let len = model.scored.len() as int;
            let selected = if len == 0 {
                0
            } else if is_up_key(key) {
                if model.selected == 0 {
                    len - 1
                } else {
                    model.selected - 1
                }
            } else if model.selected + 1 == len {
                0
            } else {
                model.selected + 1
            };
            model.key_handled(key) == (StateModel { selected: selected as usize, ..model }, true)
        }),
{
    let len = model.scored.len() as int;
    if len > 0 {
        law_move_keys_agree(model, key);
        let s = model.selected as int;
        if s + 1 == len {
            assert((s + 1) % len == 0) by (nonlinear_arith)
                requires
                    s + 1 == len,
                    len > 0,
            ;
        } else {
            assert((s + 1) % len == s + 1) by (nonlinear_arith)
                requires
                    0 <= s + 1 < len,
            ;
        }
        if s == 0 {
            assert((s + len - 1) % len == len - 1) by (nonlinear_arith)
                requires
                    s == 0,
                    len > 0,
            ;
        } else {
            assert((s + len - 1) % len == s - 1) by (nonlinear_arith)
                requires
                    0 < s < len,
            ;
        }
    }
}

/// One wheel event moves the selection by one row and stops at both ends; it
/// changes nothing else and asks for a render exactly if the selection moved.
pub proof fn law_wheel_moves_one_row(model: StateModel)
    requires
        model.selected < model.scored.len() || model.selected == 0,
        model.scored.len() <= usize::MAX,
    ensures
        model.mouse_handled(Mouse::ScrollDown) == if model.selected + 1 < model.scored.len() {
            (StateModel { selected: (model.selected + 1) as usize, ..model }, true)
        } else {
            (model, false)
        },
        model.mouse_handled(Mouse::ScrollUp) == if model.selected > 0 {
            (StateModel { selected: (model.selected - 1) as usize, ..model }, true)
        } else {
            (model, false)
        },
        model.mouse_handled(Mouse::Other) == (model, false),
{
}

/// Moving by a number of rows without wrapping goes that far, or to the end of
/// the list if that is nearer.
pub proof fn law_moving_by_rows(model: StateModel, count: usize)
    requires
        model.selected < model.scored.len() <= usize::MAX,
    ensures
        ({
            let (after, moved) = model.selection_moved_by(Direction::Down, count);
            &&& after == (StateModel { selected: after.selected, ..model })
            &&& after.selected == if model.selected + count < model.scored.len() {
                model.selected + count
            } else {
                model.scored.len() - 1
            }
            &&& moved == (after.selected != model.selected)
        }),
        ({
            let (after, moved) = model.selection_moved_by(Direction::Up, count);
            &&& after == (StateModel { selected: after.selected, ..model })
            &&& after.selected == if model.selected < count {
                0
            } else {
                model.selected - count
            }
            &&& moved == (after.selected != model.selected)
        }),
{
}

/// A click on a row of the list, as it was drawn last, selects it; on the
/// selected row it confirms. A click anywhere else does nothing.
pub proof fn law_clicks(model: StateModel, line: isize, column: usize)
    requires
        model.scored.len() <= usize::MAX,
    ensures
        ({
            let after = model.mouse_handled(Mouse::LeftClick(line, column));
            match model.list_area {
                None => after == (model, false),
                Some(area) => {
                    let row = model.scroll_offset + line - area.top;
                    if area.top <= line < area.top + area.rows && area.left <= column < area.left
                        + area.width && row < model.scored.len() {
                        if row == model.selected {
                            after == (confirmed(model), true)
                        } else {
                            after == (StateModel { selected: row as usize, ..model }, true)
                        }
                    } else {
                        after == (model, false)
                    }
                },
            }
        }),
{
    lemma_confirmed(model);
}

/// Tab `k` is the first one at a position that counts from 1.
pub open spec fn is_first_at(tabs: Seq<TabModel>, position: int, k: int) -> bool {
    &&& 0 <= k < tabs.len()
    &&& tabs[k].position + 1 == position
    &&& forall|j: int| 0 <= j < k ==> (#[trigger] tabs[j]).position + 1 != position
}

/// A quickjump to a tab: the picker switches to it, unless it is the active
/// one, and closes.
pub open spec fn jumped_to(model: StateModel, tab: TabModel) -> StateModel {
    if tab.active {
        closed(model, model.access_counts, model.calls.push(HostCall::HideSelf))
    } else {
        switched_to(model, tab)
    }
}

proof fn lemma_tab_at(model: StateModel, position: u32, k: int)
    ensures
        is_first_at(model.tabs, position as int, k) ==> model.tab_at(position) == Some(
            model.tabs[k],
        ),
        is_first_at(model.tabs, position as int, k) ==> model.instantly_jumped(position)
            == jumped_to(model, model.tabs[k]),
        (forall|j: int| !#[trigger] is_first_at(model.tabs, position as int, j)) ==> model.tab_at(
            position,
        ) is None,
{
    let wanted = crate::model::at_position(position - 1);
    if is_first_at(model.tabs, position as int, k) {
        assert forall|j: int| 0 <= j < k implies !wanted(#[trigger] model.tabs[j]) by {}
        lemma_first_where(model.tabs, wanted, k);
        lemma_hidden(model);
        lemma_switched(model, model.tabs[k]);
    }
    if forall|j: int| !#[trigger] is_first_at(model.tabs, position as int, j) {
        assert forall|j: int| 0 <= j < model.tabs.len() implies !wanted(
            #[trigger] model.tabs[j],
        ) by {
            if wanted(model.tabs[j]) {
                lemma_first_is_somewhere(model.tabs, position as int, j);
            }
        }
        lemma_nowhere(model.tabs, wanted);
    }
}

proof fn lemma_first_is_somewhere(tabs: Seq<TabModel>, position: int, j: int)
    requires
        0 <= j < tabs.len(),
        tabs[j].position + 1 == position,
    ensures
        exists|k: int| is_first_at(tabs, position, k),
    decreases j,
{
    if !is_first_at(tabs, position, j) {
        let i = choose|i: int| 0 <= i < j && (#[trigger] tabs[i]).position + 1 == position;
        lemma_first_is_somewhere(tabs, position, i);
    }
}

/// The query with this digit spells a position so far: it starts with another
/// digit than 0, holds digits only, and no more of them than the number of
/// tabs has.
pub open spec fn spells_position(query: Seq<char>, digit: char, digits: nat) -> bool {
    if query.len() == 0 {
        digit != '0'
    } else {
        &&& query[0] != '0'
        &&& forall|i: int| 0 <= i < query.len() ==> 0x30 <= ((#[trigger] query[i]) as u32) <= 0x39
        &&& query.len() < digits
    }
}

/// A number has this many decimal digits.
pub open spec fn has_digits(number: nat, digits: nat) -> bool {
    &&& digits >= 1
    &&& number < pow(10, digits)
    &&& digits > 1 ==> number >= pow(10, (digits - 1) as nat)
}

/// A digit is typed into the query, but where the query spells a position with
/// it. Then the last digit that a position can have jumps, if there is a tab at
/// that position; the last but one starts a timeout of 0.4 s, which voids the
/// one before; and the digits are the query meanwhile.
pub proof fn law_digits(model: StateModel, c: char, digits: nat, k: int)
    requires
        0x30 <= (c as u32) <= 0x39,
        model.tabs.len() <= usize::MAX,
        has_digits(model.tabs.len(), digits),
    ensures
        ({
            let buffer = model.query + seq![c];
            let position = decimal_value(buffer) as int;
            let after = model.key_handled(typed(c));
            if !spells_position(model.query, c, digits) {
                if model.query.len() < 128 {
                    after == (searched(model, buffer), true)
                } else {
                    after == (model, false)
                }
            } else if buffer.len() >= digits {
                &&& is_first_at(model.tabs, position, k) && position <= 0xffff_ffff ==> after == (
                    jumped_to(model, model.tabs[k]),
                    true,
                )
                &&& position > 0xffff_ffff || (forall|j: int|
                    !#[trigger] is_first_at(model.tabs, position, j)) ==> after == (
                    searched(model, buffer),
                    true,
                )
            } else if buffer.len() + 1 == digits {
                let generation: u32 = if model.timers.jump_generation == 0xffff_ffff {
                    0
                } else {
                    (model.timers.jump_generation + 1) as u32
                };
                let fresh = TimersModel { jump_generation: generation, ..model.timers };
                after == (
                    StateModel {
                        timers: fresh.armed(TimerKind::Jump { generation }, 400_000_000),
                        calls: model.calls.push(HostCall::SetTimeout(400_000_000)),
                        ..searched(model, buffer)
                    },
                    true,
                )
            } else {
                after == (searched(model, buffer), true)
            }
        }),
{
    let buffer = model.query + seq![c];
    let after = model.key_handled(typed(c));
    assert(model.query.push(c) =~= buffer);
    law_decimal_len(model.tabs.len(), digits);
    let pending = model.jump_pending_for(c);
    assert(pending == spells_position(model.query, c, digits)) by {
        if model.query.len() > 0 {
            assert(all_digits(model.query) <==> forall|i: int|
                0 <= i < model.query.len() ==> 0x30 <= ((#[trigger] model.query[i]) as u32)
                    <= 0x39);
        }
    }
    let search = searched(model, buffer);
    assert(model.query_changed(buffer) =~= search);
    if pending {
        assert(all_digits(buffer)) by {
            assert forall|i: int| 0 <= i < buffer.len() implies is_digit(#[trigger] buffer[i]) by {
                if i < model.query.len() {
                    assert(buffer[i] == model.query[i]);
                }
            }
        }
        assert(buffer[0] != '+');
        if buffer.len() >= digits {
            if decimal_value(buffer) <= 0xffff_ffff {
                let position = decimal_value(buffer) as u32;
                lemma_tab_at(model, position, k);
            }
        } else if buffer.len() + 1 == digits {
            let generation = model.timers.next_generation();
            let waiting = StateModel {
                timers: model.timers.with_new_generation(),
                ..model
            }.timer_armed(TimerKind::Jump { generation }, 400_000_000);
            assert(after.0 =~= StateModel {
                timers: waiting.timers,
                calls: waiting.calls,
                ..search
            });
            assert(model.timers.with_new_generation() =~= TimersModel {
                jump_generation: generation,
                ..model.timers
            });
        }
    }
}

/// A timer event belongs to the oldest timer whose time is over, give or take
/// 10 ms, or to the oldest one if there is none such. That one is dropped, and
/// its handler runs on the rest.
pub proof fn law_timer_event(model: StateModel, elapsed: u64, fired: int)
    ensures
        model.timers.pending.len() == 0 ==> model.timer_fired(elapsed) == (model, false),
        ({
            let pending = model.timers.pending;
            let over = |i: int| pending[i].1 <= elapsed + 10_000_000;
            let is_it = {
                ||| 0 <= fired < pending.len() && over(fired) && forall|i: int|
                    0 <= i < fired ==> !#[trigger] over(i)
                ||| fired == 0 && pending.len() > 0 && forall|i: int|
                    0 <= i < pending.len() ==> !#[trigger] over(i)
            };
            is_it ==> {
                let rest = StateModel {
                    timers: TimersModel { pending: pending.remove(fired), ..model.timers },
                    ..model
                };
                model.timer_fired(elapsed) == match pending[fired].0 {
                    TimerKind::Blink => rest.blinked(),
                    TimerKind::Jump { generation } => rest.jump_timed_out(generation),
                }
            }
        }),
{
    let pending = model.timers.pending;
    let due = crate::timers::is_due(elapsed);
    let over = |i: int| pending[i].1 <= elapsed + 10_000_000;
    if pending.len() == 0 {
        assert(model.timer_fired(elapsed).0 =~= model);
    }
    if 0 <= fired < pending.len() && over(fired) && forall|i: int|
        0 <= i < fired ==> !#[trigger] over(i) {
        assert forall|i: int| 0 <= i < fired implies !due(#[trigger] pending[i]) by {
            assert(!over(i));
        }
        crate::timers::lemma_first(pending, due, fired);
    } else if fired == 0 && pending.len() > 0 && forall|i: int|
        0 <= i < pending.len() ==> !#[trigger] over(i) {
        assert forall|i: int| 0 <= i < pending.len() implies !due(#[trigger] pending[i]) by {
            assert(!over(i));
        }
        crate::timers::lemma_none(pending, due);
    }
}

/// A new timer goes behind the others. The ninth takes the place of the oldest
/// one that is no blink tick.
pub proof fn law_new_timer(timers: TimersModel, kind: TimerKind, duration: u64, victim: int)
    ensures
        timers.pending.len() < 8 ==> timers.armed(kind, duration) == (TimersModel {
            pending: timers.pending.push((kind, duration)),
            ..timers
        }),
        timers.pending.len() >= 8 && 0 <= victim < timers.pending.len() && !(
        timers.pending[victim].0 is Blink) && (forall|i: int|
            0 <= i < victim ==> (#[trigger] timers.pending[i]).0 is Blink) ==> timers.armed(
            kind,
            duration,
        ) == (TimersModel {
            pending: timers.pending.remove(victim).push((kind, duration)),
            ..timers
        }),
{
    let wanted = crate::timers::not_blink();
    if timers.pending.len() >= 8 && 0 <= victim < timers.pending.len() && !(
    timers.pending[victim].0 is Blink) && (forall|i: int|
        0 <= i < victim ==> (#[trigger] timers.pending[i]).0 is Blink) {
        crate::timers::lemma_first(timers.pending, wanted, victim);
    }
}

/// The timeout of the newest quickjump jumps to the tab at the position that
/// the query spells, if the picker is shown; any other one does nothing.
pub proof fn law_quickjump_timeout(model: StateModel, generation: u32, k: int)
    ensures
        ({
            let position = decimal_value(model.query) as int;
            let spelled = model.query.len() > 0 && spells_position(
                model.query,
                '1',
                model.query.len() + 1,
            ) && position <= 0xffff_ffff;
            let live = generation == model.timers.jump_generation && model.ready
                && model.vis.visible && spelled;
            &&& live && is_first_at(model.tabs, position, k) ==> model.jump_timed_out(generation)
                == (jumped_to(model, model.tabs[k]), true)
            &&& !live || (forall|j: int| !#[trigger] is_first_at(model.tabs, position, j))
                ==> model.jump_timed_out(generation) == (model, false)
        }),
{
    let query = model.query;
    if query.len() > 0 {
        assert(all_digits(query) <==> forall|i: int|
            0 <= i < query.len() ==> 0x30 <= ((#[trigger] query[i]) as u32) <= 0x39);
        if all_digits(query) {
            assert(is_digit(query[0]));
            if decimal_value(query) <= 0xffff_ffff {
                lemma_tab_at(model, decimal_value(query) as u32, k);
            }
        }
    }
}

/// Some tab has a bell.
pub open spec fn rings(tabs: Seq<TabModel>) -> bool {
    exists|i: int| 0 <= i < tabs.len() && (#[trigger] tabs[i]).has_bell_notification
}

/// A blink tick is on its way.
pub open spec fn blinks(timers: TimersModel) -> bool {
    exists|i: int| 0 <= i < timers.pending.len() && (#[trigger] timers.pending[i]).0 is Blink
}

/// A blink tick in 0.5 s was asked for, if the picker is visible with a bell
/// and none is on its way.
pub open spec fn with_blinking(model: StateModel) -> StateModel {
    if model.vis.visible && rings(model.tabs) && !blinks(model.timers) {
        StateModel {
            timers: model.timers.armed(TimerKind::Blink, 500_000_000),
            calls: model.calls.push(HostCall::SetTimeout(500_000_000)),
            ..model
        }
    } else {
        model
    }
}

proof fn lemma_blinking(model: StateModel)
    ensures
        model.blink_started() == with_blinking(model),
        with_blinking(with_blinking(model)) == with_blinking(model),
{
    assert(model.blink_started() =~= with_blinking(model));
    if model.vis.visible && rings(model.tabs) && !blinks(model.timers) {
        let armed = model.timers.armed(TimerKind::Blink, 500_000_000);
        let last = armed.pending.len() - 1;
        assert(armed.pending[last].0 is Blink);
        assert(blinks(armed));
    }
}

/// A blink tick turns the bell background over and asks for the next tick in
/// 0.5 s, as long as the picker is visible with a bell; then it turns it off.
pub proof fn law_blink_tick(model: StateModel)
    ensures
        model.blinked() == if model.vis.visible && rings(model.tabs) {
            (
                StateModel {
                    timers: TimersModel {
                        bell_blink_on: !model.timers.bell_blink_on,
                        ..model.timers
                    }.armed(TimerKind::Blink, 500_000_000),
                    calls: model.calls.push(HostCall::SetTimeout(500_000_000)),
                    ..model
                },
                true,
            )
        } else {
            (
                StateModel {
                    timers: TimersModel { bell_blink_on: false, ..model.timers },
                    ..model
                },
                false,
            )
        },
{
    assert(model.has_bell_tab() == rings(model.tabs));
    assert(model.blinked().0 =~= if model.vis.visible && rings(model.tabs) {
        StateModel {
            timers: TimersModel {
                bell_blink_on: !model.timers.bell_blink_on,
                ..model.timers
            }.armed(TimerKind::Blink, 500_000_000),
            calls: model.calls.push(HostCall::SetTimeout(500_000_000)),
            ..model
        }
    } else {
        StateModel { timers: TimersModel { bell_blink_on: false, ..model.timers }, ..model }
    });
}

/// These indicators: visible if the pane is focused in a floating layer that is
/// shown, and the host did not say otherwise.
pub open spec fn indicated(focused: bool, floating: bool, host: Option<bool>) -> Visibility {
    Visibility {
        visible: focused && floating && host != Some(false),
        pane_focused: focused,
        float_visible: floating,
        host_visible: host,
    }
}

proof fn lemma_recomputed(model: StateModel)
    ensures
        ({
            let vis = indicated(
                model.vis.pane_focused,
                model.vis.float_visible,
                model.vis.host_visible,
            );
            let seen = StateModel { vis, ..model };
            &&& model.visibility_recomputed() == if !model.vis.visible {
                with_blinking(seen)
            } else {
                seen
            }
            &&& model.becomes_visible() == (!model.vis.visible && vis.visible)
            &&& model.visibility_recomputed().blink_started() == with_blinking(seen)
        }),
{
    let vis = indicated(model.vis.pane_focused, model.vis.float_visible, model.vis.host_visible);
    let seen = StateModel { vis, ..model };
    assert(seen.vis == Visibility { visible: model.vis.shows(), ..model.vis });
    lemma_blinking(seen);
    lemma_blinking(with_blinking(seen));
}

/// The host's word that the picker is hidden hides it; its word that it is
/// shown leaves it to the other indicators. A picker that appears is rendered,
/// and starts to blink if it has to.
pub proof fn law_visibility_event(model: StateModel, shown: bool)
    ensures
        ({
            let vis = indicated(model.vis.pane_focused, model.vis.float_visible, Some(shown));
            let seen = StateModel { vis, ..model };
            model.shown(shown) == if !model.vis.visible && vis.visible {
                (with_blinking(seen), true)
            } else {
                (seen, false)
            }
        }),
{
    let told = StateModel {
        vis: Visibility { host_visible: Some(shown), ..model.vis },
        ..model
    };
    lemma_recomputed(told);
}

/// The floating layer is shown in the first active one of the tabs.
pub open spec fn floats(tabs: Seq<TabModel>) -> bool {
    exists|i: int| #[trigger] is_first_active(tabs, i) && tabs[i].are_floating_panes_visible
}

pub open spec fn is_first_active(tabs: Seq<TabModel>, i: int) -> bool {
    &&& 0 <= i < tabs.len()
    &&& tabs[i].active
    &&& forall|j: int| 0 <= j < i ==> !(#[trigger] tabs[j]).active
}

pub proof fn lemma_first_active(tabs: Seq<TabModel>, j: int)
    requires
        0 <= j < tabs.len(),
        tabs[j].active,
    ensures
        exists|i: int| is_first_active(tabs, i),
    decreases j,
{
    if !is_first_active(tabs, j) {
        let i = choose|i: int| 0 <= i < j && (#[trigger] tabs[i]).active;
        lemma_first_active(tabs, i);
    }
}

proof fn lemma_floats(tabs: Seq<TabModel>)
    ensures
        floats(tabs) == match first_where(tabs, is_active()) {
            Some(tab) => tab.are_floating_panes_visible,
            None => false,
        },
{
    if exists|i: int| is_first_active(tabs, i) {
        let i = choose|i: int| is_first_active(tabs, i);
        assert forall|j: int| 0 <= j < i implies !is_active()(#[trigger] tabs[j]) by {}
        lemma_first_where(tabs, is_active(), i);
        if floats(tabs) {
            let k = choose|k: int| #[trigger]
                is_first_active(tabs, k) && tabs[k].are_floating_panes_visible;
            assert(k == i) by {
                if k < i {
                    assert(!tabs[k].active);
                }
                if i < k {
                    assert(!tabs[i].active);
                }
            }
        }
    } else {
        assert forall|j: int| 0 <= j < tabs.len() implies !is_active()(#[trigger] tabs[j]) by {
            if tabs[j].active {
                lemma_first_active(tabs, j);
            }
        }
        lemma_nowhere(tabs, is_active());
    }
}

/// A tab update that tells nothing new only puts visibility together: it asks
/// for a render exactly if the picker appears.
pub proof fn law_tab_update_without_news(model: StateModel)
    requires
        model.tabs_received,
    ensures
        ({
            let vis = indicated(model.vis.pane_focused, floats(model.tabs), None);
            model.tabs_updated(model.tabs) == (
                with_blinking(StateModel { vis, ..model }),
                !model.vis.visible && vis.visible,
            )
        }),
{
    lemma_floats(model.tabs);
    let vis = indicated(model.vis.pane_focused, floats(model.tabs), None);
    let seen = StateModel {
        vis: Visibility { host_visible: None, float_visible: floats(model.tabs), ..model.vis },
        ..model
    };
    lemma_recomputed(seen);
    assert(StateModel { vis, ..seen } =~= StateModel { vis, ..model });
}

/// A tab update with news replaces the tabs. It keeps the count of every tab
/// that it reports, active or not, and drops the others; it lists the tabs for
/// the query anew, keeps the selection inside the list, puts visibility
/// together, and asks for a render.
pub proof fn law_tab_update_with_news(model: StateModel, tabs: Seq<TabModel>)
    requires
        !model.tabs_received || model.tabs != tabs,
    ensures
        ({
            let (after, render) = model.tabs_updated(tabs);
            let counts = after.access_counts;
            let list = results(model.query, tabs, counts);
            &&& render
            &&& forall|id: usize|
                #![trigger counts.contains_key(id)]
                counts.contains_key(id) <==> model.access_counts.contains_key(id) && exists|i: int|
                    0 <= i < tabs.len() && (#[trigger] tabs[i]).tab_id == id
            &&& forall|id: usize|
                counts.contains_key(id) ==> #[trigger] counts[id] == model.access_counts[id]
            &&& after == with_blinking(
                StateModel {
                    tabs,
                    tabs_received: true,
                    scored: list,
                    selected: if model.selected < list.len() {
                        model.selected
                    } else if list.len() == 0 {
                        0
                    } else {
                        (list.len() - 1) as usize
                    },
                    vis: indicated(model.vis.pane_focused, floats(tabs), None),
                    access_counts: counts,
                    ..model
                },
            )
        }),
{
    lemma_floats(tabs);
    let vis = indicated(model.vis.pane_focused, floats(tabs), None);
    let seen = StateModel {
        vis: Visibility { host_visible: None, float_visible: floats(tabs), ..model.vis },
        ..model
    };
    let known = StateModel {
        tabs_received: true,
        tabs,
        access_counts: crate::model::pruned(model.access_counts, tabs),
        ..seen
    }.scores_refreshed();
    lemma_recomputed(known);
    let counts = model.tabs_updated(tabs).0.access_counts;
    assert forall|id: usize|
        #![trigger counts.contains_key(id)]
        counts.contains_key(id) <==> model.access_counts.contains_key(id) && exists|i: int|
            0 <= i < tabs.len() && (#[trigger] tabs[i]).tab_id == id by {
        assert(is_live(tabs, id) <==> exists|i: int|
            0 <= i < tabs.len() && (#[trigger] tabs[i]).tab_id == id);
    }
}

/// Pane `j` of entry `i` is the first one that is the picker's own.
pub open spec fn is_own_place(
    entries: Seq<(usize, Vec<PaneInfo>)>,
    plugin_id: u32,
    i: int,
    j: int,
) -> bool {
    &&& 0 <= i < entries.len()
    &&& 0 <= j < entries[i].1@.len()
    &&& entries[i].1@[j].is_plugin && entries[i].1@[j].id == plugin_id
    &&& forall|k: int, l: int|
        0 <= k < entries.len() && 0 <= l < entries[k].1@.len() && (
        #[trigger] entries[k].1@[l]).is_plugin && entries[k].1@[l].id == plugin_id ==> i < k || (i
            == k && j <= l)
}

proof fn lemma_own_pane(entries: Seq<(usize, Vec<PaneInfo>)>, plugin_id: u32, i: int, j: int)
    requires
        is_own_place(entries, plugin_id, i, j),
    ensures
        own_pane(entries, plugin_id) == Some((entries[i].0, entries[i].1@[j])),
    decreases i,
{
    let wanted = is_own_pane(plugin_id);
    if i == 0 {
        assert forall|l: int| 0 <= l < j implies !wanted(#[trigger] entries[0].1@[l]) by {}
        lemma_first_where(entries[0].1@, wanted, j);
    } else {
        assert forall|l: int| 0 <= l < entries[0].1@.len() implies !wanted(
            #[trigger] entries[0].1@[l],
        ) by {}
        lemma_nowhere(entries[0].1@, wanted);
        let rest = entries.drop_first();
        assert forall|k: int, l: int|
            0 <= k < rest.len() && 0 <= l < rest[k].1@.len() && (
            #[trigger] rest[k].1@[l]).is_plugin && rest[k].1@[l].id == plugin_id implies i - 1 < k
            || (i - 1 == k && j <= l) by {
            assert(rest[k] == entries[k + 1]);
            assert(entries[k + 1].1@[l].is_plugin);
        }
        assert(rest[i - 1] == entries[i]);
        lemma_own_pane(rest, plugin_id, i - 1, j);
    }
}

proof fn lemma_no_own_pane(entries: Seq<(usize, Vec<PaneInfo>)>, plugin_id: u32)
    requires
        forall|k: int, l: int|
            0 <= k < entries.len() && 0 <= l < entries[k].1@.len() ==> !((
            #[trigger] entries[k].1@[l]).is_plugin && entries[k].1@[l].id == plugin_id),
    ensures
        own_pane(entries, plugin_id) is None,
    decreases entries.len(),
{
    if entries.len() > 0 {
        let wanted = is_own_pane(plugin_id);
        assert forall|l: int| 0 <= l < entries[0].1@.len() implies !wanted(
            #[trigger] entries[0].1@[l],
        ) by {}
        lemma_nowhere(entries[0].1@, wanted);
        let rest = entries.drop_first();
        assert forall|k: int, l: int|
            0 <= k < rest.len() && 0 <= l < rest[k].1@.len() implies !((
        #[trigger] rest[k].1@[l]).is_plugin && rest[k].1@[l].id == plugin_id) by {
            assert(rest[k] == entries[k + 1]);
            assert(!(entries[k + 1].1@[l].is_plugin && entries[k + 1].1@[l].id == plugin_id));
        }
        lemma_no_own_pane(rest, plugin_id);
    }
}

/// The picker appears and is rendered, or does not: visibility is put together
/// from the focus that a pane update tells.
pub open spec fn focused(model: StateModel, focus: bool, calls: Seq<HostCall>) -> (
    StateModel,
    bool,
) {
    let vis = indicated(focus, model.vis.float_visible, None);
    let seen = StateModel { vis, calls, ..model };
    if !model.vis.visible && vis.visible {
        (with_blinking(seen), true)
    } else {
        (seen, false)
    }
}

proof fn lemma_focused(model: StateModel, focus: bool)
    ensures
        ({
            let seen = model.focus_seen(focus);
            (seen.visibility_recomputed(), seen.becomes_visible()) == focused(
                model,
                focus,
                model.calls,
            )
        }),
{
    lemma_recomputed(model.focus_seen(focus));
    let vis = indicated(focus, model.vis.float_visible, None);
    assert(StateModel { vis, ..model.focus_seen(focus) } =~= StateModel {
        vis,
        calls: model.calls,
        ..model
    });
}

/// The size of the pane is to be sent again: it is larger than the size asked
/// for, or smaller while that size fits the tab.
pub open spec fn is_off_size(model: StateModel, pane: PaneInfo, tab: Option<TabModel>) -> bool {
    ||| pane.pane_columns > model.size.cols
    ||| pane.pane_rows > model.size.rows
    ||| (pane.pane_columns < model.size.cols || pane.pane_rows < model.size.rows) && match tab {
        Some(tab) => model.size.cols <= tab.viewport_columns && model.size.rows
            <= tab.viewport_rows,
        None => false,
    }
}

/// A pane update tells a ready picker whether its own pane is focused: floating,
/// not suppressed, and with the focus of its layer. A floating pane that gets
/// the focus back, or is off its size, is asked to have its size and no border
/// again. `k` is the tab that the pane is in.
pub proof fn law_pane_update(model: StateModel, manifest: PaneManifest, i: int, j: int, k: int)
    requires
        model.ready,
        is_own_place(manifest.panes@, model.plugin_id, i, j),
    ensures
        ({
            let (tab_position, pane) = (manifest.panes@[i].0, manifest.panes@[i].1@[j]);
            let focus = pane.is_floating && !pane.is_suppressed && pane.is_focused;
            let resized = model.calls + seq![
                HostCall::ResizePane {
                    plugin_id: model.plugin_id,
                    cols: model.size.cols,
                    rows: model.size.rows,
                },
                HostCall::SetBorderless { plugin_id: model.plugin_id },
            ];
            let nowhere = forall|l: int|
                !#[trigger] is_first_at(model.tabs, tab_position + 1, l);
            let asks = |off: bool|
                pane.is_floating && ((focus && !model.vis.pane_focused) || off);
            let told = |off: bool|
                model.panes_updated(manifest) == focused(
                    model,
                    focus,
                    if asks(off) {
                        resized
                    } else {
                        model.calls
                    },
                );
            &&& is_first_at(model.tabs, tab_position + 1, k) ==> told(
                is_off_size(model, pane, Some(model.tabs[k])),
            )
            &&& nowhere ==> told(is_off_size(model, pane, None))
        }),
{
    let (tab_position, pane) = (manifest.panes@[i].0, manifest.panes@[i].1@[j]);
    let focus = pane.is_floating && !pane.is_suppressed && pane.is_focused;
    lemma_own_pane(manifest.panes@, model.plugin_id, i, j);
    let resized = model.calls + seq![
        HostCall::ResizePane {
            plugin_id: model.plugin_id,
            cols: model.size.cols,
            rows: model.size.rows,
        },
        HostCall::SetBorderless { plugin_id: model.plugin_id },
    ];
    assert(model.pane_resized().calls =~= resized);
    assert(model.pane_resized() =~= StateModel { calls: resized, ..model });
    lemma_focused(model, focus);
    lemma_focused(model.pane_resized(), focus);
    let wanted = crate::model::at_position(tab_position as int);
    if is_first_at(model.tabs, tab_position + 1, k) {
        assert forall|l: int| 0 <= l < k implies !wanted(#[trigger] model.tabs[l]) by {}
        lemma_first_where(model.tabs, wanted, k);
    }
    if forall|l: int| !#[trigger] is_first_at(model.tabs, tab_position + 1, l) {
        assert forall|l: int| 0 <= l < model.tabs.len() implies !wanted(
            #[trigger] model.tabs[l],
        ) by {
            if wanted(model.tabs[l]) {
                lemma_first_is_somewhere(model.tabs, tab_position + 1, l);
            }
        }
        lemma_nowhere(model.tabs, wanted);
    }
    assert(focused(model.pane_resized(), focus, resized) == focused(model, focus, resized));
}

/// A pane update without the picker's own pane tells that it has no focus.
pub proof fn law_pane_update_elsewhere(model: StateModel, manifest: PaneManifest)
    requires
        model.ready,
        forall|k: int, l: int|
            0 <= k < manifest.panes@.len() && 0 <= l < manifest.panes@[k].1@.len() ==> !((
            #[trigger] manifest.panes@[k].1@[l]).is_plugin && manifest.panes@[k].1@[l].id
                == model.plugin_id),
    ensures
        model.panes_updated(manifest) == focused(model, false, model.calls),
{
    lemma_no_own_pane(manifest.panes@, model.plugin_id);
    lemma_focused(model, false);
}

/// A char that has no case folding besides that of its upper case. The others
/// are the micro sign, long s, final sigma, the letter variants of Greek and
/// Cyrillic, and the small letters of Cherokee.
pub open spec fn folds_plainly(c: char) -> bool {
    let code = c as u32;
    &&& !(0x13f8 <= code <= 0x13fd || 0x1c80 <= code <= 0x1c88 || 0xab70 <= code <= 0xabbf)
    &&& code != 0xb5 && code != 0x17f && code != 0x345 && code != 0x3c2
    &&& code != 0x3d0 && code != 0x3d1 && code != 0x3d5 && code != 0x3d6
    &&& code != 0x3f0 && code != 0x3f1 && code != 0x3f5
    &&& code != 0x1e9b && code != 0x1fbe
}

/// The tabs have names that the matcher takes with every query: up to 2^25 - 1
/// chars, all of which fold plainly.
pub open spec fn have_plain_names(tabs: Seq<TabModel>) -> bool {
    forall|i: int, k: int|
        0 <= i < tabs.len() && 0 <= k < tabs[i].name.len() ==> tabs[i].name.len() <= 0x1ff_ffff
            && folds_plainly(#[trigger] tabs[i].name[k])
}

/// The tabs have names of up to 2^25 - 1 chars.
pub open spec fn have_short_names(tabs: Seq<TabModel>) -> bool {
    forall|i: int| 0 <= i < tabs.len() ==> (#[trigger] tabs[i]).name.len() <= 0x1ff_ffff
}

/// A query without letters that have variants: the matcher takes it with every
/// name.
pub open spec fn is_plain_query(query: Seq<char>) -> bool {
    forall|i: int|
        0 <= i < query.len() ==> {
            let code = (#[trigger] query[i]) as u32;
            !(0xc0 <= code <= 0x36f || 0x1d00 <= code <= 0x1ef9 || 0x2071 <= code <= 0x2184)
        }
}

proof fn lemma_can_search(query: Seq<char>, tabs: Seq<TabModel>)
    requires
        have_plain_names(tabs) || (have_short_names(tabs) && is_plain_query(query)),
    ensures
        can_search(query, tabs),
{
    assert forall|i: int| 0 <= i < tabs.len() && !(#[trigger] tabs[i]).active implies is_name_len(
        tabs[i].name.len(),
    ) && nucleo_takes(query, tabs[i].name) by {
        let name = tabs[i].name;
        if have_plain_names(tabs) {
            assert forall|k: int| 0 <= k < name.len() implies own_folding(
                #[trigger] name[k],
            ) is None by {
                assert(folds_plainly(tabs[i].name[k]));
            }
            if name.len() > 0 {
                assert(folds_plainly(tabs[i].name[0]));
            }
        }
        assert(name.len() <= 0x1ff_ffff);
        law_ordinary_pairs_are_taken(query, name);
    }
}

/// No event is refused as long as no count is full and the names of the tabs are
/// plain, or the query is and stays plain: an ordinary picker takes every key,
/// click, timer and update.
pub proof fn law_ordinary_events_are_accepted(model: StateModel, event: Event)
    requires
        forall|id: usize|
            model.access_counts.contains_key(id) ==> #[trigger] model.access_counts[id] < u64::MAX,
        ({
            let reported = match event {
                Event::TabUpdate(tabs) => infos(tabs@),
                _ => model.tabs,
            };
            let stays_plain = is_plain_query(model.query) && match event {
                Event::Key(key) => match key.bare_key {
                    BareKey::Char(c) => is_plain_query(seq![c]),
                    _ => true,
                },
                _ => true,
            };
            have_plain_names(reported) || (have_short_names(reported) && stays_plain)
        }),
    ensures
        model.accepts(event),
{
    match event {
        Event::TabUpdate(tabs) => {
            lemma_can_search(model.query, infos(tabs@));
        },
        Event::Key(key) => {
            if let BareKey::Char(c) = key.bare_key {
                let query = model.query.push(c);
                if !have_plain_names(model.tabs) {
                    assert forall|i: int| 0 <= i < query.len() implies ({
                        let code = (#[trigger] query[i]) as u32;
                        !(0xc0 <= code <= 0x36f || 0x1d00 <= code <= 0x1ef9 || 0x2071 <= code
                            <= 0x2184)
                    }) by {
                        if i < model.query.len() {
                            assert(query[i] == model.query[i]);
                        } else {
                            assert(seq![c][0] == c);
                        }
                    }
                }
                lemma_can_search(query, model.tabs);
            }
        },
        _ => {},
    }
}

/// What types nothing and switches nowhere is accepted in every state.
pub proof fn law_harmless_events_are_accepted(model: StateModel, event: Event)
    requires
        match event {
            Event::TabUpdate(_) => false,
            Event::Timer(_) => model.timers.pending.len() == 0,
            Event::Mouse(mouse) => !(mouse is LeftClick) || !model.ready || model.list_area is None,
            Event::Key(key) => !model.ready || match key.bare_key {
                BareKey::Enter => model.scored.len() == 0,
                BareKey::Char(_) => key.has_ctrl || key.has_alt,
                _ => true,
            },
            _ => true,
        },
    ensures
        model.accepts(event),
{
}

/// Confirming a row is accepted if the count of its tab is not full, whatever
/// the other counts are.
pub proof fn law_room_in_one_count_is_enough(model: StateModel, tab: TabModel)
    requires
        model.selected < model.scored.len(),
        tab == model.scored[model.selected as int].tab,
        model.access_counts.contains_key(tab.tab_id) ==> model.access_counts[tab.tab_id]
            < 0xffff_ffff_ffff_ffff,
    ensures
        model.accepts(
            Event::Key(Key { bare_key: BareKey::Enter, has_ctrl: false, has_alt: false }),
        ),
        forall|line: isize, column: usize| #[trigger]
            model.accepts(Event::Mouse(Mouse::LeftClick(line, column))),
{
}

/// An empty query searches nothing: tab updates are taken then, whatever the
/// names.
pub proof fn law_updates_without_a_query_are_accepted(model: StateModel, tabs: Vec<TabInfo>)
    requires
        model.query.len() == 0,
    ensures
        model.accepts(Event::TabUpdate(tabs)),
{
}

/// Every picker whose tabs have positions and numbers of panes that can be
/// written down can be drawn in every pane.
pub proof fn law_ordinary_pickers_can_be_drawn(model: StateModel, rows: usize, cols: usize)
    requires
        model.selected < usize::MAX,
        forall|i: int|
            0 <= i < model.tabs.len() ==> (#[trigger] model.tabs[i]).selectable_tiled_panes_count
                + model.tabs[i].selectable_floating_panes_count <= usize::MAX,
        forall|i: int|
            0 <= i < model.scored.len() ==> {
                let tab = (#[trigger] model.scored[i]).tab;
                &&& tab.selectable_tiled_panes_count + tab.selectable_floating_panes_count
                    <= usize::MAX
                &&& tab.position < usize::MAX
            },
    ensures
        model.is_drawable(rows, cols),
{
    if model.active_tab() is Some {
        crate::state_laws::lemma_first_where_is_member(model.tabs, is_active());
    }
}

} // verus!
