//! What holds of the picker after every event.
use crate::events::{BareKey, Direction, Event, HostCall, Key, Mouse};
use crate::fuzzy::MAX_QUERY_CHARS;
use crate::layout::SizeCfg;
use crate::model::{
    at_position, first_where, infos, is_active, is_live, pruned, without_last_word,
    without_trailing, StateModel, Visibility,
};
use crate::search::results;
use crate::search_laws::{law_active_tab_is_never_listed, law_no_more_rows_than_tabs};
use crate::state::{is_query, lemma_longer_query, lemma_shorter_query};
use crate::tabs::TabModel;
use crate::text::{is_control, is_digit, is_space, lemma_machine_digits};
use crate::timer_laws::{is_orderly, law_armed_timer_has_its_place, law_resolving_keeps_order};
use crate::timers::{TimerKind, TimersModel, BLINK_INTERVAL, JUMP_TIMEOUT};
use vstd::prelude::*;

verus! {

/// What holds whatever the list: the query is one, the timers are in order,
/// visibility follows from its indicators, a visible bell blinks, and only
/// tabs that exist are counted.
pub open spec fn is_calm(model: StateModel) -> bool {
    &&& is_query(model.query)
    &&& is_orderly(model.timers)
    &&& model.vis.visible == model.vis.shows()
    &&& model.vis.visible && model.has_bell_tab() ==> model.timers.blink_in_flight()
    &&& forall|id: usize| #[trigger]
        model.access_counts.contains_key(id) ==> is_live(model.tabs, id)
}

/// What holds between events. On top of `is_calm`: the list is the one for
/// the query, the tabs and the counts, and the selection is a row of it, or
/// the first row of an empty one.
pub open spec fn is_settled(model: StateModel) -> bool {
    &&& is_calm(model)
    &&& model.scored == results(model.query, model.tabs, model.access_counts)
    &&& model.selected == 0 || model.selected < model.scored.len()
}

/// The picker starts out settled.
pub proof fn law_starts_settled(size: SizeCfg)
    ensures
        is_settled(StateModel { size, ..StateModel::initial() }),
{
    let model = StateModel::initial();
    assert(results(model.query, model.tabs, model.access_counts) =~= seq![]);
}

proof fn lemma_refresh_settles(model: StateModel)
    requires
        is_calm(model),
    ensures
        is_settled(model.scores_refreshed()),
{
    assert(model.scores_refreshed().has_bell_tab() == model.has_bell_tab());
}

proof fn lemma_query_change_settles(model: StateModel, query: Seq<char>)
    requires
        is_calm(model),
        is_query(query),
    ensures
        is_settled(model.query_changed(query)),
{
    let changed = StateModel { query, selected: 0, scroll_offset: 0, ..model };
    assert(changed.has_bell_tab() == model.has_bell_tab());
    lemma_refresh_settles(changed);
}

proof fn lemma_hiding_settles(model: StateModel)
    requires
        is_calm(model),
    ensures
        is_settled(model.hidden()),
{
    lemma_query_change_settles(model, seq![]);
    let hidden = model.hidden();
    assert(hidden.timers.pending == model.timers.pending);
    assert(is_orderly(hidden.timers));
}

proof fn lemma_switch_settles(model: StateModel, position: u32, tab_id: usize)
    requires
        is_calm(model),
        is_live(model.tabs, tab_id),
    ensures
        is_settled(model.switched(position, tab_id)),
{
    let recorded = model.called(HostCall::SwitchTab(position)).access_recorded(tab_id);
    assert(recorded.has_bell_tab() == model.has_bell_tab());
    assert(is_calm(recorded));
    lemma_hiding_settles(recorded);
}

proof fn lemma_tab_at(model: StateModel, position: u32)
    requires
        model.tab_at(position) is Some,
    ensures
        is_live(model.tabs, (model.tab_at(position)->0).tab_id),
{
    lemma_first_where_is_member(model.tabs, at_position(position - 1));
}

pub proof fn lemma_first_where_is_member(tabs: Seq<TabModel>, wanted: spec_fn(TabModel) -> bool)
    requires
        first_where(tabs, wanted) is Some,
    ensures
        exists|i: int| 0 <= i < tabs.len() && #[trigger] tabs[i] == first_where(tabs, wanted)->0,
        wanted(first_where(tabs, wanted)->0),
    decreases tabs.len(),
{
    if wanted(tabs[0]) {
        assert(tabs[0] == first_where(tabs, wanted)->0);
    } else {
        let rest = tabs.drop_first();
        lemma_first_where_is_member(rest, wanted);
        let i = choose|i: int|
            0 <= i < rest.len() && #[trigger] rest[i] == first_where(rest, wanted)->0;
        assert(tabs[i + 1] == first_where(tabs, wanted)->0);
    }
}

proof fn lemma_instant_jump_settles(model: StateModel, position: u32)
    requires
        is_calm(model),
        model.tab_at(position) is Some,
    ensures
        is_settled(model.instantly_jumped(position)),
{
    let tab = model.tab_at(position)->0;
    lemma_tab_at(model, position);
    if tab.active {
        lemma_hiding_settles(model);
    } else {
        lemma_switch_settles(model, position, tab.tab_id);
    }
}

proof fn lemma_confirming_settles(model: StateModel)
    requires
        is_settled(model),
    ensures
        is_settled(model.jumped_to_selected()),
{
    if model.selected < model.scored.len() && model.scored[model.selected as int].tab.position + 1
        <= u32::MAX {
        let tab = model.scored[model.selected as int].tab;
        law_active_tab_is_never_listed(
            model.query,
            model.tabs,
            model.access_counts,
            model.selected as int,
        );
        let i = choose|i: int| 0 <= i < model.tabs.len() && model.tabs[i] == tab;
        assert(model.tabs[i].tab_id == tab.tab_id);
        lemma_switch_settles(model, (tab.position + 1) as u32, tab.tab_id);
    } else {
        lemma_hiding_settles(model);
    }
}

/// Arming a timer keeps everything in order.
proof fn lemma_arming(model: StateModel, kind: TimerKind, duration: u64)
    requires
        is_orderly(model.timers),
        kind is Blink ==> !model.timers.blink_in_flight(),
    ensures
        is_orderly(model.timer_armed(kind, duration).timers),
        model.timer_armed(kind, duration).timers.blink_in_flight() <==> kind is Blink
            || model.timers.blink_in_flight(),
{
    law_armed_timer_has_its_place(model.timers, kind, duration);
}

/// After a start of the blink tick a visible bell blinks.
proof fn lemma_blink_start(model: StateModel)
    requires
        is_orderly(model.timers),
    ensures
        is_orderly(model.blink_started().timers),
        model.vis.visible && model.has_bell_tab()
            ==> model.blink_started().timers.blink_in_flight(),
        model.timers.blink_in_flight() ==> model.blink_started().timers == model.timers,
        model.blink_started() == (StateModel {
            timers: model.blink_started().timers,
            calls: model.blink_started().calls,
            ..model
        }),
{
    if !model.timers.blink_in_flight() {
        lemma_arming(model, TimerKind::Blink, BLINK_INTERVAL);
    }
}

/// Putting the indicators together makes visibility follow from them.
proof fn lemma_recompute(model: StateModel)
    requires
        is_orderly(model.timers),
        model.vis.visible && model.has_bell_tab() ==> model.timers.blink_in_flight(),
    ensures
        ({
            let seen = model.visibility_recomputed();
            &&& is_orderly(seen.timers)
            &&& seen.vis == (Visibility { visible: model.vis.shows(), ..model.vis })
            &&& seen.vis.visible && model.has_bell_tab() ==> seen.timers.blink_in_flight()
            &&& seen == (StateModel {
                vis: seen.vis,
                timers: seen.timers,
                calls: seen.calls,
                ..model
            })
        }),
{
    let seen = StateModel {
        vis: Visibility { visible: model.vis.shows(), ..model.vis },
        ..model
    };
    assert(seen.has_bell_tab() == model.has_bell_tab());
    lemma_blink_start(seen);
}

/// A change of the visibility indicators, put together, keeps the picker settled.
proof fn lemma_indicators_settle(model: StateModel, changed: StateModel)
    requires
        is_settled(model),
        changed == (StateModel { vis: changed.vis, calls: changed.calls, ..model }),
        changed.vis.visible == model.vis.visible,
    ensures
        is_settled(changed.visibility_recomputed()),
{
    assert(changed.has_bell_tab() == model.has_bell_tab());
    lemma_recompute(changed);
    let after = changed.visibility_recomputed();
    assert(after.has_bell_tab() == model.has_bell_tab());
}

pub proof fn lemma_tab_update_settles(model: StateModel, tabs: Seq<TabModel>)
    requires
        is_settled(model),
    ensures
        is_settled(model.tabs_updated(tabs).0),
{
    let float_visible = match first_where(tabs, crate::model::is_active()) {
        Some(tab) => tab.are_floating_panes_visible,
        None => false,
    };
    let seen = StateModel {
        vis: Visibility { host_visible: None, float_visible, ..model.vis },
        ..model
    };
    if model.tabs_received && model.tabs == tabs {
        lemma_indicators_settle(model, seen);
        let after = seen.visibility_recomputed();
        lemma_blink_start(after);
        assert(after.blink_started().has_bell_tab() == after.has_bell_tab());
    } else {
        let known = StateModel {
            tabs_received: true,
            tabs,
            access_counts: pruned(model.access_counts, tabs),
            ..seen
        };
        let listed = known.scores_refreshed();
        assert(listed.has_bell_tab() == known.has_bell_tab());
        // A bell may arrive with the update, before the tick is started.
        let shown = StateModel {
            vis: Visibility { visible: listed.vis.shows(), ..listed.vis },
            ..listed
        };
        lemma_blink_start(shown);
        let after = listed.visibility_recomputed();
        assert(is_orderly(after.timers));
        assert(after.has_bell_tab() == known.has_bell_tab());
        lemma_blink_start(after);
        assert(after.blink_started().has_bell_tab() == known.has_bell_tab());
        assert(listed.scored == results(listed.query, listed.tabs, listed.access_counts));
    }
}

proof fn lemma_pane_update_settles(model: StateModel, manifest: crate::tabs::PaneManifest)
    requires
        is_settled(model),
    ensures
        is_settled(model.panes_updated(manifest).0),
{
    if model.ready {
        match crate::model::own_pane(manifest.panes@, model.plugin_id) {
            Some((tab_position, pane)) => {
                let focused = pane.is_floating && !pane.is_suppressed && pane.is_focused;
                lemma_indicators_settle(model, model.focus_seen(focused));
                lemma_indicators_settle(model, model.pane_resized().focus_seen(focused));
            },
            None => {
                lemma_indicators_settle(model, model.focus_seen(false));
            },
        }
    }
}

proof fn lemma_timer_settles(model: StateModel, elapsed: u64)
    requires
        is_settled(model),
    ensures
        is_settled(model.timer_fired(elapsed).0),
{
    let rest = StateModel { timers: model.timers.resolved(elapsed), ..model };
    law_resolving_keeps_order(model.timers, elapsed);
    assert(rest.has_bell_tab() == model.has_bell_tab());
    match model.timers.resolved_kind(elapsed) {
        Some(TimerKind::Jump { generation }) => {
            assert(is_settled(rest));
            match rest.timed_jump(generation) {
                Some(position) => {
                    lemma_instant_jump_settles(rest, position);
                },
                None => {},
            }
        },
        Some(TimerKind::Blink) => {
            let lit = TimersModel { bell_blink_on: !rest.timers.bell_blink_on, ..rest.timers };
            let toggled = StateModel { timers: lit, ..rest };
            assert(!lit.blink_in_flight()) by {
                assert(lit.pending == rest.timers.pending);
                if lit.blink_in_flight() {
                    assert(rest.timers.blink_in_flight());
                }
            }
            assert(is_orderly(lit)) by {
                assert(lit.pending == rest.timers.pending);
            }
            lemma_arming(toggled, TimerKind::Blink, BLINK_INTERVAL);
            let after = rest.blinked().0;
            assert(after.has_bell_tab() == model.has_bell_tab());
            assert(rest.blinked().0.timers.pending == rest.timers.pending || rest.vis.visible
                && rest.has_bell_tab());
            if !(rest.vis.visible && rest.has_bell_tab()) {
                assert(is_orderly(after.timers)) by {
                    assert(after.timers.pending == rest.timers.pending);
                }
            }
        },
        None => {
            assert(rest == model);
        },
    }
}

proof fn lemma_without_trailing(s: Seq<char>, dropped: spec_fn(char) -> bool)
    ensures
        without_trailing(s, dropped).len() <= s.len(),
        without_trailing(s, dropped) == s.take(without_trailing(s, dropped).len() as int),
        without_trailing(s, dropped).len() > 0 ==> !dropped(without_trailing(s, dropped).last()),
        forall|i: int|
            without_trailing(s, dropped).len() <= i < s.len() ==> dropped(#[trigger] s[i]),
    decreases s.len(),
{
    if s.len() > 0 && dropped(s.last()) {
        let rest = s.drop_last();
        lemma_without_trailing(rest, dropped);
        let n = without_trailing(rest, dropped).len() as int;
        assert(rest.take(n) =~= s.take(n));
        assert forall|i: int| n <= i < s.len() implies dropped(#[trigger] s[i]) by {
            if i < s.len() - 1 {
                assert(rest[i] == s[i]);
            }
        }
    } else {
        assert(s.take(s.len() as int) =~= s);
    }
}

/// Deleting a word takes an end off the query: first the whitespace behind
/// the last word, then that word up to the whitespace before it.
pub proof fn law_word_deletion(query: Seq<char>)
    ensures
        ({
            let left = without_last_word(query);
            &&& left.len() <= query.len()
            &&& left == query.take(left.len() as int)
            &&& query.len() > 0 ==> left.len() < query.len()
            &&& left.len() > 0 ==> is_space(left.last())
            &&& exists|end: int| #[trigger] is_last_word(query, left.len() as int, end)
        }),
{
    let trimmed = without_trailing(query, |c: char| is_space(c));
    lemma_without_trailing(query, |c: char| is_space(c));
    lemma_without_trailing(trimmed, |c: char| !is_space(c));
    let left = without_last_word(query);
    assert(trimmed.take(left.len() as int) =~= query.take(left.len() as int));
    assert(is_last_word(query, left.len() as int, trimmed.len() as int)) by {
        assert forall|i: int| left.len() <= i < trimmed.len() implies !is_space(
            #[trigger] query[i],
        ) by {
            assert(trimmed[i] == query[i]);
        }
    }
    if trimmed.len() == query.len() && query.len() > 0 {
        assert(!is_space(query.last()));
        assert(trimmed =~= query);
    }
}

/// The word that is deleted ends somewhere, and only a query of nothing but
/// whitespace has none.
pub proof fn lemma_last_word(query: Seq<char>) -> (end: int)
    ensures
        is_last_word(query, without_last_word(query).len() as int, end),
        end == without_last_word(query).len() ==> end == 0,
{
    let trimmed = without_trailing(query, |c: char| is_space(c));
    lemma_without_trailing(query, |c: char| is_space(c));
    lemma_without_trailing(trimmed, |c: char| !is_space(c));
    let left = without_last_word(query);
    assert forall|i: int| left.len() <= i < trimmed.len() implies !is_space(#[trigger] query[i]) by {
        assert(trimmed[i] == query[i]);
    }
    if trimmed.len() == left.len() && left.len() > 0 {
        assert(left.last() == trimmed.last());
    }
    trimmed.len() as int
}

/// The chars from `start` to `end` are no whitespace, those behind are.
pub open spec fn is_last_word(query: Seq<char>, start: int, end: int) -> bool {
    &&& start <= end <= query.len()
    &&& forall|i: int| start <= i < end ==> !is_space(#[trigger] query[i])
    &&& forall|i: int| end <= i < query.len() ==> is_space(#[trigger] query[i])
}

proof fn lemma_selection_settles(model: StateModel, selected: usize)
    requires
        is_settled(model),
        selected == 0 || selected < model.scored.len(),
    ensures
        is_settled(StateModel { selected, ..model }),
{
    assert(StateModel { selected, ..model }.has_bell_tab() == model.has_bell_tab());
}

proof fn lemma_move_settles(model: StateModel, dir: Direction)
    requires
        is_settled(model),
        model.scored.len() <= usize::MAX,
    ensures
        is_settled(model.selection_moved(dir)),
{
    lemma_selection_settles(model, model.selection_moved(dir).selected);
}

proof fn lemma_digit_settles(model: StateModel, c: char)
    requires
        is_settled(model),
        is_digit(c),
        model.jump_pending_for(c),
        model.tabs.len() <= usize::MAX,
    ensures
        is_settled(model.digit_handled(c)),
{
    match model.completed_jump(c) {
        Some(position) => {
            lemma_instant_jump_settles(model, position);
        },
        None => {
            lemma_machine_digits(model.tabs.len() as usize);
            let buffer = model.query.push(c);
            lemma_longer_query(model.query, c);
            if buffer.len() + 1 == model.position_digits() {
                let fresh = StateModel { timers: model.timers.with_new_generation(), ..model };
                assert(fresh.timers.pending == model.timers.pending);
                assert(is_orderly(fresh.timers));
                assert(fresh.timers.blink_in_flight() == model.timers.blink_in_flight()) by {
                    assert(fresh.timers.pending == model.timers.pending);
                }
                let generation = model.timers.next_generation();
                lemma_arming(fresh, TimerKind::Jump { generation }, JUMP_TIMEOUT);
                let waiting = fresh.timer_armed(TimerKind::Jump { generation }, JUMP_TIMEOUT);
                assert(waiting.has_bell_tab() == model.has_bell_tab());
                lemma_query_change_settles(waiting, buffer);
            } else {
                lemma_query_change_settles(model, buffer);
            }
        },
    }
}

proof fn lemma_key_settles(model: StateModel, key: Key)
    requires
        is_settled(model),
        model.tabs.len() <= usize::MAX,
        model.scored.len() <= usize::MAX,
    ensures
        is_settled(model.key_handled(key).0),
{
    let query = model.query;
    lemma_hiding_settles(model);
    lemma_move_settles(model, Direction::Up);
    lemma_move_settles(model, Direction::Down);
    lemma_query_change_settles(model, seq![]);
    match key.bare_key {
        BareKey::Enter => {
            lemma_confirming_settles(model);
        },
        BareKey::Backspace => {
            if query.len() > 0 {
                assert(query.drop_last() =~= query.take(query.len() - 1));
                lemma_shorter_query(query, query.len() - 1, model.tabs);
                lemma_query_change_settles(model, query.drop_last());
            } else {
                lemma_query_change_settles(model, query);
            }
        },
        BareKey::Char(c) => {
            if key.has_ctrl {
                law_word_deletion(query);
                lemma_shorter_query(query, without_last_word(query).len() as int, model.tabs);
                lemma_query_change_settles(model, without_last_word(query));
            } else if !key.has_alt {
                if is_digit(c) && model.jump_pending_for(c) {
                    lemma_digit_settles(model, c);
                } else if !is_control(c) && query.len() < MAX_QUERY_CHARS {
                    lemma_longer_query(query, c);
                    lemma_query_change_settles(model, query.push(c));
                }
            }
        },
        _ => {},
    }
}

proof fn lemma_mouse_settles(model: StateModel, mouse: Mouse)
    requires
        is_settled(model),
        model.scored.len() <= usize::MAX,
    ensures
        is_settled(model.mouse_handled(mouse).0),
{
    match mouse {
        Mouse::ScrollUp => {
            lemma_selection_settles(model, model.selection_moved_by(Direction::Up, 1).0.selected);
        },
        Mouse::ScrollDown => {
            lemma_selection_settles(model, model.selection_moved_by(Direction::Down, 1).0.selected);
        },
        Mouse::LeftClick(line, column) => match model.row_at(line as int, column as int) {
            Some(row) => {
                lemma_confirming_settles(model);
                lemma_selection_settles(model, row as usize);
            },
            None => {},
        },
        Mouse::Other => {},
    }
}

/// Every event leaves a settled picker settled: the list is always the one
/// for the query, the tabs and their counts; the selection is a row of it; the
/// query never grows beyond its limit nor holds a control char; the timer
/// queue stays bounded with at most one blink tick; the picker is visible
/// exactly if its indicators say so; a visible bell always blinks; and no
/// count outlives its tab.
pub proof fn law_events_keep_the_picker_settled(model: StateModel, event: Event)
    requires
        is_settled(model),
        model.tabs.len() <= usize::MAX,
    ensures
        is_settled(model.updated(event).0),
{
    law_no_more_rows_than_tabs(model.query, model.tabs, model.access_counts);
    match event {
        Event::PermissionGranted { plugin_id } => {
            let granted = StateModel { plugin_id, ready: true, ..model }.pane_resized();
            assert(granted.has_bell_tab() == model.has_bell_tab());
        },
        Event::PermissionDenied => {
            assert(model.called(HostCall::CloseSelf).has_bell_tab() == model.has_bell_tab());
        },
        Event::TabUpdate(tabs) => {
            lemma_tab_update_settles(model, infos(tabs@));
        },
        Event::PaneUpdate(manifest) => {
            lemma_pane_update_settles(model, manifest);
        },
        Event::Key(key) => {
            lemma_key_settles(model, key);
        },
        Event::Mouse(mouse) => {
            lemma_mouse_settles(model, mouse);
        },
        Event::Timer(elapsed) => {
            lemma_timer_settles(model, elapsed);
        },
        Event::Visible(shown) => {
            let told = StateModel {
                vis: Visibility { host_visible: Some(shown), ..model.vis },
                ..model
            };
            lemma_indicators_settle(model, told);
        },
        Event::Other => {},
    }
}

/// Whatever the list and the timers, no key makes the query longer than its
/// limit or puts a control char into it, and none leaves the selection beside
/// the list.
pub proof fn law_keys_keep_query_and_selection(model: StateModel, key: Key)
    requires
        is_query(model.query),
        model.selected < model.scored.len() || model.selected == 0,
        model.scored.len() <= usize::MAX,
        model.tabs.len() <= usize::MAX,
    ensures
        ({
            let after = model.key_handled(key).0;
            &&& is_query(after.query)
            &&& after.selected < after.scored.len() || after.selected == 0
        }),
{
    let query = model.query;
    match key.bare_key {
        BareKey::Backspace => {
            if query.len() > 0 {
                lemma_shorter_query(query, query.len() - 1, seq![]);
                assert(query.drop_last() =~= query.take(query.len() - 1));
            }
        },
        BareKey::Char(c) => {
            if key.has_ctrl {
                law_word_deletion(query);
                let kept = without_last_word(query);
                lemma_shorter_query(query, kept.len() as int, seq![]);
                if model.scored.len() > 0 {
                    let len = model.scored.len() as int;
                    assert(0 <= (model.selected + 1) % len < len);
                }
            } else if !key.has_alt && !is_control(c) && query.len() < MAX_QUERY_CHARS {
                lemma_longer_query(query, c);
            }
            if is_digit(c) && model.jump_pending_for(c) {
                lemma_machine_digits(model.tabs.len() as usize);
                lemma_longer_query(query, c);
            }
        },
        BareKey::Down | BareKey::Tab => {
            if model.scored.len() > 0 {
                let len = model.scored.len() as int;
                assert(0 <= (model.selected + 1) % len < len);
            }
        },
        _ => {},
    }
}

proof fn lemma_recompute_keeps_timers(model: StateModel)
    requires
        is_orderly(model.timers),
    ensures
        is_orderly(model.visibility_recomputed().timers),
        is_orderly(model.visibility_recomputed().blink_started().timers),
{
    let seen = StateModel {
        vis: Visibility { visible: model.vis.shows(), ..model.vis },
        ..model
    };
    lemma_blink_start(seen);
    lemma_blink_start(model.visibility_recomputed());
}

proof fn lemma_hiding_keeps_timers(model: StateModel)
    requires
        is_orderly(model.timers),
    ensures
        is_orderly(model.hidden().timers),
{
    assert(model.hidden().timers.pending == model.timers.pending);
}

/// Whatever else the picker holds, no event makes the timer queue longer than
/// it has room for, and at most one blink tick is ever in flight.
pub proof fn law_events_keep_timers_orderly(model: StateModel, event: Event)
    requires
        is_orderly(model.timers),
    ensures
        is_orderly(model.updated(event).0.timers),
{
    lemma_hiding_keeps_timers(model);
    match event {
        Event::TabUpdate(tabs) => {
            let seen = StateModel {
                vis: Visibility {
                    host_visible: None,
                    float_visible: match first_where(infos(tabs@), is_active()) {
                        Some(tab) => tab.are_floating_panes_visible,
                        None => false,
                    },
                    ..model.vis
                },
                ..model
            };
            let known = StateModel {
                tabs_received: true,
                tabs: infos(tabs@),
                access_counts: pruned(model.access_counts, infos(tabs@)),
                ..seen
            };
            lemma_recompute_keeps_timers(seen);
            lemma_recompute_keeps_timers(known.scores_refreshed());
        },
        Event::PaneUpdate(manifest) => {
            let sized = model.pane_resized();
            lemma_recompute_keeps_timers(model.focus_seen(true));
            lemma_recompute_keeps_timers(model.focus_seen(false));
            lemma_recompute_keeps_timers(sized.focus_seen(true));
            lemma_recompute_keeps_timers(sized.focus_seen(false));
        },
        Event::Key(key) => {
            if let BareKey::Char(c) = key.bare_key {
                let fresh = StateModel { timers: model.timers.with_new_generation(), ..model };
                assert(fresh.timers.pending == model.timers.pending);
                let generation = model.timers.next_generation();
                lemma_arming(fresh, TimerKind::Jump { generation }, JUMP_TIMEOUT);
            }
        },
        Event::Timer(elapsed) => {
            law_resolving_keeps_order(model.timers, elapsed);
            let rest = StateModel { timers: model.timers.resolved(elapsed), ..model };
            lemma_hiding_keeps_timers(rest);
            if model.timers.resolved_kind(elapsed) == Some(TimerKind::Blink) {
                let toggled = StateModel {
                    timers: TimersModel {
                        bell_blink_on: !rest.timers.bell_blink_on,
                        ..rest.timers
                    },
                    ..rest
                };
                assert(toggled.timers.pending == rest.timers.pending);
                lemma_arming(toggled, TimerKind::Blink, BLINK_INTERVAL);
            }
        },
        Event::Visible(shown) => {
            let told = StateModel {
                vis: Visibility { host_visible: Some(shown), ..model.vis },
                ..model
            };
            lemma_recompute_keeps_timers(told);
        },
        _ => {},
    }
}

/// Drawing leaves a settled picker settled.
pub proof fn law_drawing_keeps_the_picker_settled(model: StateModel, rows: usize, cols: usize)
    requires
        is_settled(model),
    ensures
        is_settled(model.drawn(rows, cols)),
{
    assert(model.drawn(rows, cols).has_bell_tab() == model.has_bell_tab());
}

} // verus!
