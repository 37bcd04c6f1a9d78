//! What the picker's state is, and what each event makes of it.
use crate::events::{BareKey, Direction, Event, HostCall, Key, Mouse};
use crate::fuzzy::MAX_QUERY_CHARS;
use crate::layout::{ListArea, SizeCfg};
use crate::search::{access_count, can_search, results};
use crate::tabs::{PaneInfo, PaneManifest, Row, TabInfo, TabModel};
use crate::text::{decimal, is_control, is_digit, is_jump_buffer, is_space, parsed};
use crate::timers::{TimerKind, TimersModel, BLINK_INTERVAL, JUMP_TIMEOUT};
use vstd::prelude::*;

verus! {

/// Visibility of the picker, derived from independent indicators (see
/// `is_visible`):
///
/// - `pane_focused` (pane updates): the picker's pane is in the floating
///   layer and focused.
/// - `float_visible` (tab updates): the floating layer is shown in the
///   user's active tab. Flips to `false` when the user clicks into the tile
///   below without changing `pane_focused`, so `pane_focused` alone is not
///   sufficient.
/// - `host_visible` (visibility events): the host's own last word, if it
///   gave one. Not every host sends it to floating panes, and none sends it
///   when the picker hides itself or is reopened. Cleared by every tab or
///   pane update, which only reach a plugin whose tab is the active one, so a
///   missing word can never leave the picker stuck invisible.
///
/// A hidden picker receives no tab or pane update at all. Hiding therefore
/// resets these flags, and the reopen is detected as the rising edge of
/// `pane_focused`.
#[derive(Clone, Copy, Debug)]
pub struct Visibility {
    pub visible: bool,
    pub pane_focused: bool,
    pub float_visible: bool,
    pub host_visible: Option<bool>,
}

impl Visibility {
    pub open spec fn none() -> Visibility {
        Visibility { visible: false, pane_focused: false, float_visible: false, host_visible: None }
    }

    /// Both local indicators say so and the host did not say otherwise.
    pub open spec fn shows(self) -> bool {
        self.pane_focused && self.float_visible && self.host_visible != Some(false)
    }

    /// Visible when both local indicators say so and the host did not
    /// explicitly say otherwise.
    pub fn is_visible(&self) -> (visible: bool)
        ensures
            visible == self.shows(),
    {
        let vetoed: bool = match self.host_visible {
            Some(shown) => !shown,
            None => false,
        };
        self.pane_focused && self.float_visible && !vetoed
    }
}

impl Default for Visibility {
    /// Invisible, with no word from the host.
    fn default() -> (vis: Visibility)
        ensures
            vis == Visibility::none(),
    {
        Visibility { visible: false, pane_focused: false, float_visible: false, host_visible: None }
    }
}

/// The first element of `s` that is wanted.
pub open spec fn first_where<T>(s: Seq<T>, wanted: spec_fn(T) -> bool) -> Option<T>
    decreases s.len(),
{
    if s.len() == 0 {
        None
    } else if wanted(s[0]) {
        Some(s[0])
    } else {
        first_where(s.drop_first(), wanted)
    }
}

pub proof fn lemma_first_where<T>(s: Seq<T>, wanted: spec_fn(T) -> bool, i: int)
    requires
        0 <= i < s.len(),
        wanted(s[i]),
        forall|k: int| 0 <= k < i ==> !wanted(#[trigger] s[k]),
    ensures
        first_where(s, wanted) == Some(s[i]),
    decreases i,
{
    if i > 0 {
        assert(!wanted(s[0]));
        assert forall|k: int| 0 <= k < i - 1 implies !wanted(#[trigger] s.drop_first()[k]) by {
            assert(s.drop_first()[k] == s[k + 1]);
        }
        lemma_first_where(s.drop_first(), wanted, i - 1);
    }
}

pub proof fn lemma_nowhere<T>(s: Seq<T>, wanted: spec_fn(T) -> bool)
    requires
        forall|k: int| 0 <= k < s.len() ==> !wanted(#[trigger] s[k]),
    ensures
        first_where(s, wanted) is None,
    decreases s.len(),
{
    if s.len() > 0 {
        assert(!wanted(s[0]));
        assert forall|k: int| 0 <= k < s.len() - 1 implies !wanted(#[trigger] s.drop_first()[k]) by {
            assert(s.drop_first()[k] == s[k + 1]);
        }
        lemma_nowhere(s.drop_first(), wanted);
    }
}

/// The tab is the active one.
pub open spec fn is_active() -> spec_fn(TabModel) -> bool {
    |tab: TabModel| tab.active
}

/// The tab stands at this position, counted from 0.
pub open spec fn at_position(position: int) -> spec_fn(TabModel) -> bool {
    |tab: TabModel| tab.position == position
}

/// The pane is the plugin pane with this id.
pub open spec fn is_own_pane(plugin_id: u32) -> spec_fn(PaneInfo) -> bool {
    |pane: PaneInfo| pane.is_plugin && pane.id == plugin_id
}

/// The picker's own pane and the position of its tab, by the first tab that
/// holds it.
pub open spec fn own_pane(tabs: Seq<(usize, Vec<PaneInfo>)>, plugin_id: u32) -> Option<
    (usize, PaneInfo),
>
    decreases tabs.len(),
{
    if tabs.len() == 0 {
        None
    } else {
        match first_where(tabs[0].1@, is_own_pane(plugin_id)) {
            Some(pane) => Some((tabs[0].0, pane)),
            None => own_pane(tabs.drop_first(), plugin_id),
        }
    }
}

/// `s` without the chars at its end for which `dropped` holds.
pub open spec fn without_trailing(s: Seq<char>, dropped: spec_fn(char) -> bool) -> Seq<char>
    decreases s.len(),
{
    if s.len() > 0 && dropped(s.last()) {
        without_trailing(s.drop_last(), dropped)
    } else {
        s
    }
}

/// A query without its last word and the whitespace after it.
pub open spec fn without_last_word(query: Seq<char>) -> Seq<char> {
    without_trailing(
        without_trailing(query, |c: char| is_space(c)),
        |c: char| !is_space(c),
    )
}

/// The counts of the tabs that exist.
pub open spec fn pruned(counts: Map<usize, u64>, tabs: Seq<TabModel>) -> Map<usize, u64> {
    counts.restrict(Set::new(|id: usize| is_live(tabs, id)))
}

pub open spec fn is_live(tabs: Seq<TabModel>, tab_id: usize) -> bool {
    exists|i: int| 0 <= i < tabs.len() && (#[trigger] tabs[i]).tab_id == tab_id
}

/// A selection inside a list of `len` rows.
pub open spec fn clamped(selected: usize, len: nat) -> usize {
    if len == 0 {
        0
    } else if selected >= len {
        (len - 1) as usize
    } else {
        selected
    }
}

/// The tabs of a tab update.
pub open spec fn infos(tabs: Seq<TabInfo>) -> Seq<TabModel> {
    tabs.map_values(|tab: TabInfo| tab@)
}

/// What the picker's state holds.
#[verifier::ext_equal]
pub struct StateModel {
    pub tabs: Seq<TabModel>,
    pub tabs_received: bool,
    pub query: Seq<char>,
    pub selected: usize,
    pub scroll_offset: usize,
    pub scored: Seq<Row>,
    pub size: SizeCfg,
    pub ready: bool,
    pub plugin_id: u32,
    pub timers: TimersModel,
    pub vis: Visibility,
    pub list_area: Option<ListArea>,
    pub access_counts: Map<usize, u64>,
    pub calls: Seq<HostCall>,
}

impl StateModel {
    /// No tabs known, nothing typed, not ready.
    pub open spec fn initial() -> StateModel {
        StateModel {
            tabs: seq![],
            tabs_received: false,
            query: seq![],
            selected: 0,
            scroll_offset: 0,
            scored: seq![],
            size: SizeCfg { cols: 60, rows: 20 },
            ready: false,
            plugin_id: 0,
            timers: TimersModel { bell_blink_on: false, pending: seq![], jump_generation: 0 },
            vis: Visibility::none(),
            list_area: None,
            access_counts: Map::empty(),
            calls: seq![],
        }
    }

    /// After one more call to the host.
    pub open spec fn called(self, call: HostCall) -> StateModel {
        StateModel { calls: self.calls.push(call), ..self }
    }

    /// At least one tab has a bell notification.
    pub open spec fn has_bell_tab(self) -> bool {
        exists|i: int| 0 <= i < self.tabs.len() && (#[trigger] self.tabs[i]).has_bell_notification
    }

    /// A host timer was requested and recorded.
    pub open spec fn timer_armed(self, kind: TimerKind, duration: u64) -> StateModel {
        StateModel { timers: self.timers.armed(kind, duration), ..self }.called(
            HostCall::SetTimeout(duration),
        )
    }

    /// The bell-blink tick was started, if the picker is visible, a bell tab
    /// exists and no tick is in flight.
    pub open spec fn blink_started(self) -> StateModel {
        if !self.vis.visible || !self.has_bell_tab() || self.timers.blink_in_flight() {
            self
        } else {
            self.timer_armed(TimerKind::Blink, BLINK_INTERVAL)
        }
    }

    /// The indicators make the picker visible now, and it was not before.
    pub open spec fn becomes_visible(self) -> bool {
        !self.vis.visible && self.vis.shows()
    }

    /// The indicators were put together anew.
    pub open spec fn visibility_recomputed(self) -> StateModel {
        let seen = StateModel {
            vis: Visibility { visible: self.vis.shows(), ..self.vis },
            ..self
        };
        if self.becomes_visible() {
            seen.blink_started()
        } else {
            seen
        }
    }

    /// The list and the selection follow from the query, the tabs and the counts.
    pub open spec fn scores_refreshed(self) -> StateModel {
        let list = results(self.query, self.tabs, self.access_counts);
        StateModel { scored: list, selected: clamped(self.selected, list.len()), ..self }
    }

    /// The query was changed to this one: the list starts over.
    pub open spec fn query_changed(self, query: Seq<char>) -> StateModel {
        StateModel { query, selected: 0, scroll_offset: 0, ..self }.scores_refreshed()
    }

    /// The picker was closed: everything starts over but for the tabs, the
    /// counts and the timers in flight, and pending quickjumps are void.
    pub open spec fn hidden(self) -> StateModel {
        let cleared = self.query_changed(seq![]);
        StateModel {
            vis: Visibility::none(),
            timers: TimersModel {
                bell_blink_on: false,
                ..self.timers.with_new_generation()
            },
            ..cleared
        }.called(HostCall::HideSelf)
    }

    /// A jump to a tab was counted.
    pub open spec fn access_recorded(self, tab_id: usize) -> StateModel {
        StateModel {
            access_counts: self.access_counts.insert(
                tab_id,
                (access_count(self.access_counts, tab_id) + 1) as u64,
            ),
            ..self
        }
    }

    /// The count that goes up by an event, if any, can go up.
    pub open spec fn has_room_for(self, counted: Option<usize>) -> bool {
        counted matches Some(tab_id) ==> access_count(self.access_counts, tab_id) < u64::MAX
    }

    /// The tab that confirming the selected row counts.
    pub open spec fn counted_by_selection(self) -> Option<usize> {
        if self.selected < self.scored.len() && self.scored[self.selected as int].tab.position + 1
            <= u32::MAX {
            Some(self.scored[self.selected as int].tab.tab_id)
        } else {
            None
        }
    }

    /// The tab that a jump to a position, counted from 1, counts.
    pub open spec fn counted_by_jump(self, position: u32) -> Option<usize> {
        match self.tab_at(position) {
            Some(tab) => if tab.active {
                None
            } else {
                Some(tab.tab_id)
            },
            None => None,
        }
    }

    /// The tab that a digit of a quickjump counts.
    pub open spec fn counted_by_digit(self, c: char) -> Option<usize> {
        match self.completed_jump(c) {
            Some(position) => self.counted_by_jump(position),
            None => None,
        }
    }

    /// The tab that a mouse event counts.
    pub open spec fn counted_by_mouse(self, mouse: Mouse) -> Option<usize> {
        match mouse {
            Mouse::LeftClick(line, column) => if self.row_at(line as int, column as int) == Some(
                self.selected as int,
            ) {
                self.counted_by_selection()
            } else {
                None
            },
            _ => None,
        }
    }

    /// The tab that a quickjump timeout of a generation counts.
    pub open spec fn counted_by_timeout(self, generation: u32) -> Option<usize> {
        match self.timed_jump(generation) {
            Some(position) => self.counted_by_jump(position),
            None => None,
        }
    }

    /// The tab that a timer event counts.
    pub open spec fn counted_by_timer(self, elapsed: u64) -> Option<usize> {
        match self.timers.resolved_kind(elapsed) {
            Some(TimerKind::Jump { generation }) => self.counted_by_timeout(generation),
            _ => None,
        }
    }

    /// The key press is the next digit of a quickjump buffer.
    pub open spec fn types_jump_digit(self, key: Key, c: char) -> bool {
        !key.has_ctrl && !key.has_alt && is_digit(c) && self.jump_pending_for(c)
    }

    /// The digit can be taken: it jumps, or nucleo takes the buffer as a query.
    pub open spec fn accepts_digit(self, c: char) -> bool {
        self.has_room_for(self.counted_by_digit(c)) && (self.completed_jump(c) is Some
            || can_search(self.query.push(c), self.tabs))
    }

    /// The key press can be taken: the jump that it makes can be counted, and
    /// nucleo takes the query that it makes.
    pub open spec fn accepts_key(self, key: Key) -> bool {
        match key.bare_key {
            BareKey::Enter => self.has_room_for(self.counted_by_selection()),
            BareKey::Char(c) => if key.has_ctrl || key.has_alt {
                true
            } else if self.types_jump_digit(key, c) {
                self.accepts_digit(c)
            } else {
                is_control(c) || self.query.len() >= MAX_QUERY_CHARS || can_search(
                    self.query.push(c),
                    self.tabs,
                )
            },
            _ => true,
        }
    }

    /// The event stays within the limits of the machine and of nucleo: the
    /// jump that it makes can be counted, and nucleo takes the query and the
    /// tabs that it makes.
    pub open spec fn accepts(self, event: Event) -> bool {
        match event {
            Event::TabUpdate(tabs) => can_search(self.query, infos(tabs@)),
            Event::Key(key) => !self.ready || self.accepts_key(key),
            Event::Mouse(mouse) => !self.ready || self.has_room_for(self.counted_by_mouse(mouse)),
            Event::Timer(elapsed) => self.has_room_for(self.counted_by_timer(elapsed)),
            _ => true,
        }
    }

    /// The picker switched to a tab, counted from 1, and closed.
    pub open spec fn switched(self, position: u32, tab_id: usize) -> StateModel {
        self.called(HostCall::SwitchTab(position)).access_recorded(tab_id).hidden()
    }

    /// The selected row was confirmed. Closes the picker also when there is
    /// none, or when its position is beyond what the host takes.
    pub open spec fn jumped_to_selected(self) -> StateModel {
        if self.selected < self.scored.len() && self.scored[self.selected as int].tab.position + 1
            <= u32::MAX {
            let tab = self.scored[self.selected as int].tab;
            self.switched((tab.position + 1) as u32, tab.tab_id)
        } else {
            self.hidden()
        }
    }

    /// The tab at a position that counts from 1.
    pub open spec fn tab_at(self, position: u32) -> Option<TabModel> {
        first_where(self.tabs, at_position(position - 1))
    }

    /// A jump to a position, counted from 1: the picker closes if there is
    /// a tab, and switches to it unless it is the active one.
    pub open spec fn instantly_jumped(self, position: u32) -> StateModel {
        match self.tab_at(position) {
            Some(tab) => if tab.active {
                self.hidden()
            } else {
                self.switched(position, tab.tab_id)
            },
            None => self,
        }
    }

    /// The most digits that a tab position has.
    pub open spec fn position_digits(self) -> nat {
        decimal(self.tabs.len()).len()
    }

    /// A digit is the next one of a quickjump buffer.
    pub open spec fn jump_pending_for(self, c: char) -> bool {
        if self.query.len() == 0 {
            c != '0'
        } else {
            is_jump_buffer(self.query) && self.query.len() < self.position_digits()
        }
    }

    /// The position that a digit completes, if it is the last one that a
    /// position can have and the position exists.
    pub open spec fn completed_jump(self, c: char) -> Option<u32> {
        let buffer = self.query.push(c);
        if buffer.len() < self.position_digits() {
            None
        } else {
            match parsed(buffer, u32::MAX as nat) {
                Some(position) => if self.tab_at(position as u32) is Some {
                    Some(position as u32)
                } else {
                    None
                },
                None => None,
            }
        }
    }

    /// A digit was typed in quickjump mode: the last digit jumps at once;
    /// the one before it starts the timeout. Short of a jump the buffer is
    /// the query.
    pub open spec fn digit_handled(self, c: char) -> StateModel {
        let buffer = self.query.push(c);
        match self.completed_jump(c) {
            Some(position) => self.instantly_jumped(position),
            None => {
                let waiting = if buffer.len() + 1 == self.position_digits() {
                    StateModel { timers: self.timers.with_new_generation(), ..self }.timer_armed(
                        TimerKind::Jump { generation: self.timers.next_generation() },
                        JUMP_TIMEOUT,
                    )
                } else {
                    self
                };
                waiting.query_changed(buffer)
            },
        }
    }

    /// The keyboard moved the selection by one row, wrapping around.
    pub open spec fn selection_moved(self, dir: Direction) -> StateModel {
        let len = self.scored.len();
        let selected: int = if len == 0 {
            0
        } else {
            match dir {
                Direction::Down => (self.selected + 1) % len as int,
                Direction::Up => if self.selected == 0 {
                    len - 1
                } else {
                    self.selected - 1
                },
            }
        };
        StateModel { selected: selected as usize, ..self }
    }

    /// The row that the selection reaches by `count` rows without wrapping.
    pub open spec fn selection_target(self, dir: Direction, count: usize) -> usize {
        match dir {
            Direction::Up => if self.selected >= count {
                (self.selected - count) as usize
            } else {
                0
            },
            Direction::Down => if self.selected + count < self.scored.len() {
                (self.selected + count) as usize
            } else {
                (self.scored.len() - 1) as usize
            },
        }
    }

    /// The wheel moved the selection by `count` rows, clamped at both ends;
    /// the flag says whether it moved.
    pub open spec fn selection_moved_by(self, dir: Direction, count: usize) -> (StateModel, bool) {
        if self.scored.len() == 0 {
            (self, false)
        } else {
            let target = self.selection_target(dir, count);
            (StateModel { selected: target, ..self }, target != self.selected)
        }
    }

    /// The row of the list under a position of the pane, by the geometry of
    /// the last render.
    pub open spec fn row_at(self, line: int, column: int) -> Option<int> {
        match self.list_area {
            Some(area) => {
                let row = self.scroll_offset + (line - area.top);
                if area.top <= line < area.top + area.rows && area.left <= column < area.left
                    + area.width && row < self.scored.len() {
                    Some(row)
                } else {
                    None
                }
            },
            None => None,
        }
    }

    /// A mouse event was handled.
    pub open spec fn mouse_handled(self, mouse: Mouse) -> (StateModel, bool) {
        match mouse {
            Mouse::ScrollUp => self.selection_moved_by(Direction::Up, 1),
            Mouse::ScrollDown => self.selection_moved_by(Direction::Down, 1),
            Mouse::LeftClick(line, column) => match self.row_at(line as int, column as int) {
                Some(row) => if row == self.selected {
                    (self.jumped_to_selected(), true)
                } else {
                    (StateModel { selected: row as usize, ..self }, true)
                },
                None => (self, false),
            },
            Mouse::Other => (self, false),
        }
    }

    /// A key press was handled; the flag asks for a render.
    pub open spec fn key_handled(self, key: Key) -> (StateModel, bool) {
        match key.bare_key {
            BareKey::Esc => (self.hidden(), true),
            BareKey::Enter => (self.jumped_to_selected(), true),
            BareKey::Up => (self.selection_moved(Direction::Up), true),
            BareKey::Down | BareKey::Tab => (self.selection_moved(Direction::Down), true),
            BareKey::Backspace => (
                self.query_changed(
                    if self.query.len() == 0 {
                        self.query
                    } else {
                        self.query.drop_last()
                    },
                ),
                true,
            ),
            BareKey::Char(c) => if key.has_ctrl {
                if c == 'c' || c == 'g' {
                    (self.hidden(), true)
                } else if c == 'p' || c == 'k' {
                    (self.selection_moved(Direction::Up), true)
                } else if c == 'n' || c == 'j' {
                    (self.selection_moved(Direction::Down), true)
                } else if c == 'w' {
                    (self.query_changed(without_last_word(self.query)), true)
                } else if c == 'u' {
                    (self.query_changed(seq![]), true)
                } else {
                    (self, false)
                }
            } else if key.has_alt {
                (self, false)
            } else if is_digit(c) && self.jump_pending_for(c) {
                (self.digit_handled(c), true)
            } else if is_control(c) || self.query.len() >= MAX_QUERY_CHARS {
                (self, false)
            } else {
                (self.query_changed(self.query.push(c)), true)
            },
            BareKey::Other => (self, false),
        }
    }

    /// The tabs of the session were reported.
    pub open spec fn tabs_updated(self, tabs: Seq<TabModel>) -> (StateModel, bool) {
        let seen = StateModel {
            vis: Visibility {
                host_visible: None,
                float_visible: match first_where(tabs, is_active()) {
                    Some(tab) => tab.are_floating_panes_visible,
                    None => false,
                },
                ..self.vis
            },
            ..self
        };
        if self.tabs_received && self.tabs == tabs {
            (seen.visibility_recomputed().blink_started(), seen.becomes_visible())
        } else {
            let known = StateModel {
                tabs_received: true,
                tabs,
                access_counts: pruned(self.access_counts, tabs),
                ..seen
            };
            (known.scores_refreshed().visibility_recomputed().blink_started(), true)
        }
    }

    /// The target geometry was sent to the host.
    pub open spec fn pane_resized(self) -> StateModel {
        self.called(
            HostCall::ResizePane {
                plugin_id: self.plugin_id,
                cols: self.size.cols,
                rows: self.size.rows,
            },
        ).called(HostCall::SetBorderless { plugin_id: self.plugin_id })
    }

    /// A pane of this size in the tab at this position should get the target
    /// size again: it is larger than the target in some dimension, or it is
    /// off the target and the target fits the tab's viewport.
    pub open spec fn wants_resize(self, tab_position: usize, cols: usize, rows: usize) -> bool {
        if cols == self.size.cols && rows == self.size.rows {
            false
        } else if cols > self.size.cols || rows > self.size.rows {
            true
        } else {
            match first_where(self.tabs, at_position(tab_position as int)) {
                Some(tab) => self.size.cols <= tab.viewport_columns && self.size.rows
                    <= tab.viewport_rows,
                None => false,
            }
        }
    }

    /// The panes of the session were reported.
    pub open spec fn panes_updated(self, manifest: PaneManifest) -> (StateModel, bool) {
        if !self.ready {
            (self, false)
        } else {
            match own_pane(manifest.panes@, self.plugin_id) {
                Some((tab_position, pane)) => {
                    let focused = pane.is_floating && !pane.is_suppressed && pane.is_focused;
                    let reappeared = focused && !self.vis.pane_focused;
                    let sized = if pane.is_floating && (reappeared || self.wants_resize(
                        tab_position,
                        pane.pane_columns,
                        pane.pane_rows,
                    )) {
                        self.pane_resized()
                    } else {
                        self
                    };
                    let seen = sized.focus_seen(focused);
                    (seen.visibility_recomputed(), seen.becomes_visible())
                },
                None => {
                    let seen = self.focus_seen(false);
                    (seen.visibility_recomputed(), seen.becomes_visible())
                },
            }
        }
    }

    /// A pane update said whether the picker is focused.
    pub open spec fn focus_seen(self, focused: bool) -> StateModel {
        StateModel {
            vis: Visibility { host_visible: None, pane_focused: focused, ..self.vis },
            ..self
        }
    }

    /// The host said whether the picker is visible.
    pub open spec fn shown(self, shown: bool) -> (StateModel, bool) {
        let told = StateModel {
            vis: Visibility { host_visible: Some(shown), ..self.vis },
            ..self
        };
        (told.visibility_recomputed(), told.becomes_visible())
    }

    /// A bell-blink tick: toggles the background and goes on while the
    /// picker is visible and a bell tab exists; otherwise the loop ends.
    pub open spec fn blinked(self) -> (StateModel, bool) {
        if self.vis.visible && self.has_bell_tab() {
            (
                StateModel {
                    timers: TimersModel {
                        bell_blink_on: !self.timers.bell_blink_on,
                        ..self.timers
                    },
                    ..self
                }.timer_armed(TimerKind::Blink, BLINK_INTERVAL),
                true,
            )
        } else {
            (
                StateModel {
                    timers: TimersModel { bell_blink_on: false, ..self.timers },
                    ..self
                },
                false,
            )
        }
    }

    /// The position that a quickjump timeout of a generation goes to: that of
    /// the buffered digits, unless the timeout is void, the picker is not
    /// shown, or there is no such tab.
    pub open spec fn timed_jump(self, generation: u32) -> Option<u32> {
        if generation != self.timers.jump_generation || !self.ready || !self.vis.visible
            || !is_jump_buffer(self.query) {
            None
        } else {
            match parsed(self.query, u32::MAX as nat) {
                Some(position) => if self.tab_at(position as u32) is Some {
                    Some(position as u32)
                } else {
                    None
                },
                None => None,
            }
        }
    }

    /// A quickjump timeout was over.
    pub open spec fn jump_timed_out(self, generation: u32) -> (StateModel, bool) {
        match self.timed_jump(generation) {
            Some(position) => (self.instantly_jumped(position), true),
            None => (self, false),
        }
    }

    /// A timer fired.
    pub open spec fn timer_fired(self, elapsed: u64) -> (StateModel, bool) {
        let rest = StateModel { timers: self.timers.resolved(elapsed), ..self };
        match self.timers.resolved_kind(elapsed) {
            Some(TimerKind::Jump { generation }) => rest.jump_timed_out(generation),
            Some(TimerKind::Blink) => rest.blinked(),
            None => (rest, false),
        }
    }

    /// An event of the host was handled; the flag asks for a render.
    pub open spec fn updated(self, event: Event) -> (StateModel, bool) {
        match event {
            Event::PermissionGranted { plugin_id } => (
                StateModel { plugin_id, ready: true, ..self }.pane_resized(),
                true,
            ),
            Event::PermissionDenied => (self.called(HostCall::CloseSelf), false),
            Event::TabUpdate(tabs) => self.tabs_updated(infos(tabs@)),
            Event::PaneUpdate(manifest) => self.panes_updated(manifest),
            Event::Key(key) => if self.ready {
                self.key_handled(key)
            } else {
                (self, false)
            },
            Event::Mouse(mouse) => if self.ready {
                self.mouse_handled(mouse)
            } else {
                (self, false)
            },
            Event::Timer(elapsed) => self.timer_fired(elapsed),
            Event::Visible(shown) => self.shown(shown),
            Event::Other => (self, false),
        }
    }
}

} // verus!
