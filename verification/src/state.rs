//! The picker: its state and how it answers the host's events.
use crate::events::{BareKey, Direction, Event, HostCall, Key, Mouse};
use crate::fuzzy::{
    is_name_len, lemma_takes_less, nucleo_takes, takes_name_len, takes_pair, FuzzyMatcher,
    MAX_QUERY_CHARS,
};
use crate::layout::{ListArea, SizeCfg};
use crate::model::{
    at_position, clamped, first_where, infos, is_active, is_live, is_own_pane, lemma_first_where,
    lemma_nowhere, own_pane, pruned, without_last_word, without_trailing, StateModel, Visibility,
};
use crate::search::{
    access_count, can_search, count_of, frequency_list, fuzzy_hits, hits_view, list_tabs,
    match_list, nucleo_hits, rank_matches,
};
use crate::state_laws::law_word_deletion;
use crate::tabs::{rows_of, tab_models, PaneInfo, PaneManifest, Scored, TabEntry, TabInfo, TabModel};
use crate::text::{
    char_is_control, char_is_digit, chars_of, digit_count, is_control, is_pending_jump_buffer,
    is_space, lemma_machine_digits, parse_decimal, parsed,
};
use crate::timers::{TimerKind, Timers, BLINK_INTERVAL, JUMP_TIMEOUT};
use std::collections::BTreeMap;
use vstd::prelude::*;

verus! {

pub struct State {
    pub tabs: Vec<TabEntry>,
    /// True once the first tab update arrived: before that an empty list
    /// means "not yet known", not "no tabs".
    pub tabs_received: bool,
    pub query: String,
    pub selected: usize,
    pub scroll_offset: usize,
    pub matcher: FuzzyMatcher,
    pub scored: Vec<Scored>,
    pub size: SizeCfg,
    /// True once the permissions were granted: gates keys and pane updates.
    pub ready: bool,
    /// The picker's own pane id.
    pub plugin_id: u32,
    pub timers: Timers,
    pub vis: Visibility,
    /// List geometry of the last render, for mouse hit-testing. `None` while
    /// the picker is not drawn (not ready, or the pane is too small).
    pub list_area: Option<ListArea>,
    /// How often each tab was jumped to, by its id. Pruned to live tabs on
    /// each tab update.
    pub access_counts: BTreeMap<usize, u64>,
    /// What is to be asked of the host, in this order.
    pub calls: Vec<HostCall>,
}

impl View for State {
    type V = StateModel;

    open spec fn view(&self) -> StateModel {
        StateModel {
            tabs: tab_models(self.tabs@),
            tabs_received: self.tabs_received,
            query: self.query@,
            selected: self.selected,
            scroll_offset: self.scroll_offset,
            scored: rows_of(self.scored@),
            size: self.size,
            ready: self.ready,
            plugin_id: self.plugin_id,
            timers: self.timers@,
            vis: self.vis,
            list_area: self.list_area,
            access_counts: self.access_counts@,
            calls: self.calls@,
        }
    }
}

/// A query that the prompt and nucleo can take: no control chars, which
/// could break the row's escape sequences, and at most `MAX_QUERY_CHARS` chars.
pub open spec fn is_query(query: Seq<char>) -> bool {
    query.len() <= MAX_QUERY_CHARS && is_printable(query)
}

/// A text without control chars.
pub open spec fn is_printable(text: Seq<char>) -> bool {
    forall|i: int| 0 <= i < text.len() ==> !is_control(#[trigger] text[i])
}

pub open spec fn all_prepared(tabs: Seq<TabEntry>) -> bool {
    forall|i: int| 0 <= i < tabs.len() ==> (#[trigger] tabs[i]).wf()
}

impl State {
    /// The tabs are prepared for matching, the query is one that can be
    /// searched for in them, and the row below the selection has a number.
    pub open spec fn wf(&self) -> bool {
        &&& all_prepared(self.tabs@)
        &&& is_query(self.query@)
        &&& can_search(self.query@, tab_models(self.tabs@))
        &&& self.selected < usize::MAX
    }

    /// True when at least one tab has a bell notification.
    pub fn has_bell_tab(&self) -> (found: bool)
        ensures
            found == self@.has_bell_tab(),
    {
        let mut i: usize = 0;
        while i < self.tabs.len()
            invariant
                i <= self.tabs.len(),
                forall|k: int| 0 <= k < i ==> !(#[trigger] self@.tabs[k]).has_bell_notification,
            decreases self.tabs.len() - i,
        {
            assert(self@.tabs[i as int] == self.tabs@[i as int].info@);
            if self.tabs[i].info.has_bell_notification {
                return true;
            }
            i += 1;
        }
        false
    }

    /// Requests a host timer and records what it is for.
    pub fn arm_timer(&mut self, kind: TimerKind, duration: u64)
        ensures
            old(self).wf() ==> final(self).wf(),
            final(self)@ == old(self)@.timer_armed(kind, duration),
    {
        self.timers.armed(kind, duration);
        self.calls.push(HostCall::SetTimeout(duration));
    }

    /// Starts the bell-blink tick when the picker is visible, a bell tab
    /// exists, and no tick is already in flight.
    pub fn start_blink_if_needed(&mut self)
        ensures
            old(self).wf() ==> final(self).wf(),
            final(self)@ == old(self)@.blink_started(),
    {
        if !self.vis.visible || !self.has_bell_tab() || self.timers.blink_in_flight() {
            return;
        }
        self.arm_timer(TimerKind::Blink, BLINK_INTERVAL);
    }

    /// Recomputes `visible` from the independent indicators and starts the
    /// blink loop on a `false` to `true` transition; returns whether that
    /// transition happened (callers re-render on it). The `true` to `false`
    /// transition needs no action of its own: each timer tick checks at
    /// schedule time whether it should still run.
    pub fn recompute_visibility(&mut self) -> (became_visible: bool)
        ensures
            old(self).wf() ==> final(self).wf(),
            final(self)@ == old(self)@.visibility_recomputed(),
            became_visible == old(self)@.becomes_visible(),
    {
        let new_visible: bool = self.vis.is_visible();
        let became_visible: bool = !self.vis.visible && new_visible;
        self.vis.visible = new_visible;
        if became_visible {
            self.start_blink_if_needed();
        }
        became_visible
    }

    /// Keeps the selection inside the list.
    pub fn clamp_selection(&mut self)
        ensures
            old(self).wf() ==> final(self).wf(),
            final(self)@ == (StateModel {
                selected: clamped(old(self).selected, old(self).scored@.len()),
                ..old(self)@
            }),
    {
        if self.scored.len() == 0 {
            self.selected = 0;
        } else if self.selected >= self.scored.len() {
            self.selected = self.scored.len() - 1;
        }
    }

    /// Empty query: every tab except the active one (that is the header),
    /// most-used first, then by position.
    pub fn list_by_frequency(&mut self)
        ensures
            old(self).wf() ==> final(self).wf(),
            final(self)@ == (StateModel {
                scored: frequency_list(old(self)@.tabs, old(self)@.access_counts),
                ..old(self)@
            }),
    {
        self.scored = list_tabs(&self.tabs, &self.access_counts);
    }

    /// Non-empty query: nucleo over every tab except the active one, then
    /// the typo-tolerant pass over what nucleo rejected; best match first.
    pub fn search(&mut self)
        requires
            old(self).wf(),
        ensures
            final(self).wf(),
            final(self)@ == (StateModel {
                scored: match_list(
                    old(self)@.query,
                    old(self)@.tabs,
                    nucleo_hits(old(self)@.query, old(self)@.tabs),
                ),
                ..old(self)@
            }),
    {
        let hits: Vec<Option<(u32, Vec<u32>)>> = fuzzy_hits(
            &mut self.matcher,
            self.query.as_str(),
            &self.tabs,
        );
        assert(hits_view(hits@).len() == self.tabs@.len());
        self.scored = rank_matches(self.query.as_str(), &self.tabs, &hits);
    }

    /// Rebuilds `scored` for the current query: the unfiltered list in
    /// frequency order when the query is empty, the search otherwise.
    pub fn refresh_scores(&mut self)
        requires
            old(self).wf(),
        ensures
            final(self).wf(),
            final(self)@ == old(self)@.scores_refreshed(),
    {
        if self.query.as_str().unicode_len() == 0 {
            self.list_by_frequency();
        } else {
            self.search();
        }
        self.clamp_selection();
    }

    /// The query is another one now: the list starts over.
    pub fn query_changed(&mut self)
        requires
            old(self).wf(),
        ensures
            final(self).wf(),
            final(self)@ == old(self)@.query_changed(old(self)@.query),
    {
        self.selected = 0;
        self.scroll_offset = 0;
        self.refresh_scores();
    }

    /// Closes the picker. Clears the query for the next open cycle; the tabs
    /// and the counts persist.
    pub fn hide_picker(&mut self)
        requires
            old(self).wf(),
        ensures
            final(self).wf(),
            final(self)@ == old(self)@.hidden(),
    {
        self.query.clear();
        proof {
            lemma_shorter_query(old(self)@.query, 0, self@.tabs);
        }
        self.selected = 0;
        self.scroll_offset = 0;
        self.refresh_scores();
        // Mark invisible right away: pane and tab updates would do the same,
        // but a hidden picker never receives them. `pane_focused = false`
        // also arms the rising-edge detection that re-asserts the geometry
        // on the next open.
        self.vis = Visibility::default();
        // Void pending quickjump timers: they cannot be cancelled, their
        // events still arrive and must do nothing. The blink timer, if any,
        // stays queued: it ends itself on its next tick because `visible` is
        // false, and keeping it queued is exactly what stops
        // `start_blink_if_needed` from arming a second chain on reopen.
        let _ = self.timers.new_jump_generation();
        self.timers.bell_blink_on = false;
        self.calls.push(HostCall::HideSelf);
    }

    /// Counts a jump to a tab.
    pub fn record_access(&mut self, tab_id: usize)
        requires
            access_count(old(self)@.access_counts, tab_id) < u64::MAX,
        ensures
            old(self).wf() ==> final(self).wf(),
            final(self)@ == old(self)@.access_recorded(tab_id),
    {
        let count: u64 = count_of(&self.access_counts, tab_id);
        let _ = self.access_counts.insert(tab_id, count + 1);
    }

    /// Switches to the selected tab, if there is one, and closes the
    /// picker.
    pub fn jump_to_selected(&mut self)
        requires
            old(self).wf(),
            old(self)@.has_room_for(old(self)@.counted_by_selection()),
        ensures
            final(self).wf(),
            final(self)@ == old(self)@.jumped_to_selected(),
    {
        if self.selected < self.scored.len() {
            let position: usize = self.scored[self.selected].tab.position;
            let tab_id: usize = self.scored[self.selected].tab.tab_id;
            assert(self@.scored[self.selected as int].tab.tab_id == tab_id);
            assert(self@.scored[self.selected as int].tab.position == position);
            if position < u32::MAX as usize {
                self.calls.push(HostCall::SwitchTab((position + 1) as u32));
                self.record_access(tab_id);
            }
        }
        self.hide_picker();
    }

    /// Jumps to tab position `pos` (1-based). Returns true when the
    /// position exists and the picker has been closed.
    pub fn try_instant_jump(&mut self, pos: u32) -> (jumped: bool)
        requires
            old(self).wf(),
            old(self)@.has_room_for(old(self)@.counted_by_jump(pos)),
        ensures
            final(self).wf(),
            final(self)@ == old(self)@.instantly_jumped(pos),
            jumped == (old(self)@.tab_at(pos) is Some),
    {
        match self.find_tab(pos) {
            None => false,
            Some(i) => {
                let active: bool = self.tabs[i].info.active;
                let tab_id: usize = self.tabs[i].info.tab_id;
                assert(self@.tabs[i as int] == self.tabs@[i as int].info@);
                if !active {
                    self.calls.push(HostCall::SwitchTab(pos));
                    self.record_access(tab_id);
                }
                self.hide_picker();
                true
            },
        }
    }

    /// Deletes the last word of the query and the whitespace after it.
    pub fn delete_word_backward(&mut self)
        requires
            old(self).wf(),
        ensures
            final(self).wf(),
            final(self)@ == old(self)@.query_changed(without_last_word(old(self)@.query)),
    {
        drop_last_word(&mut self.query);
        proof {
            law_word_deletion(old(self)@.query);
            lemma_shorter_query(old(self)@.query, self.query@.len() as int, self@.tabs);
        }
        self.query_changed();
    }

    /// Checks whether `c` is the next digit of an in-progress quickjump
    /// buffer: query must be empty (first digit) or already all-digit
    /// non-zero-start, and must not yet have reached the full digit
    /// count `digit_count(tabs.len())`. `c == '0'` as the first digit
    /// falls through to the regular query.
    pub fn is_jump_pending_for(&self, c: char) -> (pending: bool)
        ensures
            pending == self@.jump_pending_for(c),
    {
        let len: usize = self.query.as_str().unicode_len();
        if len == 0 {
            return c != '0';
        }
        is_pending_jump_buffer(self.query.as_str()) && len < digit_count(self.tabs.len())
    }

    /// Handles a digit input in quickjump mode.
    /// Generic over arbitrary tab counts: the buffer grows eagerly up to
    /// one digit less than the highest position has, then a timer waits for
    /// the final digit. On the final digit or on timeout the picker jumps.
    pub fn handle_jump_digit(&mut self, c: char)
        requires
            old(self).wf(),
            old(self)@.accepts_digit(c),
            !is_control(c),
            old(self)@.query.len() < MAX_QUERY_CHARS,
        ensures
            final(self).wf(),
            final(self)@ == old(self)@.digit_handled(c),
    {
        let ghost before = self@;
        if let Some(pos) = self.completed_jump(c) {
            // Final digit reached: the position is unambiguous, jump
            // immediately. The picker is closed and its query cleared.
            let _ = self.try_instant_jump(pos);
            return;
        }
        // Short of a jump (not the final digit, or a position out of range,
        // e.g. 99 with 50 tabs) the buffer is a regular search query.
        self.query.push(c);
        proof {
            lemma_longer_query(before.query, c);
        }
        if self.query.as_str().unicode_len() + 1 == digit_count(self.tabs.len()) {
            // Only the final digit is missing: start the timer for it. A
            // fresh generation voids any earlier jump timer (e.g. digit,
            // Backspace, digit), so the timeout always counts from the
            // latest digit.
            let generation: u32 = self.timers.new_jump_generation();
            self.arm_timer(TimerKind::Jump { generation }, JUMP_TIMEOUT);
        }
        self.query_changed();
        assert(self@ =~= before.digit_handled(c));
    }

    /// The position that a digit completes, if it is the last one that a
    /// position can have and the position exists.
    fn completed_jump(&self, c: char) -> (position: Option<u32>)
        ensures
            position == self@.completed_jump(c),
    {
        let mut buffer: String = self.query.as_str().to_owned();
        buffer.push(c);
        if buffer.as_str().unicode_len() < digit_count(self.tabs.len()) {
            return None;
        }
        self.position_in(buffer.as_str())
    }

    /// The tab position that a text spells, counted from 1, if it exists.
    fn position_in(&self, text: &str) -> (position: Option<u32>)
        ensures
            position == match parsed(text@, u32::MAX as nat) {
                Some(number) => if self@.tab_at(number as u32) is Some {
                    Some(number as u32)
                } else {
                    None
                },
                None => None,
            },
    {
        match parse_decimal(text, u32::MAX as u64) {
            Some(number) => if self.find_tab(number as u32).is_some() {
                Some(number as u32)
            } else {
                None
            },
            None => None,
        }
    }

    /// The index of the tab at a position that counts from 1.
    fn find_tab(&self, pos: u32) -> (found: Option<usize>)
        ensures
            match found {
                Some(i) => i < self.tabs.len() && self@.tab_at(pos) == Some(self@.tabs[i as int]),
                None => self@.tab_at(pos) is None,
            },
    {
        if pos == 0 {
            proof {
                lemma_nowhere(self@.tabs, at_position(-1));
            }
            return None;
        }
        find_position(&self.tabs, pos as usize - 1)
    }

    /// Moves the selection by one row, wrapping around at both ends.
    pub fn move_selection(&mut self, dir: Direction)
        requires
            dir is Down && old(self).scored.len() > 0 ==> old(self).selected < usize::MAX,
        ensures
            old(self).wf() ==> final(self).wf(),
            final(self)@ == old(self)@.selection_moved(dir),
    {
        let len: usize = self.scored.len();
        if len == 0 {
            self.selected = 0;
            return;
        }
        self.selected = match dir {
            Direction::Down => (self.selected + 1) % len,
            Direction::Up => if self.selected == 0 {
                len - 1
            } else {
                self.selected - 1
            },
        };
    }

    /// Moves the selection by `count` rows, clamped at both ends (unlike
    /// the keyboard, the wheel does not wrap). Returns whether it moved.
    pub fn move_selection_by(&mut self, dir: Direction, count: usize) -> (moved: bool)
        ensures
            old(self).wf() ==> final(self).wf(),
            (final(self)@, moved) == old(self)@.selection_moved_by(dir, count),
    {
        let len: usize = self.scored.len();
        if len == 0 {
            return false;
        }
        let last: usize = len - 1;
        let target: usize = match dir {
            Direction::Up => self.selected.saturating_sub(count),
            Direction::Down => {
                let below: usize = self.selected.saturating_add(count);
                if below < last {
                    below
                } else {
                    last
                }
            },
        };
        let moved: bool = target != self.selected;
        self.selected = target;
        moved
    }

    /// Maps a pane-relative click position to an index into `scored`, if
    /// it hits a populated list row of the last render.
    pub fn list_index_at(&self, line: isize, column: usize) -> (index: Option<usize>)
        ensures
            match index {
                Some(i) => self@.row_at(line as int, column as int) == Some(i as int),
                None => self@.row_at(line as int, column as int) is None,
            },
    {
        match self.list_area {
            None => None,
            Some(area) => {
                if line < 0 {
                    return None;
                }
                let line_below: usize = line as usize;
                assert(self@.scored.len() == self.scored.len());
                if line_below < area.top || line_below - area.top >= area.rows || column < area.left || column
                    - area.left >= area.width {
                    return None;
                }
                match self.scroll_offset.checked_add(line_below - area.top) {
                    Some(index) => if index < self.scored.len() {
                        Some(index)
                    } else {
                        None
                    },
                    None => None,
                }
            },
        }
    }

    /// Mouse: the wheel moves the selection one row per event without
    /// wrapping (a wheel step counts three *lines* of scrollback, which would
    /// race through a short list), a left click selects the row under the
    /// cursor, and a click on the already selected row confirms it (the mouse
    /// equivalent of Enter). Everything else (right clicks, drags, hover,
    /// clicks outside the list) is ignored.
    pub fn handle_mouse(&mut self, mouse: &Mouse) -> (render: bool)
        requires
            old(self).wf(),
            old(self)@.has_room_for(old(self)@.counted_by_mouse(*mouse)),
        ensures
            final(self).wf(),
            (final(self)@, render) == old(self)@.mouse_handled(*mouse),
    {
        match *mouse {
            Mouse::ScrollUp => self.move_selection_by(Direction::Up, 1),
            Mouse::ScrollDown => self.move_selection_by(Direction::Down, 1),
            Mouse::LeftClick(line, column) => match self.list_index_at(line, column) {
                None => false,
                Some(index) => {
                    assert(index < self.scored.len());
                    if index == self.selected {
                        self.jump_to_selected();
                    } else {
                        self.selected = index;
                    }
                    true
                },
            },
            Mouse::Other => false,
        }
    }

    /// Handles a key press; returns whether to render. Every path that
    /// closes the picker returns `true`: one more render leaves the cleared
    /// picker in the pane's stored grid, so a reopen never flashes the
    /// previous query even before the first update arrives.
    pub fn handle_key(&mut self, key: &Key) -> (render: bool)
        requires
            old(self).wf(),
            old(self)@.accepts_key(*key),
        ensures
            final(self).wf(),
            (final(self)@, render) == old(self)@.key_handled(*key),
    {
        match key.bare_key {
            BareKey::Esc => {
                self.hide_picker();
                true
            },
            BareKey::Enter => {
                self.jump_to_selected();
                true
            },
            BareKey::Up => {
                self.move_selection(Direction::Up);
                true
            },
            BareKey::Down | BareKey::Tab => {
                self.move_selection(Direction::Down);
                true
            },
            BareKey::Backspace => {
                let _ = self.query.pop();
                proof {
                    let len = self.query@.len() as int;
                    assert(self.query@ =~= old(self)@.query.take(len));
                    lemma_shorter_query(old(self)@.query, len, self@.tabs);
                }
                self.query_changed();
                true
            },
            BareKey::Char(c) => if key.has_ctrl {
                self.handle_ctrl(c)
            } else if key.has_alt {
                false
            } else if char_is_digit(c) && self.is_jump_pending_for(c) {
                proof {
                    lemma_machine_digits(self.tabs.len());
                }
                self.handle_jump_digit(c);
                true
            } else {
                // Ignore control chars (e.g. via paste): they could inject
                // escape sequences. Hard cap: keeps long pastes from blowing
                // up the prompt layout.
                if char_is_control(c) || self.query.as_str().unicode_len() >= MAX_QUERY_CHARS {
                    return false;
                }
                self.query.push(c);
                proof {
                    lemma_longer_query(old(self)@.query, c);
                }
                self.query_changed();
                true
            },
            BareKey::Other => false,
        }
    }

    /// Handles a char typed with Ctrl.
    fn handle_ctrl(&mut self, c: char) -> (render: bool)
        requires
            old(self).wf(),
        ensures
            final(self).wf(),
            (final(self)@, render) == old(self)@.key_handled(
                Key { bare_key: BareKey::Char(c), has_ctrl: true, has_alt: false },
            ),
    {
        match c {
            'c' | 'g' => {
                self.hide_picker();
                true
            },
            'p' | 'k' => {
                self.move_selection(Direction::Up);
                true
            },
            'n' | 'j' => {
                self.move_selection(Direction::Down);
                true
            },
            'w' => {
                self.delete_word_backward();
                true
            },
            'u' => {
                self.query.clear();
                proof {
                    lemma_shorter_query(old(self)@.query, 0, self@.tabs);
                }
                self.query_changed();
                true
            },
            _ => false,
        }
    }

    /// Sends the target geometry to the host. The size request carries the
    /// missing border along, so that the host applies both together; the
    /// explicit borderless call additionally covers a pane that is not
    /// floating.
    pub fn resize_pane(&mut self)
        ensures
            old(self).wf() ==> final(self).wf(),
            final(self)@ == old(self)@.pane_resized(),
    {
        self.calls.push(
            HostCall::ResizePane {
                plugin_id: self.plugin_id,
                cols: self.size.cols,
                rows: self.size.rows,
            },
        );
        self.calls.push(HostCall::SetBorderless { plugin_id: self.plugin_id });
    }

    /// A tab update: refreshes the tab cache, the scores and visibility.
    pub fn on_tab_update(&mut self, new_tabs: Vec<TabInfo>) -> (render: bool)
        requires
            old(self).wf(),
            can_search(old(self)@.query, infos(new_tabs@)),
        ensures
            final(self).wf(),
            (final(self)@, render) == old(self)@.tabs_updated(infos(new_tabs@)),
    {
        // Visibility first, ahead of the dedup below. Closing the picker
        // resets the local flags while `tabs` keeps the snapshot from before,
        // and a hidden picker receives no updates at all, so the update that
        // arrives on reopen can be identical to that snapshot. Skipping it
        // must not leave `float_visible` stale. Any update proves our tab is
        // the active one, which retires a veto of the host.
        self.vis.host_visible = None;
        self.vis.float_visible = floating_layer_shown(&new_tabs);
        // Dedup: the host repeats itself often. The comparison covers all
        // fields, so only the cheap visibility bookkeeping runs for a repeat.
        if self.tabs_received && same_tabs(&self.tabs, &new_tabs) {
            let became_visible: bool = self.recompute_visibility();
            self.start_blink_if_needed();
            return became_visible;
        }
        self.tabs_received = true;
        // Prepare the names once per update (not per keystroke and tab).
        self.tabs = prepare(new_tabs);
        // Prune the counts of tabs that no longer exist so that they cannot
        // grow without bound over a long session of tab churn.
        self.access_counts = live_counts(&self.access_counts, &self.tabs);
        self.refresh_scores();
        let _ = self.recompute_visibility();
        // A newly arriving bell may need to start the loop even without a
        // visibility transition; starting it twice does nothing.
        self.start_blink_if_needed();
        true
    }

    /// Whether the floating pane's current geometry warrants re-sending the
    /// target size. Larger than target: always, as the viewport is at least
    /// as large as the pane, so the request succeeds. Smaller than target:
    /// only when the target fits the tab's viewport; a pane that is small
    /// because the terminal is small is left alone (render caps the box to
    /// the pane).
    pub fn geometry_needs_reassert(&self, tab_position: usize, cols: usize, rows: usize) -> (needed:
        bool)
        ensures
            needed == self@.wants_resize(tab_position, cols, rows),
    {
        if cols == self.size.cols && rows == self.size.rows {
            return false;
        }
        if cols > self.size.cols || rows > self.size.rows {
            return true;
        }
        match find_position(&self.tabs, tab_position) {
            Some(i) => {
                let tab = &self.tabs[i].info;
                assert(self@.tabs[i as int] == tab@);
                self.size.cols <= tab.viewport_columns && self.size.rows <= tab.viewport_rows
            },
            None => false,
        }
    }

    /// A pane update: derives the `pane_focused` visibility indicator and
    /// re-asserts the pane geometry when the host changed it.
    pub fn on_pane_update(&mut self, manifest: &PaneManifest) -> (render: bool)
        ensures
            old(self).wf() ==> final(self).wf(),
            (final(self)@, render) == old(self)@.panes_updated(*manifest),
    {
        if !self.ready {
            return false;
        }
        let ghost before = self@;
        // Updates only reach plugins in the active tab, see `Visibility`.
        self.vis.host_visible = None;
        match find_own_pane(&manifest.panes, self.plugin_id) {
            None => {
                // Not in the manifest (e.g. mid-move): treat as unfocused.
                self.vis.pane_focused = false;
                assert(self@ =~= before.focus_seen(false));
                self.recompute_visibility()
            },
            Some((tab_position, pane)) => {
                let pane_focused_now: bool = pane.is_floating && !pane.is_suppressed
                    && pane.is_focused;
                // Every reopen re-inserts the floating pane at the host's
                // default geometry. A hidden picker gets no updates, so the
                // rising edge of `pane_focused` is the first signal that the
                // pane is back: re-assert unconditionally there.
                let reappeared: bool = pane_focused_now && !self.vis.pane_focused;
                if pane.is_floating && (reappeared || self.geometry_needs_reassert(
                    tab_position,
                    pane.pane_columns,
                    pane.pane_rows,
                )) {
                    self.resize_pane();
                }
                self.vis.pane_focused = pane_focused_now;
                self.recompute_visibility()
            },
        }
    }

    /// A timer event: dispatches to the quickjump or the blink handler.
    pub fn on_timer(&mut self, elapsed: u64) -> (render: bool)
        requires
            old(self).wf(),
            old(self)@.has_room_for(old(self)@.counted_by_timer(elapsed)),
        ensures
            final(self).wf(),
            (final(self)@, render) == old(self)@.timer_fired(elapsed),
    {
        match self.timers.resolve(elapsed) {
            Some(TimerKind::Jump { generation }) => self.on_jump_timer(generation),
            Some(TimerKind::Blink) => self.on_blink_timer(),
            None => false,
        }
    }

    /// Quickjump timeout after all digits but the final one: jump if the
    /// query is still that digit buffer and this timer is the newest one.
    pub fn on_jump_timer(&mut self, generation: u32) -> (render: bool)
        requires
            old(self).wf(),
            old(self)@.has_room_for(old(self)@.counted_by_timeout(generation)),
        ensures
            final(self).wf(),
            (final(self)@, render) == old(self)@.jump_timed_out(generation),
    {
        match self.timed_jump(generation) {
            // On success the picker is hidden; render once more so the pane's
            // stored grid holds the cleared state.
            Some(pos) => self.try_instant_jump(pos),
            None => false,
        }
    }

    /// The position that a quickjump timeout of a generation goes to.
    fn timed_jump(&self, generation: u32) -> (position: Option<u32>)
        ensures
            position == self@.timed_jump(generation),
    {
        // Superseded by a later digit, or the picker was closed since.
        if generation != self.timers.jump_generation {
            return None;
        }
        if !self.ready || !self.vis.visible || !is_pending_jump_buffer(self.query.as_str()) {
            return None;
        }
        self.position_in(self.query.as_str())
    }

    /// Bell-blink tick: toggles the background and re-arms while the
    /// picker is visible and a bell tab exists; otherwise the loop ends.
    pub fn on_blink_timer(&mut self) -> (render: bool)
        ensures
            old(self).wf() ==> final(self).wf(),
            (final(self)@, render) == old(self)@.blinked(),
    {
        if self.vis.visible && self.has_bell_tab() {
            self.timers.bell_blink_on = !self.timers.bell_blink_on;
            self.arm_timer(TimerKind::Blink, BLINK_INTERVAL);
            true
        } else {
            // Conditions gone: the loop ends. Restarted when the picker
            // becomes visible or a tab update arrives and conditions hold
            // again.
            self.timers.bell_blink_on = false;
            false
        }
    }

    /// A visibility event: the host's own word (see `Visibility`). A
    /// `false` stops the blink loop on its next tick and parks the
    /// quickjump timeout; a `true` re-renders and restarts the loop.
    pub fn on_visible(&mut self, shown: bool) -> (render: bool)
        ensures
            old(self).wf() ==> final(self).wf(),
            (final(self)@, render) == old(self)@.shown(shown),
    {
        self.vis.host_visible = Some(shown);
        self.recompute_visibility()
    }

    /// Handles an event of the host; returns whether to render. What is to
    /// be asked of the host in turn is added to `calls`.
    pub fn update(&mut self, event: Event) -> (render: bool)
        requires
            old(self).wf(),
            old(self)@.accepts(event),
        ensures
            final(self).wf(),
            (final(self)@, render) == old(self)@.updated(event),
    {
        match event {
            Event::PermissionGranted { plugin_id } => {
                self.plugin_id = plugin_id;
                self.ready = true;
                // Straight away, so that the pane reaches its target geometry
                // one round-trip earlier than waiting for the first pane
                // update, which re-asserts the geometry on every reopen and
                // on later layout resets.
                self.resize_pane();
                true
            },
            Event::PermissionDenied => {
                // Without the permissions we can neither take the border off
                // nor switch tabs. Close the picker instead of hanging
                // silently.
                self.calls.push(HostCall::CloseSelf);
                false
            },
            Event::TabUpdate(new_tabs) => self.on_tab_update(new_tabs),
            Event::PaneUpdate(manifest) => self.on_pane_update(&manifest),
            Event::Key(key) => {
                // Drop keys before the picker is shown: otherwise the query
                // fills up while the pane is still initializing and would
                // appear unexpectedly populated on the first render.
                if !self.ready {
                    return false;
                }
                self.handle_key(&key)
            },
            Event::Mouse(mouse) => {
                if !self.ready {
                    return false;
                }
                self.handle_mouse(&mouse)
            },
            Event::Timer(elapsed) => self.on_timer(elapsed),
            Event::Visible(shown) => self.on_visible(shown),
            Event::Other => false,
        }
    }

    /// Whether the count of a tab can go up.
    fn has_room_for(&self, counted: Option<usize>) -> (room: bool)
        ensures
            room == self@.has_room_for(counted),
    {
        match counted {
            Some(tab_id) => count_of(&self.access_counts, tab_id) < u64::MAX,
            None => true,
        }
    }

    /// The tab that confirming the selected row counts.
    fn counted_by_selection(&self) -> (counted: Option<usize>)
        ensures
            counted == self@.counted_by_selection(),
    {
        if self.selected < self.scored.len() {
            let row = &self.scored[self.selected];
            assert(self@.scored[self.selected as int] == row@);
            if row.tab.position < u32::MAX as usize {
                return Some(row.tab.tab_id);
            }
        }
        None
    }

    /// The tab that a jump to a position counts.
    fn counted_by_jump(&self, position: Option<u32>) -> (counted: Option<usize>)
        ensures
            counted == match position {
                Some(pos) => self@.counted_by_jump(pos),
                None => None,
            },
    {
        match position {
            Some(pos) => match self.find_tab(pos) {
                Some(i) => {
                    assert(self@.tabs[i as int] == self.tabs@[i as int].info@);
                    if self.tabs[i].info.active {
                        None
                    } else {
                        Some(self.tabs[i].info.tab_id)
                    }
                },
                None => None,
            },
            None => None,
        }
    }

    /// Whether the query with one more char can be searched for.
    fn can_search_with(&self, c: char) -> (searchable: bool)
        requires
            self.wf(),
        ensures
            searchable == can_search(self@.query.push(c), self@.tabs),
    {
        let mut query: Vec<char> = chars_of(self.query.as_str());
        query.push(c);
        assert(query@ =~= self@.query.push(c));
        entries_can_be_searched(&query, &self.tabs)
    }

    /// Whether the picker can take a key press: see `StateModel::accepts_key`.
    pub fn accepts_key(&self, key: &Key) -> (accepted: bool)
        requires
            self.wf(),
        ensures
            accepted == self@.accepts_key(*key),
    {
        match key.bare_key {
            BareKey::Enter => self.has_room_for(self.counted_by_selection()),
            BareKey::Char(c) => {
                if key.has_ctrl || key.has_alt {
                    true
                } else if char_is_digit(c) && self.is_jump_pending_for(c) {
                    let jump: Option<u32> = self.completed_jump(c);
                    self.has_room_for(self.counted_by_jump(jump)) && (jump.is_some()
                        || self.can_search_with(c))
                } else {
                    char_is_control(c) || self.query.as_str().unicode_len() >= MAX_QUERY_CHARS
                        || self.can_search_with(c)
                }
            },
            _ => true,
        }
    }

    /// Whether the picker can take an event: see `StateModel::accepts`.
    pub fn accepts(&self, event: &Event) -> (accepted: bool)
        requires
            self.wf(),
        ensures
            accepted == self@.accepts(*event),
    {
        match event {
            Event::TabUpdate(tabs) => {
                let query: Vec<char> = chars_of(self.query.as_str());
                can_take_tabs(&query, tabs)
            },
            Event::Key(key) => !self.ready || self.accepts_key(key),
            Event::Mouse(Mouse::LeftClick(line, column)) => !self.ready || self.list_index_at(
                *line,
                *column,
            ) != Some(self.selected) || self.has_room_for(self.counted_by_selection()),
            Event::Timer(elapsed) => match self.timers.kind_at(*elapsed) {
                Some(TimerKind::Jump { generation }) => {
                    let jump: Option<u32> = self.timed_jump(generation);
                    self.has_room_for(self.counted_by_jump(jump))
                },
                _ => true,
            },
            _ => true,
        }
    }

    /// Takes the box size from the plugin configuration.
    pub fn load(&mut self, configuration: &Vec<(String, String)>)
        ensures
            old(self).wf() ==> final(self).wf(),
            final(self)@ == (StateModel {
                size: SizeCfg::configured(configuration@),
                ..old(self)@
            }),
    {
        self.size = SizeCfg::from_config(configuration);
    }

    /// Hands out what is to be asked of the host, in this order, and forgets it.
    pub fn take_calls(&mut self) -> (calls: Vec<HostCall>)
        ensures
            old(self).wf() ==> final(self).wf(),
            calls@ == old(self)@.calls,
            final(self)@ == (StateModel { calls: seq![], ..old(self)@ }),
    {
        let mut calls: Vec<HostCall> = Vec::new();
        std::mem::swap(&mut calls, &mut self.calls);
        calls
    }
}

impl Default for State {
    /// No tabs known, nothing typed, not ready.
    fn default() -> (state: State)
        ensures
            state.wf(),
            state@ == StateModel::initial(),
    {
        let state = State {
            tabs: Vec::new(),
            tabs_received: false,
            query: String::new(),
            selected: 0,
            scroll_offset: 0,
            matcher: FuzzyMatcher::new(),
            scored: Vec::new(),
            size: SizeCfg::default(),
            ready: false,
            plugin_id: 0,
            timers: Timers::default(),
            vis: Visibility::default(),
            list_area: None,
            access_counts: BTreeMap::new(),
            calls: Vec::new(),
        };
        assert(state@ =~= StateModel::initial());
        state
    }
}

/// An end taken off a query leaves one that can be searched for where the
/// whole one could.
pub proof fn lemma_shorter_query(query: Seq<char>, len: int, tabs: Seq<TabModel>)
    requires
        0 <= len <= query.len(),
    ensures
        is_query(query) ==> is_query(query.take(len)),
        can_search(query, tabs) ==> can_search(query.take(len), tabs),
        query.take(0) == Seq::<char>::empty(),
{
    let less = query.take(len);
    assert(query.take(0) =~= Seq::<char>::empty());
    if is_query(query) {
        assert forall|i: int| 0 <= i < less.len() implies !is_control(#[trigger] less[i]) by {
            assert(less[i] == query[i]);
        }
    }
    if can_search(query, tabs) {
        assert forall|i: int|
            len > 0 && 0 <= i < tabs.len() && !(#[trigger] tabs[i]).active implies is_name_len(
            tabs[i].name.len(),
        ) && nucleo_takes(less, tabs[i].name) by {
            lemma_takes_less(query, len, tabs[i].name);
        }
    }
}

pub proof fn lemma_longer_query(query: Seq<char>, c: char)
    requires
        is_query(query),
        query.len() < MAX_QUERY_CHARS,
        !is_control(c),
    ensures
        is_query(query.push(c)),
{
    assert forall|i: int| 0 <= i <= query.len() implies !is_control(
        #[trigger] query.push(c)[i],
    ) by {
        if i < query.len() {
            assert(query.push(c)[i] == query[i]);
        }
    }
}

/// Whether a query can be searched for in the tabs.
fn entries_can_be_searched(query: &Vec<char>, tabs: &Vec<TabEntry>) -> (searchable: bool)
    requires
        all_prepared(tabs@),
    ensures
        searchable == can_search(query@, tab_models(tabs@)),
{
    let ghost models = tab_models(tabs@);
    if query.len() == 0 {
        return true;
    }
    let mut i: usize = 0;
    while i < tabs.len()
        invariant
            i <= tabs.len(),
            query.len() > 0,
            models == tab_models(tabs@),
            all_prepared(tabs@),
            forall|k: int|
                0 <= k < i && !(#[trigger] models[k]).active ==> is_name_len(models[k].name.len())
                    && nucleo_takes(query@, models[k].name),
        decreases tabs.len() - i,
    {
        let entry = &tabs[i];
        assert(models[i as int] == entry.info@);
        assert(entry.wf());
        if !entry.info.active && !(takes_name_len(entry.chars.len()) && takes_pair(
            query,
            &entry.chars,
        )) {
            assert(!models[i as int].active);
            return false;
        }
        i += 1;
    }
    true
}

/// Whether a query can be searched for in the tabs of an update.
fn can_take_tabs(query: &Vec<char>, tabs: &Vec<TabInfo>) -> (accepted: bool)
    ensures
        accepted == can_search(query@, infos(tabs@)),
{
    let ghost models = infos(tabs@);
    if query.len() == 0 {
        return true;
    }
    let mut i: usize = 0;
    while i < tabs.len()
        invariant
            i <= tabs.len(),
            query.len() > 0,
            models == infos(tabs@),
            forall|k: int|
                0 <= k < i && !(#[trigger] models[k]).active ==> is_name_len(models[k].name.len())
                    && nucleo_takes(query@, models[k].name),
        decreases tabs.len() - i,
    {
        assert(models[i as int] == tabs@[i as int]@);
        if !tabs[i].active {
            let name: Vec<char> = chars_of(tabs[i].name.as_str());
            if !(takes_name_len(name.len()) && takes_pair(query, &name)) {
                assert(!models[i as int].active);
                return false;
            }
        }
        i += 1;
    }
    true
}

/// Whether the floating layer is shown in the active tab.
fn floating_layer_shown(tabs: &Vec<TabInfo>) -> (shown: bool)
    ensures
        shown == match first_where(infos(tabs@), is_active()) {
            Some(tab) => tab.are_floating_panes_visible,
            None => false,
        },
{
    let ghost models = infos(tabs@);
    let mut i: usize = 0;
    while i < tabs.len()
        invariant
            i <= tabs.len(),
            models == infos(tabs@),
            forall|k: int| 0 <= k < i ==> !is_active()(#[trigger] models[k]),
        decreases tabs.len() - i,
    {
        assert(models[i as int] == tabs@[i as int]@);
        if tabs[i].active {
            proof {
                lemma_first_where(models, is_active(), i as int);
            }
            return tabs[i].are_floating_panes_visible;
        }
        i += 1;
    }
    proof {
        lemma_nowhere(models, is_active());
    }
    false
}

/// Whether a tab update reports the tabs that are known already.
fn same_tabs(known: &Vec<TabEntry>, reported: &Vec<TabInfo>) -> (same: bool)
    ensures
        same == (tab_models(known@) == infos(reported@)),
{
    if known.len() != reported.len() {
        assert(tab_models(known@).len() != infos(reported@).len());
        return false;
    }
    let mut i: usize = 0;
    while i < known.len()
        invariant
            i <= known.len(),
            known.len() == reported.len(),
            forall|k: int|
                0 <= k < i ==> #[trigger] tab_models(known@)[k] == infos(reported@)[k],
        decreases known.len() - i,
    {
        assert(tab_models(known@)[i as int] == known@[i as int].info@);
        assert(infos(reported@)[i as int] == reported@[i as int]@);
        if !reported[i].same_as(&known[i].info) {
            return false;
        }
        i += 1;
    }
    assert(tab_models(known@) =~= infos(reported@));
    true
}

/// Prepares the tabs of an update for matching.
fn prepare(tabs: Vec<TabInfo>) -> (entries: Vec<TabEntry>)
    ensures
        all_prepared(entries@),
        tab_models(entries@) == infos(tabs@),
{
    let ghost reported = tabs@;
    let mut entries: Vec<TabEntry> = Vec::new();
    for tab in it: tabs
        invariant
            it.seq() == reported,
            all_prepared(entries@),
            tab_models(entries@) == infos(reported).take(it.index() as int),
    {
        let ghost before = entries@;
        let entry: TabEntry = TabEntry::new(tab);
        entries.push(entry);
        assert(tab_models(entries@) =~= tab_models(before).push(entry@));
        assert(tab_models(entries@) =~= infos(reported).take(it.index() + 1));
    }
    assert(infos(reported).take(reported.len() as int) =~= infos(reported));
    entries
}

/// The counts of the tabs that exist.
fn live_counts(counts: &BTreeMap<usize, u64>, tabs: &Vec<TabEntry>) -> (live: BTreeMap<usize, u64>)
    ensures
        live@ == pruned(counts@, tab_models(tabs@)),
{
    let ghost models = tab_models(tabs@);
    let mut live: BTreeMap<usize, u64> = BTreeMap::new();
    let mut i: usize = 0;
    assert(live@ =~= pruned(counts@, models.take(0)));
    while i < tabs.len()
        invariant
            i <= tabs.len(),
            models == tab_models(tabs@),
            live@ == pruned(counts@, models.take(i as int)),
        decreases tabs.len() - i,
    {
        let tab_id: usize = tabs[i].info.tab_id;
        assert(models[i as int].tab_id == tab_id);
        if let Some(count) = counts.get(&tab_id) {
            let _ = live.insert(tab_id, *count);
        }
        proof {
            let (done, next) = (models.take(i as int), models.take(i + 1));
            assert forall|id: usize| is_live(next, id) <==> is_live(done, id) || id == tab_id by {
                if is_live(next, id) && id != tab_id {
                    let k = choose|k: int| 0 <= k < next.len() && (#[trigger] next[k]).tab_id == id;
                    assert(done[k].tab_id == id);
                }
                if is_live(done, id) {
                    let k = choose|k: int| 0 <= k < done.len() && (#[trigger] done[k]).tab_id == id;
                    assert(next[k].tab_id == id);
                }
                assert(next[i as int].tab_id == tab_id);
            }
            assert(live@ =~= pruned(counts@, next));
        }
        i += 1;
    }
    assert(models.take(i as int) =~= models);
    live
}

/// The first plugin pane with this id among the panes of a tab.
fn find_pane(panes: &Vec<PaneInfo>, plugin_id: u32) -> (found: Option<PaneInfo>)
    ensures
        found == first_where(panes@, is_own_pane(plugin_id)),
{
    let mut i: usize = 0;
    while i < panes.len()
        invariant
            i <= panes.len(),
            forall|k: int| 0 <= k < i ==> !is_own_pane(plugin_id)(#[trigger] panes@[k]),
        decreases panes.len() - i,
    {
        let pane: PaneInfo = panes[i];
        if pane.is_plugin && pane.id == plugin_id {
            proof {
                lemma_first_where(panes@, is_own_pane(plugin_id), i as int);
            }
            return Some(pane);
        }
        i += 1;
    }
    proof {
        lemma_nowhere(panes@, is_own_pane(plugin_id));
    }
    None
}

/// The picker's own pane and the position of its tab.
fn find_own_pane(tabs: &Vec<(usize, Vec<PaneInfo>)>, plugin_id: u32) -> (found: Option<
    (usize, PaneInfo),
>)
    ensures
        found == own_pane(tabs@, plugin_id),
{
    let mut i: usize = 0;
    assert(tabs@.skip(0) =~= tabs@);
    while i < tabs.len()
        invariant
            i <= tabs.len(),
            own_pane(tabs@, plugin_id) == own_pane(tabs@.skip(i as int), plugin_id),
        decreases tabs.len() - i,
    {
        assert(tabs@.skip(i as int).drop_first() =~= tabs@.skip(i + 1));
        if let Some(pane) = find_pane(&tabs[i].1, plugin_id) {
            return Some((tabs[i].0, pane));
        }
        i += 1;
    }
    None
}

/// Drops the last word of a query and the whitespace after it.
fn drop_last_word(query: &mut String)
    ensures
        final(query)@ == without_last_word(old(query)@),
{
    let ghost space = |c: char| is_space(c);
    let ghost other = |c: char| !is_space(c);
    let mut chars: Vec<char> = chars_of(query.as_str());
    while chars.len() > 0 && chars[chars.len() - 1].is_whitespace()
        invariant
            chars@ == query@,
            space == (|c: char| is_space(c)),
            without_trailing(query@, space) == without_trailing(old(query)@, space),
        decreases chars.len(),
    {
        let _ = chars.pop();
        let _ = query.pop();
    }
    let ghost trimmed = query@;
    while chars.len() > 0 && !chars[chars.len() - 1].is_whitespace()
        invariant
            chars@ == query@,
            other == (|c: char| !is_space(c)),
            without_trailing(query@, other) == without_trailing(trimmed, other),
        decreases chars.len(),
    {
        let _ = chars.pop();
        let _ = query.pop();
    }
}

/// The index of the first tab at a position.
fn find_position(tabs: &Vec<TabEntry>, position: usize) -> (found: Option<usize>)
    ensures
        match found {
            Some(i) => i < tabs.len() && first_where(
                tab_models(tabs@),
                at_position(position as int),
            ) == Some(tab_models(tabs@)[i as int]),
            None => first_where(tab_models(tabs@), at_position(position as int)) is None,
        },
{
    let ghost models = tab_models(tabs@);
    let ghost wanted = at_position(position as int);
    let mut i: usize = 0;
    while i < tabs.len()
        invariant
            i <= tabs.len(),
            models == tab_models(tabs@),
            wanted == at_position(position as int),
            forall|k: int| 0 <= k < i ==> !wanted(#[trigger] models[k]),
        decreases tabs.len() - i,
    {
        assert(models[i as int] == tabs@[i as int].info@);
        if tabs[i].info.position == position {
            proof {
                lemma_first_where(models, wanted, i as int);
            }
            return Some(i);
        }
        i += 1;
    }
    proof {
        lemma_nowhere(models, wanted);
    }
    None
}

} // verus!
