//! Drawing the picker: prompt, header, list and frame, row by row.
use crate::layout::{
    append_padded, no_highlight, padded, BoxPlacement, HighlightStyle, ListArea, RowFrame,
    MIN_BOX_COLS, MIN_BOX_ROWS,
};
use crate::model::{first_where, is_active, lemma_first_where, lemma_nowhere, StateModel};
use crate::names::{push_truncated_name, truncated_cells, truncated_name};
use crate::state::State;
use crate::style::{ACTIVE, BELL_RESTORE, DIM, PROMPT, RESET, REVERSE};
use crate::tabs::{tab_models, Row, Scored, TabEntry, TabInfo, TabModel};
use crate::text::{
    decimal, decimal_aligned, digit_count, lemma_machine_digits, push_decimal, push_decimal_aligned,
    push_pad, spaces,
};
use crate::width::{query_tail, shown_tail};
use std::rc::Rc;
use vstd::prelude::*;

verus! {

/// `a - b`, or 0 below that.
pub open spec fn minus(a: nat, b: nat) -> nat {
    if a >= b {
        (a - b) as nat
    } else {
        0
    }
}

/// The prompt: the most recent chars of the query that fit, and the cursor.
pub open spec fn prompt(query: Seq<char>, width: nat) -> Seq<char> {
    PROMPT@ + seq!['❯'] + RESET@ + seq![' '] + shown_tail(query, minus(width, 3)) + REVERSE@
        + seq![' '] + RESET@
}

/// The number of a tab's panes is a machine integer.
pub open spec fn panes_fit(tab: TabModel) -> bool {
    tab.selectable_tiled_panes_count + tab.selectable_floating_panes_count <= usize::MAX
}

/// The numbers that a list row of this width shows of a tab are machine
/// integers. Too narrow a row shows no position.
pub open spec fn row_fits(tab: TabModel, cols: nat, pos_width: nat) -> bool {
    &&& panes_fit(tab)
    &&& row_name_area(pane_count(tab), cols, pos_width) > 0 ==> tab.position < usize::MAX
}

pub open spec fn pane_count(tab: TabModel) -> nat {
    (tab.selectable_tiled_panes_count + tab.selectable_floating_panes_count) as nat
}

/// A count in brackets.
pub open spec fn bracketed(count: nat) -> Seq<char> {
    seq!['['] + decimal(count) + seq![']']
}

/// The cells left for a name beside a bracketed count.
pub open spec fn header_name_area(count: nat, cols: nat) -> nat {
    minus(cols, 2 + (decimal(count).len() + 2))
}

/// The header row: the active tab and how many other panes it has. Too
/// narrow for that, only the name.
pub open spec fn header_row(tab: TabModel, cols: nat) -> Seq<char> {
    let count = minus(pane_count(tab), 1);
    let area = header_name_area(count, cols);
    if area == 0 {
        ACTIVE@ + truncated_name(tab.name, seq![], cols, RESET@) + RESET@ + spaces(
            minus(cols, truncated_cells(tab.name, cols)),
        )
    } else {
        ACTIVE@ + truncated_name(tab.name, seq![], area, RESET@) + RESET@ + DIM@ + spaces(
            minus(area, truncated_cells(tab.name, area)),
        ) + spaces(2) + bracketed(count) + RESET@
    }
}

/// The cells left for a name beside a position and a bracketed count.
pub open spec fn row_name_area(count: nat, cols: nat, pos_width: nat) -> nat {
    minus(cols, pos_width + 3 + 2 + (decimal(count).len() + 2))
}

/// A position, counted from 1, before the name.
pub open spec fn numbered(tab: TabModel, pos_width: nat) -> Seq<char> {
    decimal_aligned((tab.position + 1) as nat, pos_width) + seq![' ', '-', ' ']
}

/// A name and the blanks up to its area's end.
pub open spec fn name_field(
    name: Seq<char>,
    indices: Seq<u32>,
    area: nat,
    restore: Seq<char>,
) -> Seq<char> {
    truncated_name(name, indices, area, restore) + spaces(minus(area, truncated_cells(name, area)))
}

/// A row inside an outer highlight (selection, or bell background): plain.
pub open spec fn plain_row(
    tab: TabModel,
    indices: Seq<u32>,
    area: nat,
    pos_width: nat,
) -> Seq<char> {
    numbered(tab, pos_width) + name_field(tab.name, indices, area, BELL_RESTORE@) + spaces(2)
        + bracketed(pane_count(tab))
}

/// A row without outer highlight: position and count are dimmed.
pub open spec fn dimmed_row(
    tab: TabModel,
    indices: Seq<u32>,
    area: nat,
    pos_width: nat,
) -> Seq<char> {
    DIM@ + numbered(tab, pos_width) + RESET@ + name_field(tab.name, indices, area, RESET@) + spaces(
        2,
    ) + DIM@ + bracketed(pane_count(tab)) + RESET@
}

/// A row of the list: position, name and number of panes. A selected row
/// shows no match inside its highlight, whose reverse colours would mask it.
/// Too narrow for all three, only the name.
pub open spec fn list_row(
    row: Row,
    selected: bool,
    cols: nat,
    pos_width: nat,
    blink_on: bool,
) -> Seq<char> {
    let area = row_name_area(pane_count(row.tab), cols, pos_width);
    let style = HighlightStyle { selected, bell: row.tab.has_bell_notification, blink_on };
    if area == 0 {
        name_field(row.tab.name, seq![], cols, RESET@)
    } else if style.outer() is Some {
        plain_row(
            row.tab,
            if selected {
                seq![]
            } else {
                row.indices
            },
            area,
            pos_width,
        )
    } else {
        dimmed_row(row.tab, row.indices, area, pos_width)
    }
}

fn push_bracketed(out: &mut String, count: usize)
    ensures
        final(out)@ == old(out)@ + bracketed(count as nat),
{
    let ghost before = out@;
    out.push('[');
    push_decimal(out, count);
    out.push(']');
    assert(out@ =~= before + bracketed(count as nat));
}

fn push_numbered(out: &mut String, tab: &TabInfo, pos_width: usize)
    requires
        tab.position < usize::MAX,
    ensures
        final(out)@ == old(out)@ + numbered(tab@, pos_width as nat),
{
    let ghost before = out@;
    push_decimal_aligned(out, tab.position + 1, pos_width);
    out.push(' ');
    out.push('-');
    out.push(' ');
    assert(out@ =~= before + numbered(tab@, pos_width as nat));
}

fn push_name_field(out: &mut String, name: &str, indices: &[u32], area: usize, restore: &str)
    ensures
        final(out)@ == old(out)@ + name_field(name@, indices@, area as nat, restore@),
{
    let ghost before = out@;
    let written: usize = push_truncated_name(out, name, indices, area, restore);
    push_pad(out, area.saturating_sub(written));
    assert(out@ =~= before + name_field(name@, indices@, area as nat, restore@));
}

/// Writes the header row of the active tab.
pub fn render_active_row(out: &mut String, tab: &TabInfo, cols: usize)
    requires
        panes_fit(tab@),
    ensures
        final(out)@ == old(out)@ + header_row(tab@, cols as nat),
{
    let ghost before = out@;
    let raw_panes: usize = tab.selectable_tiled_panes_count + tab.selectable_floating_panes_count;
    let panes: usize = raw_panes.saturating_sub(1);
    proof {
        lemma_machine_digits(panes);
    }
    let pane_len: usize = digit_count(panes) + 2;
    // Layout: name, gap, two spaces, bracketed count.
    let name_area: usize = cols.saturating_sub(2 + pane_len);
    // Defensive: on extremely narrow panes, show only the truncated name
    // to avoid overflow.
    if name_area == 0 {
        let written: usize = push_active_name(out, tab.name.as_str(), cols);
        push_pad(out, cols.saturating_sub(written));
        assert(out@ =~= before + header_row(tab@, cols as nat));
        return ;
    }
    let ghost name = ACTIVE@ + truncated_name(tab.name@, seq![], name_area as nat, RESET@) + RESET@;
    let ghost gap = spaces(minus(name_area as nat, truncated_cells(tab.name@, name_area as nat)));
    let written: usize = push_active_name(out, tab.name.as_str(), name_area);
    out.push_str(DIM);
    assert(out@ =~= before + (name + DIM@));
    push_pad(out, name_area.saturating_sub(written));
    assert(out@ =~= before + (name + DIM@ + gap));
    push_pad(out, 2);
    assert(out@ =~= before + (name + DIM@ + gap + spaces(2)));
    push_bracketed(out, panes);
    assert(out@ =~= before + (name + DIM@ + gap + spaces(2) + bracketed(panes as nat)));
    out.push_str(RESET);
    assert(out@ =~= before + header_row(tab@, cols as nat));
}

/// Writes the name of the active tab in its colours; returns the cells taken.
fn push_active_name(out: &mut String, name: &str, area: usize) -> (written: usize)
    ensures
        final(out)@ == old(out)@ + (ACTIVE@ + truncated_name(name@, seq![], area as nat, RESET@)
            + RESET@),
        written == truncated_cells(name@, area as nat),
        written <= area,
{
    let ghost before = out@;
    let none: Vec<u32> = Vec::new();
    assert(none@ =~= seq![]);
    out.push_str(ACTIVE);
    let written: usize = push_truncated_name(out, name, none.as_slice(), area, RESET);
    out.push_str(RESET);
    assert(out@ =~= before + (ACTIVE@ + truncated_name(name@, seq![], area as nat, RESET@)
        + RESET@));
    written
}

/// Writes a plain row. Inside a bell row every match run must restore the
/// bell background, not reset to plain.
fn push_plain_row(out: &mut String, tab: &TabInfo, indices: &[u32], area: usize, pos_width: usize)
    requires
        panes_fit(tab@),
        tab.position < usize::MAX,
    ensures
        final(out)@ == old(out)@ + plain_row(tab@, indices@, area as nat, pos_width as nat),
{
    let ghost before = out@;
    let ghost numbers = numbered(tab@, pos_width as nat);
    let ghost field = name_field(tab.name@, indices@, area as nat, BELL_RESTORE@);
    push_numbered(out, tab, pos_width);
    push_name_field(out, tab.name.as_str(), indices, area, BELL_RESTORE);
    assert(out@ =~= before + (numbers + field));
    push_pad(out, 2);
    assert(out@ =~= before + (numbers + field + spaces(2)));
    push_bracketed(out, tab.selectable_tiled_panes_count + tab.selectable_floating_panes_count);
    assert(out@ =~= before + plain_row(tab@, indices@, area as nat, pos_width as nat));
}

/// Writes a dimmed row.
fn push_dimmed_row(out: &mut String, tab: &TabInfo, indices: &[u32], area: usize, pos_width: usize)
    requires
        panes_fit(tab@),
        tab.position < usize::MAX,
    ensures
        final(out)@ == old(out)@ + dimmed_row(tab@, indices@, area as nat, pos_width as nat),
{
    let ghost before = out@;
    let ghost numbers = numbered(tab@, pos_width as nat);
    let ghost field = name_field(tab.name@, indices@, area as nat, RESET@);
    out.push_str(DIM);
    push_numbered(out, tab, pos_width);
    assert(out@ =~= before + (DIM@ + numbers));
    out.push_str(RESET);
    assert(out@ =~= before + (DIM@ + numbers + RESET@));
    push_name_field(out, tab.name.as_str(), indices, area, RESET);
    assert(out@ =~= before + (DIM@ + numbers + RESET@ + field));
    push_pad(out, 2);
    out.push_str(DIM);
    assert(out@ =~= before + (DIM@ + numbers + RESET@ + field + spaces(2) + DIM@));
    push_bracketed(out, tab.selectable_tiled_panes_count + tab.selectable_floating_panes_count);
    out.push_str(RESET);
    assert(out@ =~= before + dimmed_row(tab@, indices@, area as nat, pos_width as nat));
}

/// Writes a row of the list.
pub fn render_row(
    out: &mut String,
    s: &Scored,
    selected: bool,
    cols: usize,
    pos_width: usize,
    blink_on: bool,
)
    requires
        row_fits(s@.tab, cols as nat, pos_width as nat),
        pos_width + 3 + 2 + (decimal(pane_count(s@.tab)).len() + 2) <= usize::MAX,
    ensures
        final(out)@ == old(out)@ + list_row(
            s@,
            selected,
            cols as nat,
            pos_width as nat,
            blink_on,
        ),
{
    let tab = &*s.tab;
    // Both widths are derived by formula to skip per-row allocations.
    let num_prefix_len: usize = pos_width + 3;
    let panes: usize = tab.selectable_tiled_panes_count + tab.selectable_floating_panes_count;
    let pane_len: usize = digit_count(panes) + 2;
    // Layout: position, name, gap, two spaces, bracketed count.
    let name_area: usize = cols.saturating_sub(num_prefix_len + 2 + pane_len);
    let none: Vec<u32> = Vec::new();
    assert(none@ =~= seq![]);

    // Defensive: on extremely narrow panes position and count together
    // exceed the width. Render only the name, no overflow.
    if name_area == 0 {
        push_name_field(out, tab.name.as_str(), none.as_slice(), cols, RESET);
        return ;
    }
    let bell: bool = tab.has_bell_notification;
    let lit: bool = if bell {
        blink_on
    } else {
        true
    };
    if lit && (selected || bell) {
        if selected {
            push_plain_row(out, tab, none.as_slice(), name_area, pos_width);
        } else {
            push_plain_row(out, tab, s.indices.as_slice(), name_area, pos_width);
        }
    } else {
        push_dimmed_row(out, tab, s.indices.as_slice(), name_area, pos_width);
    }
}

/// The text of a number of lines.
pub open spec fn text_of(lines: Seq<Seq<char>>) -> Seq<char>
    decreases lines.len(),
{
    if lines.len() == 0 {
        seq![]
    } else {
        text_of(lines.drop_last()) + lines.last().push('\n')
    }
}

proof fn lemma_text_push(before: Seq<char>, lines: Seq<Seq<char>>, line: Seq<char>)
    ensures
        before + text_of(lines.push(line)) == before + text_of(lines) + line.push('\n'),
{
    assert(lines.push(line).drop_last() =~= lines);
    assert(before + (text_of(lines) + line.push('\n')) =~= before + text_of(lines) + line.push(
        '\n',
    ));
}

pub proof fn lemma_text_concat(a: Seq<Seq<char>>, b: Seq<Seq<char>>)
    ensures
        text_of(a + b) == text_of(a) + text_of(b),
    decreases b.len(),
{
    if b.len() == 0 {
        assert(a + b =~= a);
        assert(text_of(a) + text_of(b) =~= text_of(a));
    } else {
        lemma_text_concat(a, b.drop_last());
        assert((a + b).drop_last() =~= a + b.drop_last());
        assert(text_of(a) + text_of(b.drop_last()) + b.last().push('\n') =~= text_of(a) + (text_of(
            b.drop_last(),
        ) + b.last().push('\n')));
    }
}

/// Blank rows across the pane.
pub open spec fn blanks(rows: nat, cols: nat) -> Seq<Seq<char>> {
    Seq::new(rows, |i: int| padded(seq![], cols))
}

/// What an empty list says. Before the first tab update the list is merely
/// unknown, not empty: then it says nothing.
pub open spec fn message(tabs_received: bool, no_tabs: bool) -> Seq<char> {
    if !tabs_received {
        ""@
    } else if no_tabs {
        "no tabs"@
    } else {
        "no matches"@
    }
}

/// A message in the middle of a row.
pub open spec fn message_row(message: Seq<char>, width: nat) -> Seq<char> {
    spaces(minus(width, message.len()) / 2) + DIM@ + message + RESET@
}

/// The first list row to show so that the selected one is among `rows` rows.
pub open spec fn scrolled(scroll_offset: usize, selected: usize, rows: nat) -> usize {
    if selected >= scroll_offset + rows {
        (selected + 1 - rows) as usize
    } else if selected < scroll_offset {
        selected
    } else {
        scroll_offset
    }
}

impl StateModel {
    /// The first row of the list that a list of `rows` rows shows.
    pub open spec fn list_offset(self, rows: nat) -> usize {
        if self.scored.len() == 0 {
            self.scroll_offset
        } else {
            scrolled(self.scroll_offset, self.selected, rows)
        }
    }

    /// The highlight around a row of the list.
    pub open spec fn row_style(self, index: int) -> HighlightStyle {
        HighlightStyle {
            selected: index == self.selected,
            bell: self.scored[index].tab.has_bell_notification,
            blink_on: self.timers.bell_blink_on,
        }
    }

    /// The screen row for an index into the list: empty past its end.
    pub open spec fn index_line(self, index: int, frame: RowFrame) -> Seq<char> {
        if index < self.scored.len() {
            frame.content_row(
                list_row(
                    self.scored[index],
                    index == self.selected,
                    frame.inner(),
                    self.position_digits(),
                    self.timers.bell_blink_on,
                ),
                self.row_style(index),
            )
        } else {
            frame.content_row(seq![], no_highlight())
        }
    }

    /// A row of an empty list: the message stands in the middle one.
    pub open spec fn message_line(self, row: int, rows: nat, frame: RowFrame) -> Seq<char> {
        let message = message(self.tabs_received, self.tabs.len() == 0);
        if row == rows / 2 && message.len() > 0 {
            frame.content_row(message_row(message, frame.inner()), no_highlight())
        } else {
            frame.content_row(seq![], no_highlight())
        }
    }

    /// A list row on the screen, counted from the top of the list.
    pub open spec fn list_line(self, row: int, rows: nat, frame: RowFrame) -> Seq<char> {
        if self.scored.len() == 0 {
            self.message_line(row, rows, frame)
        } else {
            self.index_line(self.list_offset(rows) + row, frame)
        }
    }

    /// Screen rows from an index into the list on.
    pub open spec fn lines_from(self, index: int, rows: nat, frame: RowFrame) -> Seq<Seq<char>> {
        Seq::new(rows, |row: int| self.index_line(index + row, frame))
    }

    pub open spec fn list_lines(self, rows: nat, frame: RowFrame) -> Seq<Seq<char>> {
        Seq::new(rows, |row: int| self.list_line(row, rows, frame))
    }

    /// The numbers that a list of `rows` rows of this width shows are machine
    /// integers.
    pub open spec fn list_fits(self, rows: nat, width: nat) -> bool {
        let first = self.list_offset(rows);
        self.scored.len() > 0 ==> {
            &&& self.selected >= self.scroll_offset + rows ==> self.selected < usize::MAX
            &&& forall|i: int|
                first <= i < first + rows && i < self.scored.len() ==> row_fits(
                    (#[trigger] self.scored[i]).tab,
                    width,
                    self.position_digits(),
                )
        }
    }

    /// The active tab, which is the header.
    pub open spec fn active_tab(self) -> Option<TabModel> {
        first_where(self.tabs, is_active())
    }

    /// Whether a box of this many rows has room for a header.
    pub open spec fn has_header(self, box_rows: usize) -> bool {
        self.active_tab() is Some && box_rows >= 6
    }

    /// The rows above the list: top border, prompt, separator, and the header
    /// with its separator.
    pub open spec fn top_lines(self, place: BoxPlacement) -> Seq<Seq<char>> {
        let frame = place.frame();
        let top = seq![
            frame.border_row('╭', '╮'),
            frame.content_row(prompt(self.query, frame.inner()), no_highlight()),
            frame.border_row('├', '┤'),
        ];
        if self.has_header(place.rows) {
            top + seq![
                frame.content_row(
                    header_row(self.active_tab()->0, frame.inner()),
                    no_highlight(),
                ),
                frame.border_row('├', '┤'),
            ]
        } else {
            top
        }
    }

    /// The rows of the list in a box of this many rows.
    pub open spec fn list_rows(self, box_rows: usize) -> nat {
        if self.has_header(box_rows) {
            (box_rows - 6) as nat
        } else {
            (box_rows - 4) as nat
        }
    }

    /// The numbers that the box shows are machine integers.
    pub open spec fn box_fits(self, place: BoxPlacement) -> bool {
        place.rows < MIN_BOX_ROWS || place.cols < MIN_BOX_COLS || {
            &&& self.has_header(place.rows) ==> panes_fit(self.active_tab()->0)
            &&& self.list_fits(self.list_rows(place.rows), place.frame().inner())
        }
    }

    /// The box, row by row; blank when the pane is too small for it.
    pub open spec fn box_lines(self, place: BoxPlacement) -> Seq<Seq<char>> {
        if place.rows < MIN_BOX_ROWS || place.cols < MIN_BOX_COLS {
            blanks(place.rows as nat, place.outer_cols as nat)
        } else {
            self.top_lines(place) + self.list_lines(self.list_rows(place.rows), place.frame())
                + seq![place.frame().border_row('╰', '╯')]
        }
    }

    /// Where the list rows are, in cells of the pane.
    pub open spec fn list_placed(self, place: BoxPlacement) -> ListArea {
        ListArea {
            top: (place.vpad_top + self.top_lines(place).len()) as usize,
            rows: self.list_rows(place.rows) as usize,
            left: place.hpad,
            width: place.cols,
        }
    }

    /// After the box was drawn: the list has scrolled to the selection, and
    /// its place is known to the mouse.
    pub open spec fn box_drawn(self, place: BoxPlacement) -> StateModel {
        if place.rows < MIN_BOX_ROWS || place.cols < MIN_BOX_COLS {
            StateModel { list_area: None, ..self }
        } else {
            StateModel {
                list_area: Some(self.list_placed(place)),
                scroll_offset: self.list_offset(self.list_rows(place.rows)),
                ..self
            }
        }
    }

    /// The numbers that the pane shows are machine integers.
    pub open spec fn is_drawable(self, rows: usize, cols: usize) -> bool {
        self.ready ==> self.box_fits(BoxPlacement::in_the_middle(rows, cols, self.size))
    }

    /// The pane, row by row: blank until the picker is ready, then the box in
    /// its middle.
    pub open spec fn pane_lines(self, rows: usize, cols: usize) -> Seq<Seq<char>> {
        if !self.ready {
            blanks(rows as nat, cols as nat)
        } else {
            let place = BoxPlacement::in_the_middle(rows, cols, self.size);
            blanks(place.vpad_top as nat, cols as nat) + self.box_lines(place) + blanks(
                (rows - place.rows - place.vpad_top) as nat,
                cols as nat,
            )
        }
    }

    /// After the pane was drawn.
    pub open spec fn drawn(self, rows: usize, cols: usize) -> StateModel {
        if !self.ready {
            StateModel { list_area: None, ..self }
        } else {
            self.box_drawn(BoxPlacement::in_the_middle(rows, cols, self.size))
        }
    }
}

/// Writes blank rows across the pane.
fn push_blanks(out: &mut String, rows: usize, cols: usize)
    ensures
        final(out)@ == old(out)@ + text_of(blanks(rows as nat, cols as nat)),
{
    let ghost before = out@;
    let ghost mut lines: Seq<Seq<char>> = seq![];
    let mut row: usize = 0;
    assert(out@ =~= before + text_of(lines));
    assert(lines =~= blanks(0, cols as nat));
    while row < rows
        invariant
            row <= rows,
            lines == blanks(row as nat, cols as nat),
            out@ == before + text_of(lines),
        decreases rows - row,
    {
        append_padded(out, cols, "");
        row += 1;
        proof {
            reveal_strlit("");
            assert(""@ =~= seq![]);
            lemma_text_push(before, lines, padded(seq![], cols as nat));
            lines = lines.push(padded(seq![], cols as nat));
            assert(lines =~= blanks(row as nat, cols as nat));
        }
    }
}

/// The active tab.
fn find_active(tabs: &Vec<TabEntry>) -> (found: Option<Rc<TabInfo>>)
    ensures
        match found {
            Some(tab) => first_where(tab_models(tabs@), is_active()) == Some(tab@),
            None => first_where(tab_models(tabs@), is_active()) is None,
        },
{
    let ghost models = tab_models(tabs@);
    let mut i: usize = 0;
    while i < tabs.len()
        invariant
            i <= tabs.len(),
            models == tab_models(tabs@),
            forall|k: int| 0 <= k < i ==> !is_active()(#[trigger] models[k]),
        decreases tabs.len() - i,
    {
        assert(models[i as int] == tabs@[i as int].info@);
        if tabs[i].info.active {
            proof {
                lemma_first_where(models, is_active(), i as int);
            }
            return Some(Rc::clone(&tabs[i].info));
        }
        i += 1;
    }
    proof {
        lemma_nowhere(models, is_active());
    }
    None
}

impl State {
    /// Builds the prompt row: prompt sign, query, cursor block. Padding to the
    /// box edge is left to the frame; `query_tail` keeps the most recent chars
    /// that fit, measured in display cells like everything else.
    pub fn build_prompt(&self, content: &mut String, content_width: usize)
        ensures
            final(content)@ == prompt(self@.query, content_width as nat),
    {
        let query_budget: usize = content_width.saturating_sub(3);
        let query_display: &str = query_tail(self.query.as_str(), query_budget);
        content.clear();
        content.push_str(PROMPT);
        content.push('❯');
        content.push_str(RESET);
        content.push(' ');
        assert(content@ =~= PROMPT@ + seq!['❯'] + RESET@ + seq![' ']);
        content.push_str(query_display);
        content.push_str(REVERSE);
        content.push(' ');
        content.push_str(RESET);
        assert(content@ =~= prompt(self@.query, content_width as nat));
    }

    /// Writes the list: its message if it is empty, else its rows, scrolled
    /// so that the selected one is shown. Rows past the end are empty.
    pub fn render_list(&mut self, out: &mut String, list_rows: usize, frame: RowFrame)
        requires
            old(self)@.list_fits(list_rows as nat, frame.inner()),
        ensures
            old(self).wf() ==> final(self).wf(),
            final(self)@ == (StateModel {
                scroll_offset: old(self)@.list_offset(list_rows as nat),
                ..old(self)@
            }),
            final(out)@ == old(out)@ + text_of(old(self)@.list_lines(list_rows as nat, frame)),
    {
        if self.scored.len() == 0 {
            self.render_message(out, list_rows, frame);
            return ;
        }
        let ghost lines = self@.list_lines(list_rows as nat, frame);
        self.scroll_offset = self.first_shown(list_rows);
        assert(lines =~= self@.lines_from(self.scroll_offset as int, list_rows as nat, frame));
        self.render_rows(out, list_rows, frame);
    }

    /// The first row of the list to show so that the selected one is shown.
    fn first_shown(&self, list_rows: usize) -> (first: usize)
        requires
            self.scored.len() > 0,
            self.selected >= self.scroll_offset + list_rows ==> self.selected < usize::MAX,
        ensures
            first == self@.list_offset(list_rows as nat),
    {
        if self.selected >= self.scroll_offset && self.selected - self.scroll_offset >= list_rows {
            self.selected + 1 - list_rows
        } else if self.selected < self.scroll_offset {
            self.selected
        } else {
            self.scroll_offset
        }
    }

    /// Writes the rows of an empty list.
    fn render_message(&self, out: &mut String, list_rows: usize, frame: RowFrame)
        requires
            self.scored.len() == 0,
        ensures
            final(out)@ == old(out)@ + text_of(self@.list_lines(list_rows as nat, frame)),
    {
        let msg: &str = if !self.tabs_received {
            ""
        } else if self.tabs.len() == 0 {
            "no tabs"
        } else {
            "no matches"
        };
        let ghost before = out@;
        let ghost lines = self@.list_lines(list_rows as nat, frame);
        let len: usize = msg.unicode_len();
        let lpad: usize = frame.content_width().saturating_sub(len) / 2;
        let mid: usize = list_rows / 2;
        let mut row: usize = 0;
        assert(lines.take(0) =~= seq![]);
        assert(out@ =~= before + text_of(lines.take(0)));
        while row < list_rows
            invariant
                row <= list_rows,
                self.scored.len() == 0,
                lines == self@.list_lines(list_rows as nat, frame),
                msg@ == message(self@.tabs_received, self@.tabs.len() == 0),
                len == msg@.len(),
                lpad == minus(frame.inner(), msg@.len()) / 2,
                mid == list_rows / 2,
                out@ == before + text_of(lines.take(row as int)),
            decreases list_rows - row,
        {
            let mut content: String = String::new();
            assert(content@ =~= seq![]);
            if row == mid && len > 0 {
                push_pad(&mut content, lpad);
                content.push_str(DIM);
                content.push_str(msg);
                content.push_str(RESET);
                assert(content@ =~= message_row(msg@, frame.inner()));
            }
            frame.wrapped(out, content.as_str(), HighlightStyle::default());
            proof {
                lemma_text_push(before, lines.take(row as int), lines[row as int]);
                assert(lines.take(row + 1) =~= lines.take(row as int).push(lines[row as int]));
            }
            row += 1;
        }
        assert(lines.take(row as int) =~= lines);
    }

    /// Writes the rows of a list from `scroll_offset` on.
    fn render_rows(&self, out: &mut String, list_rows: usize, frame: RowFrame)
        requires
            forall|i: int|
                self.scroll_offset <= i < self.scroll_offset + list_rows && i < self.scored.len()
                    ==> row_fits(
                    (#[trigger] self@.scored[i]).tab,
                    frame.inner(),
                    self@.position_digits(),
                ),
        ensures
            final(out)@ == old(out)@ + text_of(
                self@.lines_from(self.scroll_offset as int, list_rows as nat, frame),
            ),
    {
        let content_width: usize = frame.content_width();
        let pos_width: usize = digit_count(self.tabs.len());
        let blink_on: bool = self.timers.bell_blink_on;
        let ghost before = out@;
        let ghost lines = self@.lines_from(self.scroll_offset as int, list_rows as nat, frame);
        let mut row: usize = 0;
        proof {
            lemma_machine_digits(self.tabs.len());
        }
        assert(lines.take(0) =~= seq![]);
        assert(out@ =~= before + text_of(lines.take(0)));
        while row < list_rows
            invariant
                row <= list_rows,
                forall|i: int|
                    self.scroll_offset <= i < self.scroll_offset + list_rows && i
                        < self.scored.len() ==> row_fits(
                        (#[trigger] self@.scored[i]).tab,
                        frame.inner(),
                        self@.position_digits(),
                    ),
                lines == self@.lines_from(self.scroll_offset as int, list_rows as nat, frame),
                content_width == frame.inner(),
                pos_width == self@.position_digits(),
                pos_width <= 20,
                blink_on == self.timers.bell_blink_on,
                out@ == before + text_of(lines.take(row as int)),
            decreases list_rows - row,
        {
            let mut content: String = String::new();
            assert(content@ =~= seq![]);
            let mut style: HighlightStyle = HighlightStyle::default();
            // Indices past the end of the list render as empty rows.
            match self.scroll_offset.checked_add(row) {
                Some(idx) => if idx < self.scored.len() {
                    let s = &self.scored[idx];
                    assert(self@.scored[idx as int] == s@);
                    let is_sel: bool = idx == self.selected;
                    proof {
                        lemma_machine_digits(
                            (s.tab.selectable_tiled_panes_count
                                + s.tab.selectable_floating_panes_count) as usize,
                        );
                    }
                    render_row(&mut content, s, is_sel, content_width, pos_width, blink_on);
                    assert(content@ =~= list_row(
                        s@,
                        is_sel,
                        content_width as nat,
                        pos_width as nat,
                        blink_on,
                    ));
                    style =
                    HighlightStyle {
                        selected: is_sel,
                        bell: s.tab.has_bell_notification,
                        blink_on,
                    };
                },
                None => {},
            }
            assert(self@.scored.len() == self.scored.len());
            frame.wrapped(out, content.as_str(), style);
            proof {
                lemma_text_push(before, lines.take(row as int), lines[row as int]);
                assert(lines.take(row + 1) =~= lines.take(row as int).push(lines[row as int]));
            }
            row += 1;
        }
        assert(lines.take(row as int) =~= lines);
    }

    /// Writes the rows above the list; returns how many there are.
    fn render_top(&self, out: &mut String, place: BoxPlacement) -> (header_rows: usize)
        requires
            self@.has_header(place.rows) ==> panes_fit(self@.active_tab()->0),
            place.wf(),
        ensures
            header_rows == self@.top_lines(place).len(),
            final(out)@ == old(out)@ + text_of(self@.top_lines(place)),
    {
        let ghost before = out@;
        let ghost lines = self@.top_lines(place);
        let frame: RowFrame = place.row_frame();
        let content_width: usize = frame.content_width();
        let mut content: String = String::new();
        frame.border(out, '╭', '╮');
        self.build_prompt(&mut content, content_width);
        frame.wrapped(out, content.as_str(), HighlightStyle::default());
        frame.border(out, '├', '┤');
        proof {
            assert(lines.take(0) =~= seq![]);
            assert(before + text_of(lines.take(0)) =~= before);
            lemma_text_push(before, lines.take(0), lines[0]);
            assert(lines.take(1) =~= lines.take(0).push(lines[0]));
            lemma_text_push(before, lines.take(1), lines[1]);
            assert(lines.take(2) =~= lines.take(1).push(lines[1]));
            lemma_text_push(before, lines.take(2), lines[2]);
            assert(lines.take(3) =~= lines.take(2).push(lines[2]));
        }
        assert(out@ == before + text_of(lines.take(3)));
        if place.rows >= 6 {
            if let Some(tab) = find_active(&self.tabs) {
                content.clear();
                render_active_row(&mut content, &tab, content_width);
                assert(content@ =~= header_row(tab@, content_width as nat));
                frame.wrapped(out, content.as_str(), HighlightStyle::default());
                frame.border(out, '├', '┤');
                proof {
                    lemma_text_push(before, lines.take(3), lines[3]);
                    assert(lines.take(4) =~= lines.take(3).push(lines[3]));
                    lemma_text_push(before, lines.take(4), lines[4]);
                    assert(lines.take(5) =~= lines.take(4).push(lines[4]));
                    assert(lines.take(5) =~= lines);
                }
                return 5;
            }
        }
        assert(lines.take(3) =~= lines);
        3
    }

    /// Draws the box at `place` and records where the list rows ended up
    /// (`list_area`) for mouse hit-testing.
    #[verifier::rlimit(30)]
    pub fn render_box(&mut self, out: &mut String, place: BoxPlacement)
        requires
            old(self)@.box_fits(place),
            place.wf(),
        ensures
            old(self).wf() ==> final(self).wf(),
            final(self)@ == old(self)@.box_drawn(place),
            final(out)@ == old(out)@ + text_of(old(self)@.box_lines(place)),
    {
        // Minimum size: frame and minimum content. Below that render blank.
        if place.rows < MIN_BOX_ROWS || place.cols < MIN_BOX_COLS {
            self.list_area = None;
            push_blanks(out, place.rows, place.outer_cols);
            return ;
        }
        let ghost model = self@;
        let ghost before = out@;
        let frame: RowFrame = place.row_frame();
        let header_rows: usize = self.render_top(out, place);
        // The rows above the list and the bottom border are the rest of the box.
        let list_rows: usize = place.rows - header_rows - 1;
        self.list_area =
        Some(
            ListArea {
                top: place.vpad_top + header_rows,
                rows: list_rows,
                left: place.hpad,
                width: place.cols,
            },
        );
        assert(self@.list_lines(list_rows as nat, frame) =~= model.list_lines(
            list_rows as nat,
            frame,
        ));
        self.render_list(out, list_rows, frame);
        frame.border(out, '╰', '╯');
        proof {
            let (top, list) = (model.top_lines(place), model.list_lines(list_rows as nat, frame));
            let bottom = frame.border_row('╰', '╯');
            lemma_text_concat(top, list);
            lemma_text_push(before, top + list, bottom);
            assert((top + list).push(bottom) =~= top + list + seq![bottom]);
            assert(before + text_of(top) + text_of(list) =~= before + (text_of(top) + text_of(
                list,
            )));
        }
    }

    /// Draws the pane into a text of `rows` lines, one after the other
    /// without a newline behind the last: that one would scroll the pane's
    /// grid up by a row.
    pub fn render(&mut self, rows: usize, cols: usize) -> (out: String)
        requires
            old(self)@.is_drawable(rows, cols),
        ensures
            old(self).wf() ==> final(self).wf(),
            final(self)@ == old(self)@.drawn(rows, cols),
            out@ == without_newline(text_of(old(self)@.pane_lines(rows, cols))),
    {
        let mut out: String = String::new();
        assert(out@ =~= seq![]);
        if !self.ready {
            self.list_area = None;
            push_blanks(&mut out, rows, cols);
        } else {
            // Box capped at the configured size, centered in the pane. When
            // the host has resized the pane the render area equals the box
            // and there is no padding. Otherwise (the frame between reopen
            // and the resize taking effect) the box is rendered compact with
            // padding around it: cosmetically imperfect but stable.
            let place: BoxPlacement = BoxPlacement::centered(rows, cols, &self.size);
            let ghost top = blanks(place.vpad_top as nat, cols as nat);
            let ghost middle = self@.box_lines(place);
            let below: usize = place.vpad_bottom(rows);
            push_blanks(&mut out, place.vpad_top, cols);
            self.render_box(&mut out, place);
            push_blanks(&mut out, below, cols);
            proof {
                lemma_text_concat(top, middle);
                lemma_text_concat(top + middle, blanks(below as nat, cols as nat));
            }
        }
        assert(out@ =~= text_of(old(self)@.pane_lines(rows, cols)));
        let _ = out.pop();
        out
    }

    /// Whether the numbers that the pane shows are machine integers.
    pub fn can_be_drawn(&self, rows: usize, cols: usize) -> (drawable: bool)
        ensures
            drawable == self@.is_drawable(rows, cols),
    {
        let place: BoxPlacement = BoxPlacement::centered(rows, cols, &self.size);
        if !self.ready || place.rows < MIN_BOX_ROWS || place.cols < MIN_BOX_COLS {
            return true;
        }
        let mut list_rows: usize = place.rows - 4;
        if place.rows >= 6 {
            if let Some(tab) = find_active(&self.tabs) {
                if !has_panes_that_fit(&tab) {
                    return false;
                }
                list_rows = place.rows - 6;
            }
        }
        self.list_can_be_drawn(list_rows, place.row_frame().content_width())
    }

    /// Whether the numbers that the list shows are machine integers.
    fn list_can_be_drawn(&self, list_rows: usize, width: usize) -> (drawable: bool)
        ensures
            drawable == self@.list_fits(list_rows as nat, width as nat),
    {
        if self.scored.len() == 0 {
            return true;
        }
        if self.selected == usize::MAX && self.selected - self.scroll_offset >= list_rows {
            return false;
        }
        let first: usize = self.first_shown(list_rows);
        let pos_width: usize = digit_count(self.tabs.len());
        proof {
            lemma_machine_digits(self.tabs.len());
        }
        let mut i: usize = first;
        while i < self.scored.len() && i - first < list_rows
            invariant
                self.scored.len() > 0,
                first == self@.list_offset(list_rows as nat),
                first <= i,
                i <= self.scored.len() || i == first,
                i - first <= list_rows,
                pos_width == self@.position_digits(),
                pos_width <= 20,
                forall|k: int|
                    first <= k < i ==> row_fits(
                        (#[trigger] self@.scored[k]).tab,
                        width as nat,
                        pos_width as nat,
                    ),
            decreases self.scored.len() - i,
        {
            assert(self@.scored[i as int] == self.scored@[i as int]@);
            assert(first <= i < first + list_rows && i < self@.scored.len());
            if !row_can_be_drawn(&self.scored[i].tab, width, pos_width) {
                return false;
            }
            i += 1;
        }
        true
    }
}

/// Whether the number of a tab's panes is a machine integer.
fn has_panes_that_fit(tab: &TabInfo) -> (fit: bool)
    ensures
        fit == panes_fit(tab@),
{
    tab.selectable_tiled_panes_count <= usize::MAX - tab.selectable_floating_panes_count
}

/// Whether the numbers that a list row shows of a tab are machine integers.
fn row_can_be_drawn(tab: &TabInfo, cols: usize, pos_width: usize) -> (drawable: bool)
    requires
        pos_width <= 20,
    ensures
        drawable == row_fits(tab@, cols as nat, pos_width as nat),
{
    if !has_panes_that_fit(tab) {
        return false;
    }
    let panes: usize = tab.selectable_tiled_panes_count + tab.selectable_floating_panes_count;
    proof {
        lemma_machine_digits(panes);
    }
    tab.position < usize::MAX || cols <= pos_width + 3 + 2 + (digit_count(panes) + 2)
}

/// A text without its last char, the newline behind the last line.
pub open spec fn without_newline(text: Seq<char>) -> Seq<char> {
    if text.len() == 0 {
        text
    } else {
        text.drop_last()
    }
}

} // verus!
