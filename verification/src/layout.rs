//! Geometry of the picker box and its frame.
use crate::style::{lemma_styles_are_invisible, BELL, FRAME, RESET, SELECTED};
use crate::text::{parse_decimal, parsed, push_pad, spaces};
use crate::width::{
    char_width, is_line, lemma_line_char, lemma_line_concat, lemma_line_push, lemma_line_spaces,
    visible_cells, visible_len,
};
use vstd::prelude::*;

verus! {

/// Smallest box the frame layout can render (frame and minimal content).
/// Configured sizes are clamped to it so that a size of 0 cannot produce an
/// invisible picker; smaller *panes* still render blank.
pub const MIN_BOX_COLS: usize = 20;

pub const MIN_BOX_ROWS: usize = 4;

/// Configured box dimensions in cells. Sent as the pane request size to the
/// host and used as the render-box cap: the box is the smaller of the render
/// area and this size, centered inside the pane.
#[derive(Clone, Copy, Debug, PartialEq, Eq, Structural)]
pub struct SizeCfg {
    pub cols: usize,
    pub rows: usize,
}

impl Default for SizeCfg {
    /// 60 columns and 20 rows.
    fn default() -> (size: SizeCfg)
        ensures
            size == (SizeCfg { cols: 60, rows: 20 }),
    {
        SizeCfg { cols: 60, rows: 20 }
    }
}

/// The value that a configuration gives for a key: that of the first entry.
pub open spec fn config_value(entries: Seq<(String, String)>, key: Seq<char>) -> Option<Seq<char>>
    decreases entries.len(),
{
    if entries.len() == 0 {
        None
    } else if entries[0].0@ == key {
        Some(entries[0].1@)
    } else {
        config_value(entries.drop_first(), key)
    }
}

/// A configured dimension: the number given for the key, or the fallback when
/// there is none or it cannot be read, but at least `least`.
pub open spec fn dimension(
    entries: Seq<(String, String)>,
    key: Seq<char>,
    fallback: usize,
    least: usize,
) -> usize {
    let given = match config_value(entries, key) {
        Some(value) => match parsed(value, usize::MAX as nat) {
            Some(number) => number as usize,
            None => fallback,
        },
        None => fallback,
    };
    if given < least {
        least
    } else {
        given
    }
}

/// Reads one configured dimension.
fn read_dimension(entries: &Vec<(String, String)>, key: &str, fallback: usize, least: usize) -> (cells:
    usize)
    ensures
        cells == dimension(entries@, key@, fallback, least),
{
    let wanted: String = key.to_owned();
    let mut given: usize = fallback;
    let mut i: usize = 0;
    assert(entries@.skip(0) =~= entries@);
    while i < entries.len()
        invariant_except_break
            i <= entries.len(),
            wanted@ == key@,
            given == fallback,
            config_value(entries@, key@) == config_value(entries@.skip(i as int), key@),
        ensures
            given == (match config_value(entries@, key@) {
                Some(value) => match parsed(value, usize::MAX as nat) {
                    Some(number) => number as usize,
                    None => fallback,
                },
                None => fallback,
            }),
        decreases entries.len() - i,
    {
        let entry = &entries[i];
        assert(entries@.skip(i as int).drop_first() =~= entries@.skip(i + 1));
        if entry.0 == wanted {
            if let Some(number) = parse_decimal(entry.1.as_str(), usize::MAX as u64) {
                given = number as usize;
            }
            break;
        }
        i += 1;
    }
    if given < least {
        least
    } else {
        given
    }
}

impl SizeCfg {
    /// The size that a configuration asks for.
    pub open spec fn configured(entries: Seq<(String, String)>) -> SizeCfg {
        SizeCfg {
            cols: dimension(entries, "max_cols"@, 60, MIN_BOX_COLS),
            rows: dimension(entries, "max_rows"@, 20, MIN_BOX_ROWS),
        }
    }

    /// Reads `max_cols` and `max_rows` from the plugin configuration.
    pub fn from_config(entries: &Vec<(String, String)>) -> (size: SizeCfg)
        ensures
            size == SizeCfg::configured(entries@),
    {
        let fallback: SizeCfg = SizeCfg::default();
        SizeCfg {
            cols: read_dimension(entries, "max_cols", fallback.cols, MIN_BOX_COLS),
            rows: read_dimension(entries, "max_rows", fallback.rows, MIN_BOX_ROWS),
        }
    }
}

/// Where the tab list was drawn in the last render, in pane-relative cells
/// (the coordinate system of the host's mouse events).
#[derive(Clone, Copy, Debug, PartialEq, Eq, Structural)]
pub struct ListArea {
    pub top: usize,
    pub rows: usize,
    pub left: usize,
    pub width: usize,
}

/// Per-row highlight context.
#[derive(Clone, Copy, Debug, PartialEq, Eq, Structural)]
pub struct HighlightStyle {
    /// This row is the picker's selection.
    pub selected: bool,
    /// This row's tab has a pending bell notification.
    pub bell: bool,
    /// Current blink tick state (only relevant when `bell`).
    pub blink_on: bool,
}

impl Default for HighlightStyle {
    /// A row without highlight.
    fn default() -> (style: HighlightStyle)
        ensures
            style == no_highlight(),
    {
        HighlightStyle { selected: false, bell: false, blink_on: false }
    }
}

pub open spec fn no_highlight() -> HighlightStyle {
    HighlightStyle { selected: false, bell: false, blink_on: false }
}

impl HighlightStyle {
    /// The highlight around a row. A bell row whose blink is off has none
    /// (selection blinks out, bell background off); otherwise the selection
    /// dominates, else the bell background, else none.
    pub open spec fn outer(self) -> Option<Seq<char>> {
        if self.bell && !self.blink_on {
            None
        } else if self.selected {
            Some(SELECTED@)
        } else if self.bell {
            Some(BELL@)
        } else {
            None
        }
    }
}

/// The cells that a content leaves free in a width.
pub open spec fn gap(content: Seq<char>, width: nat) -> nat {
    if visible_cells(content) < width {
        (width - visible_cells(content)) as nat
    } else {
        0
    }
}

/// A content filled up with spaces to a width.
pub open spec fn padded(content: Seq<char>, width: nat) -> Seq<char> {
    content + spaces(gap(content, width))
}

/// Writes a content filled up to `cols` cells, and a newline.
pub fn append_padded(out: &mut String, cols: usize, content: &str)
    ensures
        final(out)@ == old(out)@ + padded(content@, cols as nat).push('\n'),
{
    let ghost before = out@;
    let vis: usize = visible_len(content);
    out.push_str(content);
    push_pad(out, cols.saturating_sub(vis));
    out.push('\n');
    assert(out@ =~= before + padded(content@, cols as nat).push('\n'));
}

/// The vertical frame line at either side of a content row.
pub open spec fn edge() -> Seq<char> {
    FRAME@ + seq!['│'] + RESET@
}

fn push_edge(out: &mut String)
    ensures
        final(out)@ == old(out)@ + edge(),
{
    let ghost before = out@;
    out.push_str(FRAME);
    out.push('│');
    out.push_str(RESET);
    assert(out@ =~= before + edge());
}

/// A content between single spaces, filled up to `width` cells.
pub open spec fn inset(content: Seq<char>, width: nat) -> Seq<char> {
    seq![' '] + padded(content, width) + seq![' ']
}

fn push_inset(out: &mut String, content: &str, width: usize)
    ensures
        final(out)@ == old(out)@ + inset(content@, width as nat),
{
    let ghost before = out@;
    let vis: usize = visible_len(content);
    out.push(' ');
    out.push_str(content);
    push_pad(out, width.saturating_sub(vis));
    out.push(' ');
    assert(out@ =~= before + inset(content@, width as nat));
}

/// A framed content of `width` cells, inside the highlight of its row.
pub open spec fn wrapped(content: Seq<char>, width: nat, style: HighlightStyle) -> Seq<char> {
    match style.outer() {
        Some(outer) => edge() + seq![' '] + outer + inset(content, width) + RESET@ + seq![' ']
            + edge(),
        None => edge() + seq![' '] + inset(content, width) + seq![' '] + edge(),
    }
}

/// Writes a framed line with conditional outer highlight.
pub fn append_wrap(out: &mut String, content: &str, content_width: usize, style: HighlightStyle)
    ensures
        final(out)@ == old(out)@ + wrapped(content@, content_width as nat, style),
{
    let ghost before = out@;
    let ghost inside = inset(content@, content_width as nat);
    let lit: bool = if style.bell {
        style.blink_on
    } else {
        true
    };
    push_edge(out);
    out.push(' ');
    assert(out@ =~= before + (edge() + seq![' ']));
    if lit && (style.selected || style.bell) {
        let outer: &str = if style.selected {
            SELECTED
        } else {
            BELL
        };
        out.push_str(outer);
        assert(out@ =~= before + (edge() + seq![' '] + outer@));
        push_inset(out, content, content_width);
        assert(out@ =~= before + (edge() + seq![' '] + outer@ + inside));
        out.push_str(RESET);
        assert(out@ =~= before + (edge() + seq![' '] + outer@ + inside + RESET@));
        out.push(' ');
        assert(out@ =~= before + (edge() + seq![' '] + outer@ + inside + RESET@ + seq![' ']));
    } else {
        push_inset(out, content, content_width);
        assert(out@ =~= before + (edge() + seq![' '] + inside));
        out.push(' ');
        assert(out@ =~= before + (edge() + seq![' '] + inside + seq![' ']));
    }
    push_edge(out);
    assert(out@ =~= before + wrapped(content@, content_width as nat, style));
}

/// A horizontal border of `cols` cells between two corners.
pub open spec fn border(left: char, right: char, cols: nat) -> Seq<char> {
    let dashes = Seq::new(
        if cols >= 2 {
            (cols - 2) as nat
        } else {
            0
        },
        |i: int| '─',
    );
    FRAME@ + seq![left] + dashes + seq![right] + RESET@
}

pub fn append_horizontal_border(out: &mut String, left: char, right: char, cols: usize)
    ensures
        final(out)@ == old(out)@ + border(left, right, cols as nat),
{
    let ghost before = out@;
    out.push_str(FRAME);
    out.push(left);
    let dashes: usize = cols.saturating_sub(2);
    let ghost start = out@;
    let mut i: usize = 0;
    assert(start =~= start + Seq::new(0, |k: int| '─'));
    while i < dashes
        invariant
            i <= dashes,
            out@ == start + Seq::new(i as nat, |k: int| '─'),
        decreases dashes - i,
    {
        out.push('─');
        i += 1;
        assert(out@ =~= start + Seq::new(i as nat, |k: int| '─'));
    }
    out.push(right);
    out.push_str(RESET);
    assert(out@ =~= before + border(left, right, cols as nat));
}

/// Where the box sits inside the pane: `rows` x `cols` cells, starting at
/// column `hpad` below `vpad_top` blank rows, in a pane `outer_cols` wide.
#[derive(Clone, Copy, Debug, PartialEq, Eq, Structural)]
pub struct BoxPlacement {
    pub rows: usize,
    pub cols: usize,
    pub hpad: usize,
    pub vpad_top: usize,
    pub outer_cols: usize,
}

pub open spec fn smaller(a: usize, b: usize) -> usize {
    if a <= b {
        a
    } else {
        b
    }
}

impl BoxPlacement {
    /// A box capped at `size`, in the middle of a `rows` x `cols` pane.
    pub open spec fn in_the_middle(rows: usize, cols: usize, size: SizeCfg) -> BoxPlacement {
        BoxPlacement {
            rows: smaller(rows, size.rows),
            cols: smaller(cols, size.cols),
            hpad: ((cols - smaller(cols, size.cols)) / 2) as usize,
            vpad_top: ((rows - smaller(rows, size.rows)) / 2) as usize,
            outer_cols: cols,
        }
    }

    /// The last column and the last row of the box have a number.
    pub open spec fn wf(self) -> bool {
        self.hpad + self.cols <= usize::MAX && self.vpad_top + self.rows <= usize::MAX
    }

    /// The box lies inside the pane's width.
    pub open spec fn is_inside(self) -> bool {
        self.hpad + self.cols <= self.outer_cols
    }

    /// Centres a box capped at `size` inside a `rows` x `cols` pane.
    pub fn centered(rows: usize, cols: usize, size: &SizeCfg) -> (place: BoxPlacement)
        ensures
            place == BoxPlacement::in_the_middle(rows, cols, *size),
            place.wf(),
            place.is_inside(),
            place.vpad_top + place.rows <= rows,
    {
        let box_cols: usize = if cols <= size.cols {
            cols
        } else {
            size.cols
        };
        let box_rows: usize = if rows <= size.rows {
            rows
        } else {
            size.rows
        };
        BoxPlacement {
            rows: box_rows,
            cols: box_cols,
            hpad: (cols - box_cols) / 2,
            vpad_top: (rows - box_rows) / 2,
            outer_cols: cols,
        }
    }

    /// Blank pane rows below the box.
    pub fn vpad_bottom(self, pane_rows: usize) -> (rows: usize)
        ensures
            rows == if self.rows + self.vpad_top <= pane_rows {
                pane_rows - self.rows - self.vpad_top
            } else {
                0
            },
    {
        pane_rows.saturating_sub(self.rows).saturating_sub(self.vpad_top)
    }

    pub open spec fn frame(self) -> RowFrame {
        RowFrame {
            hpad: self.hpad,
            cols: self.cols,
            trail: if self.is_inside() {
                (self.outer_cols - self.hpad - self.cols) as usize
            } else {
                0
            },
        }
    }

    /// The horizontal layout of the box rows.
    pub fn row_frame(self) -> (frame: RowFrame)
        requires
            self.wf(),
        ensures
            frame == self.frame(),
    {
        RowFrame {
            hpad: self.hpad,
            cols: self.cols,
            trail: self.outer_cols.saturating_sub(self.hpad + self.cols),
        }
    }
}

/// Horizontal layout shared by every box row: `hpad` blank cells, the box
/// (`cols` wide, six of which are frame and padding), then `trail` blank
/// cells up to the pane's right edge. Every row is exactly one pane wide,
/// so no cell is left transparent.
#[derive(Clone, Copy, Debug, PartialEq, Eq, Structural)]
pub struct RowFrame {
    pub hpad: usize,
    pub cols: usize,
    pub trail: usize,
}

impl RowFrame {
    pub open spec fn inner(self) -> nat {
        if self.cols >= 6 {
            (self.cols - 6) as nat
        } else {
            0
        }
    }

    /// Cells available for row content between the frame paddings.
    pub fn content_width(self) -> (width: usize)
        ensures
            width == self.inner(),
    {
        self.cols.saturating_sub(6)
    }

    /// A text of the box between the blanks at its sides.
    pub open spec fn placed(self, text: Seq<char>) -> Seq<char> {
        spaces(self.hpad as nat) + text + spaces(self.trail as nat)
    }

    pub open spec fn border_row(self, left: char, right: char) -> Seq<char> {
        self.placed(border(left, right, self.cols as nat))
    }

    pub open spec fn content_row(self, content: Seq<char>, style: HighlightStyle) -> Seq<char> {
        self.placed(wrapped(content, self.inner(), style))
    }

    /// Writes a horizontal border row.
    pub fn border(self, out: &mut String, left: char, right: char)
        ensures
            final(out)@ == old(out)@ + self.border_row(left, right).push('\n'),
    {
        let ghost before = out@;
        push_pad(out, self.hpad);
        append_horizontal_border(out, left, right, self.cols);
        push_pad(out, self.trail);
        out.push('\n');
        assert(out@ =~= before + self.border_row(left, right).push('\n'));
    }

    /// Writes a framed content row.
    pub fn wrapped(self, out: &mut String, content: &str, style: HighlightStyle)
        ensures
            final(out)@ == old(out)@ + self.content_row(content@, style).push('\n'),
    {
        let ghost before = out@;
        push_pad(out, self.hpad);
        append_wrap(out, content, self.content_width(), style);
        push_pad(out, self.trail);
        out.push('\n');
        assert(out@ =~= before + self.content_row(content@, style).push('\n'));
    }
}

proof fn lemma_dashes(n: nat)
    ensures
        is_line(Seq::new(n, |i: int| '─'), n),
    decreases n,
{
    let dashes = Seq::new(n, |i: int| '─');
    if n > 0 {
        let fewer = Seq::new((n - 1) as nat, |i: int| '─');
        lemma_dashes((n - 1) as nat);
        assert(dashes =~= fewer.push('─'));
        lemma_line_push(fewer, (n - 1) as nat, '─');
    }
}

/// A border between two single-cell corners is as wide as the box.
pub proof fn lemma_border_line(left: char, right: char, cols: nat)
    requires
        cols >= 2,
        !crate::text::is_control(left),
        !crate::text::is_control(right),
        char_width(left) == 1,
        char_width(right) == 1,
    ensures
        is_line(border(left, right, cols), cols),
{
    let dashes = Seq::new((cols - 2) as nat, |i: int| '─');
    lemma_styles_are_invisible();
    lemma_line_char(left);
    lemma_line_char(right);
    lemma_dashes((cols - 2) as nat);
    lemma_line_concat(FRAME@, 0, seq![left], 1);
    lemma_line_concat(FRAME@ + seq![left], 1, dashes, (cols - 2) as nat);
    lemma_line_concat(FRAME@ + seq![left] + dashes, (cols - 1) as nat, seq![right], 1);
    lemma_line_concat(FRAME@ + seq![left] + dashes + seq![right], cols, RESET@, 0);
}

/// Filling up a content gives exactly the width.
pub proof fn lemma_padded_line(content: Seq<char>, content_cells: nat, width: nat)
    requires
        is_line(content, content_cells),
        content_cells <= width,
    ensures
        is_line(padded(content, width), width),
{
    lemma_line_spaces((width - content_cells) as nat);
    lemma_line_concat(
        content,
        content_cells,
        spaces((width - content_cells) as nat),
        (width - content_cells) as nat,
    );
}

/// A framed content is six cells wider than its content.
pub proof fn lemma_wrapped_line(
    content: Seq<char>,
    content_cells: nat,
    width: nat,
    style: HighlightStyle,
)
    requires
        is_line(content, content_cells),
        content_cells <= width,
    ensures
        is_line(wrapped(content, width, style), width + 6),
{
    let filled = padded(content, width);
    let space = seq![' '];
    let edge = edge();
    lemma_styles_are_invisible();
    lemma_padded_line(content, content_cells, width);
    lemma_line_char(' ');
    lemma_line_char('│');
    lemma_line_concat(space, 1, filled, width);
    lemma_line_concat(space + filled, width + 1, space, 1);
    let inside = inset(content, width);
    lemma_line_concat(FRAME@, 0, seq!['│'], 1);
    lemma_line_concat(FRAME@ + seq!['│'], 1, RESET@, 0);
    lemma_line_concat(edge, 1, space, 1);
    match style.outer() {
        Some(outer) => {
            lemma_line_concat(edge + space, 2, outer, 0);
            lemma_line_concat(edge + space + outer, 2, inside, width + 2);
            lemma_line_concat(edge + space + outer + inside, width + 4, RESET@, 0);
            lemma_line_concat(edge + space + outer + inside + RESET@, width + 4, space, 1);
            lemma_line_concat(
                edge + space + outer + inside + RESET@ + space,
                width + 5,
                edge,
                1,
            );
        },
        None => {
            lemma_line_concat(edge + space, 2, inside, width + 2);
            lemma_line_concat(edge + space + inside, width + 4, space, 1);
            lemma_line_concat(edge + space + inside + space, width + 5, edge, 1);
        },
    }
}

/// A row of the box takes the box and the blanks at its sides.
pub proof fn lemma_placed_line(frame: RowFrame, text: Seq<char>)
    requires
        is_line(text, frame.cols as nat),
    ensures
        is_line(frame.placed(text), (frame.hpad + frame.cols + frame.trail) as nat),
{
    lemma_line_spaces(frame.hpad as nat);
    lemma_line_spaces(frame.trail as nat);
    lemma_line_concat(spaces(frame.hpad as nat), frame.hpad as nat, text, frame.cols as nat);
    lemma_line_concat(
        spaces(frame.hpad as nat) + text,
        (frame.hpad + frame.cols) as nat,
        spaces(frame.trail as nat),
        frame.trail as nat,
    );
}

/// A configured size is never below the smallest box, and the default one
/// where the configuration gives none.
pub proof fn law_configured_size(entries: Seq<(String, String)>)
    ensures
        SizeCfg::configured(entries).cols >= MIN_BOX_COLS,
        SizeCfg::configured(entries).rows >= MIN_BOX_ROWS,
        config_value(entries, "max_cols"@) is None ==> SizeCfg::configured(entries).cols == 60,
        config_value(entries, "max_rows"@) is None ==> SizeCfg::configured(entries).rows == 20,
{
}

} // verus!
