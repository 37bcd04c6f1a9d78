//! What a terminal shows of what the picker draws: every char in its place, and
//! the style that it is shown in.
use crate::layout::{border, gap, inset, wrapped, HighlightStyle, RowFrame};
use crate::names::{
    addressable, highlighted, law_ascending_indices_all_count, shown_name, truncated_cells,
    truncated_name,
};
use crate::render::{
    bracketed, dimmed_row, header_row, list_row, minus, numbered, plain_row, prompt,
};
use crate::style::{ACTIVE, BELL, BELL_RESTORE, DIM, FRAME, MATCH, PROMPT, RESET, REVERSE, SELECTED};
use crate::tabs::{Row, TabModel};
use crate::text::{decimal, is_control, law_decimal_round_trip, spaces};
use crate::width::{
    cells, char_width, fitting_prefix, fitting_suffix, is_escape_sequence, scan, shown_tail,
    visible_cells,
};
use vstd::prelude::*;

verus! {

/// What a terminal has shown: the chars, each with the escape sequence in
/// force, the sequence in force now, and the one that is being read.
#[verifier::ext_equal]
pub struct Shown {
    pub cells: Seq<(char, Seq<char>)>,
    pub style: Seq<char>,
    pub open: Option<Seq<char>>,
}

/// After one more char. A sequence runs from ESC to the next ASCII letter.
pub open spec fn read_char(shown: Shown, c: char) -> Shown {
    if c == '\u{1b}' {
        Shown { open: Some(seq![c]), ..shown }
    } else {
        match shown.open {
            Some(sequence) => if 0x41 <= (c as u32) <= 0x5a || 0x61 <= (c as u32) <= 0x7a {
                Shown { style: sequence.push(c), open: None, ..shown }
            } else {
                Shown { open: Some(sequence.push(c)), ..shown }
            },
            None => Shown { cells: shown.cells.push((c, shown.style)), ..shown },
        }
    }
}

/// After a text.
pub open spec fn read(text: Seq<char>, shown: Shown) -> Shown
    decreases text.len(),
{
    if text.len() == 0 {
        shown
    } else {
        read_char(read(text.drop_last(), shown), text.last())
    }
}

/// A text that begins in one style shows these chars and ends in another style.
#[verifier::opaque]
pub open spec fn draws(
    text: Seq<char>,
    start: Seq<char>,
    shows: Seq<(char, Seq<char>)>,
    end: Seq<char>,
) -> bool {
    read(text, Shown { cells: seq![], style: start, open: None }) == (Shown {
        cells: shows,
        style: end,
        open: None,
    })
}

/// Chars that are all shown in one style.
pub open spec fn paint(text: Seq<char>, style: Seq<char>) -> Seq<(char, Seq<char>)> {
    Seq::new(text.len(), |i: int| (text[i], style))
}

/// The chars without their styles.
pub open spec fn chars_in(shows: Seq<(char, Seq<char>)>) -> Seq<char> {
    Seq::new(shows.len(), |i: int| shows[i].0)
}

proof fn lemma_read_concat(a: Seq<char>, b: Seq<char>, shown: Shown)
    ensures
        read(a + b, shown) == read(b, read(a, shown)),
    decreases b.len(),
{
    if b.len() == 0 {
        assert(a + b =~= a);
    } else {
        assert((a + b).drop_last() =~= a + b.drop_last());
        lemma_read_concat(a, b.drop_last(), shown);
    }
}

proof fn lemma_read_behind(text: Seq<char>, before: Seq<(char, Seq<char>)>, shown: Shown)
    ensures
        read(text, Shown { cells: before + shown.cells, ..shown }) == (Shown {
            cells: before + read(text, shown).cells,
            ..read(text, shown)
        }),
    decreases text.len(),
{
    if text.len() > 0 {
        lemma_read_behind(text.drop_last(), before, shown);
        let rest = read(text.drop_last(), shown);
        let c = text.last();
        assert(read_char(Shown { cells: before + rest.cells, ..rest }, c).cells =~= before
            + read_char(rest, c).cells);
        assert(read_char(Shown { cells: before + rest.cells, ..rest }, c) =~= Shown {
            cells: before + read_char(rest, c).cells,
            ..read_char(rest, c)
        });
    }
}

/// A text behind another one.
proof fn lemma_draws_concat(
    a: Seq<char>,
    start: Seq<char>,
    x: Seq<(char, Seq<char>)>,
    between: Seq<char>,
    b: Seq<char>,
    y: Seq<(char, Seq<char>)>,
    end: Seq<char>,
)
    requires
        draws(a, start, x, between),
        draws(b, between, y, end),
    ensures
        draws(a + b, start, x + y, end),
{
    reveal(draws);
    let empty = Shown { cells: seq![], style: start, open: None };
    let next = Shown { cells: seq![], style: between, open: None };
    lemma_read_concat(a, b, empty);
    lemma_read_behind(b, x, next);
    assert(Shown { cells: x + next.cells, ..next } =~= read(a, empty));
    assert(read(a + b, empty) =~= Shown { cells: x + y, style: end, open: None });
}

/// A text without ESC.
proof fn lemma_draws_plain(text: Seq<char>, style: Seq<char>)
    requires
        forall|i: int| 0 <= i < text.len() ==> #[trigger] text[i] != '\u{1b}',
    ensures
        draws(text, style, paint(text, style), style),
    decreases text.len(),
{
    reveal(draws);
    let empty = Shown { cells: seq![], style, open: None };
    if text.len() == 0 {
        assert(paint(text, style) =~= seq![]);
    } else {
        let rest = text.drop_last();
        assert forall|i: int| 0 <= i < rest.len() implies #[trigger] rest[i] != '\u{1b}' by {
            assert(rest[i] == text[i]);
        }
        lemma_draws_plain(rest, style);
        assert(text[text.len() - 1] != '\u{1b}');
        assert(read(text, empty).cells =~= paint(text, style));
    }
}

proof fn lemma_draws_char(c: char, style: Seq<char>)
    requires
        c != '\u{1b}',
    ensures
        draws(seq![c], style, seq![(c, style)], style),
{
    lemma_draws_plain(seq![c], style);
    assert(paint(seq![c], style) =~= seq![(c, style)]);
}

proof fn lemma_draws_spaces(n: nat, style: Seq<char>)
    ensures
        draws(spaces(n), style, paint(spaces(n), style), style),
{
    lemma_draws_plain(spaces(n), style);
}

proof fn lemma_open_sequence(s: Seq<char>, len: int, style: Seq<char>)
    requires
        is_escape_sequence(s),
        1 <= len < s.len(),
    ensures
        read(s.take(len), Shown { cells: seq![], style, open: None }) == (Shown {
            cells: seq![],
            style,
            open: Some(s.take(len)),
        }),
    decreases len,
{
    let empty = Shown { cells: seq![], style, open: None };
    assert(s.take(len).drop_last() =~= s.take(len - 1));
    if len == 1 {
        assert(read(s.take(0), empty) == empty);
        assert(s.take(1) =~= seq!['\u{1b}']);
    } else {
        lemma_open_sequence(s, len - 1, style);
        assert(s[len - 1] != '\u{1b}') by {
            assert(!is_control(s[len - 1]));
        }
        assert(s.take(len - 1).push(s[len - 1]) =~= s.take(len));
    }
}

/// An escape sequence shows nothing and is in force from then on.
proof fn lemma_draws_sequence(s: Seq<char>, style: Seq<char>)
    requires
        is_escape_sequence(s),
    ensures
        draws(s, style, seq![], s),
{
    reveal(draws);
    let last = s.len() - 1;
    lemma_open_sequence(s, last, style);
    assert(s.drop_last() =~= s.take(last));
    assert(s.take(last).push(s.last()) =~= s);
}

/// The sequences that the picker uses: reset, dim, reverse, bold cyan for the
/// prompt and the active tab, bold yellow for matches, dim for the frame, bold
/// and reverse for the selection, light grey for bells.
pub proof fn law_styles()
    ensures
        RESET@ == seq!['\u{1b}', '[', '0', 'm'],
        DIM@ == seq!['\u{1b}', '[', '2', 'm'],
        FRAME@ == seq!['\u{1b}', '[', '2', 'm'],
        REVERSE@ == seq!['\u{1b}', '[', '7', 'm'],
        PROMPT@ == seq!['\u{1b}', '[', '1', ';', '3', '6', 'm'],
        ACTIVE@ == seq!['\u{1b}', '[', '1', ';', '3', '6', 'm'],
        MATCH@ == seq!['\u{1b}', '[', '1', ';', '3', '3', 'm'],
        SELECTED@ == seq!['\u{1b}', '[', '1', ';', '7', 'm'],
        BELL@ == seq!['\u{1b}', '[', '7', ';', '3', '8', ';', '5', ';', '2', '5', '0', 'm'],
        BELL_RESTORE@ == seq![
            '\u{1b}', '[', '0', ';', '7', ';', '3', '8', ';', '5', ';', '2', '5', '0', 'm',
        ],
        is_escape_sequence(RESET@),
        is_escape_sequence(DIM@),
        is_escape_sequence(FRAME@),
        is_escape_sequence(REVERSE@),
        is_escape_sequence(PROMPT@),
        is_escape_sequence(ACTIVE@),
        is_escape_sequence(MATCH@),
        is_escape_sequence(SELECTED@),
        is_escape_sequence(BELL@),
        is_escape_sequence(BELL_RESTORE@),
{
    reveal_strlit("\u{1b}[0m");
    reveal_strlit("\u{1b}[2m");
    reveal_strlit("\u{1b}[7m");
    reveal_strlit("\u{1b}[1;36m");
    reveal_strlit("\u{1b}[1;33m");
    reveal_strlit("\u{1b}[1;7m");
    reveal_strlit("\u{1b}[7;38;5;250m");
    reveal_strlit("\u{1b}[0;7;38;5;250m");
    assert(RESET@ =~= seq!['\u{1b}', '[', '0', 'm']);
    assert(DIM@ =~= seq!['\u{1b}', '[', '2', 'm']);
    assert(REVERSE@ =~= seq!['\u{1b}', '[', '7', 'm']);
    assert(PROMPT@ =~= seq!['\u{1b}', '[', '1', ';', '3', '6', 'm']);
    assert(MATCH@ =~= seq!['\u{1b}', '[', '1', ';', '3', '3', 'm']);
    assert(SELECTED@ =~= seq!['\u{1b}', '[', '1', ';', '7', 'm']);
    assert(BELL@ =~= seq!['\u{1b}', '[', '7', ';', '3', '8', ';', '5', ';', '2', '5', '0', 'm']);
    assert(BELL_RESTORE@ =~= seq![
        '\u{1b}', '[', '0', ';', '7', ';', '3', '8', ';', '5', ';', '2', '5', '0', 'm',
    ]);
}

/// The style that is in force from then on.
proof fn lemma_draws_style(style: Seq<char>, start: Seq<char>)
    requires
        style == RESET@ || style == DIM@ || style == FRAME@ || style == REVERSE@ || style == PROMPT@
            || style == ACTIVE@ || style == SELECTED@ || style == BELL@,
    ensures
        draws(style, start, seq![], style),
{
    law_styles();
    lemma_draws_sequence(style, start);
}

/// The styles that restore a row behind a match are sequences.
proof fn lemma_restoring_styles()
    ensures
        is_escape_sequence(RESET@),
        is_escape_sequence(BELL_RESTORE@),
{
    law_styles();
}

/// The visible cells of a text are those of the chars that it shows, also where
/// it ends inside an escape sequence.
pub proof fn law_visible_cells(text: Seq<char>, style: Seq<char>)
    ensures
        ({
            let shown = read(text, Shown { cells: seq![], style, open: None });
            &&& visible_cells(text) == cells(chars_in(shown.cells))
            &&& scan(text, false).1 == shown.open is Some
        }),
    decreases text.len(),
{
    let empty = Shown { cells: seq![], style, open: None };
    if text.len() == 0 {
        assert(chars_in(read(text, empty).cells) =~= seq![]);
    } else {
        law_visible_cells(text.drop_last(), style);
        let rest = read(text.drop_last(), empty);
        let shown = read(text, empty);
        if text.last() != '\u{1b}' && rest.open is None {
            assert(chars_in(shown.cells).drop_last() =~= chars_in(rest.cells));
            assert(chars_in(shown.cells).last() == text.last());
        } else {
            assert(chars_in(shown.cells) =~= chars_in(rest.cells));
        }
    }
}

/// A text is as wide as what it shows.
pub proof fn law_width_is_that_of_the_shown_chars(
    text: Seq<char>,
    start: Seq<char>,
    shows: Seq<(char, Seq<char>)>,
    end: Seq<char>,
)
    requires
        draws(text, start, shows, end),
    ensures
        visible_cells(text) == cells(chars_in(shows)),
{
    reveal(draws);
    law_visible_cells(text, start);
}

/// A char takes no cell if it is a control char, one if it is printable ASCII
/// or one of the frame's; cells add up.
pub proof fn law_cells(text: Seq<char>, c: char)
    ensures
        cells(seq![]) == 0,
        cells(text.push(c)) == cells(text) + char_width(c),
        (c as u32) < 0x20 || 0x7f <= (c as u32) < 0xa0 ==> char_width(c) == 0,
        0x20 <= (c as u32) < 0x7f ==> char_width(c) == 1,
        seq!['│', '─', '├', '┤', '╭', '╮', '╰', '╯', '❯', '…'].contains(c) ==> char_width(c)
            == 1,
        !((c as u32) < 0xa0) && !seq![
            '│',
            '─',
            '├',
            '┤',
            '╭',
            '╮',
            '╰',
            '╯',
            '❯',
            '…',
        ].contains(c) ==> char_width(c) == crate::width::table_width(c),
{
    assert(text.push(c).drop_last() =~= text);
    let glyphs = seq!['│', '─', '├', '┤', '╭', '╮', '╰', '╯', '❯', '…'];
    assert(glyphs[0] == '│' && glyphs[1] == '─' && glyphs[2] == '├' && glyphs[3] == '┤');
    assert(glyphs[4] == '╭' && glyphs[5] == '╮' && glyphs[6] == '╰' && glyphs[7] == '╯');
    assert(glyphs[8] == '❯' && glyphs[9] == '…');
}

/// A name with every control char as `?`.
pub open spec fn readable(name: Seq<char>) -> Seq<char> {
    Seq::new(
        name.len(),
        |i: int|
            if (name[i] as u32) < 0x20 || 0x7f <= (name[i] as u32) < 0xa0 {
                '?'
            } else {
                name[i]
            },
    )
}

/// The first `kept` chars of a name are shown in a width: all if they fit, else
/// as many as leave a cell for an ellipsis.
pub open spec fn is_cut(name: Seq<char>, width: nat, kept: int, text: Seq<char>) -> bool {
    let shown = readable(name);
    if width == 0 {
        kept == 0 && text == Seq::<char>::empty()
    } else if cells(shown) <= width {
        kept == shown.len() && text == shown
    } else if width == 1 {
        kept == 0 && text == seq!['…']
    } else {
        &&& 0 <= kept < shown.len()
        &&& cells(shown.take(kept)) <= width - 1 < cells(shown.take(kept + 1))
        &&& text == shown.take(kept) + seq!['…']
    }
}

/// A position is among the highlighted ones.
pub open spec fn is_hit(indices: Seq<u32>, i: int) -> bool {
    exists|j: int| 0 <= j < indices.len() && #[trigger] indices[j] == i
}

/// A highlighted position comes before this one.
pub open spec fn is_behind_hit(indices: Seq<u32>, i: int) -> bool {
    exists|j: int| 0 <= j < indices.len() && #[trigger] indices[j] < i
}

/// A name in its styles: highlighted chars as matches, those behind one in the
/// style that restores the row, and the others in the style of the row.
pub open spec fn marked_cells(
    text: Seq<char>,
    kept: int,
    indices: Seq<u32>,
    style: Seq<char>,
    restore: Seq<char>,
) -> Seq<(char, Seq<char>)> {
    Seq::new(
        text.len(),
        |i: int|
            (
                text[i],
                if i < kept && is_hit(indices, i) {
                    MATCH@
                } else if is_behind_hit(indices, i) {
                    restore
                } else {
                    style
                },
            ),
    )
}

/// The style behind a name.
pub open spec fn style_behind(
    kept: int,
    indices: Seq<u32>,
    style: Seq<char>,
    restore: Seq<char>,
) -> Seq<char> {
    if is_behind_hit(indices, kept) {
        restore
    } else {
        style
    }
}

proof fn lemma_longest_prefix(s: Seq<char>, budget: nat) -> (kept: int)
    ensures
        0 <= kept <= s.len(),
        fitting_prefix(s, budget) == s.take(kept),
        cells(s.take(kept)) <= budget,
        kept < s.len() ==> budget < cells(s.take(kept + 1)),
    decreases s.len(),
{
    if cells(s) <= budget {
        assert(s.take(s.len() as int) =~= s);
        s.len() as int
    } else {
        assert(s.len() > 0);
        let rest = s.drop_last();
        let kept = lemma_longest_prefix(rest, budget);
        assert(rest.take(kept) =~= s.take(kept));
        if kept < rest.len() {
            assert(rest.take(kept + 1) =~= s.take(kept + 1));
        } else {
            assert(s.take(kept + 1) =~= s);
        }
        kept
    }
}

proof fn lemma_draws_highlighted(
    text: Seq<char>,
    indices: Seq<u32>,
    style: Seq<char>,
    restore: Seq<char>,
)
    requires
        forall|i: int| 0 <= i < text.len() ==> #[trigger] text[i] != '\u{1b}',
        forall|i: int, j: int| 0 <= i <= j < indices.len() ==> indices[i] <= indices[j],
        is_escape_sequence(restore),
    ensures
        draws(
            highlighted(text, indices, restore),
            style,
            marked_cells(text, text.len() as int, indices, style, restore),
            style_behind(text.len() as int, indices, style, restore),
        ),
    decreases text.len(),
{
    reveal(draws);
    let n = text.len() as int;
    if n == 0 {
        assert(marked_cells(text, n, indices, style, restore) =~= seq![]);
        assert(!is_behind_hit(indices, 0));
    } else {
        let rest = text.drop_last();
        let c = text.last();
        let i = n - 1;
        assert forall|k: int| 0 <= k < rest.len() implies #[trigger] rest[k] != '\u{1b}' by {
            assert(rest[k] == text[k]);
        }
        lemma_draws_highlighted(rest, indices, style, restore);
        law_ascending_indices_all_count(indices, i);
        law_styles();
        let before = highlighted(rest, indices, restore);
        let x = marked_cells(rest, i, indices, style, restore);
        let between = style_behind(i, indices, style, restore);
        let all = marked_cells(text, n, indices, style, restore);
        assert(text[i] == c);
        if is_hit(indices, i) {
            let j = choose|j: int| 0 <= j < indices.len() && #[trigger] indices[j] == i;
            assert(indices[j] < n);
            lemma_draws_sequence(MATCH@, between);
            lemma_draws_char(c, MATCH@);
            lemma_draws_sequence(restore, MATCH@);
            lemma_draws_concat(before, style, x, between, MATCH@, seq![], MATCH@);
            lemma_draws_concat(
                before + MATCH@,
                style,
                x + seq![],
                MATCH@,
                seq![c],
                seq![(c, MATCH@)],
                MATCH@,
            );
            lemma_draws_concat(
                before + MATCH@ + seq![c],
                style,
                x + seq![] + seq![(c, MATCH@)],
                MATCH@,
                restore,
                seq![],
                restore,
            );
            assert(x + seq![] + seq![(c, MATCH@)] + seq![] =~= all);
        } else {
            lemma_draws_char(c, between);
            lemma_draws_concat(before, style, x, between, seq![c], seq![(c, between)], between);
            assert(x + seq![(c, between)] =~= all);
            assert(is_behind_hit(indices, n) == is_behind_hit(indices, i)) by {
                if is_behind_hit(indices, n) {
                    let j = choose|j: int| 0 <= j < indices.len() && #[trigger] indices[j] < n;
                    assert(indices[j] != i);
                }
                if is_behind_hit(indices, i) {
                    let j = choose|j: int| 0 <= j < indices.len() && #[trigger] indices[j] < i;
                    assert(indices[j] < n);
                }
            }
        }
    }
}

/// A name cut to a width shows as many of its chars as fit, the highlighted ones
/// as matches, and an ellipsis if some do not fit.
pub proof fn law_cut_name(
    name: Seq<char>,
    indices: Seq<u32>,
    width: nat,
    style: Seq<char>,
    restore: Seq<char>,
) -> (cut: (int, Seq<char>))
    requires
        name.len() <= 0xffff_ffff,
        forall|i: int, j: int| 0 <= i <= j < indices.len() ==> indices[i] <= indices[j],
        is_escape_sequence(restore),
    ensures
        is_cut(name, width, cut.0, cut.1),
        draws(
            truncated_name(name, indices, width, restore),
            style,
            marked_cells(cut.1, cut.0, indices, style, restore),
            style_behind(cut.0, indices, style, restore),
        ),
        truncated_cells(name, width) == cells(cut.1),
        forall|i: int| 0 <= i < cut.1.len() ==> #[trigger] cut.1[i] != '\u{1b}',
{
    reveal(draws);
    let shown = readable(name);
    assert(shown_name(name) =~= shown);
    assert(addressable(shown) == shown);
    assert forall|i: int| 0 <= i < shown.len() implies #[trigger] shown[i] != '\u{1b}' by {}
    law_cells(seq![], '…');
    let dots = seq!['…'];
    assert(seq![].push('…') =~= dots);
    assert(dots.drop_last() =~= seq![]);
    if width == 0 {
        assert(marked_cells(seq![], 0, indices, style, restore) =~= seq![]);
        assert(!is_behind_hit(indices, 0));
        (0, seq![])
    } else if cells(shown) <= width {
        lemma_draws_highlighted(shown, indices, style, restore);
        (shown.len() as int, shown)
    } else if width == 1 {
        lemma_draws_char('…', style);
        assert(!is_behind_hit(indices, 0));
        assert(marked_cells(dots, 0, indices, style, restore) =~= seq![('…', style)]);
        assert(dots[0] == '…');
        (0, dots)
    } else {
        let budget = (width - 1) as nat;
        let kept = lemma_longest_prefix(shown, budget);
        let part = shown.take(kept);
        if kept == shown.len() {
            assert(part =~= shown);
        }
        assert forall|i: int| 0 <= i < part.len() implies #[trigger] part[i] != '\u{1b}' by {
            assert(part[i] == shown[i]);
        }
        lemma_draws_highlighted(part, indices, style, restore);
        let behind = style_behind(kept, indices, style, restore);
        lemma_draws_char('…', behind);
        let x = marked_cells(part, kept, indices, style, restore);
        lemma_draws_concat(
            highlighted(part, indices, restore),
            style,
            x,
            behind,
            dots,
            seq![('…', behind)],
            behind,
        );
        let text = part + dots;
        assert(x + seq![('…', behind)] =~= marked_cells(text, kept, indices, style, restore));
        assert(highlighted(part, indices, restore).push('…') =~= highlighted(
            part,
            indices,
            restore,
        ) + dots);
        law_cells(part, '…');
        assert(part.push('…') =~= text);
        (kept, text)
    }
}

proof fn lemma_no_escape_in_digits(n: nat)
    ensures
        forall|i: int| 0 <= i < decimal(n).len() ==> #[trigger] decimal(n)[i] != '\u{1b}',
{
    law_decimal_round_trip(n);
    assert forall|i: int| 0 <= i < decimal(n).len() implies #[trigger] decimal(n)[i]
        != '\u{1b}' by {
        assert(crate::text::is_digit(decimal(n)[i]));
    }
}

/// How many panes a tab has.
pub open spec fn panes_of(tab: TabModel) -> nat {
    (tab.selectable_tiled_panes_count + tab.selectable_floating_panes_count) as nat
}

/// What is left of a number of cells.
pub open spec fn left_of(cells: nat, taken: nat) -> nat {
    if taken < cells {
        (cells - taken) as nat
    } else {
        0
    }
}

/// The header shows the name of the active tab in its colour and, dim at the
/// right edge, how many panes it has besides the picker's. Where there is no
/// room for both it shows the name alone.
pub proof fn law_header(tab: TabModel, cols: nat, start: Seq<char>) -> (cut: (int, Seq<char>))
    requires
        tab.name.len() <= 0xffff_ffff,
    ensures
        ({
            let others = left_of(panes_of(tab), 1);
            let count = seq!['['] + decimal(others) + seq![']'];
            let area = left_of(cols, 2 + count.len());
            let width = if area == 0 {
                cols
            } else {
                area
            };
            let (kept, text) = cut;
            &&& is_cut(tab.name, width, kept, text)
            &&& draws(
                header_row(tab, cols),
                start,
                paint(text, ACTIVE@) + if area == 0 {
                    paint(spaces(left_of(cols, cells(text))), RESET@)
                } else {
                    paint(spaces(left_of(area, cells(text))) + spaces(2) + count, DIM@)
                },
                RESET@,
            )
        }),
{
    let others = left_of(panes_of(tab), 1);
    let count = seq!['['] + decimal(others) + seq![']'];
    assert(count == bracketed(others));
    let area = left_of(cols, 2 + count.len());
    let width = if area == 0 {
        cols
    } else {
        area
    };
    lemma_restoring_styles();
    let (kept, text) = law_cut_name(tab.name, seq![], width, ACTIVE@, RESET@);
    let name = truncated_name(tab.name, seq![], width, RESET@);
    assert(marked_cells(text, kept, seq![], ACTIVE@, RESET@) =~= paint(text, ACTIVE@));
    assert(style_behind(kept, seq![], ACTIVE@, RESET@) == ACTIVE@);
    let x = paint(text, ACTIVE@);
    lemma_draws_style(ACTIVE@, start);
    lemma_draws_concat(ACTIVE@, start, seq![], ACTIVE@, name, x, ACTIVE@);
    lemma_draws_style(RESET@, ACTIVE@);
    lemma_draws_concat(ACTIVE@ + name, start, seq![] + x, ACTIVE@, RESET@, seq![], RESET@);
    let a = ACTIVE@ + name + RESET@;
    assert(seq![] + x + seq![] =~= x);
    let blank = spaces(left_of(width, cells(text)));
    if area == 0 {
        lemma_draws_spaces(left_of(width, cells(text)), RESET@);
        lemma_draws_concat(a, start, x, RESET@, blank, paint(blank, RESET@), RESET@);
    } else {
        lemma_draws_style(DIM@, RESET@);
        lemma_draws_concat(a, start, x, RESET@, DIM@, seq![], DIM@);
        lemma_draws_spaces(left_of(width, cells(text)), DIM@);
        lemma_draws_concat(a + DIM@, start, x + seq![], DIM@, blank, paint(blank, DIM@), DIM@);
        lemma_draws_spaces(2, DIM@);
        lemma_draws_concat(
            a + DIM@ + blank,
            start,
            x + seq![] + paint(blank, DIM@),
            DIM@,
            spaces(2),
            paint(spaces(2), DIM@),
            DIM@,
        );
        lemma_no_escape_in_digits(others);
        lemma_draws_plain(count, DIM@);
        lemma_draws_concat(
            a + DIM@ + blank + spaces(2),
            start,
            x + seq![] + paint(blank, DIM@) + paint(spaces(2), DIM@),
            DIM@,
            count,
            paint(count, DIM@),
            DIM@,
        );
        lemma_draws_style(RESET@, DIM@);
        lemma_draws_concat(
            a + DIM@ + blank + spaces(2) + count,
            start,
            x + seq![] + paint(blank, DIM@) + paint(spaces(2), DIM@) + paint(count, DIM@),
            DIM@,
            RESET@,
            seq![],
            RESET@,
        );
        assert(x + seq![] + paint(blank, DIM@) + paint(spaces(2), DIM@) + paint(count, DIM@)
            + seq![] =~= x + paint(blank + spaces(2) + count, DIM@));
    }
    (kept, text)
}

/// A number in a field, to the right.
pub open spec fn to_the_right(n: nat, width: nat) -> Seq<char> {
    spaces(left_of(width, decimal(n).len())) + decimal(n)
}

/// The position and the dash before a name.
pub open spec fn before_name(tab: TabModel, pos_width: nat) -> Seq<char> {
    to_the_right((tab.position + 1) as nat, pos_width) + seq![' ', '-', ' ']
}

/// The number of panes behind a name.
pub open spec fn behind_name(tab: TabModel) -> Seq<char> {
    seq!['['] + decimal(panes_of(tab)) + seq![']']
}

/// What a list row shows. In a highlighted row all is in the style of the
/// highlight; in any other one position and number of panes are dim.
pub open spec fn row_cells(
    row: Row,
    lit: Option<Seq<char>>,
    area: nat,
    pos_width: nat,
    kept: int,
    text: Seq<char>,
    indices: Seq<u32>,
) -> Seq<(char, Seq<char>)> {
    let numbers = before_name(row.tab, pos_width);
    let blank = spaces(left_of(area, cells(text))) + spaces(2);
    match lit {
        Some(style) => {
            let end = style_behind(kept, indices, style, BELL_RESTORE@);
            paint(numbers, style) + marked_cells(text, kept, indices, style, BELL_RESTORE@) + paint(
                blank + behind_name(row.tab),
                end,
            )
        },
        None => paint(numbers, DIM@) + marked_cells(text, kept, indices, RESET@, RESET@) + paint(
            blank,
            RESET@,
        ) + paint(behind_name(row.tab), DIM@),
    }
}

proof fn lemma_lit_row(
    row: Row,
    indices: Seq<u32>,
    area: nat,
    pos_width: nat,
    start: Seq<char>,
) -> (cut: (int, Seq<char>))
    requires
        row.tab.name.len() <= 0xffff_ffff,
        forall|i: int, j: int| 0 <= i <= j < indices.len() ==> indices[i] <= indices[j],
    ensures
        is_cut(row.tab.name, area, cut.0, cut.1),
        draws(
            plain_row(row.tab, indices, area, pos_width),
            start,
            row_cells(row, Some(start), area, pos_width, cut.0, cut.1, indices),
            style_behind(cut.0, indices, start, BELL_RESTORE@),
        ),
{
    let tab = row.tab;
    let count = behind_name(tab);
    let numbers = before_name(tab, pos_width);
    lemma_row_numbers(tab, pos_width);
    lemma_restoring_styles();
    let (kept, text) = law_cut_name(tab.name, indices, area, start, BELL_RESTORE@);
    let blank = spaces(left_of(area, cells(text)));
    let name = truncated_name(tab.name, indices, area, BELL_RESTORE@);
    let end = style_behind(kept, indices, start, BELL_RESTORE@);
    let x = marked_cells(text, kept, indices, start, BELL_RESTORE@);
    lemma_draws_plain(numbers, start);
    let n = paint(numbers, start);
    lemma_draws_spaces(left_of(area, cells(text)), end);
    lemma_draws_concat(name, start, x, end, blank, paint(blank, end), end);
    lemma_draws_concat(numbers, start, n, start, name + blank, x + paint(blank, end), end);
    lemma_draws_spaces(2, end);
    let y = n + (x + paint(blank, end));
    lemma_draws_concat(
        numbers + (name + blank),
        start,
        y,
        end,
        spaces(2),
        paint(spaces(2), end),
        end,
    );
    lemma_draws_plain(count, end);
    lemma_draws_concat(
        numbers + (name + blank) + spaces(2),
        start,
        y + paint(spaces(2), end),
        end,
        count,
        paint(count, end),
        end,
    );
    assert(y + paint(spaces(2), end) + paint(count, end) =~= row_cells(
        row,
        Some(start),
        area,
        pos_width,
        kept,
        text,
        indices,
    ));
    (kept, text)
}

proof fn lemma_dim_row(
    row: Row,
    indices: Seq<u32>,
    area: nat,
    pos_width: nat,
    start: Seq<char>,
) -> (cut: (int, Seq<char>))
    requires
        row.tab.name.len() <= 0xffff_ffff,
        forall|i: int, j: int| 0 <= i <= j < indices.len() ==> indices[i] <= indices[j],
    ensures
        is_cut(row.tab.name, area, cut.0, cut.1),
        draws(
            dimmed_row(row.tab, indices, area, pos_width),
            start,
            row_cells(row, None, area, pos_width, cut.0, cut.1, indices),
            RESET@,
        ),
{
    let tab = row.tab;
    let count = behind_name(tab);
    let numbers = before_name(tab, pos_width);
    lemma_row_numbers(tab, pos_width);
    lemma_restoring_styles();
    let (kept, text) = law_cut_name(tab.name, indices, area, RESET@, RESET@);
    let blank = spaces(left_of(area, cells(text)));
    let name = truncated_name(tab.name, indices, area, RESET@);
    let x = marked_cells(text, kept, indices, RESET@, RESET@);
    let n = paint(numbers, DIM@);
    let b = paint(blank, RESET@);
    lemma_draws_style(DIM@, start);
    lemma_draws_plain(numbers, DIM@);
    lemma_draws_concat(DIM@, start, seq![], DIM@, numbers, n, DIM@);
    lemma_draws_style(RESET@, DIM@);
    lemma_draws_concat(DIM@ + numbers, start, seq![] + n, DIM@, RESET@, seq![], RESET@);
    lemma_draws_spaces(left_of(area, cells(text)), RESET@);
    lemma_draws_concat(name, RESET@, x, RESET@, blank, b, RESET@);
    let head = DIM@ + numbers + RESET@;
    let y = seq![] + n + seq![];
    lemma_draws_concat(head, start, y, RESET@, name + blank, x + b, RESET@);
    lemma_draws_spaces(2, RESET@);
    lemma_draws_concat(
        head + (name + blank),
        start,
        y + (x + b),
        RESET@,
        spaces(2),
        paint(spaces(2), RESET@),
        RESET@,
    );
    lemma_draws_style(DIM@, RESET@);
    lemma_draws_concat(
        head + (name + blank) + spaces(2),
        start,
        y + (x + b) + paint(spaces(2), RESET@),
        RESET@,
        DIM@,
        seq![],
        DIM@,
    );
    lemma_draws_plain(count, DIM@);
    lemma_draws_concat(
        head + (name + blank) + spaces(2) + DIM@,
        start,
        y + (x + b) + paint(spaces(2), RESET@) + seq![],
        DIM@,
        count,
        paint(count, DIM@),
        DIM@,
    );
    lemma_draws_style(RESET@, DIM@);
    lemma_draws_concat(
        head + (name + blank) + spaces(2) + DIM@ + count,
        start,
        y + (x + b) + paint(spaces(2), RESET@) + seq![] + paint(count, DIM@),
        DIM@,
        RESET@,
        seq![],
        RESET@,
    );
    assert(y + (x + b) + paint(spaces(2), RESET@) + seq![] + paint(count, DIM@) + seq![]
        =~= row_cells(row, None, area, pos_width, kept, text, indices));
    (kept, text)
}

proof fn lemma_row_numbers(tab: TabModel, pos_width: nat)
    ensures
        numbered(tab, pos_width) == before_name(tab, pos_width),
        bracketed(panes_of(tab)) == behind_name(tab),
        forall|i: int|
            0 <= i < before_name(tab, pos_width).len() ==> #[trigger] before_name(
                tab,
                pos_width,
            )[i] != '\u{1b}',
        forall|i: int| 0 <= i < behind_name(tab).len() ==> #[trigger] behind_name(tab)[i] != '\u{1b}',
{
    let numbers = before_name(tab, pos_width);
    let count = behind_name(tab);
    let digits = decimal((tab.position + 1) as nat);
    let panes = decimal(panes_of(tab));
    assert(numbered(tab, pos_width) =~= numbers);
    lemma_no_escape_in_digits((tab.position + 1) as nat);
    lemma_no_escape_in_digits(panes_of(tab));
    assert forall|i: int| 0 <= i < numbers.len() implies #[trigger] numbers[i] != '\u{1b}' by {
        let pad = left_of(pos_width, digits.len());
        if pad <= i < pad + digits.len() {
            assert(numbers[i] == digits[i - pad]);
        }
    }
    assert forall|i: int| 0 <= i < count.len() implies #[trigger] count[i] != '\u{1b}' by {
        if 1 <= i < 1 + panes.len() {
            assert(count[i] == panes[i - 1]);
        }
    }
}

/// A list row shows the position, counted from 1, the name, and at the right
/// edge the number of panes; where there is no room for all three, the name
/// alone. A selected row that is lit highlights no match. `outer` is the style
/// that the row is in: that of the selection or of the bell, if it is lit.
pub proof fn law_list_row(
    row: Row,
    selected: bool,
    cols: nat,
    pos_width: nat,
    blink_on: bool,
    start: Seq<char>,
) -> (cut: (int, Seq<char>))
    requires
        row.tab.name.len() <= 0xffff_ffff,
        forall|i: int, j: int| 0 <= i <= j < row.indices.len() ==> row.indices[i] <= row.indices[j],
    ensures
        ({
            let lit = (selected || row.tab.has_bell_notification) && (
            !row.tab.has_bell_notification || blink_on);
            let indices = if lit && selected {
                seq![]
            } else {
                row.indices
            };
            let (kept, text) = cut;
            let area = left_of(cols, pos_width + 3 + 2 + behind_name(row.tab).len());
            let drawn = list_row(row, selected, cols, pos_width, blink_on);
            if area == 0 {
                &&& is_cut(row.tab.name, cols, kept, text)
                &&& draws(
                    drawn,
                    start,
                    paint(text + spaces(left_of(cols, cells(text))), start),
                    start,
                )
            } else {
                &&& is_cut(row.tab.name, area, kept, text)
                &&& lit ==> draws(
                    drawn,
                    start,
                    row_cells(row, Some(start), area, pos_width, kept, text, indices),
                    style_behind(kept, indices, start, BELL_RESTORE@),
                )
                &&& !lit ==> draws(
                    drawn,
                    start,
                    row_cells(row, None, area, pos_width, kept, text, indices),
                    RESET@,
                )
            }
        }),
{
    let tab = row.tab;
    let lit = (selected || tab.has_bell_notification) && (!tab.has_bell_notification || blink_on);
    let indices = if lit && selected {
        seq![]
    } else {
        row.indices
    };
    let style = HighlightStyle { selected, bell: tab.has_bell_notification, blink_on };
    assert(style.outer() is Some == lit);
    lemma_row_numbers(tab, pos_width);
    let area = left_of(cols, pos_width + 3 + 2 + behind_name(tab).len());
    if area == 0 {
        lemma_restoring_styles();
        let none = Seq::<u32>::empty();
        let (kept, text) = law_cut_name(tab.name, none, cols, start, RESET@);
        let blank = spaces(left_of(cols, cells(text)));
        assert(marked_cells(text, kept, none, start, RESET@) =~= paint(text, start));
        lemma_draws_spaces(left_of(cols, cells(text)), start);
        lemma_draws_concat(
            truncated_name(tab.name, none, cols, RESET@),
            start,
            paint(text, start),
            start,
            blank,
            paint(blank, start),
            start,
        );
        assert(paint(text, start) + paint(blank, start) =~= paint(text + blank, start));
        (kept, text)
    } else if lit {
        lemma_lit_row(row, indices, area, pos_width, start)
    } else {
        lemma_dim_row(row, indices, area, pos_width, start)
    }
}

proof fn lemma_longest_suffix(s: Seq<char>, budget: nat) -> (from: int)
    ensures
        0 <= from <= s.len(),
        fitting_suffix(s, budget) == s.skip(from),
        cells(s.skip(from)) <= budget,
        from > 0 ==> budget < cells(s.skip(from - 1)),
    decreases s.len(),
{
    if cells(s) <= budget {
        assert(s.skip(0) =~= s);
        0
    } else {
        assert(s.len() > 0);
        let rest = s.drop_first();
        let from = lemma_longest_suffix(rest, budget);
        assert(rest.skip(from) =~= s.skip(from + 1));
        if from > 0 {
            assert(rest.skip(from - 1) =~= s.skip(from));
        } else {
            assert(s.skip(0) =~= s);
        }
        from + 1
    }
}

/// The prompt shows its sign, the end of the query, as much as leaves room for
/// sign and cursor, and the cursor, a cell in reverse.
pub proof fn law_prompt(query: Seq<char>, width: nat, start: Seq<char>) -> (from: int)
    requires
        forall|i: int| 0 <= i < query.len() ==> #[trigger] query[i] != '\u{1b}',
    ensures
        0 <= from <= query.len(),
        width <= 3 ==> from == query.len(),
        width > 3 ==> cells(query.skip(from)) <= width - 3,
        width > 3 && from > 0 ==> width - 3 < cells(query.skip(from - 1)),
        draws(
            prompt(query, width),
            start,
            seq![('❯', PROMPT@)] + paint(seq![' '] + query.skip(from), RESET@) + seq![
                (' ', REVERSE@),
            ],
            RESET@,
        ),
{
    let from = if width <= 3 {
        query.len() as int
    } else {
        lemma_longest_suffix(query, (width - 3) as nat)
    };
    let tail = query.skip(from);
    assert(shown_tail(query, minus(width, 3)) =~= tail);
    assert forall|i: int| 0 <= i < tail.len() implies #[trigger] tail[i] != '\u{1b}' by {
        assert(tail[i] == query[from + i]);
    }
    let sign = seq!['❯'];
    let space = seq![' '];
    lemma_draws_style(PROMPT@, start);
    lemma_draws_char('❯', PROMPT@);
    lemma_draws_concat(PROMPT@, start, seq![], PROMPT@, sign, seq![('❯', PROMPT@)], PROMPT@);
    lemma_draws_style(RESET@, PROMPT@);
    let x = seq![] + seq![('❯', PROMPT@)];
    lemma_draws_concat(PROMPT@ + sign, start, x, PROMPT@, RESET@, seq![], RESET@);
    lemma_draws_char(' ', RESET@);
    lemma_draws_concat(
        PROMPT@ + sign + RESET@,
        start,
        x + seq![],
        RESET@,
        space,
        seq![(' ', RESET@)],
        RESET@,
    );
    let head = PROMPT@ + sign + RESET@ + space;
    let y = x + seq![] + seq![(' ', RESET@)];
    lemma_draws_plain(tail, RESET@);
    lemma_draws_concat(head, start, y, RESET@, tail, paint(tail, RESET@), RESET@);
    lemma_draws_style(REVERSE@, RESET@);
    lemma_draws_concat(
        head + tail,
        start,
        y + paint(tail, RESET@),
        RESET@,
        REVERSE@,
        seq![],
        REVERSE@,
    );
    lemma_draws_char(' ', REVERSE@);
    lemma_draws_concat(
        head + tail + REVERSE@,
        start,
        y + paint(tail, RESET@) + seq![],
        REVERSE@,
        space,
        seq![(' ', REVERSE@)],
        REVERSE@,
    );
    lemma_draws_style(RESET@, REVERSE@);
    lemma_draws_concat(
        head + tail + REVERSE@ + space,
        start,
        y + paint(tail, RESET@) + seq![] + seq![(' ', REVERSE@)],
        REVERSE@,
        RESET@,
        seq![],
        RESET@,
    );
    assert(y + paint(tail, RESET@) + seq![] + seq![(' ', REVERSE@)] + seq![] =~= seq![
        ('❯', PROMPT@),
    ] + paint(seq![' '] + tail, RESET@) + seq![(' ', REVERSE@)]);
    from
}

/// A border row: a dim line between two corners, in its place.
pub proof fn law_border_row(frame: RowFrame, left: char, right: char, start: Seq<char>)
    requires
        left != '\u{1b}' && right != '\u{1b}',
    ensures
        draws(
            frame.border_row(left, right),
            start,
            paint(spaces(frame.hpad as nat), start) + paint(
                seq![left] + Seq::new(left_of(frame.cols as nat, 2), |i: int| '─') + seq![right],
                FRAME@,
            ) + paint(spaces(frame.trail as nat), RESET@),
            RESET@,
        ),
{
    let dashes = Seq::new(left_of(frame.cols as nat, 2), |i: int| '─');
    let line = seq![left] + dashes + seq![right];
    lemma_draws_plain(line, FRAME@);
    lemma_draws_style(FRAME@, start);
    lemma_draws_style(RESET@, FRAME@);
    lemma_draws_concat(FRAME@, start, seq![], FRAME@, line, paint(line, FRAME@), FRAME@);
    lemma_draws_concat(
        FRAME@ + line,
        start,
        seq![] + paint(line, FRAME@),
        FRAME@,
        RESET@,
        seq![],
        RESET@,
    );
    let drawn = border(left, right, frame.cols as nat);
    assert(FRAME@ + line + RESET@ =~= drawn);
    lemma_draws_spaces(frame.hpad as nat, start);
    lemma_draws_spaces(frame.trail as nat, RESET@);
    let x = seq![] + paint(line, FRAME@) + seq![];
    let (l, r) = (spaces(frame.hpad as nat), spaces(frame.trail as nat));
    lemma_draws_concat(l, start, paint(l, start), start, drawn, x, RESET@);
    lemma_draws_concat(
        l + drawn,
        start,
        paint(l, start) + x,
        RESET@,
        r,
        paint(r, RESET@),
        RESET@,
    );
    assert(paint(l, start) + x + paint(r, RESET@) =~= paint(l, start) + paint(line, FRAME@)
        + paint(r, RESET@));
}

/// A content row shows its content between the sides of the frame, two cells
/// from each, filled up to the width. The row of a tab with a bell is lit while
/// the blink is on; a lit row is in the style of the selection if it is
/// selected, else in that of the bell.
pub proof fn law_content_row(
    frame: RowFrame,
    content: Seq<char>,
    style: HighlightStyle,
    start: Seq<char>,
    shows: Seq<(char, Seq<char>)>,
    end: Seq<char>,
)
    requires
        ({
            let lit = (style.selected || style.bell) && (!style.bell || style.blink_on);
            draws(
                content,
                if !lit {
                    RESET@
                } else if style.selected {
                    SELECTED@
                } else {
                    BELL@
                },
                shows,
                end,
            )
        }),
    ensures
        ({
            let lit = (style.selected || style.bell) && (!style.bell || style.blink_on);
            let outer = if !lit {
                RESET@
            } else if style.selected {
                SELECTED@
            } else {
                BELL@
            };
            let filled = left_of(left_of(frame.cols as nat, 6), cells(chars_in(shows)));
            draws(
                frame.content_row(content, style),
                start,
                paint(spaces(frame.hpad as nat), start) + seq![
                    ('│', FRAME@),
                    (' ', RESET@),
                    (' ', outer),
                ] + shows + paint(spaces(filled) + seq![' '], end) + seq![
                    (
                        ' ',
                        if lit {
                            RESET@
                        } else {
                            end
                        },
                    ),
                    ('│', FRAME@),
                ] + paint(spaces(frame.trail as nat), RESET@),
                RESET@,
            )
        }),
{
    let lit = (style.selected || style.bell) && (!style.bell || style.blink_on);
    let outer = if !lit {
        RESET@
    } else if style.selected {
        SELECTED@
    } else {
        BELL@
    };
    law_width_is_that_of_the_shown_chars(content, outer, shows, end);
    let width = frame.inner();
    assert(width == left_of(frame.cols as nat, 6));
    let filled = left_of(width, cells(chars_in(shows)));
    assert(gap(content, width) == filled);
    let bar = seq!['│'];
    let space = seq![' '];
    // The left side.
    let side = FRAME@ + bar + RESET@;
    assert(crate::layout::edge() == side);
    lemma_draws_side(start);
    lemma_draws_char(' ', RESET@);
    let side_cells = seq![('│', FRAME@)];
    lemma_draws_concat(side, start, side_cells, RESET@, space, seq![(' ', RESET@)], RESET@);
    let head = side + space;
    let h = side_cells + seq![(' ', RESET@)];
    // The content between two spaces.
    let inside = inset(content, width);
    lemma_draws_char(' ', outer);
    lemma_draws_concat(space, outer, seq![(' ', outer)], outer, content, shows, end);
    lemma_draws_spaces(filled, end);
    lemma_draws_concat(
        space + content,
        outer,
        seq![(' ', outer)] + shows,
        end,
        spaces(filled),
        paint(spaces(filled), end),
        end,
    );
    lemma_draws_char(' ', end);
    lemma_draws_concat(
        space + content + spaces(filled),
        outer,
        seq![(' ', outer)] + shows + paint(spaces(filled), end),
        end,
        space,
        seq![(' ', end)],
        end,
    );
    assert(space + content + spaces(filled) + space =~= inside);
    let i = seq![(' ', outer)] + shows + paint(spaces(filled), end) + seq![(' ', end)];
    // The whole row.
    let behind = if lit {
        RESET@
    } else {
        end
    };
    let body = wrapped(content, width, style);
    if lit {
        lemma_draws_style(outer, RESET@);
        lemma_draws_concat(head, start, h, RESET@, outer, seq![], outer);
        lemma_draws_concat(head + outer, start, h + seq![], outer, inside, i, end);
        lemma_draws_style(RESET@, end);
        lemma_draws_concat(
            head + outer + inside,
            start,
            h + seq![] + i,
            end,
            RESET@,
            seq![],
            RESET@,
        );
        assert(h + seq![] + i + seq![] =~= h + i);
    } else {
        lemma_draws_concat(head, start, h, RESET@, inside, i, end);
    }
    let so_far = if lit {
        head + outer + inside + RESET@
    } else {
        head + inside
    };
    assert(draws(so_far, start, h + i, behind));
    lemma_draws_char(' ', behind);
    lemma_draws_concat(so_far, start, h + i, behind, space, seq![(' ', behind)], behind);
    lemma_draws_side(behind);
    lemma_draws_concat(
        so_far + space,
        start,
        h + i + seq![(' ', behind)],
        behind,
        side,
        side_cells,
        RESET@,
    );
    assert(so_far + space + side =~= body);
    let b = h + i + seq![(' ', behind)] + side_cells;
    let (l, r) = (spaces(frame.hpad as nat), spaces(frame.trail as nat));
    lemma_draws_spaces(frame.hpad as nat, start);
    lemma_draws_spaces(frame.trail as nat, RESET@);
    lemma_draws_concat(l, start, paint(l, start), start, body, b, RESET@);
    lemma_draws_concat(
        l + body,
        start,
        paint(l, start) + b,
        RESET@,
        r,
        paint(r, RESET@),
        RESET@,
    );
    assert(paint(spaces(filled), end) + seq![(' ', end)] =~= paint(spaces(filled) + seq![' '], end));
    assert(paint(l, start) + b + paint(r, RESET@) =~= paint(l, start) + seq![
        ('│', FRAME@),
        (' ', RESET@),
        (' ', outer),
    ] + shows + paint(spaces(filled) + seq![' '], end) + seq![(' ', behind), ('│', FRAME@)] + paint(
        r,
        RESET@,
    ));
}

proof fn lemma_draws_side(start: Seq<char>)
    ensures
        draws(FRAME@ + seq!['│'] + RESET@, start, seq![('│', FRAME@)], RESET@),
{
    let bar = seq!['│'];
    lemma_draws_style(FRAME@, start);
    lemma_draws_char('│', FRAME@);
    lemma_draws_style(RESET@, FRAME@);
    lemma_draws_concat(FRAME@, start, seq![], FRAME@, bar, seq![('│', FRAME@)], FRAME@);
    lemma_draws_concat(
        FRAME@ + bar,
        start,
        seq![] + seq![('│', FRAME@)],
        FRAME@,
        RESET@,
        seq![],
        RESET@,
    );
    assert(seq![] + seq![('│', FRAME@)] + seq![] =~= seq![('│', FRAME@)]);
}

/// Spaces, then a text that is dim.
pub proof fn lemma_draws_dim_text(n: nat, text: Seq<char>, start: Seq<char>)
    requires
        forall|i: int| 0 <= i < text.len() ==> #[trigger] text[i] != '\u{1b}',
    ensures
        draws(
            spaces(n) + DIM@ + text + RESET@,
            start,
            paint(spaces(n), start) + paint(text, DIM@),
            RESET@,
        ),
{
    lemma_draws_spaces(n, start);
    lemma_draws_style(DIM@, start);
    let x = paint(spaces(n), start);
    lemma_draws_concat(spaces(n), start, x, start, DIM@, seq![], DIM@);
    lemma_draws_plain(text, DIM@);
    lemma_draws_concat(
        spaces(n) + DIM@,
        start,
        x + seq![],
        DIM@,
        text,
        paint(text, DIM@),
        DIM@,
    );
    lemma_draws_style(RESET@, DIM@);
    lemma_draws_concat(
        spaces(n) + DIM@ + text,
        start,
        x + seq![] + paint(text, DIM@),
        DIM@,
        RESET@,
        seq![],
        RESET@,
    );
    assert(x + seq![] + paint(text, DIM@) + seq![] =~= x + paint(text, DIM@));
}

} // verus!
