//! Where the parts of the picker stand in its pane.
use crate::layout::{
    config_value, padded, BoxPlacement, HighlightStyle, ListArea, RowFrame, SizeCfg,
};
use crate::event_laws::is_first_active;
use crate::model::{is_active, lemma_first_where, lemma_nowhere, StateModel};
use crate::render::{header_row, list_row, message_row, prompt, text_of, without_newline};
use crate::screen_laws::{draws, left_of, lemma_draws_dim_text, paint};
use crate::style::{DIM, RESET};
use crate::text::{all_digits, decimal, decimal_value, is_digit, parsed, spaces};
use crate::width::visible_cells;
use vstd::prelude::*;

verus! {

/// Spaces, as many as asked for.
pub proof fn law_spaces(n: nat)
    ensures
        spaces(n).len() == n,
        forall|i: int| 0 <= i < n ==> #[trigger] spaces(n)[i] == ' ',
{
}

/// A content is filled up with spaces to a width, and left alone if it is wider.
pub proof fn law_filled_up(content: Seq<char>, width: nat)
    ensures
        padded(content, width) == content + spaces(left_of(width, visible_cells(content))),
{
}

/// A number is read from decimal digits, of which there is at least one, behind
/// a plus sign or none; it is no larger than asked for.
pub proof fn law_numbers_are_read(digits: Seq<char>, max: nat)
    ensures
        ({
            let good = digits.len() > 0 && (forall|i: int|
                0 <= i < digits.len() ==> 0x30 <= ((#[trigger] digits[i]) as u32) <= 0x39)
                && decimal_value(digits) <= max;
            &&& good ==> parsed(digits, max) == Some(decimal_value(digits))
            &&& good ==> parsed(seq!['+'] + digits, max) == Some(decimal_value(digits))
            &&& !good ==> parsed(seq!['+'] + digits, max) is None
            &&& !good && (digits.len() == 0 || digits[0] != '+') ==> parsed(digits, max) is None
        }),
{
    assert((seq!['+'] + digits).skip(1) =~= digits);
    assert(all_digits(digits) <==> forall|i: int|
        0 <= i < digits.len() ==> 0x30 <= ((#[trigger] digits[i]) as u32) <= 0x39);
    if digits.len() > 0 && all_digits(digits) {
        assert(is_digit(digits[0]));
    }
}

/// The size that is configured: `max_cols` columns, at least 20, and `max_rows`
/// rows, at least 4. It is 60 by 20 where the configuration has no such entry,
/// or one that is no number.
pub proof fn law_size(entries: Seq<(String, String)>)
    ensures
        ({
            let number = |key: Seq<char>|
                match config_value(entries, key) {
                    Some(value) => parsed(value, usize::MAX as nat),
                    None => None,
                };
            let size = SizeCfg::configured(entries);
            &&& size.cols == match number("max_cols"@) {
                Some(n) => if n < 20 {
                    20
                } else {
                    n
                },
                None => 60,
            }
            &&& size.rows == match number("max_rows"@) {
                Some(n) => if n < 4 {
                    4
                } else {
                    n
                },
                None => 20,
            }
        }),
{
}

/// Of several entries for a key the first one counts.
pub proof fn law_configuration(entries: Seq<(String, String)>, key: Seq<char>, i: int)
    ensures
        0 <= i < entries.len() && entries[i].0@ == key && (forall|j: int|
            0 <= j < i ==> (#[trigger] entries[j]).0@ != key) ==> config_value(entries, key)
            == Some(entries[i].1@),
        (forall|j: int| 0 <= j < entries.len() ==> (#[trigger] entries[j]).0@ != key)
            ==> config_value(entries, key) is None,
    decreases entries.len(),
{
    if entries.len() > 0 {
        let rest = entries.drop_first();
        law_configuration(rest, key, i - 1);
        if 0 < i < entries.len() && entries[i].0@ == key && (forall|j: int|
            0 <= j < i ==> (#[trigger] entries[j]).0@ != key) {
            assert(entries[0].0@ != key);
            assert forall|j: int| 0 <= j < i - 1 implies (#[trigger] rest[j]).0@ != key by {
                assert(rest[j] == entries[j + 1]);
            }
        }
        if forall|j: int| 0 <= j < entries.len() ==> (#[trigger] entries[j]).0@ != key {
            assert(entries[0].0@ != key);
            assert forall|j: int| 0 <= j < rest.len() implies (#[trigger] rest[j]).0@ != key by {
                assert(rest[j] == entries[j + 1]);
            }
        }
    }
}

/// The box is as large as configured, or as the pane where that is smaller, and
/// stands in the middle; where it cannot, a cell or row nearer to the left and
/// the top.
pub proof fn law_box_stands_in_the_middle(rows: usize, cols: usize, size: SizeCfg)
    ensures
        ({
            let place = BoxPlacement::in_the_middle(rows, cols, size);
            let right = cols - place.hpad - place.cols;
            let below = rows - place.vpad_top - place.rows;
            &&& place.cols <= cols && place.cols <= size.cols
            &&& place.cols == cols || place.cols == size.cols
            &&& place.rows <= rows && place.rows <= size.rows
            &&& place.rows == rows || place.rows == size.rows
            &&& place.outer_cols == cols
            &&& place.hpad == right || place.hpad + 1 == right
            &&& place.vpad_top == below || place.vpad_top + 1 == below
            &&& place.frame() == (RowFrame {
                hpad: place.hpad,
                cols: place.cols,
                trail: right as usize,
            })
        }),
{
}

/// A pane shows the box, and spaces everywhere else. Before the picker is ready
/// it shows spaces only.
pub proof fn law_pane(model: StateModel, rows: usize, cols: usize, i: int)
    requires
        0 <= i < rows,
    ensures
        ({
            let place = BoxPlacement::in_the_middle(rows, cols, model.size);
            let lines = model.pane_lines(rows, cols);
            &&& lines.len() == rows
            &&& lines[i] == if model.ready && place.vpad_top <= i < place.vpad_top + place.rows {
                model.box_lines(place)[i - place.vpad_top]
            } else {
                spaces(cols as nat)
            }
        }),
{
    let place = BoxPlacement::in_the_middle(rows, cols, model.size);
    assert(padded(seq![], cols as nat) =~= spaces(cols as nat));
    if model.ready {
        law_box(model, place);
    }
}

/// The lines of a text, each behind the last with a newline between them.
pub proof fn law_lines(lines: Seq<Seq<char>>, line: Seq<char>)
    ensures
        without_newline(text_of(seq![])) == Seq::<char>::empty(),
        without_newline(text_of(seq![line])) == line,
        lines.len() > 0 ==> without_newline(text_of(lines.push(line))) == without_newline(
            text_of(lines),
        ) + seq!['\n'] + line,
{
    let one = seq![line];
    assert(text_of(seq![]) == Seq::<char>::empty());
    assert(one.drop_last() =~= seq![]);
    assert(text_of(one.drop_last()) == Seq::<char>::empty());
    assert(text_of(one) =~= line.push('\n'));
    assert(line.push('\n').drop_last() =~= line);
    if lines.len() > 0 {
        assert(lines.push(line).drop_last() =~= lines);
        let text = text_of(lines);
        assert(text == text_of(lines.drop_last()) + lines.last().push('\n'));
        assert(text.last() == '\n');
        assert(text =~= text.drop_last() + seq!['\n']);
        assert((text + line.push('\n')).drop_last() =~= text.drop_last() + seq!['\n'] + line);
    }
}

/// A row of the list, scrolled so that `first` is its first row.
pub open spec fn list_line_shows(
    model: StateModel,
    frame: RowFrame,
    first: int,
    rows: int,
    row: int,
    line: Seq<char>,
) -> bool {
    let width = (frame.cols - 6) as nat;
    let plain = HighlightStyle { selected: false, bell: false, blink_on: false };
    let index = first + row;
    if model.scored.len() == 0 {
        let text = if !model.tabs_received {
            Seq::<char>::empty()
        } else if model.tabs.len() == 0 {
            seq!['n', 'o', ' ', 't', 'a', 'b', 's']
        } else {
            seq!['n', 'o', ' ', 'm', 'a', 't', 'c', 'h', 'e', 's']
        };
        if row == rows / 2 && text.len() > 0 {
            line == frame.content_row(
                spaces(left_of(width, text.len()) / 2) + DIM@ + text + RESET@,
                plain,
            )
        } else {
            line == frame.content_row(Seq::<char>::empty(), plain)
        }
    } else if index < model.scored.len() {
        line == frame.content_row(
            list_row(
                model.scored[index],
                index == model.selected,
                width,
                decimal(model.tabs.len()).len(),
                model.timers.bell_blink_on,
            ),
            HighlightStyle {
                selected: index == model.selected,
                bell: model.scored[index].tab.has_bell_notification,
                blink_on: model.timers.bell_blink_on,
            },
        )
    } else {
        line == frame.content_row(Seq::<char>::empty(), plain)
    }
}

/// The first list row to show: the list scrolls as little as it takes to show
/// the selected row.
pub open spec fn first_row(model: StateModel, rows: int) -> int {
    if model.scored.len() == 0 {
        model.scroll_offset as int
    } else if model.selected < model.scroll_offset {
        model.selected as int
    } else if model.selected < model.scroll_offset + rows {
        model.scroll_offset as int
    } else {
        model.selected + 1 - rows
    }
}

/// A box of less than 4 rows or 20 columns is blank. Any other one is, from top
/// to bottom: border, prompt, border; if it has 6 rows or more and there is an
/// active tab, that tab and another border; the list; border.
pub proof fn law_box(model: StateModel, place: BoxPlacement)
    ensures
        ({
            let lines = model.box_lines(place);
            let frame = place.frame();
            let width = (place.cols - 6) as nat;
            let plain = HighlightStyle { selected: false, bell: false, blink_on: false };
            let top: int = if place.rows >= 6 && exists|i: int|
                0 <= i < model.tabs.len() && (#[trigger] model.tabs[i]).active {
                5
            } else {
                3
            };
            let rows = place.rows - top - 1;
            &&& lines.len() == place.rows
            &&& place.rows < 4 || place.cols < 20 ==> forall|i: int|
                0 <= i < place.rows ==> #[trigger] lines[i] == spaces(place.outer_cols as nat)
            &&& place.rows >= 4 && place.cols >= 20 ==> {
                &&& lines[0] == frame.border_row('╭', '╮')
                &&& lines[1] == frame.content_row(prompt(model.query, width), plain)
                &&& lines[2] == frame.border_row('├', '┤')
                &&& forall|i: int|
                    top == 5 && #[trigger] is_first_active(model.tabs, i) ==> lines[3]
                        == frame.content_row(header_row(model.tabs[i], width), plain)
                &&& top == 5 ==> lines[4] == frame.border_row('├', '┤')
                &&& lines[place.rows - 1] == frame.border_row('╰', '╯')
                &&& model.selected < usize::MAX ==> forall|row: int|
                    0 <= row < rows ==> list_line_shows(
                        model,
                        frame,
                        first_row(model, rows),
                        rows,
                        row,
                        #[trigger] lines[top + row],
                    )
            }
        }),
{
    assert(padded(seq![], place.outer_cols as nat) =~= spaces(place.outer_cols as nat));
    if place.rows >= 4 && place.cols >= 20 {
        let lines = model.box_lines(place);
        let frame = place.frame();
        let some = exists|i: int|
            0 <= i < model.tabs.len() && (#[trigger] model.tabs[i]).active;
        lemma_active_tab(model);
        assert(model.active_tab() is Some <==> some);
        let top: int = if place.rows >= 6 && some {
            5
        } else {
            3
        };
        let rows = place.rows - top - 1;
        assert(model.list_rows(place.rows) == rows);
        assert(model.top_lines(place).len() == top);
        reveal_strlit("");
        reveal_strlit("no tabs");
        reveal_strlit("no matches");
        assert(""@ =~= seq![]);
        assert("no tabs"@ =~= seq!['n', 'o', ' ', 't', 'a', 'b', 's']);
        assert("no matches"@ =~= seq!['n', 'o', ' ', 'm', 'a', 't', 'c', 'h', 'e', 's']);
        if model.selected < usize::MAX {
            assert(model.list_offset(rows as nat) == first_row(model, rows));
            assert forall|row: int| 0 <= row < rows implies list_line_shows(
                model,
                frame,
                first_row(model, rows),
                rows,
                row,
                #[trigger] lines[top + row],
            ) by {
                assert(lines[top + row] == model.list_lines(rows as nat, frame)[row]);
            }
        }
    }
}

proof fn lemma_active_tab(model: StateModel)
    ensures
        model.active_tab() is Some <==> exists|i: int|
            0 <= i < model.tabs.len() && (#[trigger] model.tabs[i]).active,
        forall|i: int| #[trigger]
            is_first_active(model.tabs, i) ==> model.active_tab() == Some(model.tabs[i]),
{
    let tabs = model.tabs;
    assert forall|i: int| #[trigger] is_first_active(tabs, i) implies model.active_tab() == Some(
        tabs[i],
    ) by {
        assert forall|j: int| 0 <= j < i implies !is_active()(#[trigger] tabs[j]) by {}
        lemma_first_where(tabs, is_active(), i);
    }
    if exists|i: int| 0 <= i < tabs.len() && (#[trigger] tabs[i]).active {
        let j = choose|j: int| 0 <= j < tabs.len() && (#[trigger] tabs[j]).active;
        crate::event_laws::lemma_first_active(tabs, j);
        let i = choose|i: int| is_first_active(tabs, i);
        assert(model.active_tab() == Some(tabs[i]));
    } else {
        assert forall|j: int| 0 <= j < tabs.len() implies !is_active()(#[trigger] tabs[j]) by {}
        lemma_nowhere(tabs, is_active());
    }
}

/// Drawing remembers where the list is, how far it is scrolled, and changes
/// nothing else; where no list is drawn it remembers that.
pub proof fn law_drawing(model: StateModel, rows: usize, cols: usize)
    requires
        model.selected < usize::MAX,
    ensures
        ({
            let place = BoxPlacement::in_the_middle(rows, cols, model.size);
            let top: int = if place.rows >= 6 && exists|i: int|
                0 <= i < model.tabs.len() && (#[trigger] model.tabs[i]).active {
                5
            } else {
                3
            };
            let list_rows = place.rows - top - 1;
            model.drawn(rows, cols) == if model.ready && place.rows >= 4 && place.cols >= 20 {
                StateModel {
                    list_area: Some(
                        ListArea {
                            top: (place.vpad_top + top) as usize,
                            rows: list_rows as usize,
                            left: place.hpad,
                            width: place.cols,
                        },
                    ),
                    scroll_offset: first_row(model, list_rows) as usize,
                    ..model
                }
            } else {
                StateModel { list_area: None, ..model }
            }
        }),
{
    lemma_active_tab(model);
}

/// A message is dim, in the middle of its row.
pub proof fn law_message(text: Seq<char>, width: nat, start: Seq<char>)
    requires
        forall|i: int| 0 <= i < text.len() ==> #[trigger] text[i] != '\u{1b}',
    ensures
        draws(
            message_row(text, width),
            start,
            paint(spaces(left_of(width, text.len()) / 2), start) + paint(text, DIM@),
            RESET@,
        ),
{
    lemma_draws_dim_text(left_of(width, text.len()) / 2, text, start);
}

} // verus!
