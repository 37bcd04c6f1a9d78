//! What holds of every drawn pane.
use crate::layout::{
    lemma_border_line, lemma_padded_line, lemma_placed_line, lemma_wrapped_line, no_highlight,
    padded, BoxPlacement, HighlightStyle, MIN_BOX_COLS, MIN_BOX_ROWS,
};
use crate::model::StateModel;
use crate::names::{
    addressable, highlighted, is_highlighted, lemma_fitting_prefix_bound, name_part, shown_name,
    truncated_cells, truncated_name,
};
use crate::render::{
    bracketed, dimmed_row, header_name_area, header_row, list_row, message, message_row, minus,
    name_field, numbered, pane_count, plain_row, prompt, row_name_area, text_of, without_newline,
};
use crate::state::is_printable;
use crate::style::{
    lemma_styles_are_invisible, ACTIVE, BELL_RESTORE, DIM, MATCH, PROMPT, RESET, REVERSE,
};
use crate::tabs::{Row, TabModel};
use crate::text::{
    all_digits, decimal, decimal_aligned, is_control, is_digit, law_decimal_round_trip, spaces,
};
use crate::width::{
    cells, char_width, fitting_suffix, is_line, lemma_line_char, lemma_line_concat,
    lemma_line_plain, lemma_line_push, lemma_line_spaces, sanitized, shown_tail,
};
use vstd::prelude::*;

verus! {

proof fn lemma_highlighted_line(text: Seq<char>, indices: Seq<u32>, restore: Seq<char>)
    requires
        forall|i: int| 0 <= i < text.len() ==> !is_control(#[trigger] text[i]),
        is_line(restore, 0),
    ensures
        is_line(highlighted(text, indices, restore), cells(text)),
    decreases text.len(),
{
    if text.len() > 0 {
        let rest = text.drop_last();
        let c = text.last();
        assert forall|i: int| 0 <= i < rest.len() implies !is_control(#[trigger] rest[i]) by {
            assert(rest[i] == text[i]);
        }
        lemma_highlighted_line(rest, indices, restore);
        let before = highlighted(rest, indices, restore);
        let w = cells(rest);
        assert(!is_control(text[text.len() - 1]));
        lemma_line_char(c);
        lemma_styles_are_invisible();
        if is_highlighted(indices, text.len() - 1) {
            lemma_line_concat(before, w, MATCH@, 0);
            lemma_line_concat(before + MATCH@, w, seq![c], char_width(c));
            lemma_line_concat(before + MATCH@ + seq![c], w + char_width(c), restore, 0);
        } else {
            lemma_line_concat(before, w, seq![c], char_width(c));
        }
    }
}

proof fn lemma_name_part_line(
    name: Seq<char>,
    budget: nat,
    indices: Seq<u32>,
    restore: Seq<char>,
)
    requires
        is_line(restore, 0),
    ensures
        is_line(highlighted(name_part(name, budget), indices, restore), cells(name_part(name, budget))),
        cells(name_part(name, budget)) <= budget,
{
    let part = name_part(name, budget);
    lemma_fitting_prefix_bound(addressable(shown_name(name)), budget);
    assert forall|i: int| 0 <= i < part.len() implies !is_control(#[trigger] part[i]) by {
        assert(part[i] == shown_name(name)[i]);
        assert(shown_name(name)[i] == sanitized(name[i]));
    }
    lemma_highlighted_line(part, indices, restore);
}

/// A cut name takes the cells that it says, within its limit, on one line.
pub proof fn law_truncated_name_fits(
    name: Seq<char>,
    indices: Seq<u32>,
    max_cells: nat,
    restore: Seq<char>,
)
    requires
        is_line(restore, 0),
    ensures
        is_line(truncated_name(name, indices, max_cells, restore), truncated_cells(name, max_cells)),
        truncated_cells(name, max_cells) <= max_cells,
{
    if max_cells == 0 {
    } else if cells(shown_name(name)) <= max_cells {
        lemma_name_part_line(name, max_cells, indices, restore);
    } else if max_cells == 1 {
        lemma_line_char('…');
    } else {
        let budget = (max_cells - 1) as nat;
        lemma_name_part_line(name, budget, indices, restore);
        lemma_line_push(
            highlighted(name_part(name, budget), indices, restore),
            cells(name_part(name, budget)),
            '…',
        );
    }
}

proof fn lemma_digits_line(s: Seq<char>)
    requires
        all_digits(s),
    ensures
        is_line(s, s.len()),
    decreases s.len(),
{
    if s.len() > 0 {
        let rest = s.drop_last();
        assert forall|i: int| 0 <= i < rest.len() implies is_digit(#[trigger] rest[i]) by {
            assert(rest[i] == s[i]);
        }
        lemma_digits_line(rest);
        assert(is_digit(s[s.len() - 1]));
        lemma_line_push(rest, rest.len(), s.last());
        assert(rest.push(s.last()) =~= s);
    }
}

proof fn lemma_bracketed_line(count: nat)
    ensures
        is_line(bracketed(count), decimal(count).len() + 2),
{
    law_decimal_round_trip(count);
    lemma_digits_line(decimal(count));
    lemma_line_char('[');
    lemma_line_char(']');
    lemma_line_concat(seq!['['], 1, decimal(count), decimal(count).len());
    lemma_line_concat(seq!['['] + decimal(count), 1 + decimal(count).len(), seq![']'], 1);
}

proof fn lemma_numbered_line(tab: TabModel, pos_width: nat)
    requires
        decimal((tab.position + 1) as nat).len() <= pos_width,
    ensures
        is_line(numbered(tab, pos_width), pos_width + 3),
{
    let n = (tab.position + 1) as nat;
    let digits = decimal(n);
    law_decimal_round_trip(n);
    lemma_digits_line(digits);
    let gap = (pos_width - digits.len()) as nat;
    lemma_line_spaces(gap);
    lemma_line_concat(spaces(gap), gap, digits, digits.len());
    assert(is_line(decimal_aligned(n, pos_width), pos_width));
    let dash = seq![' ', '-', ' '];
    lemma_line_char(' ');
    lemma_line_push(seq![' '], 1, '-');
    lemma_line_push(seq![' '].push('-'), 2, ' ');
    assert(dash =~= seq![' '].push('-').push(' '));
    lemma_line_concat(decimal_aligned(n, pos_width), pos_width, dash, 3);
}

proof fn lemma_name_field_line(
    name: Seq<char>,
    indices: Seq<u32>,
    area: nat,
    restore: Seq<char>,
)
    requires
        is_line(restore, 0),
    ensures
        is_line(name_field(name, indices, area, restore), area),
{
    law_truncated_name_fits(name, indices, area, restore);
    let taken = truncated_cells(name, area);
    lemma_line_spaces((area - taken) as nat);
    lemma_line_concat(
        truncated_name(name, indices, area, restore),
        taken,
        spaces((area - taken) as nat),
        (area - taken) as nat,
    );
}

proof fn lemma_header_line(tab: TabModel, cols: nat)
    ensures
        is_line(header_row(tab, cols), cols),
{
    let count = minus(pane_count(tab), 1);
    let area = header_name_area(count, cols);
    lemma_styles_are_invisible();
    if area == 0 {
        law_truncated_name_fits(tab.name, seq![], cols, RESET@);
        let name = truncated_name(tab.name, seq![], cols, RESET@);
        let taken = truncated_cells(tab.name, cols);
        let gap = (cols - taken) as nat;
        lemma_line_spaces(gap);
        lemma_line_concat(ACTIVE@, 0, name, taken);
        lemma_line_concat(ACTIVE@ + name, taken, RESET@, 0);
        lemma_line_concat(ACTIVE@ + name + RESET@, taken, spaces(gap), gap);
    } else {
        law_truncated_name_fits(tab.name, seq![], area, RESET@);
        let name = truncated_name(tab.name, seq![], area, RESET@);
        let taken = truncated_cells(tab.name, area);
        let gap = (area - taken) as nat;
        let blank = spaces(gap);
        lemma_line_spaces(gap);
        lemma_line_spaces(2);
        lemma_bracketed_line(count);
        lemma_line_concat(ACTIVE@, 0, name, taken);
        lemma_line_concat(ACTIVE@ + name, taken, RESET@, 0);
        lemma_line_concat(ACTIVE@ + name + RESET@, taken, DIM@, 0);
        lemma_line_concat(ACTIVE@ + name + RESET@ + DIM@, taken, blank, gap);
        lemma_line_concat(ACTIVE@ + name + RESET@ + DIM@ + blank, area, spaces(2), 2);
        lemma_line_concat(
            ACTIVE@ + name + RESET@ + DIM@ + blank + spaces(2),
            area + 2,
            bracketed(count),
            decimal(count).len() + 2,
        );
        lemma_line_concat(
            ACTIVE@ + name + RESET@ + DIM@ + blank + spaces(2) + bracketed(count),
            cols,
            RESET@,
            0,
        );
    }
}

/// The position of a row has no more digits than the field for positions,
/// or the row is too narrow to show it.
pub open spec fn position_fits(row: Row, cols: nat, pos_width: nat) -> bool {
    decimal((row.tab.position + 1) as nat).len() <= pos_width || row_name_area(
        pane_count(row.tab),
        cols,
        pos_width,
    ) == 0
}

proof fn lemma_list_row_line(
    row: Row,
    selected: bool,
    cols: nat,
    pos_width: nat,
    blink_on: bool,
)
    requires
        position_fits(row, cols, pos_width),
    ensures
        is_line(list_row(row, selected, cols, pos_width, blink_on), cols),
{
    let tab = row.tab;
    let count = pane_count(tab);
    let area = row_name_area(count, cols, pos_width);
    let style = HighlightStyle { selected, bell: tab.has_bell_notification, blink_on };
    lemma_styles_are_invisible();
    if area == 0 {
        lemma_name_field_line(tab.name, seq![], cols, RESET@);
    } else {
        let numbers = numbered(tab, pos_width);
        let digits = decimal(count).len();
        lemma_numbered_line(tab, pos_width);
        lemma_bracketed_line(count);
        lemma_line_spaces(2);
        if style.outer() is Some {
            let indices = if selected {
                seq![]
            } else {
                row.indices
            };
            let field = name_field(tab.name, indices, area, BELL_RESTORE@);
            lemma_name_field_line(tab.name, indices, area, BELL_RESTORE@);
            lemma_line_concat(numbers, pos_width + 3, field, area);
            lemma_line_concat(numbers + field, pos_width + 3 + area, spaces(2), 2);
            lemma_line_concat(
                numbers + field + spaces(2),
                pos_width + 3 + area + 2,
                bracketed(count),
                digits + 2,
            );
            assert(is_line(plain_row(tab, indices, area, pos_width), cols));
        } else {
            let field = name_field(tab.name, row.indices, area, RESET@);
            lemma_name_field_line(tab.name, row.indices, area, RESET@);
            lemma_line_concat(DIM@, 0, numbers, pos_width + 3);
            lemma_line_concat(DIM@ + numbers, pos_width + 3, RESET@, 0);
            lemma_line_concat(DIM@ + numbers + RESET@, pos_width + 3, field, area);
            let left = DIM@ + numbers + RESET@ + field;
            lemma_line_concat(left, pos_width + 3 + area, spaces(2), 2);
            lemma_line_concat(left + spaces(2), pos_width + 3 + area + 2, DIM@, 0);
            lemma_line_concat(
                left + spaces(2) + DIM@,
                pos_width + 3 + area + 2,
                bracketed(count),
                digits + 2,
            );
            lemma_line_concat(left + spaces(2) + DIM@ + bracketed(count), cols, RESET@, 0);
            assert(is_line(dimmed_row(tab, row.indices, area, pos_width), cols));
        }
    }
}

proof fn lemma_fitting_suffix_bound(s: Seq<char>, max_cells: nat)
    ensures
        cells(fitting_suffix(s, max_cells)) <= max_cells,
        fitting_suffix(s, max_cells).len() <= s.len(),
        fitting_suffix(s, max_cells) == s.skip(s.len() - fitting_suffix(s, max_cells).len()),
    decreases s.len(),
{
    if cells(s) > max_cells {
        lemma_fitting_suffix_bound(s.drop_first(), max_cells);
        let n = fitting_suffix(s, max_cells).len();
        assert(s.drop_first().skip(s.len() - 1 - n) =~= s.skip(s.len() - n));
    } else {
        assert(s.skip(0) =~= s);
    }
}

proof fn lemma_prompt_line(query: Seq<char>, width: nat) -> (taken: nat)
    requires
        is_printable(query),
        width >= 3,
    ensures
        taken <= width,
        is_line(prompt(query, width), taken),
{
    let tail = shown_tail(query, minus(width, 3));
    lemma_fitting_suffix_bound(query, minus(width, 3));
    assert(cells(tail) <= minus(width, 3));
    assert forall|i: int| 0 <= i < tail.len() implies !is_control(#[trigger] tail[i]) by {
        assert(tail[i] == query[query.len() - tail.len() + i]);
    }
    lemma_line_plain(tail);
    lemma_styles_are_invisible();
    lemma_line_char('❯');
    lemma_line_char(' ');
    let w = cells(tail);
    let sign = seq!['❯'];
    let space = seq![' '];
    lemma_line_concat(PROMPT@, 0, sign, 1);
    lemma_line_concat(PROMPT@ + sign, 1, RESET@, 0);
    lemma_line_concat(PROMPT@ + sign + RESET@, 1, space, 1);
    let left = PROMPT@ + sign + RESET@ + space;
    lemma_line_concat(left, 2, tail, w);
    lemma_line_concat(left + tail, 2 + w, REVERSE@, 0);
    lemma_line_concat(left + tail + REVERSE@, 2 + w, space, 1);
    lemma_line_concat(left + tail + REVERSE@ + space, 3 + w, RESET@, 0);
    3 + w
}

proof fn lemma_message_line(received: bool, no_tabs: bool, width: nat) -> (taken: nat)
    requires
        width >= 14,
    ensures
        taken <= width,
        is_line(message_row(message(received, no_tabs), width), taken),
{
    let text = message(received, no_tabs);
    reveal_strlit("");
    reveal_strlit("no tabs");
    reveal_strlit("no matches");
    assert(""@.len() == 0);
    assert("no tabs"@.len() == 7);
    assert("no matches"@.len() == 10);
    assert forall|i: int| 0 <= i < text.len() implies 0x20 <= (#[trigger] text[i]) as u32
        && (text[i] as u32) < 0x7f by {
        if received && no_tabs {
            assert(0 <= i < 7);
        }
    }
    lemma_ascii_line(text);
    let left = minus(width, text.len()) / 2;
    lemma_styles_are_invisible();
    lemma_line_spaces(left);
    lemma_line_concat(spaces(left), left, DIM@, 0);
    lemma_line_concat(spaces(left) + DIM@, left, text, text.len());
    lemma_line_concat(spaces(left) + DIM@ + text, left + text.len(), RESET@, 0);
    left + text.len()
}

proof fn lemma_ascii_line(s: Seq<char>)
    requires
        forall|i: int| 0 <= i < s.len() ==> 0x20 <= (#[trigger] s[i]) as u32 && (s[i] as u32) < 0x7f,
    ensures
        is_line(s, s.len()),
    decreases s.len(),
{
    if s.len() > 0 {
        let rest = s.drop_last();
        assert forall|i: int| 0 <= i < rest.len() implies 0x20 <= (#[trigger] rest[i]) as u32 && (
        rest[i] as u32) < 0x7f by {
            assert(rest[i] == s[i]);
        }
        lemma_ascii_line(rest);
        assert(0x20 <= s[s.len() - 1] as u32);
        lemma_line_push(rest, rest.len(), s.last());
        assert(rest.push(s.last()) =~= s);
    }
}

/// A content of at most the inner width gives a row as wide as the pane.
proof fn lemma_content_row(
    place: BoxPlacement,
    content: Seq<char>,
    taken: nat,
    style: HighlightStyle,
)
    requires
        place.is_inside(),
        place.cols >= MIN_BOX_COLS,
        is_line(content, taken),
        taken <= place.frame().inner(),
    ensures
        is_line(place.frame().content_row(content, style), place.outer_cols as nat),
{
    let frame = place.frame();
    lemma_wrapped_line(content, taken, frame.inner(), style);
    lemma_placed_line(frame, crate::layout::wrapped(content, frame.inner(), style));
}

proof fn lemma_border_row(place: BoxPlacement, left: char, right: char)
    requires
        place.is_inside(),
        place.cols >= MIN_BOX_COLS,
        !is_control(left),
        !is_control(right),
        char_width(left) == 1,
        char_width(right) == 1,
    ensures
        is_line(place.frame().border_row(left, right), place.outer_cols as nat),
{
    lemma_border_line(left, right, place.cols as nat);
    lemma_placed_line(place.frame(), crate::layout::border(left, right, place.cols as nat));
}

proof fn lemma_blank_row(cols: nat)
    ensures
        is_line(padded(seq![], cols), cols),
{
    lemma_padded_line(seq![], 0, cols);
}

/// The positions of all rows that a box shows fit their field.
pub open spec fn positions_fit(model: StateModel, place: BoxPlacement) -> bool {
    let rows = model.list_rows(place.rows);
    let offset = model.list_offset(rows);
    place.rows >= MIN_BOX_ROWS && place.cols >= MIN_BOX_COLS ==> forall|i: int|
        offset <= i < offset + rows && i < model.scored.len() ==> position_fits(
            #[trigger] model.scored[i],
            place.frame().inner(),
            model.position_digits(),
        )
}

proof fn lemma_list_line(model: StateModel, place: BoxPlacement, row: int)
    requires
        place.is_inside(),
        place.cols >= MIN_BOX_COLS,
        place.rows >= MIN_BOX_ROWS,
        positions_fit(model, place),
        0 <= row < model.list_rows(place.rows),
    ensures
        is_line(
            model.list_line(row, model.list_rows(place.rows), place.frame()),
            place.outer_cols as nat,
        ),
{
    let frame = place.frame();
    let rows = model.list_rows(place.rows);
    let width = frame.inner();
    if model.scored.len() == 0 {
        let received = model.tabs_received;
        let no_tabs = model.tabs.len() == 0;
        let taken = lemma_message_line(received, no_tabs, width);
        lemma_content_row(
            place,
            message_row(message(received, no_tabs), width),
            taken,
            no_highlight(),
        );
        lemma_content_row(place, seq![], 0, no_highlight());
    } else {
        let index = model.list_offset(rows) + row;
        if index < model.scored.len() {
            assert(position_fits(model.scored[index], width, model.position_digits()));
            let selected = index == model.selected;
            lemma_list_row_line(
                model.scored[index],
                selected,
                width,
                model.position_digits(),
                model.timers.bell_blink_on,
            );
            lemma_content_row(
                place,
                list_row(
                    model.scored[index],
                    selected,
                    width,
                    model.position_digits(),
                    model.timers.bell_blink_on,
                ),
                width,
                model.row_style(index),
            );
        } else {
            lemma_content_row(place, seq![], 0, no_highlight());
        }
    }
}

/// Every row of a drawn box is one line, exactly as wide as the pane, so that
/// no cell is left transparent, and there are as many rows as the box has. A
/// row whose position has more digits than the number of tabs overruns its
/// field and with it the pane; such rows are left out.
pub proof fn law_rows_are_one_pane_wide(model: StateModel, place: BoxPlacement)
    requires
        is_printable(model.query),
        place.is_inside(),
        positions_fit(model, place),
    ensures
        model.box_lines(place).len() == place.rows,
        forall|i: int|
            0 <= i < place.rows ==> is_line(
                #[trigger] model.box_lines(place)[i],
                place.outer_cols as nat,
            ),
{
    let cols = place.outer_cols as nat;
    let lines = model.box_lines(place);
    let frame = place.frame();
    if place.rows < MIN_BOX_ROWS || place.cols < MIN_BOX_COLS {
        lemma_blank_row(cols);
    } else {
        let top = model.top_lines(place);
        let rows = model.list_rows(place.rows);
        let list = model.list_lines(rows, frame);
        lemma_border_row(place, '╭', '╮');
        lemma_border_row(place, '├', '┤');
        lemma_border_row(place, '╰', '╯');
        let taken = lemma_prompt_line(model.query, frame.inner());
        lemma_content_row(place, prompt(model.query, frame.inner()), taken, no_highlight());
        if model.has_header(place.rows) {
            let tab = model.active_tab()->0;
            lemma_header_line(tab, frame.inner());
            lemma_content_row(
                place,
                header_row(tab, frame.inner()),
                frame.inner(),
                no_highlight(),
            );
        }
        assert forall|i: int| 0 <= i < place.rows implies is_line(#[trigger] lines[i], cols) by {
            if i < top.len() {
                assert(lines[i] == top[i]);
            } else if i < top.len() + rows {
                let row = i - top.len();
                assert(lines[i] == list[row]);
                lemma_list_line(model, place, row);
            } else {
                assert(lines[i] == frame.border_row('╰', '╯'));
            }
        }
    }
}

/// A drawn pane has as many lines as the pane has rows, each exactly as wide
/// as the pane, whatever the sizes of pane and box.
pub proof fn law_pane_is_filled(model: StateModel, rows: usize, cols: usize)
    requires
        is_printable(model.query),
        model.ready ==> positions_fit(
            model,
            BoxPlacement::in_the_middle(rows, cols, model.size),
        ),
    ensures
        model.pane_lines(rows, cols).len() == rows,
        forall|i: int|
            0 <= i < rows ==> is_line(#[trigger] model.pane_lines(rows, cols)[i], cols as nat),
{
    let lines = model.pane_lines(rows, cols);
    lemma_blank_row(cols as nat);
    if model.ready {
        let place = BoxPlacement::in_the_middle(rows, cols, model.size);
        law_rows_are_one_pane_wide(model, place);
        let middle = model.box_lines(place);
        assert forall|i: int| 0 <= i < rows implies is_line(#[trigger] lines[i], cols as nat) by {
            if place.vpad_top <= i < place.vpad_top + place.rows {
                assert(lines[i] == middle[i - place.vpad_top]);
            }
        }
    }
}

proof fn lemma_decimal_len_monotonic(m: nat, n: nat)
    requires
        m <= n,
    ensures
        decimal(m).len() <= decimal(n).len(),
    decreases n,
{
    if n >= 10 && m >= 10 {
        lemma_decimal_len_monotonic(m / 10, n / 10);
    } else if n >= 10 {
        law_decimal_round_trip(n / 10);
    }
}

/// With positions that count the tabs from 0 without gaps, every position
/// fits its field.
pub proof fn law_counted_positions_fit(model: StateModel, place: BoxPlacement)
    requires
        forall|i: int|
            0 <= i < model.scored.len() ==> (#[trigger] model.scored[i]).tab.position
                < model.tabs.len(),
    ensures
        positions_fit(model, place),
{
    let rows = model.list_rows(place.rows);
    let offset = model.list_offset(rows);
    assert forall|i: int|
        offset <= i < offset + rows && i < model.scored.len() implies position_fits(
        #[trigger] model.scored[i],
        place.frame().inner(),
        model.position_digits(),
    ) by {
        lemma_decimal_len_monotonic((model.scored[i].tab.position + 1) as nat, model.tabs.len());
    }
}

/// The selected row is among the rows that a box shows, if it shows any.
pub proof fn law_selection_is_shown(model: StateModel, place: BoxPlacement)
    requires
        model.selected < model.scored.len(),
        place.rows >= MIN_BOX_ROWS,
        place.cols >= MIN_BOX_COLS,
        model.list_rows(place.rows) > 0,
    ensures
        model.box_drawn(place).scroll_offset <= model.selected,
        model.selected < model.box_drawn(place).scroll_offset + model.list_rows(place.rows),
{
}

/// The mouse hits what is drawn: a click on a cell of the box in a list row
/// gives the index of the tab that is drawn in that row, and none where the
/// row is empty.
#[verifier::rlimit(30)]
pub proof fn law_click_hits_the_drawn_row(
    model: StateModel,
    rows: usize,
    cols: usize,
    row: int,
    column: int,
)
    requires
        model.ready,
        model.scored.len() <= usize::MAX,
        ({
            let place = BoxPlacement::in_the_middle(rows, cols, model.size);
            &&& place.rows >= MIN_BOX_ROWS
            &&& place.cols >= MIN_BOX_COLS
            &&& 0 <= row < model.list_rows(place.rows)
            &&& place.hpad <= column < place.hpad + place.cols
        }),
    ensures
        ({
            let place = BoxPlacement::in_the_middle(rows, cols, model.size);
            let drawn = model.drawn(rows, cols);
            let line = place.vpad_top + model.top_lines(place).len() + row;
            match drawn.row_at(line, column) {
                Some(index) => {
                    &&& 0 <= index < model.scored.len()
                    &&& index == drawn.scroll_offset + row
                    &&& model.pane_lines(rows, cols)[line] == model.index_line(
                        index,
                        place.frame(),
                    )
                },
                None => drawn.scroll_offset + row >= model.scored.len(),
            }
        }),
{
    let place = BoxPlacement::in_the_middle(rows, cols, model.size);
    let list_rows = model.list_rows(place.rows);
    let top = model.top_lines(place);
    let line = place.vpad_top + top.len() + row;
    assert(model.box_lines(place)[line - place.vpad_top] == model.list_lines(
        list_rows,
        place.frame(),
    )[row]);
    assert(model.pane_lines(rows, cols)[line] == model.box_lines(place)[line - place.vpad_top]);
}

/// Outside the list rows, or beside the box, a click hits nothing.
pub proof fn law_click_beside_the_list_hits_nothing(
    model: StateModel,
    rows: usize,
    cols: usize,
    line: int,
    column: int,
)
    requires
        ({
            let place = BoxPlacement::in_the_middle(rows, cols, model.size);
            let first = place.vpad_top + model.top_lines(place).len();
            ||| !model.ready
            ||| place.rows < MIN_BOX_ROWS
            ||| place.cols < MIN_BOX_COLS
            ||| !(first <= line < first + model.list_rows(place.rows))
            ||| !(place.hpad <= column < place.hpad + place.cols)
        }),
    ensures
        model.drawn(rows, cols).row_at(line, column) is None,
{
}

/// A drawn box records where its list is, for the mouse; one too small for
/// its frame records nothing and is blank.
pub proof fn law_list_is_placed_where_drawn(model: StateModel, place: BoxPlacement)
    ensures
        model.box_drawn(place).list_area is Some <==> place.rows >= MIN_BOX_ROWS && place.cols
            >= MIN_BOX_COLS,
        model.box_drawn(place).list_area is None ==> forall|i: int|
            0 <= i < place.rows ==> #[trigger] model.box_lines(place)[i] == spaces(
                place.outer_cols as nat,
            ),
{
    assert(padded(seq![], place.outer_cols as nat) =~= spaces(place.outer_cols as nat));
}

/// Before the picker is ready, and in a pane too small for the frame, every
/// row is blank.
pub proof fn law_blank_when_not_drawn(model: StateModel, rows: usize, cols: usize, i: int)
    requires
        !model.ready || cols < MIN_BOX_COLS || rows < MIN_BOX_ROWS,
        0 <= i < rows,
    ensures
        model.pane_lines(rows, cols)[i] == spaces(cols as nat),
        model.drawn(rows, cols).list_area is None,
{
    assert(padded(seq![], cols as nat) =~= spaces(cols as nat));
}

/// How many newlines a text holds.
pub open spec fn newlines(s: Seq<char>) -> nat
    decreases s.len(),
{
    if s.len() == 0 {
        0
    } else if s.last() == '\n' {
        newlines(s.drop_last()) + 1
    } else {
        newlines(s.drop_last())
    }
}

proof fn lemma_newlines_concat(a: Seq<char>, b: Seq<char>)
    ensures
        newlines(a + b) == newlines(a) + newlines(b),
    decreases b.len(),
{
    if b.len() == 0 {
        assert(a + b =~= a);
    } else {
        assert((a + b).drop_last() =~= a + b.drop_last());
        lemma_newlines_concat(a, b.drop_last());
    }
}

proof fn lemma_line_has_no_newline(s: Seq<char>)
    requires
        forall|i: int| 0 <= i < s.len() ==> #[trigger] s[i] != '\n',
    ensures
        newlines(s) == 0,
    decreases s.len(),
{
    if s.len() > 0 {
        assert forall|i: int| 0 <= i < s.len() - 1 implies #[trigger] s.drop_last()[i] != '\n' by {
            assert(s.drop_last()[i] == s[i]);
        }
        assert(s[s.len() - 1] != '\n');
        lemma_line_has_no_newline(s.drop_last());
    }
}

proof fn lemma_text_newlines(lines: Seq<Seq<char>>, cols: nat)
    requires
        forall|i: int| 0 <= i < lines.len() ==> is_line(#[trigger] lines[i], cols),
    ensures
        newlines(text_of(lines)) == lines.len(),
        lines.len() > 0 ==> text_of(lines).len() > 0 && text_of(lines).last() == '\n',
    decreases lines.len(),
{
    if lines.len() > 0 {
        let rest = lines.drop_last();
        let line = lines.last();
        assert forall|i: int| 0 <= i < rest.len() implies is_line(#[trigger] rest[i], cols) by {
            assert(rest[i] == lines[i]);
        }
        lemma_text_newlines(rest, cols);
        assert(is_line(lines[lines.len() - 1], cols));
        lemma_line_has_no_newline(line);
        assert(line.push('\n').drop_last() =~= line);
        lemma_newlines_concat(text_of(rest), line.push('\n'));
    }
}

/// A drawn pane has a newline between any two of its rows and none behind
/// the last one, which would scroll the top row away.
pub proof fn law_no_newline_behind_the_last_row(model: StateModel, rows: usize, cols: usize)
    requires
        is_printable(model.query),
        model.ready ==> positions_fit(
            model,
            BoxPlacement::in_the_middle(rows, cols, model.size),
        ),
        rows > 0,
    ensures
        newlines(without_newline(text_of(model.pane_lines(rows, cols)))) == rows - 1,
{
    law_pane_is_filled(model, rows, cols);
    lemma_text_newlines(model.pane_lines(rows, cols), cols as nat);
}

} // verus!
