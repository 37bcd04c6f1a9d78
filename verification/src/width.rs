//! Display widths: how many terminal cells a text takes.
use crate::text::{char_is_control, chars_of, is_control, spaces};
use vstd::prelude::*;

verus! {

/// The width that `UnicodeWidthChar::width` finds in its table for a char.
pub uninterp spec fn table_width(c: char) -> usize;

/// The glyphs that the picker draws its frame, prompt and truncation with.
pub open spec fn is_chrome_glyph(c: char) -> bool {
    ||| c == '│' || c == '─' || c == '├' || c == '┤'
    ||| c == '╭' || c == '╮' || c == '╰' || c == '╯'
    ||| c == '❯' || c == '…'
}

/// Printable ASCII and the picker's own glyphs.
pub open spec fn is_single_cell(c: char) -> bool {
    0x20 <= (c as u32) < 0x7f || is_chrome_glyph(c)
}

/// Calls `unicode_width::UnicodeWidthChar::width`, a lookup in a fixed
/// table. It has no width for exactly the control chars. A printable ASCII
/// char takes one cell, and so do the box-drawing chars and `…`, whose
/// width is ambiguous and taken as narrow, and `❯`, which is neutral.
#[verifier::external_body]
fn lookup_width(c: char) -> (width: Option<usize>)
    ensures
        width == (if is_control(c) {
            None
        } else if is_single_cell(c) {
            Some(1)
        } else {
            Some(table_width(c))
        }),
{
    unicode_width::UnicodeWidthChar::width(c)
}

/// Display width of a single char in terminal cells: none for a control char.
pub open spec fn char_width(c: char) -> nat {
    if is_control(c) {
        0
    } else if is_single_cell(c) {
        1
    } else {
        table_width(c) as nat
    }
}

/// Display width of a single char in terminal cells (UAX #11). Width-`None`
/// chars (controls) are treated as 0; callers sanitize controls beforehand.
pub fn char_cells(c: char) -> (cells: usize)
    ensures
        cells == char_width(c),
{
    match lookup_width(c) {
        Some(width) => width,
        None => 0,
    }
}

/// Display width of a text without escape sequences.
pub open spec fn cells(s: Seq<char>) -> nat
    decreases s.len(),
{
    if s.len() == 0 {
        0
    } else {
        cells(s.drop_last()) + char_width(s.last())
    }
}

pub open spec fn is_ascii_alphabetic(c: char) -> bool {
    0x41 <= (c as u32) <= 0x5a || 0x61 <= (c as u32) <= 0x7a
}

/// Reads on from a number of visible cells and whether an escape sequence is open.
pub open spec fn scan_char(state: (nat, bool), c: char) -> (nat, bool) {
    if c == '\u{1b}' {
        (state.0, true)
    } else if state.1 {
        (state.0, !is_ascii_alphabetic(c))
    } else {
        (state.0 + char_width(c), false)
    }
}

/// The visible cells of a text and whether it ends inside an escape
/// sequence. A sequence runs from ESC to the next ASCII letter.
pub open spec fn scan(s: Seq<char>, in_escape: bool) -> (nat, bool)
    decreases s.len(),
{
    if s.len() == 0 {
        (0, in_escape)
    } else {
        scan_char(scan(s.drop_last(), in_escape), s.last())
    }
}

/// The visible cells of a text that may hold escape sequences.
pub open spec fn visible_cells(s: Seq<char>) -> nat {
    scan(s, false).0
}

/// A text of the given visible width that stays on one line and leaves no
/// escape sequence open.
pub open spec fn is_line(s: Seq<char>, width: nat) -> bool {
    &&& scan(s, false) == (width, false)
    &&& forall|i: int| 0 <= i < s.len() ==> #[trigger] s[i] != '\n'
}

pub open spec fn at_most_max(n: nat) -> nat {
    if n <= usize::MAX {
        n
    } else {
        usize::MAX as nat
    }
}

/// Counts visible cells in `s`, skipping CSI escape sequences. Each
/// non-escape codepoint contributes its Unicode display width (UAX #11):
/// wide chars (emoji, CJK) count as 2, combining marks as 0. This keeps
/// frame padding aligned even when tab names contain such characters.
pub fn visible_len(s: &str) -> (len: usize)
    ensures
        len == at_most_max(visible_cells(s@)),
{
    let chars: Vec<char> = chars_of(s);
    let mut len: usize = 0;
    let mut in_escape: bool = false;
    let mut i: usize = 0;
    while i < chars.len()
        invariant
            i <= chars.len(),
            chars@ == s@,
            len == at_most_max(scan(s@.take(i as int), false).0),
            in_escape == scan(s@.take(i as int), false).1,
        decreases chars.len() - i,
    {
        let c: char = chars[i];
        assert(s@.take(i + 1).drop_last() =~= s@.take(i as int));
        i += 1;
        if c == '\u{1b}' {
            in_escape = true;
            continue;
        }
        if in_escape {
            let code: u32 = c as u32;
            if (0x41 <= code && code <= 0x5a) || (0x61 <= code && code <= 0x7a) {
                in_escape = false;
            }
            continue;
        }
        len = len.saturating_add(char_cells(c));
    }
    assert(s@.take(i as int) =~= s@);
    len
}

/// A control char is shown as `?`, any other char as itself.
pub open spec fn sanitized(c: char) -> char {
    if is_control(c) {
        '?'
    } else {
        c
    }
}

/// Replaces control chars (ESC among them) with '?', which prevents SGR and
/// cursor injection via tab names or query input.
pub fn sanitize_char(c: char) -> (shown: char)
    ensures
        shown == sanitized(c),
        !is_control(shown),
{
    if char_is_control(c) {
        '?'
    } else {
        c
    }
}

/// The longest end of a text that fits into a number of cells.
pub open spec fn fitting_suffix(s: Seq<char>, max_cells: nat) -> Seq<char>
    decreases s.len(),
{
    if cells(s) <= max_cells {
        s
    } else {
        fitting_suffix(s.drop_first(), max_cells)
    }
}

/// The longest start of a text that fits into a number of cells.
pub open spec fn fitting_prefix(s: Seq<char>, max_cells: nat) -> Seq<char>
    decreases s.len(),
{
    if cells(s) <= max_cells {
        s
    } else {
        fitting_prefix(s.drop_last(), max_cells)
    }
}

pub proof fn lemma_cells_concat(a: Seq<char>, b: Seq<char>)
    ensures
        cells(a + b) == cells(a) + cells(b),
    decreases b.len(),
{
    if b.len() == 0 {
        assert(a + b =~= a);
    } else {
        assert((a + b).drop_last() =~= a + b.drop_last());
        lemma_cells_concat(a, b.drop_last());
    }
}

pub proof fn lemma_cells_of_char(c: char)
    ensures
        cells(seq![c]) == char_width(c),
{
    assert(seq![c].drop_last() =~= seq![]);
    assert(cells(seq![c].drop_last()) == 0);
}

/// The tail of the query that is shown in a prompt of `max_cells` cells.
pub open spec fn shown_tail(query: Seq<char>, max_cells: nat) -> Seq<char> {
    if max_cells == 0 {
        seq![]
    } else {
        fitting_suffix(query, max_cells)
    }
}

proof fn lemma_fitting_suffix(s: Seq<char>, max_cells: nat, start: int)
    requires
        0 <= start <= s.len(),
        cells(s.skip(start)) <= max_cells,
        start > 0 ==> cells(s.skip(start - 1)) > max_cells,
    ensures
        fitting_suffix(s, max_cells) == s.skip(start),
    decreases s.len(),
{
    if start == 0 {
        assert(s.skip(0) =~= s);
    } else {
        assert(s =~= s.take(start - 1) + s.skip(start - 1));
        lemma_cells_concat(s.take(start - 1), s.skip(start - 1));
        assert(s.drop_first().skip(start - 1) =~= s.skip(start));
        if start > 1 {
            assert(s.drop_first().skip(start - 2) =~= s.skip(start - 1));
        }
        lemma_fitting_suffix(s.drop_first(), max_cells, start - 1);
    }
}

/// Returns the tail of the query that fits in `max_cells` display cells.
/// While typing, the cursor is at the end (that is what the user wants to
/// see), so the most recent characters are kept. Measured in cells (UAX #11)
/// so wide chars in a pasted query do not overrun the prompt row.
pub fn query_tail(query: &str, max_cells: usize) -> (tail: &str)
    ensures
        tail@ == shown_tail(query@, max_cells as nat),
{
    let chars: Vec<char> = chars_of(query);
    let len: usize = chars.len();
    if max_cells == 0 {
        return query.substring_char(len, len);
    }
    let mut width: usize = 0;
    let mut start: usize = len;
    assert(query@.skip(len as int) =~= seq![]);
    while start > 0
        invariant
            start <= len,
            len == query@.len(),
            chars@ == query@,
            width == cells(query@.skip(start as int)),
            width <= max_cells,
            max_cells > 0,
        decreases start,
    {
        let w: usize = char_cells(chars[start - 1]);
        proof {
            let rest = query@.skip(start as int);
            assert(query@.skip(start - 1) =~= seq![query@[start - 1]] + rest);
            lemma_cells_concat(seq![query@[start - 1]], rest);
            lemma_cells_of_char(query@[start - 1]);
        }
        if w > max_cells - width {
            proof {
                lemma_fitting_suffix(query@, max_cells as nat, start as int);
            }
            return query.substring_char(start, len);
        }
        width += w;
        start -= 1;
    }
    proof {
        lemma_fitting_suffix(query@, max_cells as nat, 0);
    }
    query.substring_char(0, len)
}

/// Reading two texts in a row.
pub proof fn lemma_scan_concat(a: Seq<char>, b: Seq<char>, in_escape: bool)
    ensures
        scan(a + b, in_escape) == ({
            let first = scan(a, in_escape);
            let second = scan(b, first.1);
            (first.0 + second.0, second.1)
        }),
    decreases b.len(),
{
    if b.len() == 0 {
        assert(a + b =~= a);
    } else {
        assert((a + b).drop_last() =~= a + b.drop_last());
        lemma_scan_concat(a, b.drop_last(), in_escape);
    }
}

/// Text without control chars is as wide as its chars together.
pub proof fn lemma_line_plain(s: Seq<char>)
    requires
        forall|i: int| 0 <= i < s.len() ==> !is_control(#[trigger] s[i]),
    ensures
        is_line(s, cells(s)),
    decreases s.len(),
{
    if s.len() > 0 {
        assert forall|i: int| 0 <= i < s.len() - 1 implies !is_control(
            #[trigger] s.drop_last()[i],
        ) by {
            assert(s.drop_last()[i] == s[i]);
        }
        lemma_line_plain(s.drop_last());
        assert(!is_control(s[s.len() - 1]));
    }
}

/// Every escape sequence that is begun in `s` is closed in it.
pub open spec fn closes_escapes(s: Seq<char>) -> bool {
    forall|i: int|
        0 <= i < s.len() && #[trigger] s[i] == '\u{1b}' ==> exists|j: int|
            i < j < s.len() && is_ascii_alphabetic(#[trigger] s[j])
}

/// A text that is read to its end inside an escape sequence leaves one open.
proof fn lemma_open_escape(s: Seq<char>) -> (i: int)
    requires
        scan(s, false).1,
    ensures
        0 <= i < s.len(),
        s[i] == '\u{1b}',
        forall|j: int| i < j < s.len() ==> !is_ascii_alphabetic(#[trigger] s[j]),
    decreases s.len(),
{
    let last = s.len() - 1;
    if s[last] == '\u{1b}' {
        last
    } else {
        let i = lemma_open_escape(s.drop_last());
        assert forall|j: int| i < j < s.len() implies !is_ascii_alphabetic(#[trigger] s[j]) by {
            if j < last {
                assert(s.drop_last()[j] == s[j]);
            }
        }
        i
    }
}

/// Visible cells add up behind a text that closes its escape sequences, an
/// escape sequence between two texts adds none, and a text without any is as
/// wide as its chars together.
pub proof fn law_visible_cells_add_up(a: Seq<char>, b: Seq<char>, style: Seq<char>)
    requires
        closes_escapes(a),
        is_escape_sequence(style),
    ensures
        visible_cells(a + b) == visible_cells(a) + visible_cells(b),
        visible_cells(a + style + b) == visible_cells(a) + visible_cells(b),
        !b.contains('\u{1b}') ==> visible_cells(b) == cells(b),
{
    if scan(a, false).1 {
        let i = lemma_open_escape(a);
        assert(a[i] == '\u{1b}');
    }
    lemma_scan_concat(a, b, false);
    lemma_scan_concat(a, style, false);
    lemma_scan_concat(a + style, b, false);
    lemma_line_escape(style);
    if !b.contains('\u{1b}') {
        lemma_scan_without_escapes(b);
    }
}

proof fn lemma_scan_without_escapes(s: Seq<char>)
    requires
        !s.contains('\u{1b}'),
    ensures
        scan(s, false) == (cells(s), false),
    decreases s.len(),
{
    if s.len() > 0 {
        let rest = s.drop_last();
        assert(!rest.contains('\u{1b}')) by {
            if rest.contains('\u{1b}') {
                let i = choose|i: int| 0 <= i < rest.len() && rest[i] == '\u{1b}';
                assert(s[i] == '\u{1b}');
            }
        }
        assert(s[s.len() - 1] != '\u{1b}');
        lemma_scan_without_escapes(rest);
    }
}

pub proof fn lemma_line_concat(a: Seq<char>, m: nat, b: Seq<char>, n: nat)
    requires
        is_line(a, m),
        is_line(b, n),
    ensures
        is_line(a + b, m + n),
{
    lemma_scan_concat(a, b, false);
}

pub proof fn lemma_line_char(c: char)
    requires
        !is_control(c),
    ensures
        is_line(seq![c], char_width(c)),
{
    assert(seq![c].drop_last() =~= seq![]);
    assert(scan(seq![c].drop_last(), false) == (0nat, false));
}

pub proof fn lemma_line_push(s: Seq<char>, width: nat, c: char)
    requires
        is_line(s, width),
        !is_control(c),
    ensures
        is_line(s.push(c), width + char_width(c)),
{
    assert(s.push(c).drop_last() =~= s);
}

pub proof fn lemma_line_spaces(n: nat)
    ensures
        is_line(spaces(n), n),
    decreases n,
{
    if n > 0 {
        assert(spaces(n).drop_last() =~= spaces((n - 1) as nat));
        lemma_line_spaces((n - 1) as nat);
    }
}

/// ESC, then chars up to a closing letter: an escape sequence is invisible.
pub open spec fn is_escape_sequence(s: Seq<char>) -> bool {
    &&& s.len() >= 2
    &&& s[0] == '\u{1b}'
    &&& is_ascii_alphabetic(s.last())
    &&& forall|i: int|
        1 <= i < s.len() - 1 ==> !is_control(#[trigger] s[i]) && !is_ascii_alphabetic(s[i])
}

proof fn lemma_scan_open_escape(s: Seq<char>, len: int)
    requires
        is_escape_sequence(s),
        1 <= len < s.len(),
    ensures
        scan(s.take(len), false) == (0nat, true),
    decreases len,
{
    assert(s.take(len).drop_last() =~= s.take(len - 1));
    if len == 1 {
        assert(scan(s.take(0), false) == (0nat, false));
    } else {
        lemma_scan_open_escape(s, len - 1);
    }
}

pub proof fn lemma_line_escape(s: Seq<char>)
    requires
        is_escape_sequence(s),
    ensures
        is_line(s, 0),
{
    lemma_scan_open_escape(s, s.len() - 1);
    assert(s.drop_last() =~= s.take(s.len() - 1));
}

} // verus!
