//! Numbers, widths, names and the matching of single names.
use tab_quicksearch::approx::{approx_match, max_errors};
use tab_quicksearch::fuzzy::{haystack_for, Haystack, MatchKind};
use tab_quicksearch::layout::{SizeCfg, MIN_BOX_COLS, MIN_BOX_ROWS};
use tab_quicksearch::names::{push_name_chars, push_truncated_name};
use tab_quicksearch::style::{BELL_RESTORE, MATCH, RESET};
use tab_quicksearch::text::{
    char_is_control, char_is_digit, chars_of, digit_count, is_pending_jump_buffer, parse_decimal,
    push_decimal, push_decimal_aligned, push_pad,
};
use tab_quicksearch::width::{char_cells, query_tail, sanitize_char, visible_len};

fn chars(s: &str) -> Vec<char> {
    s.chars().collect()
}

#[test]
fn digit_count_boundaries() {
    assert_eq!(digit_count(0), 1);
    assert_eq!(digit_count(9), 1);
    assert_eq!(digit_count(10), 2);
    assert_eq!(digit_count(99), 2);
    assert_eq!(digit_count(100), 3);
    assert_eq!(digit_count(1000), 4);
}

#[test]
fn digit_count_of_the_largest_number() {
    assert_eq!(digit_count(usize::MAX), usize::MAX.to_string().len());
}

#[test]
fn pending_jump_buffer_rules() {
    assert!(!is_pending_jump_buffer("")); // empty
    assert!(!is_pending_jump_buffer("0")); // leading zero
    assert!(!is_pending_jump_buffer("01"));
    assert!(!is_pending_jump_buffer("1a")); // non-digit
    assert!(!is_pending_jump_buffer("abc"));
    assert!(is_pending_jump_buffer("1"));
    assert!(is_pending_jump_buffer("12"));
    assert!(is_pending_jump_buffer("905"));
}

#[test]
fn numbers_are_written_and_read() {
    for n in [0usize, 7, 10, 42, 100, 65_535, usize::MAX] {
        let mut s = String::from("n=");
        push_decimal(&mut s, n);
        assert_eq!(s, format!("n={n}"));
        assert_eq!(parse_decimal(&n.to_string(), u64::MAX), Some(n as u64));
    }
    let mut s = String::new();
    push_decimal_aligned(&mut s, 7, 3);
    push_decimal_aligned(&mut s, 1234, 3);
    assert_eq!(s, "  71234");
}

#[test]
fn numbers_are_read_as_std_reads_them() {
    for text in [
        "", "+", "-", "-1", "+7", "++7", "007", "4294967295", "4294967296", "12a", " 1", "1 ",
        "99999999999999999999", "٣",
    ] {
        let expected = text.parse::<u32>().ok().map(u64::from);
        assert_eq!(parse_decimal(text, u64::from(u32::MAX)), expected, "{text:?}");
    }
    assert_eq!(parse_decimal("18446744073709551615", u64::MAX), Some(u64::MAX));
    assert_eq!(parse_decimal("18446744073709551616", u64::MAX), None);
}

#[test]
fn char_classes_agree_with_std() {
    for c in (0..=0x10_ffffu32).filter_map(char::from_u32) {
        assert_eq!(char_is_control(c), c.is_control(), "{c:?}");
        assert_eq!(char_is_digit(c), c.is_ascii_digit(), "{c:?}");
    }
}

#[test]
fn chars_of_gives_codepoints() {
    assert_eq!(chars_of("e\u{301}x"), vec!['e', '\u{301}', 'x']);
    assert!(chars_of("").is_empty());
}

#[test]
fn char_cells_widths() {
    assert_eq!(char_cells('a'), 1);
    assert_eq!(char_cells('世'), 2); // CJK wide
    assert_eq!(char_cells('❯'), 1); // prompt glyph
    assert_eq!(char_cells('…'), 1); // ellipsis
    assert_eq!(char_cells('│'), 1); // box drawing
}

#[test]
fn char_cells_of_every_char() {
    let chrome = ['│', '─', '├', '┤', '╭', '╮', '╰', '╯', '❯', '…'];
    for c in (0..=0x10_ffffu32).filter_map(char::from_u32) {
        let width = unicode_width::UnicodeWidthChar::width(c);
        // No width exactly for the control chars, one cell for printable
        // ASCII and for the glyphs of the frame.
        assert_eq!(width.is_none(), c.is_control(), "{c:?}");
        if (' '..='~').contains(&c) || chrome.contains(&c) {
            assert_eq!(width, Some(1), "{c:?}");
        }
        assert_eq!(char_cells(c), width.unwrap_or(0), "{c:?}");
    }
    assert_eq!(char_cells('\u{301}'), 0); // combining mark
    assert_eq!(char_cells('🚀'), 2); // emoji
    assert_eq!(char_cells('\n'), 0); // control
}

#[test]
fn visible_len_skips_escapes_and_counts_width() {
    assert_eq!(visible_len("abc"), 3);
    assert_eq!(visible_len("\u{1b}[1;33mX\u{1b}[0m"), 1); // SGR is zero-width
    assert_eq!(visible_len("世界"), 4); // two CJK = four cells
    assert_eq!(visible_len("a世"), 3);
}

#[test]
fn visible_len_of_an_open_escape() {
    assert_eq!(visible_len("ab\u{1b}[12"), 2);
    assert_eq!(visible_len("\u{1b}\u{1b}[0mx"), 1);
    assert_eq!(visible_len("e\u{301}"), 1);
}

#[test]
fn query_tail_keeps_end_by_width() {
    assert_eq!(query_tail("hello", 0), "");
    assert_eq!(query_tail("hello", 10), "hello"); // fits whole
    assert_eq!(query_tail("hello", 3), "llo"); // most recent chars
    assert_eq!(query_tail("世界", 4), "世界");
    assert_eq!(query_tail("世界", 3), "界"); // only the last wide char fits
    assert_eq!(query_tail("世界", 1), ""); // a 2-wide char cannot fit in 1
}

#[test]
fn query_tail_keeps_leading_marks_that_fit() {
    // A mark of no width is kept even when the char before it does not fit.
    assert_eq!(query_tail("世\u{301}ab", 2), "\u{301}ab");
    assert_eq!(query_tail("", 3), "");
}

#[test]
fn sanitize_replaces_controls() {
    assert_eq!(sanitize_char('a'), 'a');
    assert_eq!(sanitize_char('世'), '世');
    assert_eq!(sanitize_char('\u{1b}'), '?'); // ESC
    assert_eq!(sanitize_char('\n'), '?');
}

#[test]
fn truncated_name_fits_returns_width() {
    let mut s = String::new();
    let w = push_truncated_name(&mut s, "abc", &[], 10, RESET);
    assert_eq!(s, "abc");
    assert_eq!(w, 3);
}

#[test]
fn truncated_name_adds_ellipsis() {
    let mut s = String::new();
    let w = push_truncated_name(&mut s, "abcdef", &[], 4, RESET);
    assert_eq!(s, "abc…");
    assert_eq!(w, 4);
}

#[test]
fn truncated_name_wide_chars_respect_cells() {
    // "世界世" = 6 cells; budget 5 reserves 1 for '…', fits 4 cells of name.
    let mut s = String::new();
    let w = push_truncated_name(&mut s, "世界世", &[], 5, RESET);
    assert_eq!(s, "世界…");
    assert_eq!(w, 5);
}

#[test]
fn truncated_name_wide_char_partial_cell() {
    // Budget 4 → content budget 3, next char is 2-wide → only "世" fits.
    let mut s = String::new();
    let w = push_truncated_name(&mut s, "世界世", &[], 4, RESET);
    assert_eq!(s, "世…");
    assert_eq!(w, 3);
}

#[test]
fn truncated_name_single_cell_is_ellipsis() {
    let mut s = String::new();
    let w = push_truncated_name(&mut s, "abc", &[], 1, RESET);
    assert_eq!(s, "…");
    assert_eq!(w, 1);
}

#[test]
fn truncated_name_zero_budget_writes_nothing() {
    let mut s = String::new();
    let w = push_truncated_name(&mut s, "abc", &[], 0, RESET);
    assert_eq!(s, "");
    assert_eq!(w, 0);
}

#[test]
fn truncated_name_highlights_indices() {
    let mut s = String::new();
    let w = push_truncated_name(&mut s, "abc", &[1], 10, RESET);
    assert_eq!(s, format!("a{MATCH}b{RESET}c")); // escapes are zero-width
    assert_eq!(w, 3);
}

#[test]
fn truncated_name_emits_restore_sequence() {
    // Inside a bell row the restore sequence re-applies the bell bg.
    let mut s = String::new();
    push_truncated_name(&mut s, "abc", &[1], 10, BELL_RESTORE);
    assert_eq!(s, format!("a{MATCH}b{BELL_RESTORE}c"));
}

#[test]
fn name_chars_tolerate_duplicate_indices() {
    // A duplicate must not wedge the index iterator and hide `c`.
    let mut s = String::new();
    push_truncated_name(&mut s, "abc", &[1, 1, 2], 10, RESET);
    assert_eq!(s, format!("a{MATCH}b{RESET}{MATCH}c{RESET}"));
}

#[test]
fn name_chars_show_controls_as_question_marks() {
    let mut s = String::from(">");
    let w = push_truncated_name(&mut s, "a\u{1b}[0m\nb", &[], 20, RESET);
    assert_eq!(s, ">a?[0m?b");
    assert_eq!(w, 7);
}

#[test]
fn name_chars_stop_at_the_budget() {
    let mut s = String::new();
    assert_eq!(push_name_chars(&mut s, "世界", &[0], 3, RESET), 2);
    assert_eq!(s, format!("{MATCH}世{RESET}"));
    // A stale index before the current char is skipped.
    let mut s = String::new();
    assert_eq!(push_name_chars(&mut s, "abc", &[2, 0], 9, RESET), 3);
    assert_eq!(s, format!("ab{MATCH}c{RESET}"));
}

#[test]
fn push_pad_loops_past_static_buffer() {
    let mut s = String::new();
    push_pad(&mut s, 0);
    assert_eq!(s, "");
    push_pad(&mut s, 300);
    assert_eq!(s.len(), 300);
    assert!(s.bytes().all(|b| b == b' '));
}

fn config(pairs: &[(&str, &str)]) -> Vec<(String, String)> {
    pairs.iter().map(|(k, v)| (k.to_string(), v.to_string())).collect()
}

#[test]
fn size_cfg_clamps_to_minimum() {
    let size = SizeCfg::from_config(&config(&[("max_cols", "0"), ("max_rows", "abc")]));
    assert_eq!(size.cols, MIN_BOX_COLS); // clamped
    assert_eq!(size.rows, 20); // unparsable → default
    let size = SizeCfg::from_config(&config(&[("max_cols", "200"), ("max_rows", "2")]));
    assert_eq!(size.cols, 200);
    assert_eq!(size.rows, MIN_BOX_ROWS);
}

#[test]
fn size_cfg_defaults() {
    assert_eq!(SizeCfg::from_config(&Vec::new()), SizeCfg { cols: 60, rows: 20 });
    assert_eq!(SizeCfg::default(), SizeCfg { cols: 60, rows: 20 });
    let size = SizeCfg::from_config(&config(&[("other", "5"), ("max_rows", "+33")]));
    assert_eq!(size, SizeCfg { cols: 60, rows: 33 });
    let size = SizeCfg::from_config(&config(&[("max_cols", "99999999999999999999999")]));
    assert_eq!(size.cols, 60); // beyond a machine integer → default
}

#[test]
fn haystack_keeps_one_entry_per_codepoint() {
    // "e" + combining acute + "x": three codepoints, two graphemes.
    let name = "e\u{301}x";
    match haystack_for(name) {
        Haystack::Unicode(chars) => assert_eq!(chars.len(), 3),
        Haystack::Ascii(_) => panic!("non-ASCII name must use the Unicode variant"),
    }
    assert!(matches!(haystack_for("plain"), Haystack::Ascii(_)));
}

#[test]
fn match_kind_rank_orders_fuzzy_before_approx() {
    let mut kinds = vec![
        MatchKind::Approx(2),
        MatchKind::Fuzzy(10),
        MatchKind::Approx(0),
        MatchKind::Fuzzy(500),
    ];
    kinds.sort_by_key(|k| k.rank());
    assert_eq!(
        kinds,
        vec![
            MatchKind::Fuzzy(500),
            MatchKind::Fuzzy(10),
            MatchKind::Approx(0),
            MatchKind::Approx(2),
        ]
    );
}

#[test]
fn match_kind_rank_values() {
    assert_eq!(MatchKind::Listed.rank(), (0, 0));
    assert_eq!(MatchKind::Fuzzy(0).rank(), (0, u64::from(u32::MAX)));
    assert_eq!(MatchKind::Fuzzy(u32::MAX).rank(), (0, 0));
    assert_eq!(MatchKind::Approx(3).rank(), (1, 3));
}

#[test]
fn max_errors_thresholds() {
    assert_eq!(max_errors(0), 0);
    assert_eq!(max_errors(2), 0);
    assert_eq!(max_errors(3), 1);
    assert_eq!(max_errors(5), 1);
    assert_eq!(max_errors(6), 2);
    assert_eq!(max_errors(9), 2);
    assert_eq!(max_errors(10), 3);
}

#[test]
fn approx_match_tolerates_typos() {
    let mut scratch = Vec::new();
    let name = chars("backend");
    // "bakend": the c is missing → distance 1, every other char
    // highlighted.
    assert_eq!(
        approx_match(&chars("bakend"), &name, 1, &mut scratch),
        Some((1, vec![0, 1, 3, 4, 5, 6]))
    );
    // "bacckend": one c too many → distance 1, the whole name highlighted.
    assert_eq!(
        approx_match(&chars("bacckend"), &name, 1, &mut scratch),
        Some((1, vec![0, 1, 2, 3, 4, 5, 6]))
    );
    // Exact substring → distance 0, every char highlighted.
    assert_eq!(
        approx_match(&chars("end"), &name, 1, &mut scratch),
        Some((0, vec![4, 5, 6]))
    );
    // Beyond the budget → no match.
    assert_eq!(approx_match(&chars("xyz"), &name, 1, &mut scratch), None);
    assert_eq!(
        approx_match(&chars("free"), &chars("frontend"), 1, &mut scratch),
        None
    );
    // Degenerate inputs.
    assert_eq!(approx_match(&[], &name, 1, &mut scratch), None);
    assert_eq!(approx_match(&chars("bak"), &[], 1, &mut scratch), None);
}

#[test]
fn approx_match_takes_the_leftmost_best_end() {
    let mut scratch = Vec::new();
    assert_eq!(
        approx_match(&chars("ab"), &chars("xabyab"), 0, &mut scratch),
        Some((0, vec![1, 2]))
    );
    assert_eq!(scratch.len(), 3 * 7);
    // A query too long for the table has no match, and the table stays.
    let long: Vec<char> = vec!['a'; 70_000];
    assert_eq!(approx_match(&long, &chars("a"), 3, &mut scratch), None);
    assert_eq!(scratch.len(), 3 * 7);
}

#[test]
fn approx_distance_is_the_least_over_all_substrings() {
    fn edit_distance(a: &[char], b: &[char]) -> u32 {
        if a.is_empty() {
            return b.len() as u32;
        }
        if b.is_empty() {
            return a.len() as u32;
        }
        let (x, y) = (&a[..a.len() - 1], &b[..b.len() - 1]);
        let cost = u32::from(a[a.len() - 1] != b[b.len() - 1]);
        (edit_distance(x, y) + cost)
            .min(edit_distance(x, b) + 1)
            .min(edit_distance(a, y) + 1)
    }
    let mut scratch = Vec::new();
    for query in ["abc", "bca", "aab", "cc"] {
        for text in ["abcab", "bbb", "cabac", "xyz"] {
            let (q, t) = (chars(query), chars(text));
            let mut least = u32::MAX;
            for i in 0..=t.len() {
                for j in i..=t.len() {
                    least = least.min(edit_distance(&q, &t[i..j]));
                }
            }
            let (distance, positions) = approx_match(&q, &t, 9, &mut scratch).unwrap();
            assert_eq!(distance, least, "{query} in {text}");
            assert!(positions.windows(2).all(|w| w[0] < w[1]));
            assert!(positions.len() as u32 + distance >= q.len() as u32);
        }
    }
}

#[test]
fn whitespace_is_the_unicode_property() {
    let spaces: Vec<u32> = (0..=0x10_ffff)
        .filter(|&code| char::from_u32(code).is_some_and(char::is_whitespace))
        .collect();
    let mut expected: Vec<u32> = vec![9, 10, 11, 12, 13, 0x20, 0x85, 0xa0, 0x1680];
    expected.extend(0x2000..=0x200a);
    expected.extend([0x2028, 0x2029, 0x202f, 0x205f, 0x3000]);
    assert_eq!(spaces, expected);
}

#[test]
fn visible_cells_add_up() {
    for a in ["", "ab", "\u{1b}[1mab\u{1b}[0m", "日本\u{1b}[31;1m"] {
        for b in ["", "x", "é語", "\u{1b}[2mz"] {
            let sum = visible_len(a) + visible_len(b);
            assert_eq!(visible_len(&format!("{a}{b}")), sum);
            assert_eq!(visible_len(&format!("{a}\u{1b}[48;5;52m{b}")), sum);
        }
    }
    // An open sequence takes the text behind it up to a letter.
    assert_eq!(visible_len("ab\u{1b}[1"), 2);
    assert_eq!(visible_len("ab\u{1b}[1xyz"), 4);
}
