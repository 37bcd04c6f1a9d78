//! SGR sequences. The picker chrome uses 16-ANSI palette codes so it
//! follows the active terminal theme; only `BELL` reaches into 256-colour
//! for a soft, theme-neutral light-grey background.
use crate::width::{is_line, lemma_line_escape};
use vstd::prelude::*;

verus! {

pub const RESET: &'static str = "\u{1b}[0m";

pub const DIM: &'static str = "\u{1b}[2m";

pub const REVERSE: &'static str = "\u{1b}[7m";

/// Bold cyan.
pub const PROMPT: &'static str = "\u{1b}[1;36m";

/// Bold yellow.
pub const MATCH: &'static str = "\u{1b}[1;33m";

pub const FRAME: &'static str = "\u{1b}[2m";

/// Bold cyan.
pub const ACTIVE: &'static str = "\u{1b}[1;36m";

/// Bold and reverse: the selection highlight.
pub const SELECTED: &'static str = "\u{1b}[1;7m";

/// Bell: reverse flag and light-grey foreground. The swap makes the
/// foreground the default background (as in a selected row) and the
/// background light grey (palette 250, near white).
pub const BELL: &'static str = "\u{1b}[7;38;5;250m";

/// Re-establishes `BELL` after a `MATCH` run inside a bell row. A bare
/// `RESET` there would drop the row background for everything after the
/// first highlighted char; `0` resets, then the bell attributes re-apply.
pub const BELL_RESTORE: &'static str = "\u{1b}[0;7;38;5;250m";

/// Every SGR sequence is invisible.
pub proof fn lemma_styles_are_invisible()
    ensures
        is_line(RESET@, 0),
        is_line(DIM@, 0),
        is_line(REVERSE@, 0),
        is_line(PROMPT@, 0),
        is_line(MATCH@, 0),
        is_line(FRAME@, 0),
        is_line(ACTIVE@, 0),
        is_line(SELECTED@, 0),
        is_line(BELL@, 0),
        is_line(BELL_RESTORE@, 0),
{
    reveal_strlit("\u{1b}[0m");
    reveal_strlit("\u{1b}[2m");
    reveal_strlit("\u{1b}[7m");
    reveal_strlit("\u{1b}[1;36m");
    reveal_strlit("\u{1b}[1;33m");
    reveal_strlit("\u{1b}[1;7m");
    reveal_strlit("\u{1b}[7;38;5;250m");
    reveal_strlit("\u{1b}[0;7;38;5;250m");
    lemma_line_escape(RESET@);
    lemma_line_escape(DIM@);
    lemma_line_escape(REVERSE@);
    lemma_line_escape(PROMPT@);
    lemma_line_escape(MATCH@);
    lemma_line_escape(FRAME@);
    lemma_line_escape(ACTIVE@);
    lemma_line_escape(SELECTED@);
    lemma_line_escape(BELL@);
    lemma_line_escape(BELL_RESTORE@);
}

} // verus!
