//! Fuzzy matching with nucleo.
use crate::text::chars_of;
use nucleo_matcher::pattern::{CaseMatching, Normalization, Pattern};
use nucleo_matcher::{Matcher, Utf32Str};
use vstd::prelude::*;
use vstd::utf8::is_ascii_chars;

verus! {

/// Hard upper bound for the query: prevents layout overflow on paste of
/// huge strings and preserves prompt-row integrity.
pub const MAX_QUERY_CHARS: usize = 128;

/// `nucleo_matcher::Matcher`: the engine's configuration and scratch memory.
#[verifier::external_type_specification]
#[verifier::external_body]
pub struct ExMatcher(Matcher);

/// `Matcher::default` gives a matcher with nucleo's default configuration.
pub assume_specification[ <Matcher as Default>::default ]() -> (matcher: Matcher)
;

/// A tab name in the form that nucleo matches, one entry per codepoint.
pub enum Haystack {
    /// A name of ASCII chars only.
    Ascii(String),
    /// The codepoints of any other name.
    Unicode(Vec<char>),
}

impl View for Haystack {
    type V = Seq<char>;

    open spec fn view(&self) -> Seq<char> {
        match self {
            Haystack::Ascii(name) => name@,
            Haystack::Unicode(chars) => chars@,
        }
    }
}

impl Haystack {
    /// The form fits the name.
    pub open spec fn wf(&self) -> bool {
        self is Ascii <==> is_ascii_chars(self@)
    }
}

/// nucleo haystack for a tab name. nucleo's own conversion from `&str`
/// collapses grapheme clusters to their first codepoint (lossy), which would
/// desync its match indices from the codepoint positions that names are
/// highlighted at. Building the `Unicode` variant from the plain codepoints
/// keeps both in step; ASCII names take nucleo's fast path unchanged.
pub fn haystack_for(name: &str) -> (haystack: Haystack)
    ensures
        haystack.wf(),
        haystack@ == name@,
{
    if name.is_ascii() {
        Haystack::Ascii(name.to_owned())
    } else {
        Haystack::Unicode(chars_of(name))
    }
}

/// What a lower-case letter with a case folding of its own folds to, as a
/// code point: the micro sign, long s, final sigma and the like, the letter
/// variants of Greek and Cyrillic, and the small letters of Cherokee.
pub open spec fn own_folding(c: char) -> Option<u32> {
    let code = c as u32;
    if code == 0xb5 {
        Some(0x3bc)
    } else if code == 0x17f {
        Some(0x73)
    } else if code == 0x345 || code == 0x1fbe {
        Some(0x3b9)
    } else if code == 0x3c2 {
        Some(0x3c3)
    } else if code == 0x3d0 {
        Some(0x3b2)
    } else if code == 0x3d1 {
        Some(0x3b8)
    } else if code == 0x3d5 {
        Some(0x3c6)
    } else if code == 0x3d6 {
        Some(0x3c0)
    } else if code == 0x3f0 {
        Some(0x3ba)
    } else if code == 0x3f1 {
        Some(0x3c1)
    } else if code == 0x3f5 {
        Some(0x3b5)
    } else if 0x13f8 <= code <= 0x13fd {
        Some((code - 8) as u32)
    } else if code == 0x1c80 {
        Some(0x432)
    } else if code == 0x1c81 {
        Some(0x434)
    } else if code == 0x1c82 {
        Some(0x43e)
    } else if code == 0x1c83 {
        Some(0x441)
    } else if code == 0x1c84 || code == 0x1c85 {
        Some(0x442)
    } else if code == 0x1c86 {
        Some(0x44a)
    } else if code == 0x1c87 {
        Some(0x463)
    } else if code == 0x1c88 {
        Some(0xa64b)
    } else if code == 0x1e9b {
        Some(0x1e61)
    } else if 0xab70 <= code <= 0xabbf {
        Some((code - 0x97d0) as u32)
    } else {
        None
    }
}

/// What a lower-case letter with a case folding of its own folds to.
pub fn own_folding_of(c: char) -> (folding: Option<u32>)
    ensures
        folding == own_folding(c),
{
    let code: u32 = c as u32;
    match code {
        0xb5 => Some(0x3bc),
        0x17f => Some(0x73),
        0x345 | 0x1fbe => Some(0x3b9),
        0x3c2 => Some(0x3c3),
        0x3d0 => Some(0x3b2),
        0x3d1 => Some(0x3b8),
        0x3d5 => Some(0x3c6),
        0x3d6 => Some(0x3c0),
        0x3f0 => Some(0x3ba),
        0x3f1 => Some(0x3c1),
        0x3f5 => Some(0x3b5),
        0x13f8..=0x13fd => Some(code - 8),
        0x1c80 => Some(0x432),
        0x1c81 => Some(0x434),
        0x1c82 => Some(0x43e),
        0x1c83 => Some(0x441),
        0x1c84 | 0x1c85 => Some(0x442),
        0x1c86 => Some(0x44a),
        0x1c87 => Some(0x463),
        0x1c88 => Some(0xa64b),
        0x1e9b => Some(0x1e61),
        0xab70..=0xabbf => Some(code - 0x97d0),
        _ => None,
    }
}

/// The blocks that hold the variants of ASCII letters (diacritics,
/// superscripts and the like) that nucleo can normalize to those letters.
pub open spec fn is_variant_letter(c: char) -> bool {
    let code = c as u32;
    0xc0 <= code <= 0x36f || 0x1d00 <= code <= 0x1ef9 || 0x2071 <= code <= 0x2184
}

/// Whether a char is in a block of variants of ASCII letters.
pub fn char_is_variant_letter(c: char) -> (variant: bool)
    ensures
        variant == is_variant_letter(c),
{
    let code: u32 = c as u32;
    (0xc0 <= code && code <= 0x36f) || (0x1d00 <= code && code <= 0x1ef9) || (0x2071 <= code
        && code <= 0x2184)
}

/// The char at `i` separates two words of a query: a space that no backslash
/// stands before.
pub open spec fn is_separator(query: Seq<char>, i: int) -> bool {
    query[i] == ' ' && (i == 0 || query[i - 1] != '\\')
}

/// A word of the query begins at `i`.
pub open spec fn starts_word(query: Seq<char>, i: int) -> bool {
    &&& 0 <= i < query.len()
    &&& !is_separator(query, i)
    &&& i == 0 || is_separator(query, i - 1)
}

/// From `i` to the end of its word the query holds a variant letter.
pub open spec fn has_variant_ahead(query: Seq<char>, i: int) -> bool
    decreases query.len() - i,
{
    0 <= i < query.len() && !is_separator(query, i) && (is_variant_letter(query[i])
        || has_variant_ahead(query, i + 1))
}

/// The char at `i` begins a word that holds a variant letter.
pub open spec fn starts_variant_word(query: Seq<char>, i: int) -> bool {
    starts_word(query, i) && has_variant_ahead(query, i)
}

/// A lower-case letter whose own folding is this char.
pub open spec fn folds_apart_to(c: char, folding: char) -> bool {
    own_folding(c) == Some(folding as u32)
}

/// nucleo takes the pair. A word with a variant letter turns normalization
/// off, and then nucleo's two ways to fold a name part: the one that looks for
/// the first char of the word folds every letter, the one that scores folds
/// none that is lower-case. A name with a letter on which they disagree about
/// that first char can trip one of nucleo's debug assertions.
pub open spec fn nucleo_takes(query: Seq<char>, name: Seq<char>) -> bool {
    forall|i: int, n: int|
        #![trigger query[i], name[n]]
        0 <= i < query.len() && 0 <= n < name.len() && starts_variant_word(query, i)
            ==> !folds_apart_to(name[n], query[i])
}

/// Whether a char separates two words of a query.
fn separates(query: &Vec<char>, i: usize) -> (separator: bool)
    requires
        i < query.len(),
    ensures
        separator == is_separator(query@, i as int),
{
    query[i] == ' ' && (i == 0 || query[i - 1] != '\\')
}

/// Whether a char begins a word that holds a variant letter.
fn begins_variant_word(query: &Vec<char>, i: usize) -> (begins: bool)
    requires
        i < query.len(),
    ensures
        begins == starts_variant_word(query@, i as int),
{
    if separates(query, i) || (i > 0 && !separates(query, i - 1)) {
        return false;
    }
    let mut k: usize = i;
    while k < query.len() && !separates(query, k)
        invariant
            i <= k <= query.len(),
            starts_word(query@, i as int),
            has_variant_ahead(query@, i as int) == has_variant_ahead(query@, k as int),
        decreases query.len() - k,
    {
        if char_is_variant_letter(query[k]) {
            return true;
        }
        k += 1;
    }
    false
}

/// Whether a name holds a lower-case letter whose own folding is this char.
fn holds_folding_to(name: &Vec<char>, folding: char) -> (found: bool)
    ensures
        found == exists|n: int|
            0 <= n < name.len() && folds_apart_to(#[trigger] name@[n], folding),
{
    let mut n: usize = 0;
    while n < name.len()
        invariant
            n <= name.len(),
            forall|j: int| 0 <= j < n ==> !folds_apart_to(#[trigger] name@[j], folding),
        decreases name.len() - n,
    {
        if let Some(own) = own_folding_of(name[n]) {
            if own == folding as u32 {
                assert(folds_apart_to(name@[n as int], folding));
                return true;
            }
        }
        n += 1;
    }
    false
}

/// Whether nucleo takes a query and a name.
pub fn takes_pair(query: &Vec<char>, name: &Vec<char>) -> (takes: bool)
    ensures
        takes == nucleo_takes(query@, name@),
{
    let mut i: usize = 0;
    while i < query.len()
        invariant
            i <= query.len(),
            forall|j: int, n: int|
                #![trigger query@[j], name@[n]]
                0 <= j < i && 0 <= n < name.len() && starts_variant_word(query@, j)
                    ==> !folds_apart_to(name@[n], query@[j]),
        decreases query.len() - i,
    {
        if begins_variant_word(query, i) && holds_folding_to(name, query[i]) {
            proof {
                let n = choose|n: int|
                    0 <= n < name.len() && folds_apart_to(#[trigger] name@[n], query@[i as int]);
                assert(folds_apart_to(name@[n], query@[i as int]));
            }
            return false;
        }
        i += 1;
    }
    true
}

proof fn lemma_variant_ahead_of_prefix(query: Seq<char>, len: int, i: int)
    requires
        0 <= len <= query.len(),
        has_variant_ahead(query.take(len), i),
    ensures
        has_variant_ahead(query, i),
    decreases len - i,
{
    let less = query.take(len);
    assert(less[i] == query[i]);
    if i > 0 {
        assert(less[i - 1] == query[i - 1]);
    }
    if !is_variant_letter(query[i]) {
        lemma_variant_ahead_of_prefix(query, len, i + 1);
    }
}

/// The beginning of a query is taken with every name that the whole one is.
pub proof fn lemma_takes_less(query: Seq<char>, len: int, name: Seq<char>)
    requires
        nucleo_takes(query, name),
        0 <= len <= query.len(),
    ensures
        nucleo_takes(query.take(len), name),
{
    let less = query.take(len);
    assert forall|i: int, n: int|
        #![trigger less[i], name[n]]
        0 <= i < less.len() && 0 <= n < name.len() && starts_variant_word(
            less,
            i,
        ) implies !folds_apart_to(name[n], less[i]) by {
        assert(less[i] == query[i]);
        if i > 0 {
            assert(less[i - 1] == query[i - 1]);
        }
        if i > 1 {
            assert(less[i - 2] == query[i - 2]);
        }
        lemma_variant_ahead_of_prefix(query, len, i);
        assert(starts_variant_word(query, i));
    }
}

/// A variant letter ahead is one of the query's chars.
pub proof fn lemma_variant_ahead(query: Seq<char>, i: int)
    requires
        has_variant_ahead(query, i),
    ensures
        exists|k: int| i <= k < query.len() && is_variant_letter(#[trigger] query[k]),
    decreases query.len() - i,
{
    if !is_variant_letter(query[i]) {
        lemma_variant_ahead(query, i + 1);
    }
}

/// nucleo takes a name of this length: it counts chars in 32 bits and
/// multiplies the length with that of a query word in a machine integer.
pub open spec fn is_name_len(len: nat) -> bool {
    len <= u32::MAX && len * MAX_QUERY_CHARS <= usize::MAX
}

/// Whether nucleo takes a name of this length.
pub fn takes_name_len(len: usize) -> (takes: bool)
    ensures
        takes == is_name_len(len as nat),
{
    len <= u32::MAX as usize && len <= usize::MAX / MAX_QUERY_CHARS
}

/// The score of a name under a query and the codepoint positions that
/// matched, as nucleo's `Pattern::indices` appends them; `None` for no match.
pub uninterp spec fn nucleo_indices(query: Seq<char>, name: Seq<char>) -> Option<(u32, Seq<u32>)>;

/// A result of nucleo with its positions as a sequence.
pub open spec fn hit_view(hit: Option<(u32, Vec<u32>)>) -> Option<(u32, Seq<u32>)> {
    match hit {
        Some((score, positions)) => Some((score, positions@)),
        None => None,
    }
}

/// nucleo's matcher in its default configuration, which nothing changes.
pub struct FuzzyMatcher {
    matcher: Matcher,
}

impl FuzzyMatcher {
    /// A matcher in nucleo's default configuration.
    pub(crate) fn new() -> FuzzyMatcher {
        FuzzyMatcher { matcher: Matcher::default() }
    }

    /// Calls `Pattern::parse` on the query with smart case and smart
    /// normalization, then `Pattern::indices` on the name. The result is a
    /// function of the two texts: each word of the query sets the case and
    /// normalization settings of the matcher anew, its other settings stay at
    /// their defaults, and its memory is scratch. Where the query has words,
    /// nucleo takes no name beyond the lengths of `is_name_len` and no pair
    /// that trips its debug assertions, and a score of 16 bits holds the
    /// longest query.
    #[verifier::external_body]
    pub(crate) fn indices(&mut self, query: &str, haystack: &Haystack) -> (hit: Option<
        (u32, Vec<u32>),
    >)
        requires
            haystack.wf(),
            query@.len() <= MAX_QUERY_CHARS,
            query@.len() == 0 || is_name_len(haystack@.len()) && nucleo_takes(query@, haystack@),
        ensures
            hit_view(hit) == nucleo_indices(query@, haystack@),
    {
        let pattern = Pattern::parse(query, CaseMatching::Smart, Normalization::Smart);
        let text = match haystack {
            Haystack::Ascii(name) => Utf32Str::Ascii(name.as_bytes()),
            Haystack::Unicode(chars) => Utf32Str::Unicode(chars),
        };
        let mut positions: Vec<u32> = Vec::new();
        match pattern.indices(text, &mut self.matcher, &mut positions) {
            Some(score) => Some((score, positions)),
            None => None,
        }
    }
}

/// A char beyond ASCII in lower case, as nucleo's `chars::to_lower_case`
/// folds it.
pub uninterp spec fn nucleo_lower_case(c: char) -> char;

/// A char in lower case.
pub open spec fn lower_case(c: char) -> char {
    if 0x41 <= (c as u32) <= 0x5a {
        (c as u32 + 0x20) as char
    } else if (c as u32) < 0x80 {
        c
    } else {
        nucleo_lower_case(c)
    }
}

/// `nucleo_matcher::chars::to_lower_case` looks the char up in a fixed table
/// of simple Unicode case foldings. Of the ASCII chars the table holds the
/// letters `A` to `Z`, each with its lower-case letter.
pub assume_specification[ nucleo_matcher::chars::to_lower_case ](c: char) -> (lower: char)
    ensures
        lower == (if 0x41 <= (c as u32) <= 0x5a {
            (c as u32 + 0x20) as char
        } else if (c as u32) < 0x80 {
            c
        } else {
            nucleo_lower_case(c)
        }),
;

/// How a tab matched the query. Every nucleo (subsequence) match ranks
/// above every approximate (typo-tolerant) one, see `rank`.
#[derive(Clone, Copy, Debug, PartialEq, Eq, Structural)]
pub enum MatchKind {
    /// No query: the unfiltered list, ordered by access frequency, never by `rank`.
    Listed,
    /// nucleo fuzzy match with its score (higher is better).
    Fuzzy(u32),
    /// Approximate substring match with its edit distance (lower is better).
    Approx(u32),
}

impl MatchKind {
    /// Sort key, best match first.
    pub open spec fn ranking(self) -> (u8, u64) {
        match self {
            MatchKind::Listed => (0, 0),
            MatchKind::Fuzzy(score) => (0, (u32::MAX - score) as u64),
            MatchKind::Approx(distance) => (1, distance as u64),
        }
    }

    /// Sort key, best match first. A stable sort keeps tab order for ties.
    pub fn rank(self) -> (key: (u8, u64))
        ensures
            key == self.ranking(),
    {
        match self {
            MatchKind::Listed => (0, 0),
            MatchKind::Fuzzy(score) => (0, (u32::MAX - score) as u64),
            MatchKind::Approx(distance) => (1, distance as u64),
        }
    }
}

/// Whether a sort key goes before another one or equals it.
pub open spec fn rank_le(a: (u8, u64), b: (u8, u64)) -> bool {
    a.0 < b.0 || (a.0 == b.0 && a.1 <= b.1)
}

} // verus!
