//! Strings: the operations of `String` that the picker uses, and numbers in text.
use vstd::arithmetic::div_mod::lemma_div_denominator;
use vstd::arithmetic::power::{lemma_pow0, lemma_pow1, lemma_pow_adds, lemma_pow_positive, pow};
use vstd::prelude::*;

verus! {

/// `String::push` appends the char to the end of the string.
pub assume_specification[ String::push ](s: &mut String, c: char)
    ensures
        final(s)@ == old(s)@.push(c),
;

/// `String::push_str` appends the slice to the end of the string.
pub assume_specification[ String::push_str ](s: &mut String, other: &str)
    ensures
        final(s)@ == old(s)@ + other@,
;

/// `String::pop` removes the last char and returns it, or returns `None`
/// when the string is empty.
pub assume_specification[ String::pop ](s: &mut String) -> (popped: Option<char>)
    ensures
        old(s)@.len() == 0 ==> popped is None && final(s)@ == old(s)@,
        old(s)@.len() > 0 ==> popped == Some(old(s)@.last()) && final(s)@ == old(s)@.drop_last(),
;

/// `String::clear` removes all contents.
pub assume_specification[ String::clear ](s: &mut String)
    ensures
        final(s)@ == Seq::<char>::empty(),
;

/// Whitespace: the chars with the Unicode property `White_Space`.
pub open spec fn is_space(c: char) -> bool {
    let code = c as u32;
    ||| 0x9 <= code <= 0xd
    ||| code == 0x20
    ||| code == 0x85
    ||| code == 0xa0
    ||| code == 0x1680
    ||| 0x2000 <= code <= 0x200a
    ||| 0x2028 <= code <= 0x2029
    ||| code == 0x202f
    ||| code == 0x205f
    ||| code == 0x3000
}

/// `char::is_whitespace` tells whether a char has the Unicode property
/// `White_Space`, which these chars have.
pub assume_specification[ char::is_whitespace ](c: char) -> (found: bool)
    ensures
        found == is_space(c),
;

/// Whether `char::is_uppercase` holds of a char beyond ASCII.
pub uninterp spec fn unicode_uppercase(c: char) -> bool;

/// An uppercase char (Unicode `Uppercase`): in ASCII the letters `A` to `Z`.
pub open spec fn is_upper(c: char) -> bool {
    if (c as u32) < 0x80 {
        0x41 <= (c as u32) <= 0x5a
    } else {
        unicode_uppercase(c)
    }
}

/// `char::is_uppercase` looks the char up in the fixed Unicode table of
/// `Uppercase`, which holds the ASCII letters `A` to `Z`.
pub assume_specification[ char::is_uppercase ](c: char) -> (found: bool)
    ensures
        found == (if (c as u32) < 0x80 {
            0x41 <= (c as u32) <= 0x5a
        } else {
            unicode_uppercase(c)
        }),
;

/// The chars of a string, one entry per codepoint.
pub fn chars_of(s: &str) -> (chars: Vec<char>)
    ensures
        chars@ == s@,
{
    let mut chars: Vec<char> = Vec::new();
    for c in it: s.chars()
        invariant
            it.seq() == s@,
            chars@ == s@.take(it.index() as int),
    {
        chars.push(c);
    }
    chars
}

/// A control char (general category `Cc`), ESC and newline among them.
pub open spec fn is_control(c: char) -> bool {
    (c as u32) < 0x20 || 0x7f <= (c as u32) < 0xa0
}

/// Whether a char is a control char.
pub fn char_is_control(c: char) -> (control: bool)
    ensures
        control == is_control(c),
{
    let code: u32 = c as u32;
    code < 0x20 || (0x7f <= code && code < 0xa0)
}

pub open spec fn is_digit(c: char) -> bool {
    0x30 <= (c as u32) <= 0x39
}

/// Whether a char is one of `0` to `9`.
pub fn char_is_digit(c: char) -> (digit: bool)
    ensures
        digit == is_digit(c),
{
    let code: u32 = c as u32;
    0x30 <= code && code <= 0x39
}

/// `n` spaces.
pub open spec fn spaces(n: nat) -> Seq<char> {
    Seq::new(n, |i: int| ' ')
}

/// Writes exactly `n` spaces into `out`.
pub fn push_pad(out: &mut String, n: usize)
    ensures
        final(out)@ == old(out)@ + spaces(n as nat),
{
    let ghost before = out@;
    let mut written: usize = 0;
    assert(out@ =~= before + spaces(0));
    while written < n
        invariant
            written <= n,
            out@ == before + spaces(written as nat),
        decreases n - written,
    {
        out.push(' ');
        written += 1;
        assert(out@ =~= before + spaces(written as nat));
    }
}

/// The char of a decimal digit.
pub open spec fn digit_char(d: nat) -> char {
    (0x30 + d) as char
}

/// A number written in decimal, without leading zeros.
pub open spec fn decimal(n: nat) -> Seq<char>
    decreases n,
{
    if n < 10 {
        seq![digit_char(n)]
    } else {
        decimal(n / 10).push(digit_char(n % 10))
    }
}

/// The number that a sequence of decimal digits stands for.
pub open spec fn decimal_value(digits: Seq<char>) -> nat
    decreases digits.len(),
{
    if digits.len() == 0 {
        0
    } else {
        decimal_value(digits.drop_last()) * 10 + (digits.last() as u32 - 0x30) as nat
    }
}

pub open spec fn all_digits(s: Seq<char>) -> bool {
    forall|i: int| 0 <= i < s.len() ==> is_digit(#[trigger] s[i])
}

/// Writing a number down and reading it again gives the number.
pub proof fn law_decimal_round_trip(n: nat)
    ensures
        all_digits(decimal(n)),
        decimal(n).len() > 0,
        decimal_value(decimal(n)) == n,
    decreases n,
{
    if n >= 10 {
        law_decimal_round_trip(n / 10);
        assert(decimal(n).drop_last() =~= decimal(n / 10));
    } else {
        assert(decimal(n).drop_last() =~= seq![]);
        assert(decimal_value(decimal(n).drop_last()) == 0);
    }
}

/// Number of digits in a number, for pre-computing count-display widths.
pub fn digit_count(n: usize) -> (count: usize)
    ensures
        count == decimal(n as nat).len(),
        count >= 1,
        n > 0 ==> pow(10, (count - 1) as nat) <= n,
        n < pow(10, count as nat),
{
    let mut count: usize = 1;
    let mut rest: usize = n;
    proof {
        lemma_pow0(10);
        lemma_pow1(10);
    }
    let ghost mut scale: int = 1;
    while rest >= 10
        invariant
            count >= 1,
            decimal(n as nat).len() == decimal(rest as nat).len() + count - 1,
            scale == pow(10, (count - 1) as nat),
            rest * scale <= n < (rest + 1) * scale,
            count + rest <= n + 1,
            scale >= 1,
            n > 0 ==> rest > 0,
        decreases rest,
    {
        proof {
            lemma_pow1(10);
            lemma_pow_adds(10, (count - 1) as nat, 1);
            let r = rest as int;
            let m = n as int;
            let s = scale;
            assert((r / 10) * (s * 10) <= m < (r / 10 + 1) * (s * 10)) by (nonlinear_arith)
                requires
                    r * s <= m < (r + 1) * s,
                    s >= 1,
                    r >= 0,
            ;
            scale = scale * 10;
        }
        rest = rest / 10;
        count += 1;
    }
    proof {
        lemma_pow1(10);
        lemma_pow_adds(10, (count - 1) as nat, 1);
        let r = rest as int;
        let m = n as int;
        let s = scale;
        assert(m < s * 10 && (r > 0 ==> s <= m)) by (nonlinear_arith)
            requires
                r * s <= m < (r + 1) * s,
                s >= 1,
                0 <= r < 10,
        ;
    }
    count
}

/// A number below a power of ten has at most as many digits as the power has zeros.
pub proof fn lemma_decimal_len(n: nat, digits: nat)
    requires
        digits >= 1,
        n < pow(10, digits),
    ensures
        decimal(n).len() <= digits,
    decreases digits,
{
    if n >= 10 {
        lemma_pow1(10);
        lemma_pow_adds(10, (digits - 1) as nat, 1);
        lemma_decimal_len(n / 10, (digits - 1) as nat);
    }
}

/// A number has as many digits as its powers of ten say.
pub proof fn law_decimal_len(n: nat, digits: nat)
    requires
        digits >= 1,
        n < pow(10, digits),
        digits > 1 ==> n >= pow(10, (digits - 1) as nat),
    ensures
        decimal(n).len() == digits,
    decreases digits,
{
    lemma_pow1(10);
    if digits > 1 {
        lemma_pow_adds(10, (digits - 1) as nat, 1);
        if digits > 2 {
            lemma_pow_adds(10, (digits - 2) as nat, 1);
            lemma_pow_positive(10, (digits - 2) as nat);
        }
        law_decimal_len(n / 10, (digits - 1) as nat);
    }
}

/// Every digit of a number is the one that its power of ten has: the last one
/// is that of the ones.
pub proof fn law_decimal_digits(n: nat, i: nat)
    requires
        i < decimal(n).len(),
    ensures
        decimal(n)[decimal(n).len() - 1 - i] as u32 == 0x30 + (n as int / pow(10, i)) % 10,
    decreases i,
{
    lemma_pow0(10);
    if i > 0 {
        let rest = n / 10;
        law_decimal_digits(rest, (i - 1) as nat);
        lemma_pow1(10);
        lemma_pow_adds(10, 1, (i - 1) as nat);
        lemma_pow_positive(10, (i - 1) as nat);
        lemma_div_denominator(n as int, 10, pow(10, (i - 1) as nat));
    } else {
        assert(n as int / 1 == n);
    }
}

/// Reading digits: another digit behind them makes ten times as much and the
/// digit more.
pub proof fn law_decimal_value(digits: Seq<char>, digit: char)
    requires
        0x30 <= (digit as u32) <= 0x39,
    ensures
        decimal_value(seq![]) == 0,
        decimal_value(digits.push(digit)) == 10 * decimal_value(digits) + (digit as u32 - 0x30),
{
    assert(digits.push(digit).drop_last() =~= digits);
}

/// No machine integer has more than 20 digits.
pub proof fn lemma_machine_digits(n: usize)
    ensures
        decimal(n as nat).len() <= 20,
{
    assert(pow(10, 5) == 100_000) by {
        reveal_with_fuel(pow, 6);
    }
    lemma_pow_adds(10, 5, 5);
    lemma_pow_adds(10, 10, 10);
    assert(100_000int * 100_000 == 10_000_000_000);
    assert(10_000_000_000int * 10_000_000_000 == 100_000_000_000_000_000_000);
    lemma_decimal_len(n as nat, 20);
}

/// Appends a number in decimal.
pub fn push_decimal(out: &mut String, n: usize)
    ensures
        final(out)@ == old(out)@ + decimal(n as nat),
    decreases n,
{
    let ghost before = out@;
    if n >= 10 {
        push_decimal(out, n / 10);
    }
    let digit: u8 = (0x30 + n % 10) as u8;
    out.push(digit as char);
    assert(out@ =~= before + decimal(n as nat));
}

/// Appends a number in decimal, right-aligned in a field of `width` chars.
pub fn push_decimal_aligned(out: &mut String, n: usize, width: usize)
    ensures
        final(out)@ == old(out)@ + decimal_aligned(n as nat, width as nat),
{
    let ghost before = out@;
    let count: usize = digit_count(n);
    if count < width {
        push_pad(out, width - count);
    }
    push_decimal(out, n);
    assert(out@ =~= before + decimal_aligned(n as nat, width as nat));
}

pub open spec fn decimal_aligned(n: nat, width: nat) -> Seq<char> {
    let digits = decimal(n);
    if digits.len() < width {
        spaces((width - digits.len()) as nat) + digits
    } else {
        digits
    }
}

/// Reads an unsigned decimal number: an optional `+`, then at least one
/// digit and nothing else. `None` for anything else, and for a number above `max`.
pub open spec fn parsed(s: Seq<char>, max: nat) -> Option<nat> {
    let digits = if s.len() > 0 && s[0] == '+' {
        s.skip(1)
    } else {
        s
    };
    if digits.len() == 0 || !all_digits(digits) || decimal_value(digits) > max {
        None
    } else {
        Some(decimal_value(digits))
    }
}

proof fn lemma_decimal_value_grows(digits: Seq<char>, len: int)
    requires
        0 <= len <= digits.len(),
        all_digits(digits),
    ensures
        decimal_value(digits.take(len)) <= decimal_value(digits),
    decreases digits.len(),
{
    if len == digits.len() {
        assert(digits.take(len) =~= digits);
    } else {
        lemma_decimal_value_grows(digits.drop_last(), len);
        assert(digits.drop_last().take(len) =~= digits.take(len));
    }
}

/// Reads an unsigned decimal number no larger than `max`.
pub fn parse_decimal(s: &str, max: u64) -> (number: Option<u64>)
    ensures
        number is Some <==> parsed(s@, max as nat) is Some,
        number matches Some(n) ==> parsed(s@, max as nat) == Some(n as nat),
{
    let chars: Vec<char> = chars_of(s);
    let start: usize = if chars.len() > 0 && chars[0] == '+' {
        1
    } else {
        0
    };
    let ghost digits = s@.skip(start as int);
    assert(s@.skip(0) =~= s@);
    if start == chars.len() {
        return None;
    }
    let mut value: u64 = 0;
    let mut i: usize = start;
    assert(digits.take(0) =~= seq![]);
    while i < chars.len()
        invariant
            start <= i <= chars.len(),
            start <= s@.len(),
            chars@ == s@,
            digits == s@.skip(start as int),
            parsed(s@, max as nat) == if digits.len() == 0 || !all_digits(digits) || decimal_value(
                digits,
            ) > max {
                None
            } else {
                Some(decimal_value(digits))
            },
            all_digits(digits.take(i - start)),
            value == decimal_value(digits.take(i - start)),
            value <= max,
        decreases chars.len() - i,
    {
        let c: char = chars[i];
        let ghost next = digits.take(i + 1 - start);
        assert(next.drop_last() =~= digits.take(i - start));
        assert(next.last() == c);
        if !char_is_digit(c) {
            assert(!is_digit(digits[i - start]));
            return None;
        }
        let d: u64 = (c as u32 - 0x30) as u64;
        assert(decimal_value(next) == value * 10 + d);
        if value > max / 10 || max - value * 10 < d {
            proof {
                if all_digits(digits) {
                    lemma_decimal_value_grows(digits, i + 1 - start);
                }
            }
            return None;
        }
        value = value * 10 + d;
        i += 1;
        assert forall|k: int| 0 <= k < next.len() implies is_digit(#[trigger] next[k]) by {
            if k < next.len() - 1 {
                assert(next.drop_last()[k] == next[k]);
            }
        }
    }
    assert(digits.take(i - start) =~= digits);
    Some(value)
}

/// A pending-quickjump buffer: non-empty, only ASCII digits, and not
/// starting with `0`.
pub open spec fn is_jump_buffer(query: Seq<char>) -> bool {
    query.len() > 0 && query[0] != '0' && all_digits(query)
}

/// True when `query` is a valid pending-quickjump buffer.
pub fn is_pending_jump_buffer(query: &str) -> (pending: bool)
    ensures
        pending == is_jump_buffer(query@),
{
    let chars: Vec<char> = chars_of(query);
    if chars.len() == 0 || chars[0] == '0' {
        return false;
    }
    let mut i: usize = 0;
    while i < chars.len()
        invariant
            i <= chars.len(),
            chars@ == query@,
            all_digits(query@.take(i as int)),
        decreases chars.len() - i,
    {
        if !char_is_digit(chars[i]) {
            return false;
        }
        assert forall|k: int| 0 <= k < i + 1 implies is_digit(#[trigger] query@.take(i + 1)[k]) by {
            if k < i {
                assert(query@.take(i as int)[k] == query@.take(i + 1)[k]);
            }
        }
        i += 1;
    }
    assert(query@.take(i as int) =~= query@);
    true
}

} // verus!
