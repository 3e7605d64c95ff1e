//! The terminal's size, as `stty size` reports it.
use vstd::prelude::*;
use crate::text::{is_white_space, is_whitespace};

verus! {

/// Index of the first non-white-space character of `s` at or after `i` (or `s.len()`).
pub open spec fn skip_white(s: Seq<char>, i: int) -> int
    decreases s.len() - i,
{
    if 0 <= i < s.len() && is_white_space(s[i]) {
        skip_white(s, i + 1)
    } else {
        i
    }
}

/// Index of the first white-space character of `s` at or after `i` (or `s.len()`).
pub open spec fn word_end(s: Seq<char>, i: int) -> int
    decreases s.len() - i,
{
    if 0 <= i < s.len() && !is_white_space(s[i]) {
        word_end(s, i + 1)
    } else {
        i
    }
}

/// Start and end of the first white-space separated word of `s[i..]`.
pub open spec fn next_word(s: Seq<char>, i: int) -> Option<(int, int)> {
    let a = skip_white(s, i);
    if 0 <= a < s.len() {
        Some((a, word_end(s, a)))
    } else {
        None
    }
}

/// Why a word is not a `usize`, as `str::parse::<usize>` tells.
#[derive(Clone, Copy, Debug, PartialEq, Eq)]
pub enum ParseFailure {
    Empty,
    InvalidDigit,
    PosOverflow,
}

/// The message `str::parse::<usize>` gives for `k`.
pub open spec fn failure_message(k: ParseFailure) -> Seq<char> {
    match k {
        ParseFailure::Empty => "cannot parse integer from empty string"@,
        ParseFailure::InvalidDigit => "invalid digit found in string"@,
        ParseFailure::PosOverflow => "number too large to fit in target type"@,
    }
}

/// The message for `k`.
pub fn failure_text(k: ParseFailure) -> (r: String)
    ensures
        r@ == failure_message(k),
{
    match k {
        ParseFailure::Empty => String::from_str("cannot parse integer from empty string"),
        ParseFailure::InvalidDigit => String::from_str("invalid digit found in string"),
        ParseFailure::PosOverflow => String::from_str("number too large to fit in target type"),
    }
}

/// An ASCII decimal digit.
pub open spec fn is_decimal_digit(c: char) -> bool {
    '0' <= c && c <= '9'
}

/// The value of decimal digit `c`.
pub open spec fn digit_value(c: char) -> int {
    c as int - '0' as int
}

/// Reading the decimal digits `ds[i..]` after the value `acc` of `ds[..i]`,
/// left to right: the first non-digit fails, as does the first digit that
/// makes the value exceed `usize::MAX`.
pub open spec fn digits_from(ds: Seq<char>, i: int, acc: int) -> Result<int, ParseFailure>
    decreases ds.len() - i,
{
    if i < 0 || i >= ds.len() {
        Ok(acc)
    } else if !is_decimal_digit(ds[i]) {
        Err(ParseFailure::InvalidDigit)
    } else if acc * 10 + digit_value(ds[i]) > usize::MAX {
        Err(ParseFailure::PosOverflow)
    } else {
        digits_from(ds, i + 1, acc * 10 + digit_value(ds[i]))
    }
}

/// `t` read as a `usize`: decimal digits with an optional leading `+`.
pub open spec fn parsed_usize(t: Seq<char>) -> Result<int, ParseFailure> {
    if t.len() == 0 {
        Err(ParseFailure::Empty)
    } else if t.len() == 1 && (t[0] == '+' || t[0] == '-') {
        Err(ParseFailure::InvalidDigit)
    } else if t[0] == '+' {
        digits_from(t, 1, 0)
    } else {
        digits_from(t, 0, 0)
    }
}

/// Reads `t` as a `usize`: decimal digits with an optional leading `+`.
pub fn parse_usize(t: &str) -> (r: Result<usize, ParseFailure>)
    ensures
        match r {
            Ok(v) => parsed_usize(t@) == Ok::<int, ParseFailure>(v as int),
            Err(k) => parsed_usize(t@) == Err::<int, ParseFailure>(k),
        },
{
    let len = t.unicode_len();
    if len == 0 {
        return Err(ParseFailure::Empty);
    }
    let first = t.get_char(0);
    if len == 1 && (first == '+' || first == '-') {
        return Err(ParseFailure::InvalidDigit);
    }
    let mut i: usize = if first == '+' {
        1
    } else {
        0
    };
    let mut acc: usize = 0;
    while i < len
        invariant
            len == t@.len(),
            i <= len,
            parsed_usize(t@) == digits_from(t@, i as int, acc as int),
        decreases len - i,
    {
        let c = t.get_char(i);
        if !('0' <= c && c <= '9') {
            return Err(ParseFailure::InvalidDigit);
        }
        let d = (c as u32 - '0' as u32) as usize;
        assert(d == digit_value(c));
        match acc.checked_mul(10) {
            None => {
                return Err(ParseFailure::PosOverflow);
            },
            Some(scaled) => match scaled.checked_add(d) {
                None => {
                    return Err(ParseFailure::PosOverflow);
                },
                Some(next) => {
                    acc = next;
                },
            },
        }
        i = i + 1;
    }
    Ok(acc)
}

/// The terminal size described by `stty size` output `s`: rows and columns,
/// or the message of the first thing that is missing or unreadable.
pub open spec fn size_from(s: Seq<char>) -> Result<(int, int), Seq<char>> {
    match next_word(s, 0) {
        None => Err("missing terminal rows"@),
        Some((a, b)) => match parsed_usize(s.subrange(a, b)) {
            Err(k) => Err(failure_message(k)),
            Ok(rows) => match next_word(s, b) {
                None => Err("missing terminal cols"@),
                Some((c, d)) => match parsed_usize(s.subrange(c, d)) {
                    Err(k) => Err(failure_message(k)),
                    Ok(cols) => Ok((rows, cols)),
                },
            },
        },
    }
}

/// The first white-space separated word of `s[from..]`, as start and end indices.
fn next_word_exec(s: &str, len: usize, from: usize) -> (r: Option<(usize, usize)>)
    requires
        len == s@.len(),
        from <= len,
    ensures
        match r {
            Some((a, b)) => next_word(s@, from as int) == Some((a as int, b as int)) && a <= b <= len,
            None => next_word(s@, from as int) is None,
        },
{
    let mut a = from;
    while a < len && is_whitespace(s.get_char(a))
        invariant
            len == s@.len(),
            from <= a <= len,
            skip_white(s@, from as int) == skip_white(s@, a as int),
        decreases len - a,
    {
        a = a + 1;
    }
    if a == len {
        return None;
    }
    let mut b = a;
    while b < len && !is_whitespace(s.get_char(b))
        invariant
            len == s@.len(),
            a <= b <= len,
            word_end(s@, a as int) == word_end(s@, b as int),
        decreases len - b,
    {
        b = b + 1;
    }
    Some((a, b))
}

/// Rows and columns from the output of `stty size`.
pub fn terminal_size(output: &str) -> (r: Result<(usize, usize), String>)
    ensures
        match r {
            Ok((rows, cols)) => size_from(output@) == Ok::<(int, int), Seq<char>>(
                (rows as int, cols as int),
            ),
            Err(e) => size_from(output@) == Err::<(int, int), Seq<char>>(e@),
        },
{
    let len = output.unicode_len();
    let (a, b) = match next_word_exec(output, len, 0) {
        None => {
            return Err(String::from_str("missing terminal rows"));
        },
        Some(w) => w,
    };
    let rows = match parse_usize(output.substring_char(a, b)) {
        Err(k) => {
            return Err(failure_text(k));
        },
        Ok(v) => v,
    };
    let (c, d) = match next_word_exec(output, len, b) {
        None => {
            return Err(String::from_str("missing terminal cols"));
        },
        Some(w) => w,
    };
    let cols = match parse_usize(output.substring_char(c, d)) {
        Err(k) => {
            return Err(failure_text(k));
        },
        Ok(v) => v,
    };
    Ok((rows, cols))
}

} // verus!
