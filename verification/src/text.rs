//! Character-level text helpers: ANSI stripping, slicing, insertion and search.
//!
//! Every position here counts `char`s, never bytes.
use vstd::prelude::*;
use crate::{lines_view, Pos};
use vstd::string::StringSliceAdditionalSpecFns;
use vstd::utf8::{decode_utf8, encode_utf8_decode_utf8, is_char_boundary};

verus! {

/// Appends one character to a string, through `String::push`.
/// Trusted: `String::push` appends `c` to the end of the string.
#[verifier::external_body]
pub(crate) fn push_char(s: &mut String, c: char)
    ensures
        final(s)@ == old(s)@.push(c),
{
    s.push(c);
}

// ---------------------------------------------------------------------------
// Character classes
// ---------------------------------------------------------------------------

/// Unicode `White_Space`, the set that `char::is_whitespace` tests.
pub open spec fn is_white_space(c: char) -> bool {
    ||| ('\u{9}' <= c && c <= '\u{d}')
    ||| c == ' '
    ||| c == '\u{85}'
    ||| c == '\u{a0}'
    ||| c == '\u{1680}'
    ||| ('\u{2000}' <= c && c <= '\u{200a}')
    ||| c == '\u{2028}'
    ||| c == '\u{2029}'
    ||| c == '\u{202f}'
    ||| c == '\u{205f}'
    ||| c == '\u{3000}'
}

/// Whether `c` is a Unicode white-space character.
pub fn is_whitespace(c: char) -> (r: bool)
    ensures
        r == is_white_space(c),
{
    ('\u{9}' <= c && c <= '\u{d}') || c == ' ' || c == '\u{85}' || c == '\u{a0}' || c
        == '\u{1680}' || ('\u{2000}' <= c && c <= '\u{200a}') || c == '\u{2028}' || c
        == '\u{2029}' || c == '\u{202f}' || c == '\u{205f}' || c == '\u{3000}'
}

/// ASCII hexadecimal digit: `0-9`, `a-f`, `A-F`.
pub open spec fn is_hex_digit(c: char) -> bool {
    ||| ('0' <= c && c <= '9')
    ||| ('a' <= c && c <= 'f')
    ||| ('A' <= c && c <= 'F')
}

/// Whether `c` is an ASCII hexadecimal digit.
pub fn is_ascii_hexdigit(c: char) -> (r: bool)
    ensures
        r == is_hex_digit(c),
{
    ('0' <= c && c <= '9') || ('a' <= c && c <= 'f') || ('A' <= c && c <= 'F')
}

// ---------------------------------------------------------------------------
// ANSI escape stripping
// ---------------------------------------------------------------------------

/// What is left of `s[i..]` once colour escapes are removed; `in_escape` says
/// that an `ESC [` has been read and its terminating `m` not yet.
///
/// An `ESC` followed by `[` starts a sequence that runs up to and including the
/// next `m` (or to the end); an `ESC` not followed by `[` is dropped alone.
pub open spec fn stripped_from(s: Seq<char>, i: int, in_escape: bool) -> Seq<char>
    decreases s.len() - i,
{
    if i < 0 || i >= s.len() {
        seq![]
    } else if in_escape {
        stripped_from(s, i + 1, s[i] != 'm')
    } else if s[i] == '\u{1b}' {
        if i + 1 < s.len() && s[i + 1] == '[' {
            stripped_from(s, i + 2, true)
        } else {
            stripped_from(s, i + 1, false)
        }
    } else {
        seq![s[i]] + stripped_from(s, i + 1, false)
    }
}

/// `s` with its ANSI colour escapes removed.
pub open spec fn ansi_stripped(s: Seq<char>) -> Seq<char> {
    stripped_from(s, 0, false)
}

/// Removes the ANSI colour escapes from `s`.
pub fn strip_ansi(s: &str) -> (r: String)
    ensures
        r@ == ansi_stripped(s@),
{
    let len = s.unicode_len();
    let mut out = String::new();
    let mut i: usize = 0;
    let mut in_escape = false;
    while i < len
        invariant
            len == s@.len(),
            i <= len,
            ansi_stripped(s@) == out@ + stripped_from(s@, i as int, in_escape),
        decreases len - i,
    {
        let ch = s.get_char(i);
        if in_escape {
            in_escape = ch != 'm';
            i = i + 1;
        } else if ch == '\u{1b}' {
            if i + 1 < len && s.get_char(i + 1) == '[' {
                in_escape = true;
                i = i + 2;
            } else {
                i = i + 1;
            }
        } else {
            proof {
                assert(out@.push(ch) + stripped_from(s@, i + 1, false) =~= out@ + (seq![ch]
                    + stripped_from(s@, i + 1, false)));
            }
            push_char(&mut out, ch);
            i = i + 1;
        }
    }
    assert(out@ + stripped_from(s@, i as int, in_escape) =~= out@);
    out
}

// ---------------------------------------------------------------------------
// Slicing, insertion and replacement by character index
// ---------------------------------------------------------------------------

/// `min(n, len)`, the index at which a char slice starting at `n` begins.
pub open spec fn clamp(n: int, len: int) -> int {
    if n <= len {
        n
    } else {
        len
    }
}

/// The characters of `s` from char index `from` on (nothing when `from` is past the end).
pub fn slice_chars(s: &str, from: usize) -> (r: String)
    ensures
        r@ == s@.skip(clamp(from as int, s@.len() as int)),
{
    let len = s.unicode_len();
    let start = if from <= len {
        from
    } else {
        len
    };
    s.substring_char(start, len).to_owned()
}

/// `s` with `ins` inserted before char index `at`, or appended when `at` is past the end.
pub open spec fn inserted_at(s: Seq<char>, at: int, ins: Seq<char>) -> Seq<char> {
    if at < s.len() {
        s.take(at) + ins + s.skip(at)
    } else {
        s + ins
    }
}

/// Inserts `insert` into `s` before the character at index `at`; appends it when
/// `at` is not a character index of `s`.
pub fn insert_at_char(s: &str, at: usize, insert: &str) -> (r: String)
    ensures
        r@ == inserted_at(s@, at as int, insert@),
{
    let len = s.unicode_len();
    if at < len {
        let mut out = s.substring_char(0, at).to_owned();
        out.append(insert);
        out.append(s.substring_char(at, len));
        out
    } else {
        let mut out = s.to_owned();
        out.append(insert);
        out
    }
}

/// `s` with the two characters at `at` and `at + 1` (as far as they exist)
/// replaced by `rep`; `s` itself when `at` is past the end.
pub open spec fn replaced_at(s: Seq<char>, at: int, rep: Seq<char>) -> Seq<char> {
    if at < s.len() {
        s.take(at) + rep + s.skip(clamp(at + 2, s.len() as int))
    } else {
        s
    }
}

/// Replaces the character at index `at`, and the one after it if any, by
/// `replacement`; returns `s` unchanged when `at` is not a character index of `s`.
pub fn replace_at_char(s: &str, at: usize, replacement: &str) -> (r: String)
    ensures
        r@ == replaced_at(s@, at as int, replacement@),
{
    let len = s.unicode_len();
    if at < len {
        let resume = if at + 1 < len {
            at + 2
        } else {
            len
        };
        let mut out = s.substring_char(0, at).to_owned();
        out.append(replacement);
        out.append(s.substring_char(resume, len));
        out
    } else {
        s.to_owned()
    }
}

// ---------------------------------------------------------------------------
// Commit hashes
// ---------------------------------------------------------------------------

/// Shortest run of hex digits taken for a commit hash.
pub const MIN_HASH_LEN: usize = 12;

/// Scanning `s` from `i`, where `s[start..i]` is the current run of hex digits:
/// the first maximal run of at least `MIN_HASH_LEN` hex digits.
pub open spec fn hex_run_from(s: Seq<char>, start: int, i: int) -> Option<Seq<char>>
    decreases s.len() - i,
{
    if i < 0 {
        None
    } else if i >= s.len() {
        if i - start >= MIN_HASH_LEN {
            Some(s.subrange(start, i))
        } else {
            None
        }
    } else if is_hex_digit(s[i]) {
        hex_run_from(s, start, i + 1)
    } else if i - start >= MIN_HASH_LEN {
        Some(s.subrange(start, i))
    } else {
        hex_run_from(s, i + 1, i + 1)
    }
}

/// The first maximal run of at least `MIN_HASH_LEN` hex digits in `s`.
pub open spec fn first_hex_run(s: Seq<char>) -> Option<Seq<char>> {
    hex_run_from(s, 0, 0)
}

/// The first run of at least twelve hexadecimal digits in `line`, taken whole.
pub fn find_hex_commit(line: &str) -> (r: Option<String>)
    ensures
        match r {
            Some(h) => first_hex_run(line@) == Some(h@),
            None => first_hex_run(line@) is None,
        },
{
    let len = line.unicode_len();
    let mut start: usize = 0;
    let mut i: usize = 0;
    while i < len
        invariant
            len == line@.len(),
            start <= i <= len,
            first_hex_run(line@) == hex_run_from(line@, start as int, i as int),
        decreases len - i,
    {
        if !is_ascii_hexdigit(line.get_char(i)) {
            if i - start >= MIN_HASH_LEN {
                return Some(line.substring_char(start, i).to_owned());
            }
            start = i + 1;
        }
        i = i + 1;
    }
    if i - start >= MIN_HASH_LEN {
        Some(line.substring_char(start, i).to_owned())
    } else {
        None
    }
}

// ---------------------------------------------------------------------------
// Searching for a pattern
// ---------------------------------------------------------------------------

/// `w` occurs in `s` at char index `i`.
pub open spec fn occurs_at(s: Seq<char>, w: Seq<char>, i: int) -> bool {
    0 <= i && i + w.len() <= s.len() && s.subrange(i, i + w.len()) == w
}

/// Char indices of the non-overlapping occurrences of `w` in `s`, scanning
/// left to right from `i`; an empty `w` occurs at every index up to `s.len()`.
pub open spec fn occurrences_from(s: Seq<char>, w: Seq<char>, i: int) -> Seq<int>
    decreases s.len() + 1 - i,
{
    if i < 0 || i > s.len() {
        seq![]
    } else if occurs_at(s, w, i) {
        seq![i] + occurrences_from(s, w, i + if w.len() == 0 { 1 } else { w.len() as int })
    } else {
        occurrences_from(s, w, i + 1)
    }
}

/// Char indices of the non-overlapping occurrences of `w` in `s`.
pub open spec fn occurrences(s: Seq<char>, w: Seq<char>) -> Seq<int> {
    occurrences_from(s, w, 0)
}

/// The first element of `ms` that is at least `from`.
pub open spec fn first_at_least(ms: Seq<int>, from: int) -> Option<int>
    decreases ms.len(),
{
    if ms.len() == 0 {
        None
    } else if ms[0] >= from {
        Some(ms[0])
    } else {
        first_at_least(ms.drop_first(), from)
    }
}

/// The last element of `ms` that is at most `from`.
pub open spec fn last_at_most(ms: Seq<int>, from: int) -> Option<int>
    decreases ms.len(),
{
    if ms.len() == 0 {
        None
    } else {
        match last_at_most(ms.drop_first(), from) {
            Some(x) => Some(x),
            None => if ms[0] <= from {
                Some(ms[0])
            } else {
                None
            },
        }
    }
}

/// `o` as an optional mathematical integer.
pub open spec fn opt_int(o: Option<usize>) -> Option<int> {
    match o {
        Some(x) => Some(x as int),
        None => None,
    }
}

/// The occurrence `index_of` reports: searching forward (`direction == 1`), the
/// first occurrence at or after `from`; otherwise the last one at or before `from`.
pub open spec fn occurrence_toward(s: Seq<char>, w: Seq<char>, direction: int, from: int) -> Option<int> {
    if direction == 1 {
        first_at_least(occurrences(s, w), from)
    } else {
        last_at_most(occurrences(s, w), from)
    }
}

/// Whether `w` occurs in `s` at char index `i`.
pub(crate) fn occurs_at_exec(s: &str, slen: usize, w: &str, wlen: usize, i: usize) -> (r: bool)
    requires
        slen == s@.len(),
        wlen == w@.len(),
        i <= slen,
    ensures
        r == occurs_at(s@, w@, i as int),
{
    if wlen > slen - i {
        return false;
    }
    let mut j: usize = 0;
    while j < wlen
        invariant
            slen == s@.len(),
            wlen == w@.len(),
            i + wlen <= slen,
            j <= wlen,
            forall|k: int| 0 <= k < j ==> s@[i + k] == w@[k],
        decreases wlen - j,
    {
        if s.get_char(i + j) != w.get_char(j) {
            assert(s@.subrange(i as int, i + wlen)[j as int] != w@[j as int]);
            return false;
        }
        j = j + 1;
    }
    assert(s@.subrange(i as int, i + wlen) =~= w@);
    true
}

/// The char index of an occurrence of `what` in `where_str`: with `direction == 1`
/// the first one at or after `from_index`, with any other direction the last one
/// at or before `from_index`. Occurrences are found left to right without overlap.
pub fn index_of(direction: isize, from_index: usize, what: &str, where_str: &str) -> (r: Option<usize>)
    ensures
        opt_int(r) == occurrence_toward(where_str@, what@, direction as int, from_index as int),
{
    let n = where_str.unicode_len();
    let m = what.unicode_len();
    let ghost s = where_str@;
    let ghost w = what@;
    let mut i: usize = 0;
    let mut best: Option<usize> = None;
    loop
        invariant
            n == s.len(),
            m == w.len(),
            s == where_str@,
            w == what@,
            i <= n,
            direction == 1 ==> best is None && first_at_least(occurrences(s, w), from_index as int)
                == first_at_least(occurrences_from(s, w, i as int), from_index as int),
            direction != 1 ==> last_at_most(occurrences(s, w), from_index as int) == match last_at_most(
                occurrences_from(s, w, i as int),
                from_index as int,
            ) {
                Some(x) => Some(x),
                None => opt_int(best),
            },
        ensures
            direction == 1 ==> first_at_least(occurrences(s, w), from_index as int) is None,
            direction != 1 ==> last_at_most(occurrences(s, w), from_index as int) == opt_int(best),
        decreases n - i,
    {
        let found = occurs_at_exec(where_str, n, what, m, i);
        let ghost rest = occurrences_from(s, w, i + if m == 0 { 1int } else { m as int });
        if found {
            assert(occurrences_from(s, w, i as int) == seq![i as int] + rest);
            assert((seq![i as int] + rest).drop_first() =~= rest);
            if direction == 1 {
                if i >= from_index {
                    return Some(i);
                }
            } else if i <= from_index {
                best = Some(i);
            }
            if m == 0 {
                if i == n {
                    assert(rest =~= seq![]);
                    assert(first_at_least(rest, from_index as int) is None);
                    assert(last_at_most(rest, from_index as int) is None);
                    break;
                }
                i = i + 1;
            } else {
                assert(i + m <= n);
                i = i + m;
            }
        } else {
            assert(occurrences_from(s, w, i as int) == occurrences_from(s, w, i + 1));
            if i == n {
                assert(occurrences_from(s, w, i + 1) =~= seq![]);
                assert(first_at_least(occurrences_from(s, w, i + 1), from_index as int) is None);
                assert(last_at_most(occurrences_from(s, w, i + 1), from_index as int) is None);
                break;
            }
            i = i + 1;
        }
    }
    if direction == 1 {
        None
    } else {
        best
    }
}

/// Number of characters in the first `byte_idx` bytes of `s`, which must end
/// on a character boundary.
pub fn char_pos(s: &str, byte_idx: usize) -> (r: usize)
    requires
        is_char_boundary(s.spec_bytes(), byte_idx as int),
    ensures
        r == decode_utf8(s.spec_bytes().subrange(0, byte_idx as int)).len(),
{
    let (head, _tail) = s.split_at(byte_idx);
    proof {
        encode_utf8_decode_utf8(head@);
    }
    head.unicode_len()
}

// ---------------------------------------------------------------------------
// Inserting into a block of lines
// ---------------------------------------------------------------------------

/// `lines` after inserting `what` at `p`, when `p` names one of the lines.
pub open spec fn inserted_one(lines: Seq<Seq<char>>, p: Pos, what: Seq<char>) -> Seq<Seq<char>> {
    if 0 <= p.line < lines.len() {
        lines.update(p.line as int, inserted_at(lines[p.line as int], p.col as int, what))
    } else {
        lines
    }
}

/// `lines` after inserting `what` at each of `ps` in turn.
pub open spec fn inserted_all(lines: Seq<Seq<char>>, ps: Seq<Pos>, what: Seq<char>) -> Seq<Seq<char>>
    decreases ps.len(),
{
    if ps.len() == 0 {
        lines
    } else {
        inserted_one(inserted_all(lines, ps.drop_last(), what), ps.last(), what)
    }
}

/// Inserts `what` into `inserted` at each position of `positions` in turn;
/// positions whose line is not a line of `inserted` are skipped.
pub fn insert(what: &str, positions: &[Pos], inserted: &mut [String])
    ensures
        final(inserted)@.len() == old(inserted)@.len(),
        lines_view(final(inserted)@) == inserted_all(lines_view(old(inserted)@), positions@, what@),
{
    let mut k: usize = 0;
    while k < positions.len()
        invariant
            k <= positions@.len(),
            inserted@.len() == old(inserted)@.len(),
            lines_view(inserted@) == inserted_all(
                lines_view(old(inserted)@),
                positions@.take(k as int),
                what@,
            ),
        decreases positions@.len() - k,
    {
        let pos = positions[k];
        proof {
            assert(positions@.take(k + 1).drop_last() =~= positions@.take(k as int));
        }
        if pos.line >= 0 {
            let l = pos.line as usize;
            if l < inserted.len() {
                let updated = insert_at_char(inserted[l].as_str(), pos.col, what);
                let ghost before = inserted@;
                inserted[l] = updated;
                proof {
                    assert(lines_view(inserted@) =~= lines_view(before).update(
                        l as int,
                        updated@,
                    ));
                }
            }
        }
        k = k + 1;
    }
    assert(positions@.take(k as int) =~= positions@);
}

// ---------------------------------------------------------------------------
// Joining lines
// ---------------------------------------------------------------------------

/// The lines of `ls` with `sep` between each two (`[T]::join`).
pub open spec fn joined(ls: Seq<Seq<char>>, sep: Seq<char>) -> Seq<char>
    decreases ls.len(),
{
    if ls.len() == 0 {
        seq![]
    } else if ls.len() == 1 {
        ls[0]
    } else {
        joined(ls.drop_last(), sep) + sep + ls.last()
    }
}

/// The strings of `lines` with `sep` between each two.
pub fn join_lines(lines: &[String], sep: &str) -> (r: String)
    ensures
        r@ == joined(lines_view(lines@), sep@),
{
    let mut out = String::new();
    let mut k: usize = 0;
    while k < lines.len()
        invariant
            k <= lines@.len(),
            out@ == joined(lines_view(lines@).take(k as int), sep@),
        decreases lines@.len() - k,
    {
        proof {
            assert(lines_view(lines@).take(k + 1).drop_last() =~= lines_view(lines@).take(k as int));
        }
        if k > 0 {
            out.append(sep);
        }
        out.append(lines[k].as_str());
        k = k + 1;
    }
    assert(lines_view(lines@).take(k as int) =~= lines_view(lines@));
    out
}

} // verus!
