//! Reading the smartlog: splitting `sl smartlog` output into lines, telling
//! commit lines apart, and walking from one commit line to the next.
use vstd::prelude::*;
use crate::text::{ansi_stripped, occurs_at, occurs_at_exec, opt_int, push_char, strip_ansi};
use crate::{lines_view, Pos};

verus! {

// ---------------------------------------------------------------------------
// Commit lines
// ---------------------------------------------------------------------------

/// Characters that draw the commit graph in front of a commit marker.
pub open spec fn is_graph_char(c: char) -> bool {
    ||| c == ' '
    ||| c == '│'
    ||| c == '╭'
    ||| c == '╮'
    ||| c == '╯'
    ||| c == '╰'
    ||| c == '╷'
    ||| c == '─'
    ||| c == '~'
}

/// Whether `c` draws the commit graph.
pub fn is_graph_prefix_char(c: char) -> (r: bool)
    ensures
        r == is_graph_char(c),
{
    c == ' ' || c == '│' || c == '╭' || c == '╮' || c == '╯' || c == '╰' || c == '╷' || c == '─'
        || c == '~'
}

/// Index of the first character of `s` at or after `i` that is not a graph character.
pub open spec fn graph_end_from(s: Seq<char>, i: int) -> int
    decreases s.len() - i,
{
    if 0 <= i < s.len() && is_graph_char(s[i]) {
        graph_end_from(s, i + 1)
    } else {
        i
    }
}

/// The graph drawing scanned from `i` ends at or after `i`.
pub proof fn lemma_graph_end_bounds(s: Seq<char>, i: int)
    ensures
        graph_end_from(s, i) >= i,
    decreases s.len() - i,
{
    if 0 <= i < s.len() && is_graph_char(s[i]) {
        lemma_graph_end_bounds(s, i + 1);
    }
}

/// Length of the graph drawing that starts `s`.
pub open spec fn graph_end(s: Seq<char>) -> int {
    graph_end_from(s, 0)
}

/// Where the commit marker of `s` stands, when the first character after the
/// graph drawing is one that `marker` accepts.
pub open spec fn marker_pos(s: Seq<char>, marker: spec_fn(char) -> bool) -> Option<int> {
    let k = graph_end(s);
    if k < s.len() && marker(s[k]) {
        Some(k)
    } else {
        None
    }
}

/// Marker of the checked-out commit.
pub open spec fn is_current_marker(c: char) -> bool {
    c == '@'
}

/// Marker of any commit.
pub open spec fn is_any_marker(c: char) -> bool {
    c == '@' || c == 'o'
}

/// Where the marker of the checked-out commit stands on `s`, if `s` shows it.
pub open spec fn current_commit_col(s: Seq<char>) -> Option<int> {
    marker_pos(s, |c: char| is_current_marker(c))
}

/// Where the commit marker stands on `s`, if `s` is a commit line.
pub open spec fn commit_col(s: Seq<char>) -> Option<int> {
    marker_pos(s, |c: char| is_any_marker(c))
}

/// The number of graph characters that start `line`, when the character after
/// them is one that `marker` accepts; `None` when it is not, or when the line
/// is graph drawing only.
pub fn commit_marker_pos<F: Fn(char) -> bool>(line: &str, marker: F) -> (r: Option<usize>)
    requires
        forall|c: char| marker.requires((c,)),
    ensures
        graph_end(line@) >= line@.len() ==> r is None,
        graph_end(line@) < line@.len() ==> match r {
            Some(k) => k == graph_end(line@) && call_ensures(marker, (line@[k as int],), true),
            None => call_ensures(marker, (line@[graph_end(line@)],), false),
        },
{
    let len = line.unicode_len();
    let mut prefix_len: usize = 0;
    while prefix_len < len
        invariant
            len == line@.len(),
            prefix_len <= len,
            graph_end(line@) == graph_end_from(line@, prefix_len as int),
            forall|c: char| marker.requires((c,)),
        decreases len - prefix_len,
    {
        let ch = line.get_char(prefix_len);
        if is_graph_prefix_char(ch) {
            prefix_len = prefix_len + 1;
        } else {
            return if marker(ch) {
                Some(prefix_len)
            } else {
                None
            };
        }
    }
    None
}

/// Where the marker of the checked-out commit (`@`) stands on `line`.
pub fn is_current_commit_line(line: &str) -> (r: Option<usize>)
    ensures
        opt_int(r) == current_commit_col(line@),
{
    commit_marker_pos(line, |c: char| -> (b: bool) ensures b == is_current_marker(c) { c == '@' })
}

/// Where the commit marker (`@` or `o`) stands on `line`, if it is a commit line.
pub fn is_commit_line(line: &str) -> (r: Option<usize>)
    ensures
        opt_int(r) == commit_col(line@),
{
    commit_marker_pos(
        line,
        |c: char| -> (b: bool) ensures b == is_any_marker(c) { c == '@' || c == 'o' },
    )
}

/// Which lines a search stops at.
#[derive(Clone, Copy, Debug, PartialEq, Eq)]
pub enum LineKind {
    /// The line of the checked-out commit.
    CurrentCommit,
    /// Any commit line.
    Commit,
}

/// Where a line of kind `kind` has its commit marker, if `s` is such a line.
pub open spec fn kind_col(kind: LineKind, s: Seq<char>) -> Option<int> {
    match kind {
        LineKind::CurrentCommit => current_commit_col(s),
        LineKind::Commit => commit_col(s),
    }
}

impl LineKind {
    /// Where the commit marker stands on `line`, if `line` is of this kind.
    pub fn find(&self, line: &str) -> (r: Option<usize>)
        ensures
            opt_int(r) == kind_col(*self, line@),
    {
        match self {
            LineKind::CurrentCommit => is_current_commit_line(line),
            LineKind::Commit => is_commit_line(line),
        }
    }
}

// ---------------------------------------------------------------------------
// Walking over lines
// ---------------------------------------------------------------------------

/// How many more steps of `d` a walk at line `l` can take inside `len` lines.
pub open spec fn walk_measure(len: int, d: int, l: int) -> nat {
    let m = if d > 0 {
        len - l
    } else {
        l + 1
    };
    if m > 0 {
        m as nat
    } else {
        0
    }
}

/// Walking from line `l` in steps of `d` while inside `lines`: the first line
/// of kind `kind`, with the column of its marker. With `d == 0` the walk stays
/// on line `l` (a walk that never stops there yields `None` here).
pub open spec fn search_from(lines: Seq<Seq<char>>, kind: LineKind, d: int, l: int) -> Option<(int, int)>
    decreases walk_measure(lines.len() as int, d, l),
{
    if 0 <= l < lines.len() {
        match kind_col(kind, lines[l]) {
            Some(c) => Some((l, c)),
            None => if d == 0 {
                None
            } else {
                search_from(lines, kind, d, l + d)
            },
        }
    } else {
        None
    }
}

/// A walk in steps of `d` from line `l` stops: `d` is not zero, or `l` is
/// outside `lines`, or line `l` is of kind `kind`.
pub open spec fn walk_stops(lines: Seq<Seq<char>>, kind: LineKind, d: int, l: int) -> bool {
    d != 0 || !(0 <= l < lines.len()) || kind_col(kind, lines[l]) is Some
}

/// A found position as a pair of mathematical integers.
pub open spec fn opt_pos(o: Option<Pos>) -> Option<(int, int)> {
    match o {
        Some(p) => Some((p.line as int, p.col as int)),
        None => None,
    }
}

/// Walks `where_lines` from the line after `from_pos` (in steps of `direction`)
/// and returns the first line of kind `pattern`, with its marker column. A
/// step that leaves the range of `isize` leaves the lines, and ends the walk.
pub fn search(direction: isize, from_pos: Pos, pattern: LineKind, where_lines: &[String]) -> (r: Option<Pos>)
    requires
        where_lines@.len() <= isize::MAX,
        walk_stops(
            lines_view(where_lines@),
            pattern,
            direction as int,
            from_pos.line + direction,
        ),
    ensures
        opt_pos(r) == search_from(
            lines_view(where_lines@),
            pattern,
            direction as int,
            from_pos.line + direction,
        ),
{
    let ghost lines = lines_view(where_lines@);
    let ghost start = from_pos.line + direction;
    let mut line = match from_pos.line.checked_add(direction) {
        Some(l) => l,
        None => {
            assert(search_from(lines, pattern, direction as int, start) is None);
            return None;
        },
    };
    while line >= 0 && (line as usize) < where_lines.len()
        invariant
            lines == lines_view(where_lines@),
            where_lines@.len() <= isize::MAX,
            start == from_pos.line + direction,
            walk_stops(lines, pattern, direction as int, line as int),
            search_from(lines, pattern, direction as int, start) == search_from(
                lines,
                pattern,
                direction as int,
                line as int,
            ),
        decreases walk_measure(lines.len() as int, direction as int, line as int),
    {
        let current = where_lines[line as usize].as_str();
        match pattern.find(current) {
            Some(col) => {
                return Some(Pos { line, col });
            },
            None => {},
        }
        line = match line.checked_add(direction) {
            Some(l) => l,
            None => {
                assert(search_from(lines, pattern, direction as int, line + direction) is None);
                return None;
            },
        };
    }
    None
}

// ---------------------------------------------------------------------------
// Splitting smartlog output into lines
// ---------------------------------------------------------------------------

/// `s[i..]` with each `\r\n` turned into `\n`, scanning left to right.
pub open spec fn lf_from(s: Seq<char>, i: int) -> Seq<char>
    decreases s.len() - i,
{
    if i < 0 || i >= s.len() {
        seq![]
    } else if s[i] == '\r' && i + 1 < s.len() && s[i + 1] == '\n' {
        seq!['\n'] + lf_from(s, i + 2)
    } else {
        seq![s[i]] + lf_from(s, i + 1)
    }
}

/// `s` with each `\r\n` turned into `\n`.
pub open spec fn lf_normalized(s: Seq<char>) -> Seq<char> {
    lf_from(s, 0)
}

/// The pieces of `s[start..]` between `\n` characters, where `s[start..i]`
/// holds no `\n`.
pub open spec fn pieces_from(s: Seq<char>, start: int, i: int) -> Seq<Seq<char>>
    decreases s.len() - i,
{
    if i < 0 || i >= s.len() {
        seq![s.subrange(start, s.len() as int)]
    } else if s[i] == '\n' {
        seq![s.subrange(start, i)] + pieces_from(s, i + 1, i + 1)
    } else {
        pieces_from(s, start, i + 1)
    }
}

/// The pieces of `s` between `\n` characters (`split('\n')`).
pub open spec fn split_lines(s: Seq<char>) -> Seq<Seq<char>> {
    pieces_from(s, 0, 0)
}

/// `w` occurs somewhere in `s`.
pub open spec fn contains_chars(s: Seq<char>, w: Seq<char>) -> bool {
    exists|i: int| occurs_at(s, w, i)
}

/// The text that marks the hint lines at the end of the smartlog.
pub open spec fn hint_marker() -> Seq<char> {
    seq!['h', 'i', 'n', 't', '[']
}

/// Whether line `s` is a hint line.
pub open spec fn is_hint_line(s: Seq<char>) -> bool {
    contains_chars(ansi_stripped(s), hint_marker())
}

/// Index of the first hint line among `lines[j..]`, or `lines.len()`.
pub open spec fn first_hint_from(lines: Seq<Seq<char>>, j: int) -> int
    decreases lines.len() - j,
{
    if j < 0 || j >= lines.len() {
        lines.len() as int
    } else if is_hint_line(lines[j]) {
        j
    } else {
        first_hint_from(lines, j + 1)
    }
}

/// `lines` up to its first hint line.
pub open spec fn before_hints(lines: Seq<Seq<char>>) -> Seq<Seq<char>> {
    lines.take(first_hint_from(lines, 0))
}

/// `lines` without its trailing empty lines.
pub open spec fn trim_trailing_empty(lines: Seq<Seq<char>>) -> Seq<Seq<char>>
    decreases lines.len(),
{
    if lines.len() > 0 && lines.last().len() == 0 {
        trim_trailing_empty(lines.drop_last())
    } else {
        lines
    }
}

/// The smartlog lines of the output `s` of `sl smartlog`.
pub open spec fn smartlog_view(s: Seq<char>) -> Seq<Seq<char>> {
    trim_trailing_empty(before_hints(split_lines(lf_normalized(s))))
}

/// Whether `what` occurs in `s`.
pub fn contains_str(s: &str, what: &str) -> (r: bool)
    ensures
        r == contains_chars(s@, what@),
{
    let n = s.unicode_len();
    let m = what.unicode_len();
    let mut i: usize = 0;
    while i < n
        invariant
            n == s@.len(),
            m == what@.len(),
            i <= n,
            forall|j: int| 0 <= j < i ==> !occurs_at(s@, what@, j),
        decreases n - i,
    {
        if occurs_at_exec(s, n, what, m, i) {
            return true;
        }
        i = i + 1;
    }
    if occurs_at_exec(s, n, what, m, n) {
        return true;
    }
    assert forall|j: int| !occurs_at(s@, what@, j) by {
        if 0 <= j && j != n && occurs_at(s@, what@, j) {
            assert(j < n);
        }
    }
    false
}

/// The text of `s` with each `\r\n` turned into `\n`.
fn normalize_newlines(s: &str) -> (r: String)
    ensures
        r@ == lf_normalized(s@),
{
    let len = s.unicode_len();
    let mut out = String::new();
    let mut i: usize = 0;
    while i < len
        invariant
            len == s@.len(),
            i <= len + 1,
            lf_normalized(s@) == out@ + lf_from(s@, i as int),
        decreases len + 1 - i,
    {
        let ch = s.get_char(i);
        let crlf = ch == '\r' && i + 1 < len && s.get_char(i + 1) == '\n';
        let (c, step) = if crlf {
            ('\n', 2)
        } else {
            (ch, 1)
        };
        proof {
            assert(out@.push(c) + lf_from(s@, i + step) =~= out@ + (seq![c] + lf_from(
                s@,
                i + step,
            )));
        }
        push_char(&mut out, c);
        i = i + step;
    }
    assert(out@ + lf_from(s@, i as int) =~= out@);
    out
}

/// The lines of `s` between `\n` characters.
fn split_at_newlines(s: &str) -> (r: Vec<String>)
    ensures
        lines_view(r@) == split_lines(s@),
{
    let len = s.unicode_len();
    let mut out: Vec<String> = Vec::new();
    let mut start: usize = 0;
    let mut i: usize = 0;
    while i < len
        invariant
            len == s@.len(),
            start <= i <= len,
            split_lines(s@) == lines_view(out@) + pieces_from(s@, start as int, i as int),
        decreases len - i,
    {
        if s.get_char(i) == '\n' {
            let piece = s.substring_char(start, i).to_owned();
            let ghost before = out@;
            out.push(piece);
            proof {
                assert(lines_view(out@) =~= lines_view(before).push(piece@));
                assert(lines_view(out@) + pieces_from(s@, i + 1, i + 1) =~= lines_view(before) + (
                seq![s@.subrange(start as int, i as int)] + pieces_from(s@, i + 1, i + 1)));
            }
            start = i + 1;
        }
        i = i + 1;
    }
    let piece = s.substring_char(start, len).to_owned();
    let ghost before = out@;
    out.push(piece);
    proof {
        assert(lines_view(out@) =~= lines_view(before) + seq![s@.subrange(start as int, len as int)]);
    }
    out
}

/// The commit graph lines of `sl smartlog` output `output`: the text split at
/// newlines (`\r\n` or `\n`), cut before the first line that shows `hint[`
/// once its colour escapes are removed, and without trailing empty lines.
pub fn smartlog_lines(output: &str) -> (r: Vec<String>)
    ensures
        lines_view(r@) == smartlog_view(output@),
{
    let normalized = normalize_newlines(output);
    let mut lines = split_at_newlines(normalized.as_str());
    let ghost all = lines_view(lines@);
    let hint = "hint[";
    proof {
        reveal_strlit("hint[");
        assert(hint@ =~= hint_marker());
    }
    let mut j: usize = 0;
    while j < lines.len()
        invariant
            all == lines_view(lines@),
            j <= lines@.len(),
            hint@ == hint_marker(),
            first_hint_from(all, 0) == first_hint_from(all, j as int),
        ensures
            first_hint_from(all, 0) == j,
            j <= lines@.len(),
        decreases lines@.len() - j,
    {
        let stripped = strip_ansi(lines[j].as_str());
        if contains_str(stripped.as_str(), hint) {
            break;
        }
        j = j + 1;
    }
    assert(first_hint_from(all, 0) == j);
    lines.truncate(j);
    assert(lines_view(lines@) =~= before_hints(all));
    while lines.len() > 0 && lines[lines.len() - 1].unicode_len() == 0
        invariant
            trim_trailing_empty(lines_view(lines@)) == smartlog_view(output@),
        decreases lines@.len(),
    {
        let ghost before = lines@;
        lines.pop();
        proof {
            assert(lines_view(lines@) =~= lines_view(before).drop_last());
        }
    }
    lines
}

} // verus!
