//! Properties of the library as a whole, each proved from the contracts and
//! spec functions that the operations state.
use vstd::prelude::*;
use crate::args::{separator, separator_from, separator_index};
use crate::input::{command_line, finish_outcome, first_key_from, input_step, key_at, InputStep, Key};
use crate::smartlog::{
    first_hint_from, is_hint_line, kind_col, search_from, smartlog_view, trim_trailing_empty,
    before_hints, commit_col, current_commit_col, LineKind,
};
use crate::state::{bookmark_at, name_end_from};
use crate::terminal::skip_white;
use crate::render::{bookmark_highlight, commit_highlight, commit_markers, rebase_arrow, rebase_marked};
use crate::text::{inserted_all, inserted_at, replaced_at};
use crate::Pos;
use crate::state::{Action, AppState, bookmark_color};
use crate::text::{
    ansi_stripped, first_at_least, first_hex_run, hex_run_from, is_hex_digit, last_at_most,
    occurrence_toward, occurrences, occurs_at, stripped_from, MIN_HASH_LEN, clamp, is_white_space,
};

verus! {

// ---------------------------------------------------------------------------
// Walking between commit lines
// ---------------------------------------------------------------------------

/// Line `m` lies on the walk from `a` towards `l` (excluding `l`) in direction `d`.
pub open spec fn on_walk(d: int, a: int, l: int, m: int) -> bool {
    if d == 1 {
        a <= m < l
    } else {
        l < m <= a
    }
}

/// What a unit-step search finds is the nearest line of its kind: every line
/// it passes on the way is of another kind.
pub proof fn lemma_search_nearest(lines: Seq<Seq<char>>, kind: LineKind, d: int, a: int)
    requires
        d == 1 || d == -1,
    ensures
        search_from(lines, kind, d, a) matches Some((l, c)) ==> {
            &&& 0 <= l < lines.len()
            &&& kind_col(kind, lines[l]) == Some(c)
            &&& (d == 1 ==> a <= l)
            &&& (d == -1 ==> l <= a)
            &&& forall|m: int| on_walk(d, a, l, m) ==> kind_col(kind, #[trigger] lines[m]) is None
        },
    decreases crate::smartlog::walk_measure(lines.len() as int, d, a),
{
    if 0 <= a < lines.len() && kind_col(kind, lines[a]) is None {
        lemma_search_nearest(lines, kind, d, a + d);
    }
}

/// A unit-step search from `a` reaches line `l` of its kind when every line
/// it passes on the way is of another kind.
pub proof fn lemma_search_reaches(lines: Seq<Seq<char>>, kind: LineKind, d: int, a: int, l: int, c: int)
    requires
        d == 1 || d == -1,
        0 <= l < lines.len(),
        kind_col(kind, lines[l]) == Some(c),
        d == 1 ==> 0 <= a <= l,
        d == -1 ==> l <= a < lines.len(),
        forall|m: int| on_walk(d, a, l, m) ==> kind_col(kind, #[trigger] lines[m]) is None,
    ensures
        search_from(lines, kind, d, a) == Some((l, c)),
    decreases if d == 1 {
        l - a
    } else {
        a - l
    },
{
    if a != l {
        assert(on_walk(d, a, l, a));
        assert(kind_col(kind, lines[a]) is None);
        assert forall|m: int| on_walk(d, a + d, l, m) implies kind_col(
            kind,
            #[trigger] lines[m],
        ) is None by {
            assert(on_walk(d, a, l, m));
        }
        lemma_search_reaches(lines, kind, d, a + d, l, c);
    }
}

/// Moving to the next commit line and then one step back returns to the
/// commit that was selected first (when the first move went anywhere).
pub proof fn law_commit_step_reverses(s1: AppState, s2: AppState, s3: AppState, d: int)
    requires
        s1.wf(),
        d == 1 || d == -1,
        AppState::commit_moved(&s1, &s2, d),
        AppState::commit_moved(&s2, &s3, -d),
        s2.commit_pos.line != s1.commit_pos.line,
    ensures
        s3.commit_pos == s1.commit_pos,
{
    let lines = s1.lines();
    let a = s1.commit_pos.line + d;
    lemma_search_nearest(lines, LineKind::Commit, d, a);
    let l = s2.commit_pos.line as int;
    let cl = s1.commit_pos.line as int;
    assert(search_from(lines, LineKind::Commit, d, a) is Some);
    assert(forall|m: int| on_walk(-d, l - d, cl, m) ==> on_walk(d, a, l, m));
    lemma_search_reaches(
        lines,
        LineKind::Commit,
        -d,
        l - d,
        cl,
        s1.commit_pos.col as int,
    );
    assert(s2.lines() == lines);
}

// ---------------------------------------------------------------------------
// Rebase source
// ---------------------------------------------------------------------------

/// Picking a target as rebase source and picking it again leaves no rebase
/// source (unless it was the source already, when the first pick clears it
/// and the second picks it anew).
pub proof fn law_rebase_twice_clears(s1: AppState, s2: AppState, s3: AppState, t: Seq<char>)
    requires
        !(s1.rebasing matches Some(src) && src@ == t),
        AppState::rebase_toggled(&s1, &s2, t),
        AppState::rebase_toggled(&s2, &s3, t),
    ensures
        s3.rebasing is None,
        s3.rebasing_pos is None,
        s3.output@ == s1.output@,
        s3.commit_pos == s1.commit_pos,
        s3.bookmark_index == s1.bookmark_index,
{
}

/// `p` acts on the parent of what Enter acts on: the same kind of action, with
/// `^` appended to the target.
pub proof fn law_parent_appends_caret(
    s: AppState,
    enter: Result<Option<Action>, String>,
    parent: Result<Option<Action>, String>,
)
    requires
        finish_outcome(&s, false, enter),
        finish_outcome(&s, true, parent),
    ensures
        match (enter, parent) {
            (Ok(Some(Action::Up(d1))), Ok(Some(Action::Up(d2)))) => d2@ == d1@.push('^'),
            (
                Ok(Some(Action::Rebase { source: s1, dest: d1 })),
                Ok(Some(Action::Rebase { source: s2, dest: d2 })),
            ) => s1 == s2 && d2@ == d1@.push('^'),
            (Err(e1), Err(e2)) => e1@ == e2@,
            _ => false,
        },
{
}

// ---------------------------------------------------------------------------
// Bookmarks
// ---------------------------------------------------------------------------

/// What `first_at_least` picks is at least the bound; what `last_at_most`
/// picks is at most it.
pub proof fn lemma_pick_bound(ms: Seq<int>, from: int)
    ensures
        first_at_least(ms, from) matches Some(x) ==> x >= from,
        last_at_most(ms, from) matches Some(x) ==> x <= from,
    decreases ms.len(),
{
    if ms.len() > 0 {
        lemma_pick_bound(ms.drop_first(), from);
    }
}

/// Searching forward finds an occurrence at or after the start index;
/// searching backward finds one at or before it.
pub proof fn law_index_of_direction(s: Seq<char>, w: Seq<char>, direction: int, from: int)
    ensures
        occurrence_toward(s, w, direction, from) matches Some(x) ==> {
            &&& occurs_at(s, w, x)
            &&& (direction == 1 ==> x >= from)
            &&& (direction != 1 ==> x <= from)
        },
{
    crate::state::lemma_occurrences_sound(s, w, 0);
    crate::state::lemma_pick_member(occurrences(s, w), from);
    lemma_pick_bound(occurrences(s, w), from);
}

/// Moving right from a selected bookmark selects one further right (or
/// none); moving left from one that is not at the start of the line selects
/// one further left (or none).
pub proof fn law_bookmark_moves_away(s1: AppState, s2: AppState, d: int)
    requires
        s1.wf(),
        d == 1 || d == -1,
        s1.bookmark_index is Some,
        AppState::bookmark_moved(&s1, &s2, d),
    ensures
        s2.bookmark_index matches Some(b2) ==> {
            let b1 = s1.bookmark_index.unwrap();
            &&& occurs_at(s1.commit_line(), bookmark_color(), b2 as int)
            &&& (d == 1 ==> b2 > b1)
            &&& (d == -1 && b1 > 0 ==> b2 < b1)
        },
{
    let b1 = s1.bookmark_index.unwrap();
    law_index_of_direction(
        s1.commit_line(),
        bookmark_color(),
        d,
        crate::state::bookmark_start(s1.commit_line().len() as int, s1.bookmark_index, d),
    );
}

// ---------------------------------------------------------------------------
// Text
// ---------------------------------------------------------------------------

/// Stripped text holds no escape character.
pub proof fn lemma_stripped_has_no_escape(s: Seq<char>, i: int, esc: bool)
    ensures
        forall|k: int|
            0 <= k < stripped_from(s, i, esc).len() ==> #[trigger] stripped_from(s, i, esc)[k]
                != '\u{1b}',
    decreases s.len() - i,
{
    if i < 0 || i >= s.len() {
    } else if esc {
        lemma_stripped_has_no_escape(s, i + 1, s[i] != 'm');
        assert(stripped_from(s, i, esc) == stripped_from(s, i + 1, s[i] != 'm'));
    } else if s[i] == '\u{1b}' {
        if i + 1 < s.len() && s[i + 1] == '[' {
            lemma_stripped_has_no_escape(s, i + 2, true);
            assert(stripped_from(s, i, esc) == stripped_from(s, i + 2, true));
        } else {
            lemma_stripped_has_no_escape(s, i + 1, false);
            assert(stripped_from(s, i, esc) == stripped_from(s, i + 1, false));
        }
    } else {
        lemma_stripped_has_no_escape(s, i + 1, false);
        let rest = stripped_from(s, i + 1, false);
        assert forall|k: int|
            0 <= k < stripped_from(s, i, esc).len() implies #[trigger] stripped_from(
            s,
            i,
            esc,
        )[k] != '\u{1b}' by {
            if k > 0 {
                assert(stripped_from(s, i, esc)[k] == rest[k - 1]);
            }
        }
    }
}

/// Text without escape characters is left as it is.
pub proof fn lemma_strip_plain(s: Seq<char>, i: int)
    requires
        0 <= i <= s.len(),
        forall|k: int| 0 <= k < s.len() ==> s[k] != '\u{1b}',
    ensures
        stripped_from(s, i, false) == s.skip(i),
    decreases s.len() - i,
{
    if i < s.len() {
        lemma_strip_plain(s, i + 1);
        assert(seq![s[i]] + s.skip(i + 1) =~= s.skip(i));
    } else {
        assert(s.skip(i) =~= seq![]);
    }
}

/// Removing colour escapes twice is removing them once: the result holds no
/// escape character.
pub proof fn law_strip_ansi_idempotent(s: Seq<char>)
    ensures
        forall|k: int| 0 <= k < ansi_stripped(s).len() ==> #[trigger] ansi_stripped(s)[k] != '\u{1b}',
        ansi_stripped(ansi_stripped(s)) == ansi_stripped(s),
{
    lemma_stripped_has_no_escape(s, 0, false);
    lemma_strip_plain(ansi_stripped(s), 0);
    assert(ansi_stripped(s).skip(0) =~= ansi_stripped(s));
}

/// `s[start..i]` consists of hex digits.
pub open spec fn all_hex(s: Seq<char>, start: int, i: int) -> bool {
    forall|k: int| start <= k < i ==> is_hex_digit(#[trigger] s[k])
}

/// `h` is a run of at least `MIN_HASH_LEN` hex digits of `s` at index `p`
/// that cannot be extended to either side.
pub open spec fn maximal_hex_run_at(s: Seq<char>, p: int, h: Seq<char>) -> bool {
    &&& 0 <= p
    &&& p + h.len() <= s.len()
    &&& s.subrange(p, p + h.len()) == h
    &&& h.len() >= MIN_HASH_LEN
    &&& all_hex(s, p, p + h.len())
    &&& (p == 0 || !is_hex_digit(s[p - 1]))
    &&& (p + h.len() == s.len() || !is_hex_digit(s[p + h.len()]))
}

/// `h` is a maximal run of at least `MIN_HASH_LEN` hex digits somewhere in `s`.
pub open spec fn is_maximal_hex_run(s: Seq<char>, h: Seq<char>) -> bool {
    exists|p: int| #[trigger] maximal_hex_run_at(s, p, h)
}

/// A hash found scanning from `i` (with the hex run `s[start..i]` before it)
/// is a maximal run of at least `MIN_HASH_LEN` hex digits of `s`.
pub proof fn lemma_hex_run(s: Seq<char>, start: int, i: int)
    requires
        0 <= start <= i <= s.len(),
        all_hex(s, start, i),
        start == 0 || !is_hex_digit(s[start - 1]),
    ensures
        hex_run_from(s, start, i) matches Some(h) ==> is_maximal_hex_run(s, h),
    decreases s.len() - i,
{
    if i >= s.len() {
        if i - start >= MIN_HASH_LEN {
            let h = s.subrange(start, i);
            assert(h.len() == i - start);
            assert(maximal_hex_run_at(s, start, h));
            assert(hex_run_from(s, start, i) == Some(h));
        }
    } else if is_hex_digit(s[i]) {
        assert(all_hex(s, start, i + 1)) by {
            assert forall|k: int| start <= k < i + 1 implies is_hex_digit(#[trigger] s[k]) by {
                if k < i {
                    assert(all_hex(s, start, i));
                }
            }
        }
        lemma_hex_run(s, start, i + 1);
        assert(hex_run_from(s, start, i) == hex_run_from(s, start, i + 1));
    } else if i - start >= MIN_HASH_LEN {
        let h = s.subrange(start, i);
        assert(h.len() == i - start);
        assert(maximal_hex_run_at(s, start, h));
        assert(hex_run_from(s, start, i) == Some(h));
    } else {
        lemma_hex_run(s, i + 1, i + 1);
        assert(hex_run_from(s, start, i) == hex_run_from(s, i + 1, i + 1));
    }
}

/// The commit hash taken from a line is a maximal run of at least twelve hex
/// digits that occurs in it.
pub proof fn law_hex_commit_is_maximal_run(s: Seq<char>)
    ensures
        first_hex_run(s) matches Some(h) ==> is_maximal_hex_run(s, h),
{
    lemma_hex_run(s, 0, 0);
}

// ---------------------------------------------------------------------------
// Arguments and smartlog lines
// ---------------------------------------------------------------------------

/// The separator found is the first `--`: no argument before it is `--`.
pub proof fn law_separator_is_first(args: Seq<Seq<char>>)
    ensures
        separator_index(args) matches Some(i) ==> {
            &&& 0 <= i < args.len()
            &&& args[i] == separator()
            &&& forall|k: int| 0 <= k < i ==> #[trigger] args[k] != separator()
        },
        separator_index(args) is None ==> forall|k: int|
            0 <= k < args.len() ==> #[trigger] args[k] != separator(),
{
    lemma_separator_from(args, 0);
}

/// Scanning for `--` from `i` finds the first one at or after `i`.
pub proof fn lemma_separator_from(args: Seq<Seq<char>>, i: int)
    requires
        0 <= i,
    ensures
        separator_from(args, i) matches Some(j) ==> {
            &&& i <= j < args.len()
            &&& args[j] == separator()
            &&& forall|k: int| i <= k < j ==> #[trigger] args[k] != separator()
        },
        separator_from(args, i) is None ==> forall|k: int|
            i <= k < args.len() ==> #[trigger] args[k] != separator(),
    decreases args.len() - i,
{
    if i < args.len() && args[i] != separator() {
        lemma_separator_from(args, i + 1);
    }
}

/// The first hint line found scanning from `j` is the first at or after `j`.
pub proof fn lemma_first_hint(lines: Seq<Seq<char>>, j: int)
    requires
        0 <= j,
    ensures
        first_hint_from(lines, j) <= lines.len(),
        j <= lines.len() ==> j <= first_hint_from(lines, j),
        forall|k: int| j <= k < first_hint_from(lines, j) ==> !is_hint_line(#[trigger] lines[k]),
    decreases lines.len() - j,
{
    if j < lines.len() && !is_hint_line(lines[j]) {
        lemma_first_hint(lines, j + 1);
    }
}

/// Dropping trailing empty lines keeps a prefix whose last line is not empty.
pub proof fn lemma_trim(lines: Seq<Seq<char>>)
    ensures
        trim_trailing_empty(lines).len() <= lines.len(),
        trim_trailing_empty(lines) == lines.take(trim_trailing_empty(lines).len() as int),
        trim_trailing_empty(lines).len() > 0 ==> trim_trailing_empty(lines).last().len() > 0,
    decreases lines.len(),
{
    if lines.len() > 0 && lines.last().len() == 0 {
        lemma_trim(lines.drop_last());
        let t = trim_trailing_empty(lines.drop_last());
        assert(lines.drop_last().take(t.len() as int) =~= lines.take(t.len() as int));
    } else {
        assert(lines.take(lines.len() as int) =~= lines);
    }
}

/// The smartlog lines hold no hint line and do not end with an empty line.
pub proof fn law_smartlog_lines_clean(s: Seq<char>)
    ensures
        forall|k: int|
            0 <= k < smartlog_view(s).len() ==> !is_hint_line(#[trigger] smartlog_view(s)[k]),
        smartlog_view(s).len() > 0 ==> smartlog_view(s).last().len() > 0,
{
    let all = crate::smartlog::split_lines(crate::smartlog::lf_normalized(s));
    lemma_first_hint(all, 0);
    let cut = before_hints(all);
    lemma_trim(cut);
    let t = smartlog_view(s);
    assert forall|k: int| 0 <= k < t.len() implies !is_hint_line(#[trigger] t[k]) by {
        assert(t[k] == cut[k]);
        assert(cut[k] == all[k]);
    }
}

// ---------------------------------------------------------------------------
// Drawing
// ---------------------------------------------------------------------------

/// On a screen with more rows than the selected commit has lines, the whole
/// commit (its line and the lines up to the next commit) is shown.
pub proof fn law_selected_commit_shown(s: AppState, rows: int)
    requires
        s.wf(),
        rows > s.line_after() - s.commit_pos.line,
    ensures
        s.window_start(rows) <= s.commit_pos.line,
        s.line_after() <= s.window_start(rows) + s.window_len(rows),
{
    crate::state::lemma_search_found(s.lines(), LineKind::Commit, 1, s.commit_pos.line + 1);
}

// ---------------------------------------------------------------------------
// Keys
// ---------------------------------------------------------------------------

/// The bytes that mean something to the tool on their own: ESC, `k`, `j`, CR,
/// LF, `p`, `r`, `x`, `q` and Ctrl-C.
pub open spec fn is_key_byte(b: u8) -> bool {
    b == 0x1bu8 || b == 0x6bu8 || b == 0x6au8 || b == 0x0du8 || b == 0x0au8 || b == 0x70u8
        || b == 0x72u8 || b == 0x78u8 || b == 0x71u8 || b == 0x03u8
}

/// The key table: an arrow is ESC `[` and one of `A` (up), `B` (down),
/// `D` (left), `C` (right), three bytes long; `k` and `j` move up and down,
/// CR and LF check out, `p` checks out the parent, `r` picks the rebase source,
/// `x` (and only `x`) hides, and every byte that is none of the key bytes is
/// ignored.
pub proof fn law_key_table(input: Seq<u8>, i: int)
    requires
        0 <= i < input.len(),
    ensures
        ({
            let k = key_at(input, i).0;
            let w = key_at(input, i).1;
            let b = input[i];
            let arrow = b == 0x1bu8 && i + 2 < input.len() && input[i + 1] == 0x5bu8;
            &&& w == (if arrow {
                3int
            } else {
                1int
            })
            &&& (k == Key::Hide <==> (!arrow && b == 0x78u8))
            &&& (k == Key::Other <==> !is_key_byte(b))
            &&& (k == Key::Enter <==> (!arrow && (b == 0x0du8 || b == 0x0au8)))
            &&& (k == Key::Parent <==> (!arrow && b == 0x70u8))
            &&& (k == Key::Rebase <==> (!arrow && b == 0x72u8))
            &&& (k == Key::Up <==> ((arrow && input[i + 2] == 0x41u8) || (!arrow && b == 0x6bu8)))
            &&& (k == Key::Down <==> ((arrow && input[i + 2] == 0x42u8) || (!arrow && b
                == 0x6au8)))
            &&& (k == Key::Left <==> (arrow && input[i + 2] == 0x44u8))
            &&& (k == Key::Right <==> (arrow && input[i + 2] == 0x43u8))
        }),
{
}

/// Scanning from `i` over bytes none of which is a key byte reaches the end.
pub proof fn lemma_no_key_bytes(input: Seq<u8>, i: int)
    requires
        0 <= i,
        forall|j: int| i <= j < input.len() ==> !is_key_byte(#[trigger] input[j]),
    ensures
        first_key_from(input, i) == input.len(),
    decreases input.len() - i,
{
    if i < input.len() {
        law_key_table(input, i);
        lemma_no_key_bytes(input, i + 1);
    }
}

/// Input with no key byte (from `from` on) does nothing: the state is left as
/// it is and input handling ends with no action.
pub proof fn law_other_bytes_ignored(
    old: AppState,
    new: AppState,
    input: Seq<u8>,
    from: int,
    r: InputStep,
)
    requires
        0 <= from,
        forall|j: int| from <= j < input.len() ==> !is_key_byte(#[trigger] input[j]),
        input_step(&old, &new, input, from, r),
    ensures
        new == old,
        r matches InputStep::Done(Ok(None)),
{
    lemma_no_key_bytes(input, from);
}

// ---------------------------------------------------------------------------
// Commit lines
// ---------------------------------------------------------------------------

/// The characters that draw the graph in front of a commit marker.
pub open spec fn drawn_graph_char(c: char) -> bool {
    c == ' ' || c == '│' || c == '╭' || c == '╮' || c == '╯' || c == '╰' || c == '╷' || c == '─'
        || c == '~'
}

/// The graph scan from `i` stops at `k` when `s[i..k]` is graph drawing and
/// `s[k]` is not.
pub proof fn lemma_graph_end_at(s: Seq<char>, i: int, k: int)
    requires
        0 <= i <= k < s.len(),
        forall|j: int| i <= j < k ==> drawn_graph_char(#[trigger] s[j]),
        !drawn_graph_char(s[k]),
    ensures
        crate::smartlog::graph_end_from(s, i) == k,
    decreases k - i,
{
    if i < k {
        lemma_graph_end_at(s, i + 1, k);
    }
}

/// Where the graph scan from `i` stops: everything before is graph drawing,
/// and what it stops at (if anything) is not.
pub proof fn lemma_graph_end_stops(s: Seq<char>, i: int)
    requires
        0 <= i <= s.len(),
    ensures
        i <= crate::smartlog::graph_end_from(s, i) <= s.len(),
        forall|j: int|
            i <= j < crate::smartlog::graph_end_from(s, i) ==> drawn_graph_char(#[trigger] s[j]),
        crate::smartlog::graph_end_from(s, i) < s.len() ==> !drawn_graph_char(
            s[crate::smartlog::graph_end_from(s, i)],
        ),
    decreases s.len() - i,
{
    if i < s.len() && crate::smartlog::is_graph_char(s[i]) {
        lemma_graph_end_stops(s, i + 1);
    }
}

/// A line is a commit line, with its marker at `k`, exactly when the
/// characters before `k` all draw the graph (space, `│`, `╭`, `╮`, `╯`, `╰`,
/// `╷`, `─`, `~`) and the character at `k` is `@` or `o`; it shows the
/// checked-out commit when that character is `@`.
pub proof fn law_commit_line_shape(s: Seq<char>, k: int)
    ensures
        commit_col(s) == Some(k) <==> (0 <= k < s.len() && (s[k] == '@' || s[k] == 'o') && forall|
            j: int,
        |
            0 <= j < k ==> drawn_graph_char(#[trigger] s[j])),
        current_commit_col(s) == Some(k) <==> (0 <= k < s.len() && s[k] == '@' && forall|j: int|
            0 <= j < k ==> drawn_graph_char(#[trigger] s[j])),
{
    lemma_graph_end_stops(s, 0);
    if 0 <= k < s.len() && (s[k] == '@' || s[k] == 'o') && forall|j: int|
        0 <= j < k ==> drawn_graph_char(#[trigger] s[j]) {
        lemma_graph_end_at(s, 0, k);
    }
}

// ---------------------------------------------------------------------------
// Bookmark names
// ---------------------------------------------------------------------------

/// `n` is the word of `bare` that starts after its leading white space at
/// `a` and runs up to (not including) the first white space or `*`.
pub open spec fn word_after_blanks(bare: Seq<char>, a: int, n: Seq<char>) -> bool {
    &&& 0 <= a
    &&& a + n.len() <= bare.len()
    &&& (forall|j: int| 0 <= j < a ==> is_white_space(#[trigger] bare[j]))
    &&& (a < bare.len() ==> !is_white_space(bare[a]))
    &&& bare.subrange(a, a + n.len()) == n
    &&& (forall|j: int| 0 <= j < n.len() ==> !is_white_space(#[trigger] n[j]) && n[j] != '*')
    &&& (a + n.len() < bare.len() ==> (is_white_space(bare[a + n.len()]) || bare[a + n.len()]
        == '*'))
}

/// The text that follows char index `b` of `line`, without the bookmark
/// colour escape when it starts there.
pub open spec fn after_bookmark_color(line: Seq<char>, b: int) -> Seq<char> {
    let tail = line.skip(clamp(b, line.len() as int));
    if occurs_at(tail, bookmark_color(), 0) {
        tail.skip(7)
    } else {
        tail
    }
}

/// The leading white-space scan from `i` stops at a non-white-space character or the end.
pub proof fn lemma_skip_white_stops(s: Seq<char>, i: int)
    requires
        0 <= i <= s.len(),
    ensures
        i <= skip_white(s, i) <= s.len(),
        forall|j: int| i <= j < skip_white(s, i) ==> is_white_space(#[trigger] s[j]),
        skip_white(s, i) < s.len() ==> !is_white_space(s[skip_white(s, i)]),
    decreases s.len() - i,
{
    if i < s.len() && is_white_space(s[i]) {
        lemma_skip_white_stops(s, i + 1);
    }
}

/// The name scan from `i` stops at white space, `*` or the end.
pub proof fn lemma_name_end_stops(s: Seq<char>, i: int)
    requires
        0 <= i <= s.len(),
    ensures
        i <= name_end_from(s, i) <= s.len(),
        forall|j: int|
            i <= j < name_end_from(s, i) ==> !is_white_space(#[trigger] s[j]) && s[j] != '*',
        name_end_from(s, i) < s.len() ==> (is_white_space(s[name_end_from(s, i)]) || s[name_end_from(s, i)] == '*'),
    decreases s.len() - i,
{
    if i < s.len() && !is_white_space(s[i]) && s[i] != '*' {
        lemma_name_end_stops(s, i + 1);
    }
}

/// The bookmark name at char index `b` of a line is the first word after the
/// colour escape and any white space: it holds every character up to the
/// first white space or `*` (so `-`, `/` and the like stay in it).
pub proof fn law_bookmark_name_is_word(line: Seq<char>, b: int)
    ensures
        exists|a: int| #[trigger] word_after_blanks(after_bookmark_color(line, b), a, bookmark_at(line, b)),
{
    let bare = after_bookmark_color(line, b);
    let a = skip_white(bare, 0);
    lemma_skip_white_stops(bare, 0);
    let rest = bare.skip(a);
    lemma_name_end_stops(rest, 0);
    let e = name_end_from(rest, 0);
    let n = bookmark_at(line, b);
    assert(n == rest.take(e));
    assert(bare.subrange(a, a + n.len()) =~= n);
    assert forall|j: int| 0 <= j < n.len() implies !is_white_space(#[trigger] n[j]) && n[j] != '*' by {
        assert(n[j] == rest[j]);
    }
    if a + n.len() < bare.len() {
        assert(bare[a + n.len()] == rest[e]);
    }
    assert(word_after_blanks(bare, a, n));
}

// ---------------------------------------------------------------------------
// Commands
// ---------------------------------------------------------------------------

/// The `sl` command for an action is its verb, then the options given after
/// `--` in the order given, then what it acts on: `up T`, `rebase -s S -d D`,
/// `hide T`; quitting runs nothing.
pub proof fn law_command_keeps_option_order(action: Action, args: Seq<Seq<char>>)
    ensures
        action is Quit ==> command_line(&action, args) is None,
        !(action is Quit) ==> (command_line(&action, args) matches Some(v) && {
            let n = args.len() as int;
            &&& v.subrange(1, 1 + n) == args
            &&& match action {
                Action::Up(t) => v.len() == n + 2 && v[0] == "up"@ && v[n + 1] == t@,
                Action::Hide(t) => v.len() == n + 2 && v[0] == "hide"@ && v[n + 1] == t@,
                Action::Rebase { source, dest } => v.len() == n + 5 && v[0] == "rebase"@ && v[n
                    + 1] == "-s"@ && v[n + 2] == source@ && v[n + 3] == "-d"@ && v[n + 4] == dest@,
                Action::Quit(_) => false,
            }
        }),
{
    match action {
        Action::Quit(_) => {},
        Action::Up(t) => {
            let v = seq!["up"@] + args + seq![t@];
            assert(v.subrange(1, 1 + args.len() as int) =~= args);
        },
        Action::Hide(t) => {
            let v = seq!["hide"@] + args + seq![t@];
            assert(v.subrange(1, 1 + args.len() as int) =~= args);
        },
        Action::Rebase { source, dest } => {
            let v = seq!["rebase"@] + args + seq!["-s"@, source@, "-d"@, dest@];
            assert(v.subrange(1, 1 + args.len() as int) =~= args);
        },
    }
}

// ---------------------------------------------------------------------------
// The rebase arrow
// ---------------------------------------------------------------------------

/// Inserting keeps the number of lines and makes no line shorter.
pub proof fn lemma_inserted_all_lengths(lines: Seq<Seq<char>>, ps: Seq<Pos>, what: Seq<char>)
    ensures
        inserted_all(lines, ps, what).len() == lines.len(),
        forall|i: int|
            0 <= i < lines.len() ==> #[trigger] inserted_all(lines, ps, what)[i].len() >= lines[i].len(),
    decreases ps.len(),
{
    if ps.len() > 0 {
        lemma_inserted_all_lengths(lines, ps.drop_last(), what);
        let prev = inserted_all(lines, ps.drop_last(), what);
        let p = ps.last();
        if 0 <= p.line < prev.len() {
            let l = prev[p.line as int];
            assert(inserted_at(l, p.col as int, what).len() == l.len() + what.len());
        }
        assert forall|i: int| 0 <= i < lines.len() implies #[trigger] inserted_all(
            lines,
            ps,
            what,
        )[i].len() >= lines[i].len() by {
            assert(prev[i].len() >= lines[i].len());
            if 0 <= p.line < prev.len() && i == p.line {
                let l = prev[p.line as int];
                assert(inserted_at(l, p.col as int, what).len() == l.len() + what.len());
            }
        }
    }
}

/// In the drawn window, the rebase arrow stands on the line where the rebase
/// source was picked, at the column it was picked at, whichever commit is
/// selected now.
pub proof fn law_rebase_arrow_at_source(s: AppState, rows: int)
    requires
        s.wf(),
        s.rebasing_pos is Some,
        0 <= s.rebasing_pos.unwrap().line - s.window_start(rows) < s.rendered(rows).len(),
        s.rebasing_pos.unwrap().col < s.lines()[s.rebasing_pos.unwrap().line as int].len(),
    ensures
        ({
            let p = s.rebasing_pos.unwrap();
            let row = s.rendered(rows)[p.line - s.window_start(rows)];
            row.subrange(p.col as int, p.col + rebase_arrow().len()) == rebase_arrow()
        }),
{
    let p = s.rebasing_pos.unwrap();
    let from = s.window_start(rows);
    let len = s.lines().len() as int;
    let shown = s.lines().subrange(clamp(from, len), clamp(from + s.window_len(rows), len));
    let with_bookmark = match s.bookmark_index {
        Some(b) => inserted_all(
            shown,
            seq![Pos { line: (s.commit_pos.line - from) as isize, col: (b + 7) as usize }],
            bookmark_highlight(),
        ),
        None => shown,
    };
    let markers = commit_markers(
        s.commit_pos.line as int,
        s.commit_pos.col as int,
        s.line_after(),
        from,
    );
    let with_commit = inserted_all(with_bookmark, markers, commit_highlight());
    match s.bookmark_index {
        Some(b) => lemma_inserted_all_lengths(
            shown,
            seq![Pos { line: (s.commit_pos.line - from) as isize, col: (b + 7) as usize }],
            bookmark_highlight(),
        ),
        None => {},
    }
    lemma_inserted_all_lengths(with_bookmark, markers, commit_highlight());
    let i = p.line - from;
    assert(s.rendered(rows) == rebase_marked(with_commit, s.rebasing_pos, from));
    assert(0 <= i < with_commit.len());
    assert(shown.len() == with_commit.len());
    assert(clamp(from, len) == from);
    assert(shown[i] == s.lines()[p.line as int]);
    assert(with_commit[i].len() >= shown[i].len());
    let row = with_commit[i];
    let marked = replaced_at(row, p.col as int, rebase_arrow());
    assert(s.rendered(rows)[i] == marked);
    assert(marked.subrange(p.col as int, p.col + rebase_arrow().len()) =~= rebase_arrow());
}

} // verus!
