//! The selection state: which commit (and which of its bookmarks) is selected,
//! and which commit, if any, is picked as the source of a rebase.
use vstd::prelude::*;
use crate::smartlog::{commit_col, kind_col, search, search_from, LineKind};
use crate::terminal::skip_white;
use crate::text::{
    ansi_stripped, clamp, find_hex_commit, first_hex_run, index_of, is_white_space, is_whitespace,
    occurrence_toward, occurrences, occurrences_from, first_at_least, last_at_most, opt_int,
    occurs_at, occurs_at_exec, slice_chars, strip_ansi,
};
use crate::{lines_view, Pos};

verus! {

/// What the user asked for.
#[derive(Debug, PartialEq, Eq)]
pub enum Action {
    /// Leave with this exit code.
    Quit(i32),
    /// Check out this commit or bookmark.
    Up(String),
    /// Rebase `source` onto `dest`.
    Rebase { source: String, dest: String },
    /// Hide this commit.
    Hide(String),
}

/// The smartlog being browsed and the current selection.
pub struct AppState {
    /// The smartlog lines, colour escapes included.
    pub output: Vec<String>,
    /// The selected commit line and the column of its marker.
    pub commit_pos: Pos,
    /// The selected bookmark, as the char index of its colour escape on the commit line.
    pub bookmark_index: Option<usize>,
    /// The commit or bookmark picked as the source of a rebase.
    pub rebasing: Option<String>,
    /// Where the rebase source was picked.
    pub rebasing_pos: Option<Pos>,
}

/// The colour escape that starts a bookmark name in the smartlog.
pub open spec fn bookmark_color() -> Seq<char> {
    seq!['\u{1b}', '[', '0', ';', '3', '2', 'm']
}

/// Index of the first character of `s` at or after `i` that ends a bookmark
/// name: white space, `*`, or the end.
pub open spec fn name_end_from(s: Seq<char>, i: int) -> int
    decreases s.len() - i,
{
    if 0 <= i < s.len() && !is_white_space(s[i]) && s[i] != '*' {
        name_end_from(s, i + 1)
    } else {
        i
    }
}

/// The bookmark name that starts at char index `b` of `line`: after its colour
/// escape and any white space, up to white space or `*`.
pub open spec fn bookmark_at(line: Seq<char>, b: int) -> Seq<char> {
    let tail = line.skip(clamp(b, line.len() as int));
    let bare = if occurs_at(tail, bookmark_color(), 0) {
        tail.skip(bookmark_color().len() as int)
    } else {
        tail
    };
    let rest = bare.skip(skip_white(bare, 0));
    rest.take(name_end_from(rest, 0))
}

/// What an action on commit line `line` applies to: the selected bookmark's
/// name when there is one and it is not empty, otherwise the commit hash
/// shown on the line.
pub open spec fn target_for(line: Seq<char>, bookmark: Option<usize>) -> Result<Seq<char>, Seq<char>> {
    let name = match bookmark {
        Some(b) => bookmark_at(line, b as int),
        None => seq![],
    };
    if name.len() > 0 {
        Ok(name)
    } else {
        match first_hex_run(ansi_stripped(line)) {
            Some(h) => Ok(h),
            None => Err("could not find commit hash"@),
        }
    }
}

/// `x` clamped to the range of `usize`.
pub open spec fn saturate(x: int) -> int {
    if x < 0 {
        0
    } else if x > usize::MAX {
        usize::MAX as int
    } else {
        x
    }
}

/// Where a bookmark search on a line of `line_len` characters starts.
pub open spec fn bookmark_start(line_len: int, bookmark: Option<usize>, direction: int) -> int {
    match bookmark {
        Some(i) => saturate(i + direction),
        None => if direction == -1 {
            saturate(line_len - 1)
        } else {
            0
        },
    }
}

/// Every line of `lines` is shorter than `isize::MAX` characters, as a `str` is.
pub open spec fn lines_fit(lines: Seq<Seq<char>>) -> bool {
    &&& lines.len() < isize::MAX
    &&& forall|i: int| 0 <= i < lines.len() ==> #[trigger] lines[i].len() < isize::MAX
}

impl AppState {
    /// The smartlog lines as characters.
    pub open spec fn lines(&self) -> Seq<Seq<char>> {
        lines_view(self.output@)
    }

    /// The selected commit line.
    pub open spec fn commit_line(&self) -> Seq<char> {
        self.lines()[self.commit_pos.line as int]
    }

    /// The state is one that `new` and the updates below produce: the selected
    /// commit line exists, the selected marker and bookmark lie on it, and the
    /// rebase source (if any) was picked on an existing line.
    pub open spec fn wf(&self) -> bool {
        &&& lines_fit(self.lines())
        &&& 0 <= self.commit_pos.line < self.lines().len()
        &&& self.commit_pos.col < self.commit_line().len()
        &&& commit_col(self.commit_line()) == Some(self.commit_pos.col as int)
        &&& (self.bookmark_index matches Some(b) ==> b <= self.commit_line().len() && occurs_at(
            self.commit_line(),
            bookmark_color(),
            b as int,
        ))
        &&& (self.rebasing_pos matches Some(p) ==> 0 <= p.line < self.lines().len())
    }

    /// What an action applies to now.
    pub open spec fn target(&self) -> Result<Seq<char>, Seq<char>> {
        target_for(self.commit_line(), self.bookmark_index)
    }

    /// The commit line reached by moving one step of `direction` from the
    /// selected one; the selected one itself when there is none.
    pub open spec fn next_commit(&self, direction: int) -> (int, int) {
        match search_from(
            self.lines(),
            LineKind::Commit,
            direction,
            self.commit_pos.line + direction,
        ) {
            Some((l, c)) => (l, c),
            None => (self.commit_pos.line as int, self.commit_pos.col as int),
        }
    }

    /// The index of the next commit line below the selected one, or the number of lines.
    pub open spec fn line_after(&self) -> int {
        match search_from(self.lines(), LineKind::Commit, 1, self.commit_pos.line + 1) {
            Some((l, _)) => l,
            None => self.lines().len() as int,
        }
    }

    /// The bookmark selected by moving one step of `direction` from the current one.
    pub open spec fn next_bookmark(&self, direction: int) -> Option<int> {
        occurrence_toward(
            self.commit_line(),
            bookmark_color(),
            direction,
            bookmark_start(self.commit_line().len() as int, self.bookmark_index, direction),
        )
    }

    /// `self` and `other` show the same smartlog and have the same rebase source.
    pub open spec fn same_log_and_rebase(&self, other: &AppState) -> bool {
        &&& self.output@ == other.output@
        &&& self.rebasing == other.rebasing
        &&& self.rebasing_pos == other.rebasing_pos
    }

    /// `new` is `old` after moving to the next commit line in `direction`.
    pub open spec fn commit_moved(old: &AppState, new: &AppState, direction: int) -> bool {
        &&& new.same_log_and_rebase(old)
        &&& new.commit_pos.line == old.next_commit(direction).0
        &&& new.commit_pos.col == old.next_commit(direction).1
        &&& new.bookmark_index is None
    }

    /// `new` is `old` after moving to the next bookmark in `direction`.
    pub open spec fn bookmark_moved(old: &AppState, new: &AppState, direction: int) -> bool {
        &&& new.same_log_and_rebase(old)
        &&& new.commit_pos == old.commit_pos
        &&& opt_int(new.bookmark_index) == old.next_bookmark(direction)
    }

    /// `new` is `old` after picking (or un-picking) `target` as the rebase source:
    /// picking the current source again clears it.
    pub open spec fn rebase_toggled(old: &AppState, new: &AppState, target: Seq<char>) -> bool {
        &&& new.output@ == old.output@
        &&& new.commit_pos == old.commit_pos
        &&& new.bookmark_index == old.bookmark_index
        &&& if old.rebasing matches Some(src) && src@ == target {
            new.rebasing is None && new.rebasing_pos is None
        } else {
            new.rebasing matches Some(src) && src@ == target && new.rebasing_pos == Some(
                old.commit_pos,
            )
        }
    }
}

/// A marker column lies inside its line.
pub proof fn lemma_kind_col_inside(kind: LineKind, s: Seq<char>)
    ensures
        kind_col(kind, s) matches Some(c) ==> 0 <= c < s.len(),
{
    crate::smartlog::lemma_graph_end_bounds(s, 0);
}

/// A line that `search` finds exists and has its marker inside it.
pub proof fn lemma_search_found(lines: Seq<Seq<char>>, kind: LineKind, d: int, l: int)
    ensures
        search_from(lines, kind, d, l) matches Some((x, c)) ==> {
            &&& 0 <= x < lines.len()
            &&& kind_col(kind, lines[x]) == Some(c)
            &&& 0 <= c < lines[x].len()
            &&& (d > 0 ==> x >= l)
        },
    decreases crate::smartlog::walk_measure(lines.len() as int, d, l),
{
    if 0 <= l < lines.len() {
        if kind_col(kind, lines[l]) is None {
            if d != 0 {
                lemma_search_found(lines, kind, d, l + d);
            }
        } else {
            lemma_kind_col_inside(kind, lines[l]);
        }
    }
}

/// Every occurrence found scanning from `i` lies between `i` and the end of `s`.
pub proof fn lemma_occurrences_bounded(s: Seq<char>, w: Seq<char>, i: int)
    ensures
        forall|k: int|
            0 <= k < occurrences_from(s, w, i).len() ==> i <= #[trigger] occurrences_from(
                s,
                w,
                i,
            )[k] <= s.len(),
    decreases s.len() + 1 - i,
{
    if i < 0 || i > s.len() {
    } else {
        let step = if w.len() == 0 {
            1
        } else {
            w.len() as int
        };
        if crate::text::occurs_at(s, w, i) {
            lemma_occurrences_bounded(s, w, i + step);
            let rest = occurrences_from(s, w, i + step);
            assert forall|k: int|
                0 <= k < occurrences_from(s, w, i).len() implies i <= #[trigger] occurrences_from(
                s,
                w,
                i,
            )[k] <= s.len() by {
                if k > 0 {
                    assert(occurrences_from(s, w, i)[k] == rest[k - 1]);
                }
            }
        } else {
            lemma_occurrences_bounded(s, w, i + 1);
            assert(occurrences_from(s, w, i) == occurrences_from(s, w, i + 1));
        }
    }
}

/// What `first_at_least` and `last_at_most` return is an element of the sequence.
pub proof fn lemma_pick_member(ms: Seq<int>, from: int)
    ensures
        first_at_least(ms, from) matches Some(x) ==> ms.contains(x),
        last_at_most(ms, from) matches Some(x) ==> ms.contains(x),
    decreases ms.len(),
{
    if ms.len() > 0 {
        lemma_pick_member(ms.drop_first(), from);
        if let Some(x) = first_at_least(ms.drop_first(), from) {
            assert(ms.drop_first().contains(x));
            let k = choose|k: int| 0 <= k < ms.drop_first().len() && ms.drop_first()[k] == x;
            assert(ms[k + 1] == x);
        }
        if let Some(x) = last_at_most(ms.drop_first(), from) {
            let k = choose|k: int| 0 <= k < ms.drop_first().len() && ms.drop_first()[k] == x;
            assert(ms[k + 1] == x);
        }
        assert(ms[0] == ms[0]);
    }
}

/// Every index found scanning from `i` is an occurrence.
pub proof fn lemma_occurrences_sound(s: Seq<char>, w: Seq<char>, i: int)
    ensures
        forall|k: int|
            0 <= k < occurrences_from(s, w, i).len() ==> occurs_at(
                s,
                w,
                #[trigger] occurrences_from(s, w, i)[k],
            ),
    decreases s.len() + 1 - i,
{
    if i < 0 || i > s.len() {
    } else {
        let step = if w.len() == 0 {
            1
        } else {
            w.len() as int
        };
        if occurs_at(s, w, i) {
            lemma_occurrences_sound(s, w, i + step);
            let rest = occurrences_from(s, w, i + step);
            assert forall|k: int| 0 <= k < occurrences_from(s, w, i).len() implies occurs_at(
                s,
                w,
                #[trigger] occurrences_from(s, w, i)[k],
            ) by {
                if k > 0 {
                    assert(occurrences_from(s, w, i)[k] == rest[k - 1]);
                }
            }
        } else {
            lemma_occurrences_sound(s, w, i + 1);
            assert(occurrences_from(s, w, i) == occurrences_from(s, w, i + 1));
        }
    }
}

/// A bookmark position found on `line` is an occurrence of the bookmark colour.
pub proof fn lemma_bookmark_bounded(line: Seq<char>, direction: int, from: int)
    ensures
        occurrence_toward(line, bookmark_color(), direction, from) matches Some(x) ==> 0 <= x
            <= line.len() && occurs_at(line, bookmark_color(), x),
{
    lemma_occurrences_bounded(line, bookmark_color(), 0);
    lemma_occurrences_sound(line, bookmark_color(), 0);
    lemma_pick_member(occurrences(line, bookmark_color()), from);
}

impl AppState {
    /// Opens the smartlog `output` with the checked-out commit selected;
    /// fails when no line shows the checked-out commit.
    pub fn new(output: Vec<String>) -> (r: Result<Self, String>)
        requires
            lines_fit(lines_view(output@)),
        ensures
            match search_from(lines_view(output@), LineKind::CurrentCommit, 1, 0) {
                Some((l, c)) => r matches Ok(s) && s.wf() && s.output@ == output@
                    && s.commit_pos.line == l && s.commit_pos.col == c && s.bookmark_index is None
                    && s.rebasing is None && s.rebasing_pos is None,
                None => r matches Err(e) && e@ == "could not find current commit in smartlog output"@,
            },
    {
        let found = search(1, Pos { line: -1, col: 0 }, LineKind::CurrentCommit, output.as_slice());
        proof {
            lemma_search_found(lines_view(output@), LineKind::CurrentCommit, 1, 0);
        }
        match found {
            None => Err(String::from_str("could not find current commit in smartlog output")),
            Some(commit_pos) => Ok(
                AppState {
                    output,
                    commit_pos,
                    bookmark_index: None,
                    rebasing: None,
                    rebasing_pos: None,
                },
            ),
        }
    }

    /// Selects the next commit line in `direction` (staying put when there is
    /// none, or when `direction` is zero) and drops the bookmark selection.
    pub fn update_commit(&mut self, direction: isize)
        requires
            old(self).wf(),
        ensures
            final(self).wf(),
            AppState::commit_moved(old(self), final(self), direction as int),
            direction == 0 ==> final(self).commit_pos == old(self).commit_pos,
    {
        let found = search(direction, self.commit_pos, LineKind::Commit, self.output.as_slice());
        proof {
            lemma_search_found(
                self.lines(),
                LineKind::Commit,
                direction as int,
                self.commit_pos.line + direction,
            );
        }
        match found {
            Some(p) => {
                self.commit_pos = p;
            },
            None => {},
        }
        self.bookmark_index = None;
    }

    /// The index of the next commit line below the selected one, or the number of lines.
    pub fn line_after_commit(&self) -> (r: usize)
        requires
            self.wf(),
        ensures
            r == self.line_after(),
            self.commit_pos.line < r <= self.lines().len(),
    {
        let found = search(1, self.commit_pos, LineKind::Commit, self.output.as_slice());
        proof {
            lemma_search_found(self.lines(), LineKind::Commit, 1, self.commit_pos.line + 1);
        }
        match found {
            Some(p) => p.line as usize,
            None => self.output.len(),
        }
    }

    /// Selects the next bookmark on the commit line in `direction`, or none.
    pub fn update_bookmark(&mut self, direction: isize)
        requires
            old(self).wf(),
        ensures
            final(self).wf(),
            AppState::bookmark_moved(old(self), final(self), direction as int),
    {
        let line = self.output[self.commit_pos.line as usize].as_str();
        let from_index: usize = match self.bookmark_index {
            Some(index) => match index.checked_add_signed(direction) {
                Some(v) => v,
                None => if direction < 0 {
                    0
                } else {
                    usize::MAX
                },
            },
            None => if direction == -1 {
                line.unicode_len().saturating_sub(1)
            } else {
                0
            },
        };
        let color = "\u{1b}[0;32m";
        proof {
            reveal_strlit("\u{1b}[0;32m");
            assert(color@ =~= bookmark_color());
            lemma_bookmark_bounded(self.commit_line(), direction as int, from_index as int);
        }
        self.bookmark_index = index_of(direction, from_index, color, line);
    }
}

/// The bookmark name in `line` from char index `b` on (see `bookmark_at`).
fn bookmark_name(line: &str, b: usize) -> (r: String)
    ensures
        r@ == bookmark_at(line@, b as int),
{
    let tail = slice_chars(line, b);
    let tlen = tail.unicode_len();
    let color = "\u{1b}[0;32m";
    proof {
        reveal_strlit("\u{1b}[0;32m");
        assert(color@ =~= bookmark_color());
    }
    let bare = if occurs_at_exec(tail.as_str(), tlen, color, 7, 0) {
        tail.as_str().substring_char(7, tlen)
    } else {
        tail.as_str().substring_char(0, tlen)
    };
    proof {
        assert(tail@.subrange(0, tlen as int) =~= tail@);
    }
    let blen = bare.unicode_len();
    let mut a: usize = 0;
    while a < blen && is_whitespace(bare.get_char(a))
        invariant
            blen == bare@.len(),
            a <= blen,
            skip_white(bare@, 0) == skip_white(bare@, a as int),
        decreases blen - a,
    {
        a = a + 1;
    }
    let ghost rest = bare@.skip(a as int);
    let mut e: usize = a;
    while e < blen && !is_whitespace(bare.get_char(e)) && bare.get_char(e) != '*'
        invariant
            blen == bare@.len(),
            a <= e <= blen,
            rest == bare@.skip(a as int),
            name_end_from(rest, 0) == name_end_from(rest, e - a),
        decreases blen - e,
    {
        e = e + 1;
    }
    let name = bare.substring_char(a, e).to_owned();
    assert(name@ =~= rest.take(e - a));
    name
}

/// `dest` is what `f` may return for a string whose characters are `t`.
pub open spec fn modified_to<F: FnOnce(String) -> String>(f: F, t: Seq<char>, dest: String) -> bool {
    exists|arg: String| arg@ == t && #[trigger] call_ensures(f, (arg,), dest)
}

impl AppState {
    /// What an action applies to: the selected bookmark's name when there is
    /// one, otherwise the commit hash on the selected line.
    pub fn current_target(&self) -> (r: Result<String, String>)
        requires
            self.wf(),
        ensures
            match r {
                Ok(t) => self.target() == Ok::<Seq<char>, Seq<char>>(t@),
                Err(e) => self.target() == Err::<Seq<char>, Seq<char>>(e@),
            },
    {
        let line = self.output[self.commit_pos.line as usize].as_str();
        match self.bookmark_index {
            Some(b) => {
                let name = bookmark_name(line, b);
                if name.unicode_len() > 0 {
                    return Ok(name);
                }
            },
            None => {},
        }
        let stripped = strip_ansi(line);
        match find_hex_commit(stripped.as_str()) {
            Some(h) => Ok(h),
            None => Err(String::from_str("could not find commit hash")),
        }
    }

    /// The action for Enter (`to_modifier` leaves the target as it is) or `p`
    /// (`to_modifier` names the target's parent): check out the target, or, with
    /// a rebase source picked, rebase that source onto the target.
    pub fn finish<F: FnOnce(String) -> String>(&self, to_modifier: F) -> (r: Result<Option<Action>, String>)
        requires
            self.wf(),
            forall|t: String| to_modifier.requires((t,)),
        ensures
            match self.target() {
                Err(e) => r matches Err(m) && m@ == e,
                Ok(t) => match r {
                    Ok(Some(Action::Up(dest))) => self.rebasing is None && modified_to(
                        to_modifier,
                        t,
                        dest,
                    ),
                    Ok(Some(Action::Rebase { source, dest })) => self.rebasing == Some(source)
                        && modified_to(to_modifier, t, dest),
                    _ => false,
                },
            },
    {
        let target = match self.current_target() {
            Ok(t) => t,
            Err(e) => {
                return Err(e);
            },
        };
        let ghost arg = target;
        let dest = to_modifier(target);
        assert(modified_to(to_modifier, arg@, dest));
        match &self.rebasing {
            Some(source) => {
                let source = source.clone();
                Ok(Some(Action::Rebase { source, dest }))
            },
            None => Ok(Some(Action::Up(dest))),
        }
    }

    /// Picks the target as the rebase source, or clears the source when it is
    /// the target already; fails, changing nothing, when there is no target.
    pub fn rebase_from_current(&mut self) -> (r: Result<(), String>)
        requires
            old(self).wf(),
        ensures
            final(self).wf(),
            match old(self).target() {
                Err(e) => r matches Err(m) && m@ == e && *final(self) == *old(self),
                Ok(t) => r is Ok && AppState::rebase_toggled(old(self), final(self), t),
            },
    {
        let current = match self.current_target() {
            Ok(t) => t,
            Err(e) => {
                return Err(e);
            },
        };
        let same = match &self.rebasing {
            Some(source) => *source == current,
            None => false,
        };
        if same {
            self.rebasing = None;
            self.rebasing_pos = None;
        } else {
            self.rebasing = Some(current);
            self.rebasing_pos = Some(self.commit_pos);
        }
        Ok(())
    }
}

} // verus!
