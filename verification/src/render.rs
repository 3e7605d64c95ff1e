//! What the screen shows: the smartlog window around the selection, with the
//! selected commit, bookmark and rebase source marked.
use vstd::prelude::*;
use crate::state::AppState;
use crate::text::{clamp, insert, inserted_all, join_lines, joined, replace_at_char, replaced_at};
use crate::{lines_view, Pos};

verus! {

/// Colour escape put before the selected bookmark.
pub open spec fn bookmark_highlight() -> Seq<char> {
    "\u{1b}[0;33m"@
}

/// Colour escape put on the graph next to the selected commit.
pub open spec fn commit_highlight() -> Seq<char> {
    "\u{1b}[35m"@
}

/// The arrow that marks where the rebase source was picked.
pub open spec fn rebase_arrow() -> Seq<char> {
    "\u{1b}[0;1m←\u{1b}[0m"@
}

/// What starts each frame: clear the screen, go home, reset colours.
pub open spec fn frame_start() -> Seq<char> {
    "\u{1b}[2J\u{1b}[0f\u{1b}[0m"@
}

/// What ends each line of a frame but the last.
pub open spec fn line_break() -> Seq<char> {
    "\u{1b}[0m\r\n"@
}

/// What ends each frame.
pub open spec fn frame_end() -> Seq<char> {
    "\r\n"@
}

/// Positions next to the commit marker (column `col + 2`) on lines `cl` up to
/// `la` (excluded), shifted up by `off` lines.
pub open spec fn commit_markers(cl: int, col: int, la: int, off: int) -> Seq<Pos> {
    Seq::new(
        if la > cl {
            (la - cl) as nat
        } else {
            0
        },
        |i: int| Pos { line: (cl + i - off) as isize, col: (col + 2) as usize },
    )
}

/// `lines` with the rebase arrow put at `rp` (shifted up by `off` lines), when
/// there is a rebase source and its line is among `lines`.
pub open spec fn rebase_marked(lines: Seq<Seq<char>>, rp: Option<Pos>, off: int) -> Seq<Seq<char>> {
    match rp {
        Some(p) => {
            let i = p.line - off;
            if 0 <= i < lines.len() {
                lines.update(i, replaced_at(lines[i], p.col as int, rebase_arrow()))
            } else {
                lines
            }
        },
        None => lines,
    }
}

/// `max(a, b)`.
pub open spec fn max(a: int, b: int) -> int {
    if a >= b {
        a
    } else {
        b
    }
}

impl AppState {
    /// The first smartlog line shown on a screen of `rows` rows: the window
    /// ends just after the selected commit's lines, or at the last row.
    pub open spec fn window_start(&self, rows: int) -> int {
        max(rows, self.line_after() + 1) - rows
    }

    /// How many smartlog lines are shown on a screen of `rows` rows (one row
    /// is left for the cursor).
    pub open spec fn window_len(&self, rows: int) -> int {
        max(0, max(rows, self.line_after() + 1) - self.window_start(rows) - 1)
    }

    /// The lines shown on a screen of `rows` rows, with their markings.
    pub open spec fn rendered(&self, rows: int) -> Seq<Seq<char>> {
        let from = self.window_start(rows);
        let len = self.lines().len() as int;
        let shown = self.lines().subrange(clamp(from, len), clamp(from + self.window_len(rows), len));
        let with_bookmark = match self.bookmark_index {
            Some(b) => inserted_all(
                shown,
                seq![Pos { line: (self.commit_pos.line - from) as isize, col: (b + 7) as usize }],
                bookmark_highlight(),
            ),
            None => shown,
        };
        let with_commit = inserted_all(
            with_bookmark,
            commit_markers(
                self.commit_pos.line as int,
                self.commit_pos.col as int,
                self.line_after(),
                from,
            ),
            commit_highlight(),
        );
        rebase_marked(with_commit, self.rebasing_pos, from)
    }

    /// The whole frame written for a screen of `rows` rows.
    pub open spec fn frame(&self, rows: int) -> Seq<char> {
        frame_start() + joined(self.rendered(rows), line_break()) + frame_end()
    }

    /// Positions to colour next to the commit marker on the selected commit's
    /// lines, from the commit line up to `line_after` (excluded), shifted up by
    /// `line_offset` lines.
    pub fn color_markers_for_commit(&self, line_after: usize, line_offset: usize) -> (r: Vec<Pos>)
        requires
            self.wf(),
            line_after <= isize::MAX,
            line_offset <= isize::MAX,
        ensures
            r@ == commit_markers(
                self.commit_pos.line as int,
                self.commit_pos.col as int,
                line_after as int,
                line_offset as int,
            ),
    {
        let mut markers: Vec<Pos> = Vec::new();
        let to = line_after as isize - self.commit_pos.line;
        let off = line_offset as isize;
        let col = self.commit_pos.col + 2;
        let mut i: isize = 0;
        while i < to
            invariant
                self.wf(),
                to == line_after - self.commit_pos.line,
                off == line_offset,
                col == self.commit_pos.col + 2,
                line_after <= isize::MAX,
                0 <= i,
                to >= 0 ==> i <= to,
                to < 0 ==> i == 0,
                markers@ =~= commit_markers(
                    self.commit_pos.line as int,
                    self.commit_pos.col as int,
                    line_after as int,
                    line_offset as int,
                ).take(i as int),
            decreases to - i,
        {
            markers.push(Pos { line: self.commit_pos.line + i - off, col });
            i = i + 1;
        }
        markers
    }

    /// Puts the rebase arrow on `lines` (a window starting `line_offset` lines
    /// into the smartlog) where the rebase source was picked, if it is shown.
    pub fn mark_rebase_pos(&self, lines: &mut [String], line_offset: usize)
        requires
            self.wf(),
            line_offset <= isize::MAX,
        ensures
            final(lines)@.len() == old(lines)@.len(),
            lines_view(final(lines)@) == rebase_marked(
                lines_view(old(lines)@),
                self.rebasing_pos,
                line_offset as int,
            ),
    {
        let rebasing_pos = match self.rebasing_pos {
            Some(p) => p,
            None => {
                return;
            },
        };
        let i = rebasing_pos.line - line_offset as isize;
        if i < 0 {
            return;
        }
        let k = i as usize;
        if k >= lines.len() {
            return;
        }
        let arrow = "\u{1b}[0;1m←\u{1b}[0m";
        let updated = replace_at_char(lines[k].as_str(), rebasing_pos.col, arrow);
        let ghost before = lines@;
        lines[k] = updated;
        proof {
            assert(lines_view(lines@) =~= lines_view(before).update(k as int, updated@));
        }
    }

    /// The lines shown on a screen of `rows` rows, with the selected bookmark,
    /// the selected commit and the rebase source marked.
    pub fn render_lines(&self, rows: usize) -> (r: Vec<String>)
        requires
            self.wf(),
        ensures
            lines_view(r@) == self.rendered(rows as int),
    {
        let line_after = self.line_after_commit();
        let to = if rows >= line_after + 1 {
            rows
        } else {
            line_after + 1
        };
        let from = to.saturating_sub(rows);
        let count = to.saturating_sub(from + 1);
        let len = self.output.len();
        let start = if from <= len {
            from
        } else {
            len
        };
        let end = if count <= len - start {
            start + count
        } else {
            len
        };
        let mut buffer: Vec<String> = Vec::new();
        let mut k = start;
        while k < end
            invariant
                start <= k <= end <= len,
                len == self.output@.len(),
                lines_view(buffer@) =~= lines_view(self.output@).subrange(start as int, k as int),
            decreases end - k,
        {
            let ghost before = buffer@;
            buffer.push(self.output[k].clone());
            proof {
                assert(lines_view(buffer@) =~= lines_view(before).push(self.output@[k as int]@));
            }
            k = k + 1;
        }
        assert(lines_view(buffer@) == self.lines().subrange(
            clamp(from as int, len as int),
            clamp(from + self.window_len(rows as int), len as int),
        ));
        let ghost shown = lines_view(buffer@);
        match self.bookmark_index {
            Some(b) => {
                let mark = Pos { line: self.commit_pos.line - from as isize, col: b + 7 };
                let at = vec![mark];
                assert(at@ =~= seq![mark]);
                insert("\u{1b}[0;33m", at.as_slice(), buffer.as_mut_slice());
            },
            None => {},
        }
        let ghost with_bookmark = lines_view(buffer@);
        let markers = self.color_markers_for_commit(line_after, from);
        insert("\u{1b}[35m", markers.as_slice(), buffer.as_mut_slice());
        let ghost with_commit = lines_view(buffer@);
        assert(with_commit == inserted_all(
            with_bookmark,
            commit_markers(
                self.commit_pos.line as int,
                self.commit_pos.col as int,
                self.line_after(),
                from as int,
            ),
            commit_highlight(),
        ));
        self.mark_rebase_pos(buffer.as_mut_slice(), from);
        buffer
    }

    /// The whole frame to write for a screen of `rows` rows: clear the screen,
    /// then the shown lines, each ended by a colour reset and a line break.
    pub fn render_frame(&self, rows: usize) -> (r: String)
        requires
            self.wf(),
        ensures
            r@ == self.frame(rows as int),
    {
        let lines = self.render_lines(rows);
        let mut out = String::from_str("\u{1b}[2J\u{1b}[0f\u{1b}[0m");
        let body = join_lines(lines.as_slice(), "\u{1b}[0m\r\n");
        out.append(body.as_str());
        out.append("\r\n");
        out
    }
}

} // verus!
