//! Keyboard-driven commit selection over a Sapling smartlog.
//!
//! The library decodes key presses, moves a cursor over the smartlog's commit
//! lines and bookmarks, and computes what to draw and which `sl` command to run.
use vstd::prelude::*;

pub mod args;
pub mod input;
pub mod laws;
pub mod render;
pub mod smartlog;
pub mod state;
pub mod terminal;
pub mod text;

verus! {

/// A position in the smartlog: a line index (possibly off screen, so signed)
/// and a char index within that line.
#[derive(Clone, Copy, Debug, PartialEq, Eq)]
pub struct Pos {
    pub line: isize,
    pub col: usize,
}

/// The char contents of each string of `v`.
pub open spec fn lines_view(v: Seq<String>) -> Seq<Seq<char>> {
    v.map_values(|s: String| s@)
}

} // verus!
