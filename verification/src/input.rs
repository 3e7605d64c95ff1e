//! Key presses: decoding terminal input and what each key does to the selection.
use vstd::prelude::*;
use crate::state::{Action, AppState, modified_to};
use crate::text::push_char;
use crate::lines_view;

verus! {

/// A key press, as far as the selection cares.
#[derive(Clone, Copy, Debug, PartialEq, Eq)]
pub enum Key {
    /// Up arrow or `k`: the previous commit.
    Up,
    /// Down arrow or `j`: the next commit.
    Down,
    /// Left arrow: the previous bookmark.
    Left,
    /// Right arrow: the next bookmark.
    Right,
    /// Enter: check out (or rebase onto) the selection.
    Enter,
    /// `p`: check out (or rebase onto) the selection's parent.
    Parent,
    /// `r`: pick (or drop) the selection as the rebase source.
    Rebase,
    /// `x`: hide the selection.
    Hide,
    /// `q`, Ctrl-C, Esc or an unknown escape sequence: leave.
    Quit,
    /// Anything else: ignored.
    Other,
}

/// The key that starts at byte `i` of `input`, and how many bytes it takes.
pub open spec fn key_at(input: Seq<u8>, i: int) -> (Key, int) {
    if input[i] == 0x1bu8 && i + 2 < input.len() && input[i + 1] == 0x5bu8 {
        (
            if input[i + 2] == 0x41u8 {
                Key::Up
            } else if input[i + 2] == 0x42u8 {
                Key::Down
            } else if input[i + 2] == 0x44u8 {
                Key::Left
            } else if input[i + 2] == 0x43u8 {
                Key::Right
            } else {
                Key::Quit
            },
            3,
        )
    } else {
        let b = input[i];
        (
            if b == 0x6bu8 {
                Key::Up
            } else if b == 0x6au8 {
                Key::Down
            } else if b == 0x0du8 || b == 0x0au8 {
                Key::Enter
            } else if b == 0x70u8 {
                Key::Parent
            } else if b == 0x72u8 {
                Key::Rebase
            } else if b == 0x78u8 {
                Key::Hide
            } else if b == 0x71u8 || b == 3u8 || b == 0x1bu8 {
                Key::Quit
            } else {
                Key::Other
            },
            1,
        )
    }
}

/// Decodes the key that starts at byte `i` of `input`; returns it and its length in bytes.
pub fn read_key(input: &[u8], i: usize) -> (r: (Key, usize))
    requires
        i < input@.len(),
    ensures
        (r.0, r.1 as int) == key_at(input@, i as int),
{
    let b = input[i];
    // ESC '[' followed by 'A', 'B', 'D' or 'C' is an arrow key.
    if b == 0x1b && input.len() - i > 2 && input[i + 1] == 0x5b {
        let k = match input[i + 2] {
            0x41 => Key::Up,
            0x42 => Key::Down,
            0x44 => Key::Left,
            0x43 => Key::Right,
            _ => Key::Quit,
        };
        return (k, 3);
    }
    // 'k', 'j', CR, LF, 'p', 'r', 'x', then 'q', Ctrl-C and a lone ESC.
    let k = match b {
        0x6b => Key::Up,
        0x6a => Key::Down,
        0x0d | 0x0a => Key::Enter,
        0x70 => Key::Parent,
        0x72 => Key::Rebase,
        0x78 => Key::Hide,
        0x71 | 0x03 | 0x1b => Key::Quit,
        _ => Key::Other,
    };
    (k, 1)
}

/// Index of the first key at or after byte `i` of `input` that is not ignored,
/// or the input's length.
pub open spec fn first_key_from(input: Seq<u8>, i: int) -> int
    decreases input.len() - i,
{
    if i < 0 || i >= input.len() {
        input.len() as int
    } else if key_at(input, i).0 == Key::Other {
        first_key_from(input, i + 1)
    } else {
        i
    }
}

/// What handling input comes to: redraw and go on from a byte index, or stop
/// with an outcome (an action, nothing more to do, or an error).
#[derive(Debug, PartialEq, Eq)]
pub enum InputStep {
    Redraw(usize),
    Done(Result<Option<Action>, String>),
}

/// `r` is what Enter (`to_parent` false) or `p` (`to_parent` true) yields in state `s`.
pub open spec fn finish_outcome(s: &AppState, to_parent: bool, r: Result<Option<Action>, String>) -> bool {
    match s.target() {
        Err(e) => r matches Err(m) && m@ == e,
        Ok(t) => {
            let dest_view = if to_parent {
                t.push('^')
            } else {
                t
            };
            match r {
                Ok(Some(Action::Up(dest))) => s.rebasing is None && dest@ == dest_view,
                Ok(Some(Action::Rebase { source, dest })) => s.rebasing == Some(source) && dest@
                    == dest_view,
                _ => false,
            }
        },
    }
}

/// `r` is what `x` yields in state `s`.
pub open spec fn hide_outcome(s: &AppState, r: Result<Option<Action>, String>) -> bool {
    match s.target() {
        Err(e) => r matches Err(m) && m@ == e,
        Ok(t) => r matches Ok(Some(Action::Hide(h))) && h@ == t,
    }
}

/// The step taken from state `old` to `new`, with result `r`, for the first
/// key of `input` at or after byte `from` that is not ignored.
pub open spec fn input_step(old: &AppState, new: &AppState, input: Seq<u8>, from: int, r: InputStep) -> bool {
    let j = first_key_from(input, from);
    if j >= input.len() {
        *new == *old && r matches InputStep::Done(Ok(None))
    } else {
        let (key, width) = key_at(input, j);
        let next = j + width;
        match key {
            Key::Up => r == InputStep::Redraw(next as usize) && AppState::commit_moved(old, new, -1),
            Key::Down => r == InputStep::Redraw(next as usize) && AppState::commit_moved(old, new, 1),
            Key::Left => r == InputStep::Redraw(next as usize) && AppState::bookmark_moved(
                old,
                new,
                -1,
            ),
            Key::Right => r == InputStep::Redraw(next as usize) && AppState::bookmark_moved(
                old,
                new,
                1,
            ),
            Key::Enter => r matches InputStep::Done(rr) && finish_outcome(old, false, rr) && *new
                == *old,
            Key::Parent => r matches InputStep::Done(rr) && finish_outcome(old, true, rr) && *new
                == *old,
            Key::Rebase => match old.target() {
                Err(e) => r matches InputStep::Done(Err(m)) && m@ == e && *new == *old,
                Ok(t) => r == InputStep::Redraw(next as usize) && AppState::rebase_toggled(
                    old,
                    new,
                    t,
                ),
            },
            Key::Hide => r matches InputStep::Done(rr) && hide_outcome(old, rr) && *new == *old,
            Key::Quit => *new == *old && r matches InputStep::Done(Ok(Some(Action::Quit(0)))),
            Key::Other => false,
        }
    }
}

impl AppState {
    /// Handles `input` from byte `from` on: skips ignored bytes, then acts on
    /// the first key. Keys that move the selection or pick a rebase source ask
    /// for a redraw and say where to go on; the others end input handling.
    pub fn handle_input(&mut self, input: &[u8], from: usize) -> (r: InputStep)
        requires
            old(self).wf(),
        ensures
            final(self).wf(),
            input_step(old(self), final(self), input@, from as int, r),
    {
        let len = input.len();
        let mut i = from;
        while i < len
            invariant
                len == input@.len(),
                from <= i,
                *self == *old(self),
                self.wf(),
                first_key_from(input@, from as int) == first_key_from(input@, i as int),
            decreases len - i,
        {
            let (key, width) = read_key(input, i);
            match key {
                Key::Up => {
                    self.update_commit(-1);
                    return InputStep::Redraw(i + width);
                },
                Key::Down => {
                    self.update_commit(1);
                    return InputStep::Redraw(i + width);
                },
                Key::Left => {
                    self.update_bookmark(-1);
                    return InputStep::Redraw(i + width);
                },
                Key::Right => {
                    self.update_bookmark(1);
                    return InputStep::Redraw(i + width);
                },
                Key::Enter => {
                    let same = |to: String| -> (r: String) ensures r@ == to@ { to };
                    let rr = self.finish(same);
                    proof {
                        self.lemma_finish_outcome(same, rr, false);
                    }
                    return InputStep::Done(rr);
                },
                Key::Parent => {
                    let parent = |to: String| -> (r: String)
                        ensures
                            r@ == to@.push('^'),
                        {
                            let mut s = to;
                            push_char(&mut s, '^');
                            s
                        };
                    let rr = self.finish(parent);
                    proof {
                        self.lemma_finish_outcome(parent, rr, true);
                    }
                    return InputStep::Done(rr);
                },
                Key::Rebase => {
                    match self.rebase_from_current() {
                        Ok(()) => {
                            return InputStep::Redraw(i + 1);
                        },
                        Err(e) => {
                            return InputStep::Done(Err(e));
                        },
                    }
                },
                Key::Hide => {
                    return match self.current_target() {
                        Ok(t) => InputStep::Done(Ok(Some(Action::Hide(t)))),
                        Err(e) => InputStep::Done(Err(e)),
                    };
                },
                Key::Quit => {
                    return InputStep::Done(Ok(Some(Action::Quit(0))));
                },
                Key::Other => {
                    i = i + 1;
                },
            }
        }
        InputStep::Done(Ok(None))
    }

    /// What `finish` returns with a modifier that keeps the target, or one that
    /// appends `^`, is the outcome of Enter or `p`.
    proof fn lemma_finish_outcome<F: FnOnce(String) -> String>(
        &self,
        f: F,
        rr: Result<Option<Action>, String>,
        to_parent: bool,
    )
        requires
            forall|a: String, b: String|
                call_ensures(f, (a,), b) ==> b@ == (if to_parent {
                    a@.push('^')
                } else {
                    a@
                }),
            match self.target() {
                Err(e) => rr matches Err(m) && m@ == e,
                Ok(t) => match rr {
                    Ok(Some(Action::Up(dest))) => self.rebasing is None && modified_to(f, t, dest),
                    Ok(Some(Action::Rebase { source, dest })) => self.rebasing == Some(source)
                        && modified_to(f, t, dest),
                    _ => false,
                },
            },
        ensures
            finish_outcome(self, to_parent, rr),
    {
        match self.target() {
            Err(_) => {},
            Ok(t) => match rr {
                Ok(Some(Action::Up(dest))) => {
                    let arg = choose|arg: String| arg@ == t && #[trigger] call_ensures(f, (arg,), dest);
                    assert(call_ensures(f, (arg,), dest));
                },
                Ok(Some(Action::Rebase { source, dest })) => {
                    let arg = choose|arg: String| arg@ == t && #[trigger] call_ensures(f, (arg,), dest);
                    assert(call_ensures(f, (arg,), dest));
                },
                _ => {},
            },
        }
    }
}

/// The `sl` command line for `action`, with `command_args` passed on; `None`
/// for `Quit`, which runs nothing.
pub open spec fn command_line(action: &Action, command_args: Seq<Seq<char>>) -> Option<Seq<Seq<char>>> {
    match action {
        Action::Quit(_) => None,
        Action::Up(target) => Some(seq!["up"@] + command_args + seq![target@]),
        Action::Rebase { source, dest } => Some(
            seq!["rebase"@] + command_args + seq!["-s"@, source@, "-d"@, dest@],
        ),
        Action::Hide(target) => Some(seq!["hide"@] + command_args + seq![target@]),
    }
}

/// The arguments to `sl` that carry out `action`, with `command_args` passed
/// on before the target; `None` for `Quit`.
pub fn command_argv(action: &Action, command_args: &[String]) -> (r: Option<Vec<String>>)
    ensures
        match r {
            Some(v) => command_line(action, lines_view(command_args@)) == Some(lines_view(v@)),
            None => command_line(action, lines_view(command_args@)) is None,
        },
{
    let (verb, tail) = match action {
        Action::Quit(_) => {
            return None;
        },
        Action::Up(target) => ("up", vec![target.clone()]),
        Action::Rebase { source, dest } => {
            let v = vec![String::from_str("-s"), source.clone(), String::from_str("-d"), dest.clone()];
            ("rebase", v)
        },
        Action::Hide(target) => ("hide", vec![target.clone()]),
    };
    let mut argv: Vec<String> = Vec::new();
    argv.push(String::from_str(verb));
    let mut k: usize = 0;
    while k < command_args.len()
        invariant
            k <= command_args@.len(),
            lines_view(argv@) == seq![verb@] + lines_view(command_args@).take(k as int),
        decreases command_args@.len() - k,
    {
        let ghost before = argv@;
        argv.push(command_args[k].clone());
        proof {
            assert(lines_view(argv@) =~= lines_view(before).push(command_args@[k as int]@));
            assert(lines_view(argv@) =~= seq![verb@] + lines_view(command_args@).take(k + 1));
        }
        k = k + 1;
    }
    let mut t: usize = 0;
    while t < tail.len()
        invariant
            t <= tail@.len(),
            lines_view(argv@) == seq![verb@] + lines_view(command_args@) + lines_view(tail@).take(
                t as int,
            ),
        decreases tail@.len() - t,
    {
        let ghost before = argv@;
        argv.push(tail[t].clone());
        proof {
            assert(lines_view(argv@) =~= lines_view(before).push(tail@[t as int]@));
            assert(lines_view(argv@) =~= seq![verb@] + lines_view(command_args@) + lines_view(
                tail@,
            ).take(t + 1));
        }
        t = t + 1;
    }
    proof {
        assert(lines_view(command_args@).take(command_args@.len() as int) =~= lines_view(command_args@));
        assert(lines_view(tail@).take(tail@.len() as int) =~= lines_view(tail@));
    }
    Some(argv)
}

} // verus!
