use lib::input::{command_argv, read_key, InputStep, Key};
use lib::state::{Action, AppState};
use lib::Pos;

const HASH0: &str = "1111111111aa";
const HASH2: &str = "2222222222bb";

fn sample() -> Vec<String> {
    vec![
        format!("  o  {HASH0}  bob"),
        "  │  second commit".to_string(),
        format!("  @  {HASH2}  alice  \u{1b}[0;32mmain \u{1b}[0;32mrelease*"),
        "  │  first commit".to_string(),
        "  o  3333333333cc  carol".to_string(),
        "╭─╯".to_string(),
    ]
}

fn state() -> AppState {
    AppState::new(sample()).unwrap()
}

fn press(s: &mut AppState, keys: &[u8]) -> InputStep {
    s.handle_input(keys, 0)
}

#[test]
fn new_selects_the_checked_out_commit() {
    let s = state();
    assert_eq!(s.commit_pos, Pos { line: 2, col: 2 });
    assert_eq!(s.bookmark_index, None);
    assert_eq!(s.rebasing, None);
}

#[test]
fn new_fails_without_checked_out_commit() {
    let r = AppState::new(vec!["  o  abc".to_string()]);
    assert_eq!(r.err(), Some("could not find current commit in smartlog output".to_string()));
}

#[test]
fn keys_are_decoded() {
    assert_eq!(read_key(b"\x1b[A", 0), (Key::Up, 3));
    assert_eq!(read_key(b"\x1b[B", 0), (Key::Down, 3));
    assert_eq!(read_key(b"\x1b[D", 0), (Key::Left, 3));
    assert_eq!(read_key(b"\x1b[C", 0), (Key::Right, 3));
    assert_eq!(read_key(b"\x1b[Z", 0), (Key::Quit, 3));
    assert_eq!(read_key(b"\x1b[", 0), (Key::Quit, 1));
    assert_eq!(read_key(b"\r", 0), (Key::Enter, 1));
    assert_eq!(read_key(b"p", 0), (Key::Parent, 1));
    assert_eq!(read_key(&[3], 0), (Key::Quit, 1));
    assert_eq!(read_key(b"z", 0), (Key::Other, 1));
}

#[test]
fn down_and_up_move_between_commit_lines() {
    let mut s = state();
    assert_eq!(press(&mut s, b"j"), InputStep::Redraw(1));
    assert_eq!(s.commit_pos, Pos { line: 4, col: 2 });
    assert_eq!(press(&mut s, b"\x1b[B"), InputStep::Redraw(3));
    assert_eq!(s.commit_pos, Pos { line: 4, col: 2 });
    assert_eq!(press(&mut s, b"k"), InputStep::Redraw(1));
    assert_eq!(s.commit_pos, Pos { line: 2, col: 2 });
    assert_eq!(press(&mut s, b"\x1b[A"), InputStep::Redraw(3));
    assert_eq!(s.commit_pos, Pos { line: 0, col: 2 });
}

#[test]
fn step_down_then_up_returns() {
    let mut s = state();
    s.update_commit(1);
    s.update_commit(-1);
    assert_eq!(s.commit_pos, Pos { line: 2, col: 2 });
}

#[test]
fn ignored_bytes_are_skipped() {
    let mut s = state();
    assert_eq!(press(&mut s, b"zz"), InputStep::Done(Ok(None)));
    assert_eq!(s.handle_input(b"zjk", 2), InputStep::Redraw(3));
    assert_eq!(s.commit_pos, Pos { line: 0, col: 2 });
}

#[test]
fn quit_keys_quit() {
    for keys in [&b"q"[..], &[3u8][..], &b"\x1b"[..], &b"\x1b[Z"[..]] {
        let mut s = state();
        assert_eq!(press(&mut s, keys), InputStep::Done(Ok(Some(Action::Quit(0)))));
        assert_eq!(s.commit_pos, Pos { line: 2, col: 2 });
    }
}

#[test]
fn enter_checks_out_the_commit() {
    let mut s = state();
    assert_eq!(press(&mut s, b"\r"), InputStep::Done(Ok(Some(Action::Up(HASH2.to_string())))));
    assert_eq!(press(&mut s, b"\n"), InputStep::Done(Ok(Some(Action::Up(HASH2.to_string())))));
}

#[test]
fn p_checks_out_the_parent() {
    let mut s = state();
    assert_eq!(
        press(&mut s, b"p"),
        InputStep::Done(Ok(Some(Action::Up(format!("{HASH2}^")))))
    );
}

#[test]
fn right_and_left_walk_bookmarks() {
    let mut s = state();
    assert_eq!(press(&mut s, b"\x1b[C"), InputStep::Redraw(3));
    assert_eq!(s.bookmark_index, Some(26));
    assert_eq!(s.current_target(), Ok("main".to_string()));
    s.update_bookmark(1);
    assert_eq!(s.bookmark_index, Some(38));
    assert_eq!(s.current_target(), Ok("release".to_string()));
    s.update_bookmark(1);
    assert_eq!(s.bookmark_index, None);
    assert_eq!(s.current_target(), Ok(HASH2.to_string()));
    s.update_bookmark(-1);
    assert_eq!(s.bookmark_index, Some(38));
    s.update_bookmark(-1);
    assert_eq!(s.bookmark_index, Some(26));
    s.update_bookmark(-1);
    assert_eq!(s.bookmark_index, None);
}

#[test]
fn moving_commit_drops_bookmark() {
    let mut s = state();
    s.update_bookmark(1);
    s.update_commit(1);
    assert_eq!(s.bookmark_index, None);
}

#[test]
fn enter_on_bookmark_checks_out_bookmark() {
    let mut s = state();
    s.update_bookmark(1);
    assert_eq!(press(&mut s, b"\r"), InputStep::Done(Ok(Some(Action::Up("main".to_string())))));
    assert_eq!(press(&mut s, b"p"), InputStep::Done(Ok(Some(Action::Up("main^".to_string())))));
}

#[test]
fn rebase_then_enter_rebases() {
    let mut s = state();
    assert_eq!(press(&mut s, b"r"), InputStep::Redraw(1));
    assert_eq!(s.rebasing, Some(HASH2.to_string()));
    assert_eq!(s.rebasing_pos, Some(Pos { line: 2, col: 2 }));
    press(&mut s, b"k");
    assert_eq!(
        press(&mut s, b"\r"),
        InputStep::Done(Ok(Some(Action::Rebase {
            source: HASH2.to_string(),
            dest: HASH0.to_string()
        })))
    );
    assert_eq!(
        press(&mut s, b"p"),
        InputStep::Done(Ok(Some(Action::Rebase {
            source: HASH2.to_string(),
            dest: format!("{HASH0}^")
        })))
    );
}

#[test]
fn rebase_twice_clears_source() {
    let mut s = state();
    s.rebase_from_current().unwrap();
    s.rebase_from_current().unwrap();
    assert_eq!(s.rebasing, None);
    assert_eq!(s.rebasing_pos, None);
}

#[test]
fn hide_hides_the_target() {
    let mut s = state();
    assert_eq!(press(&mut s, b"x"), InputStep::Done(Ok(Some(Action::Hide(HASH2.to_string())))));
}

#[test]
fn missing_hash_is_an_error() {
    let lines = vec!["  @  short".to_string()];
    let mut s = AppState::new(lines).unwrap();
    let msg = "could not find commit hash".to_string();
    assert_eq!(s.current_target(), Err(msg.clone()));
    assert_eq!(press(&mut s, b"\r"), InputStep::Done(Err(msg.clone())));
    assert_eq!(press(&mut s, b"x"), InputStep::Done(Err(msg.clone())));
    assert_eq!(press(&mut s, b"r"), InputStep::Done(Err(msg)));
    assert_eq!(s.rebasing, None);
}

#[test]
fn line_after_commit_is_next_commit_line() {
    let mut s = state();
    assert_eq!(s.line_after_commit(), 4);
    s.update_commit(1);
    assert_eq!(s.line_after_commit(), 6);
}

#[test]
fn color_markers_follow_the_commit() {
    let s = state();
    assert_eq!(
        s.color_markers_for_commit(4, 1),
        vec![Pos { line: 1, col: 4 }, Pos { line: 2, col: 4 }]
    );
    assert!(s.color_markers_for_commit(2, 0).is_empty());
}

#[test]
fn mark_rebase_pos_puts_arrow() {
    let mut s = state();
    s.rebase_from_current().unwrap();
    let mut lines = vec!["ab".to_string(), "  @  x".to_string()];
    s.mark_rebase_pos(&mut lines, 0);
    assert_eq!(lines, vec!["ab".to_string(), "  @  x".to_string()]);
    s.mark_rebase_pos(&mut lines, 1);
    assert_eq!(lines[1], "  \u{1b}[0;1m←\u{1b}[0m x");
    let mut short = vec!["a".to_string()];
    s.mark_rebase_pos(&mut short, 0);
    assert_eq!(short, vec!["a".to_string()]);
}

#[test]
fn render_shows_window_with_markers() {
    let s = state();
    let lines = s.render_lines(10);
    let mut expected = sample();
    expected[2] = format!("  @ \u{1b}[35m {HASH2}  alice  \u{1b}[0;32mmain \u{1b}[0;32mrelease*");
    expected[3] = "  │ \u{1b}[35m first commit".to_string();
    assert_eq!(lines, expected);
    let frame = s.render_frame(10);
    assert_eq!(
        frame,
        format!("\u{1b}[2J\u{1b}[0f\u{1b}[0m{}\r\n", expected.join("\u{1b}[0m\r\n"))
    );
}

#[test]
fn render_scrolls_to_keep_commit_visible() {
    let s = state();
    assert_eq!(s.render_lines(2), vec!["  │ \u{1b}[35m first commit".to_string()]);
    let three = s.render_lines(3);
    assert_eq!(three.len(), 2);
    assert!(three[0].starts_with("  @ \u{1b}[35m"));
    assert!(s.render_lines(0).is_empty());
}

#[test]
fn render_marks_bookmark_and_rebase_source() {
    let mut s = state();
    s.rebase_from_current().unwrap();
    s.update_bookmark(1);
    let lines = s.render_lines(10);
    assert_eq!(
        lines[2],
        format!(
            "  \u{1b}[0;1m←\u{1b}[0m\u{1b}[35m {HASH2}  alice  \u{1b}[0;32m\u{1b}[0;33mmain \u{1b}[0;32mrelease*"
        )
    );
}

#[test]
fn command_argv_builds_sl_commands() {
    let extra = vec!["--clean".to_string()];
    assert_eq!(
        command_argv(&Action::Up("abc".to_string()), &extra),
        Some(vec!["up".to_string(), "--clean".to_string(), "abc".to_string()])
    );
    assert_eq!(
        command_argv(
            &Action::Rebase { source: "s1".to_string(), dest: "d1".to_string() },
            &extra
        ),
        Some(
            ["rebase", "--clean", "-s", "s1", "-d", "d1"]
                .iter()
                .map(|s| s.to_string())
                .collect()
        )
    );
    assert_eq!(
        command_argv(&Action::Hide("h".to_string()), &[]),
        Some(vec!["hide".to_string(), "h".to_string()])
    );
    assert_eq!(command_argv(&Action::Quit(0), &extra), None);
}

#[test]
fn zero_step_keeps_commit_and_drops_bookmark() {
    let mut s = state();
    s.update_bookmark(1);
    s.update_commit(0);
    assert_eq!(s.commit_pos, Pos { line: 2, col: 2 });
    assert_eq!(s.bookmark_index, None);
}

#[test]
fn huge_steps_leave_the_lines() {
    let mut s = state();
    s.update_commit(isize::MAX);
    assert_eq!(s.commit_pos, Pos { line: 2, col: 2 });
    s.update_commit(isize::MIN);
    assert_eq!(s.commit_pos, Pos { line: 2, col: 2 });
    s.update_commit(2);
    assert_eq!(s.commit_pos, Pos { line: 4, col: 2 });
}
