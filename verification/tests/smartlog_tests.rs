use lib::args::split_argv;
use lib::smartlog::{
    commit_marker_pos, contains_str, is_commit_line, is_current_commit_line, search,
    smartlog_lines, LineKind,
};
use lib::terminal::{parse_usize, terminal_size, ParseFailure};
use lib::Pos;

fn strings(v: &[&str]) -> Vec<String> {
    v.iter().map(|s| s.to_string()).collect()
}

#[test]
fn commit_lines_are_recognised_after_the_graph() {
    assert_eq!(is_current_commit_line("  @  abc"), Some(2));
    assert_eq!(is_current_commit_line("│ o  abc"), None);
    assert_eq!(is_commit_line("│ o  abc"), Some(2));
    assert_eq!(is_commit_line("╭─╯"), None);
    assert_eq!(is_commit_line("  x o"), None);
    assert_eq!(is_commit_line("o"), Some(0));
}

#[test]
fn commit_marker_pos_uses_the_marker() {
    assert_eq!(commit_marker_pos("  * x", |c| c == '*'), Some(2));
    assert_eq!(commit_marker_pos("  * x", |c| c == '@'), None);
}

#[test]
fn search_walks_in_either_direction() {
    let lines = strings(&["  o  a", "  │", "  @  b", "  │", "  o  c", "  ~"]);
    let from = Pos { line: 2, col: 2 };
    assert_eq!(search(1, from, LineKind::Commit, &lines), Some(Pos { line: 4, col: 2 }));
    assert_eq!(search(-1, from, LineKind::Commit, &lines), Some(Pos { line: 0, col: 2 }));
    assert_eq!(search(1, Pos { line: 4, col: 2 }, LineKind::Commit, &lines), None);
    assert_eq!(
        search(1, Pos { line: -1, col: 0 }, LineKind::CurrentCommit, &lines),
        Some(Pos { line: 2, col: 2 })
    );
}

#[test]
fn smartlog_lines_cut_hints_and_trailing_blanks() {
    let out = "  @  abc\r\n  │  msg\n\n\u{1b}[1mhint[smartlog]\u{1b}[0m: x\nmore\n";
    assert_eq!(smartlog_lines(out), strings(&["  @  abc", "  │  msg"]));
}

#[test]
fn smartlog_lines_keep_a_lone_carriage_return() {
    assert_eq!(smartlog_lines("a\rb\nc\r"), strings(&["a\rb", "c\r"]));
    assert_eq!(smartlog_lines("\n\n"), Vec::<String>::new());
}

#[test]
fn contains_str_finds_substrings() {
    assert!(contains_str("see hint[x]", "hint["));
    assert!(!contains_str("hint", "hint["));
    assert!(contains_str("", ""));
}

#[test]
fn split_argv_splits_at_first_separator() {
    let (a, b) = split_argv(&strings(&["--stat", "--", "--clean", "--", "x"]));
    assert_eq!(a, strings(&["--stat"]));
    assert_eq!(b, strings(&["--clean", "--", "x"]));
}

#[test]
fn split_argv_without_separator() {
    let (a, b) = split_argv(&strings(&["--stat", "-r"]));
    assert_eq!(a, strings(&["--stat", "-r"]));
    assert!(b.is_empty());
}

#[test]
fn terminal_size_reads_rows_and_columns() {
    assert_eq!(terminal_size("24 80\n"), Ok((24, 80)));
    assert_eq!(terminal_size("  +3\t7  9"), Ok((3, 7)));
}

#[test]
fn terminal_size_reports_what_is_missing() {
    assert_eq!(terminal_size(""), Err("missing terminal rows".to_string()));
    assert_eq!(terminal_size(" 24 \n"), Err("missing terminal cols".to_string()));
}

#[test]
fn terminal_size_reports_unreadable_numbers() {
    assert_eq!(terminal_size("x 80"), Err("invalid digit found in string".to_string()));
    assert_eq!(terminal_size("24 -1"), Err("invalid digit found in string".to_string()));
    assert_eq!(
        terminal_size("99999999999999999999999999 1"),
        Err("number too large to fit in target type".to_string())
    );
}

#[test]
fn parse_usize_agrees_with_std() {
    for t in ["0", "+12", "+", "-", "-3", "12a", "", "007", "18446744073709551615", "18446744073709551616", "1x99999999999999999999999"] {
        let ours = parse_usize(t);
        let std = t.parse::<usize>();
        match (ours, std) {
            (Ok(a), Ok(b)) => assert_eq!(a, b, "{t}"),
            (Err(k), Err(e)) => {
                let msg = lib::terminal::failure_text(k);
                assert_eq!(msg, e.to_string(), "{t}");
            }
            (a, b) => panic!("{t}: {a:?} vs {b:?}"),
        }
    }
    assert_eq!(parse_usize(""), Err(ParseFailure::Empty));
}

#[test]
fn search_with_extreme_directions() {
    let lines = strings(&["  o  a", "  @  b"]);
    assert_eq!(search(isize::MAX, Pos { line: -1, col: 0 }, LineKind::Commit, &lines), None);
    assert_eq!(
        search(isize::MAX, Pos { line: isize::MAX, col: 0 }, LineKind::Commit, &lines),
        None
    );
    assert_eq!(
        search(0, Pos { line: 1, col: 0 }, LineKind::Commit, &lines),
        Some(Pos { line: 1, col: 2 })
    );
}
