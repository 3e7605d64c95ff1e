use lib::text::{
    char_pos, find_hex_commit, index_of, insert, insert_at_char, is_ascii_hexdigit, is_whitespace,
    join_lines, replace_at_char, slice_chars, strip_ansi,
};
use lib::Pos;

#[test]
fn strip_ansi_removes_colour_sequences() {
    assert_eq!(strip_ansi("\u{1b}[31mred\u{1b}[0m plain"), "red plain");
}

#[test]
fn strip_ansi_drops_a_lone_escape_only() {
    assert_eq!(strip_ansi("a\u{1b}b"), "ab");
    assert_eq!(strip_ansi("a\u{1b}"), "a");
}

#[test]
fn strip_ansi_unterminated_sequence_runs_to_end() {
    assert_eq!(strip_ansi("ab\u{1b}[0;32"), "ab");
}

#[test]
fn strip_ansi_twice_is_once() {
    let s = "\u{1b}\u{1b}[1mx\u{1b}y\u{1b}[0m";
    let once = strip_ansi(s);
    assert_eq!(once, "xy");
    assert_eq!(strip_ansi(&once), once);
}

#[test]
fn slice_chars_counts_characters() {
    assert_eq!(slice_chars("héllo", 1), "éllo");
    assert_eq!(slice_chars("héllo", 2), "llo");
    assert_eq!(slice_chars("héllo", 5), "");
    assert_eq!(slice_chars("héllo", 99), "");
}

#[test]
fn replace_at_char_replaces_two_characters() {
    assert_eq!(replace_at_char("abcd", 1, "XY"), "aXYd");
    assert_eq!(replace_at_char("abc", 2, "<"), "ab<");
    assert_eq!(replace_at_char("abc", 0, ""), "c");
}

#[test]
fn replace_at_char_past_end_keeps_string() {
    assert_eq!(replace_at_char("abc", 3, "X"), "abc");
    assert_eq!(replace_at_char("", 0, "X"), "");
}

#[test]
fn insert_at_char_inserts_before_index() {
    assert_eq!(insert_at_char("abc", 0, "Z"), "Zabc");
    assert_eq!(insert_at_char("aéc", 2, "Z"), "aéZc");
}

#[test]
fn insert_at_char_past_end_appends() {
    assert_eq!(insert_at_char("abc", 3, "Z"), "abcZ");
    assert_eq!(insert_at_char("abc", 10, "Z"), "abcZ");
}

#[test]
fn insert_skips_positions_off_the_lines() {
    let mut lines = vec!["ab".to_string(), "cd".to_string()];
    let positions = [
        Pos { line: -1, col: 0 },
        Pos { line: 1, col: 1 },
        Pos { line: 2, col: 0 },
        Pos { line: 1, col: 0 },
    ];
    insert("*", &positions, &mut lines);
    assert_eq!(lines, vec!["ab".to_string(), "*c*d".to_string()]);
}

#[test]
fn find_hex_commit_takes_first_long_run() {
    assert_eq!(
        find_hex_commit("@  0123456789ab  alice  fedcba987654"),
        Some("0123456789ab".to_string())
    );
}

#[test]
fn find_hex_commit_takes_whole_run() {
    assert_eq!(
        find_hex_commit("x 0123456789abcdef0"),
        Some("0123456789abcdef0".to_string())
    );
}

#[test]
fn find_hex_commit_skips_short_runs() {
    assert_eq!(find_hex_commit("abc 12345 deadbeef"), None);
    assert_eq!(find_hex_commit("ab12 ABCDEF012345"), Some("ABCDEF012345".to_string()));
    assert_eq!(find_hex_commit(""), None);
}

#[test]
fn find_hex_commit_run_is_maximal() {
    // "bob" ends in a hex digit run "b" glued to the hash: the run is taken whole.
    assert_eq!(find_hex_commit("zb0123456789ab z"), Some("b0123456789ab".to_string()));
}

#[test]
fn index_of_forward_and_backward() {
    let s = "a--b--c";
    assert_eq!(index_of(1, 0, "--", s), Some(1));
    assert_eq!(index_of(1, 2, "--", s), Some(4));
    assert_eq!(index_of(1, 5, "--", s), None);
    assert_eq!(index_of(-1, 6, "--", s), Some(4));
    assert_eq!(index_of(-1, 3, "--", s), Some(1));
    assert_eq!(index_of(-1, 0, "--", s), None);
}

#[test]
fn index_of_matches_do_not_overlap() {
    assert_eq!(index_of(1, 1, "aa", "aaa"), None);
    assert_eq!(index_of(-1, 2, "aa", "aaaa"), Some(2));
}

#[test]
fn index_of_counts_characters() {
    assert_eq!(index_of(1, 0, "x", "ééx"), Some(2));
}

#[test]
fn index_of_empty_pattern_matches_everywhere() {
    assert_eq!(index_of(1, 2, "", "abc"), Some(2));
    assert_eq!(index_of(-1, 9, "", "abc"), Some(3));
}

#[test]
fn char_pos_counts_characters_before_byte() {
    assert_eq!(char_pos("héllo", 0), 0);
    assert_eq!(char_pos("héllo", 3), 2);
    assert_eq!(char_pos("héllo", 6), 5);
}

#[test]
fn character_classes() {
    assert!(is_whitespace(' '));
    assert!(is_whitespace('\u{3000}'));
    assert!(!is_whitespace('x'));
    assert!(is_ascii_hexdigit('F'));
    assert!(!is_ascii_hexdigit('g'));
    for c in ['\t', '\n', '\u{85}', '\u{a0}', '\u{2009}', 'a', '0', '\u{200b}'] {
        assert_eq!(is_whitespace(c), c.is_whitespace());
    }
}

#[test]
fn join_lines_puts_separator_between() {
    let lines = vec!["a".to_string(), "b".to_string(), "c".to_string()];
    assert_eq!(join_lines(&lines, ", "), "a, b, c");
    assert_eq!(join_lines(&[], ", "), "");
}
