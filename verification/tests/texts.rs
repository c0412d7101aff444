use arbor_git::git::join_path;
use arbor_git::text;

#[test]
fn lines_end_with_feeds() {
    assert_eq!(text::split_lines("a\nb\r\n\nc"), vec!["a", "b", "", "c"]);
    assert_eq!(text::split_lines("a\n"), vec!["a"]);
    assert_eq!(text::split_lines("a\rb"), vec!["a\rb"]);
    assert_eq!(text::split_lines("a\r"), vec!["a\r"]);
    assert!(text::split_lines("").is_empty());
    for s in ["", "\n", "a", "a\n\nb\n", "\r\n", "x\r\r\ny", "é\nü"] {
        let expected: Vec<&str> = s.lines().collect();
        assert_eq!(text::split_lines(s), expected);
    }
}

#[test]
fn trimming_takes_all_white_space() {
    for s in ["", " a ", "\t\u{a0}x\u{3000}", "\u{200b}x", "\u{85}\u{2028}", "a b"] {
        assert_eq!(text::trimmed(s), s.trim());
    }
}

#[test]
fn splitting_keeps_empty_pieces() {
    for s in ["", " ", "a b", " a  b ", "abc"] {
        let expected: Vec<&str> = s.split(' ').collect();
        assert_eq!(text::split_at_each(s, ' '), expected);
    }
}

#[test]
fn trailing_slashes_are_cut() {
    assert_eq!(text::trimmed_end_of("src//", '/'), "src");
    assert_eq!(text::trimmed_end_of("//", '/'), "");
    assert_eq!(text::trimmed_end_of("a/b", '/'), "a/b");
}

#[test]
fn numbers_are_written_and_read() {
    assert_eq!(text::to_decimal(0), "0");
    assert_eq!(text::to_decimal(1_234_567_890), "1234567890");
    assert_eq!(text::to_decimal(u64::MAX), u64::MAX.to_string());
    for s in ["", "+", "0", "007", "+12", "-1", "12a", "65535", "65536", "18446744073709551615", "18446744073709551616"] {
        assert_eq!(text::parse_number(s, 65535), s.parse::<u16>().ok().map(u64::from));
        assert_eq!(text::parse_number(s, u64::MAX), s.parse::<u64>().ok());
    }
}

#[test]
fn order_is_by_character() {
    for (a, b) in [("", "a"), ("a", "a"), ("a", "b"), ("B", "a"), ("ab", "b"), ("é", "z"), ("a", "aa")] {
        assert_eq!(text::comes_before(a, b), a < b);
        assert_eq!(text::comes_before(b, a), b < a);
    }
}

#[test]
fn sorted_lists_hold_each_text_once() {
    let mut list: Vec<String> = Vec::new();
    for s in ["b", "a", "c", "b", "a", "d"] {
        text::put_sorted(&mut list, s.to_string());
    }
    assert_eq!(list, vec!["a", "b", "c", "d"]);
}

#[test]
fn paths_are_joined() {
    assert_eq!(join_path("/base", "owner"), "/base/owner");
    assert_eq!(join_path("/base/", "owner"), "/base/owner");
    assert_eq!(join_path("", "owner"), "owner");
    assert_eq!(join_path("/base", "/abs"), "/abs");
    assert_eq!(join_path("/base", ""), "/base/");
}

#[test]
fn beginnings_and_ends() {
    assert!(text::starts_with("abc", "ab") && !text::starts_with("abc", "b") && text::starts_with("abc", ""));
    assert!(text::ends_with("abc", "bc") && !text::ends_with("abc", "b") && text::ends_with("abc", ""));
    assert!(!text::starts_with("a", "ab") && !text::ends_with("a", "ba"));
}
