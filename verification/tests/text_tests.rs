use log_analyser::text::{
    contains_sub, ends_with, find_char, find_sub, parse_usize_or_zero, parse_usize_strict,
    remove_colons, rfind_char, split_lines, starts_with, trim, trim_start,
};

#[test]
fn lines_split_like_str_lines() {
    assert_eq!(split_lines(""), Vec::<&str>::new());
    assert_eq!(split_lines("a"), vec!["a"]);
    assert_eq!(split_lines("a\n"), vec!["a"]);
    assert_eq!(split_lines("a\nb"), vec!["a", "b"]);
    assert_eq!(split_lines("a\r\nb\r\n"), vec!["a", "b"]);
    assert_eq!(split_lines("\n\n"), vec!["", ""]);
    // A carriage return not followed by a newline is ordinary line content.
    assert_eq!(split_lines("abc\r"), vec!["abc\r"]);
    assert_eq!(split_lines("a\rb\nc"), vec!["a\rb", "c"]);
}

#[test]
fn trim_removes_surrounding_whitespace() {
    assert_eq!(trim("  a b \t"), "a b");
    assert_eq!(trim("\t\r\n"), "");
    assert_eq!(trim(""), "");
    assert_eq!(trim("x"), "x");
    assert_eq!(trim_start("  x "), "x ");
}

#[test]
fn searches_find_first_and_last_occurrences() {
    assert_eq!(find_char("a:b:c", ':', 0), Some(1));
    assert_eq!(find_char("a:b:c", ':', 2), Some(3));
    assert_eq!(find_char("abc", ':', 0), None);
    assert_eq!(rfind_char("a(b(c", '('), Some(3));
    assert_eq!(rfind_char("abc", '('), None);
    assert_eq!(find_sub("xx at yy", "at ", 0), Some(3));
    assert_eq!(find_sub("xx", "at ", 0), None);
    assert!(contains_sub("a/src/b", "/src/"));
    assert!(!contains_sub("a/source/b", "/src/"));
    assert!(starts_with("at Foo", "at "));
    assert!(!starts_with("a", "at "));
    assert!(ends_with("x FAILED\u{1b}[39m", " FAILED\u{1b}[39m"));
    assert!(!ends_with("x FAILED", " FAILED\u{1b}[39m"));
}

#[test]
fn decimal_parse_defaults_to_zero_on_failure() {
    assert_eq!(parse_usize_or_zero("47"), 47);
    assert_eq!(parse_usize_or_zero("0"), 0);
    assert_eq!(parse_usize_or_zero(""), 0);
    assert_eq!(parse_usize_or_zero("4a"), 0);
    assert_eq!(parse_usize_or_zero("99999999999999999999999"), 0);
    assert_eq!(parse_usize_strict("18"), Some(18));
    assert_eq!(parse_usize_strict("1 8"), None);
    assert_eq!(parse_usize_strict(""), None);
}

#[test]
fn decimal_parse_accepts_one_leading_plus() {
    assert_eq!(parse_usize_strict("+18"), Some(18));
    assert_eq!(parse_usize_or_zero("+47"), 47);
    assert_eq!(parse_usize_strict("+"), None);
    assert_eq!(parse_usize_strict("++1"), None);
    assert_eq!(parse_usize_strict("1+8"), None);
    assert_eq!(parse_usize_strict("-1"), None);
}

#[test]
fn remove_colons_joins_fields() {
    assert_eq!(remove_colons("a:b:c"), "abc");
    assert_eq!(remove_colons(" error x"), " error x");
    assert_eq!(remove_colons(""), "");
}
