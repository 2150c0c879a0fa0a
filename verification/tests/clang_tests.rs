use log_analyser::clang::{analyse, parse_line, parse_location};
use log_analyser::types::{Location, Message};

#[test]
fn error() {
    let log = "/tmp/project/main.c:47:5: warning: this style of line directive is a GNU extension [-Wgnu-line-marker]\n # 1 \"main.c\"\n/tmp/project/main.c:48:14: error: type specifier missing, defaults to 'int'; ISO C99 and later do not support implicit int [-Wimplicit-int]\nint main() {\n";
    let result = analyse(log, "/tmp/project");

    assert_eq!(
        result,
        vec![
            Message {
                error: "warning: this style of line directive is a GNU extension [-Wgnu-line-marker]".to_string(),
                locations: vec![Location {
                    path: "/tmp/project/main.c".to_string(),
                    row: 47,
                    col: 5
                }]
            },
            Message {
                error: "error: type specifier missing, defaults to 'int'; ISO C99 and later do not support implicit int [-Wimplicit-int]".to_string(),
                locations: vec![Location {
                    path: "/tmp/project/main.c".to_string(),
                    row: 48,
                    col: 14
                }]
            }
        ]
    );
}

#[test]
fn clang_parse_location_reads_first_three_fields() {
    let loc = parse_location("/tmp/project/main.c:47:5: warning: x").unwrap();
    assert_eq!(loc.path, "/tmp/project/main.c");
    assert_eq!(loc.row, 47);
    assert_eq!(loc.col, 5);
}

#[test]
fn clang_parse_location_needs_two_colons() {
    assert_eq!(parse_location("/tmp/project/main.c:47"), None);
    assert_eq!(parse_location("no colons at all"), None);
}

#[test]
fn clang_parse_location_unparsable_row_defaults_to_zero() {
    let loc = parse_location("main.c:abc:xyz: message").unwrap();
    assert_eq!(loc.row, 0);
    assert_eq!(loc.col, 0);

    let loc = parse_location("main.c:+47:+5: message").unwrap();
    assert_eq!(loc.row, 47);
    assert_eq!(loc.col, 5);
}

#[test]
fn clang_parse_line_needs_three_colons() {
    assert_eq!(parse_line("/tmp/project/main.c:47:5"), None);
    let m = parse_line("/tmp/project/main.c:47:5:   spaced message").unwrap();
    assert_eq!(m.error, "spaced message");
}

#[test]
fn clang_lines_not_under_project_dir_are_ignored() {
    let log = "/other/main.c:1:2: error: nope\n";
    assert_eq!(analyse(log, "/tmp/project"), vec![]);
}

#[test]
fn clang_empty_log_gives_empty_report() {
    assert_eq!(analyse("", "/tmp/project"), vec![]);
}
