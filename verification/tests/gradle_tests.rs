use log_analyser::gradle::{analyse, parse_error};
use log_analyser::types::{Location, Message};

#[test]
fn gradle_should_find_syntax_error() {
    let caret_line = format!("{}^", " ".repeat(29));
    let log = format!(
        "> Task :app:compileJava FAILED\n/home/michael/tmp/gradle-test/app/src/main/java/gradle/test/App.java:8: error ';' expected\n        System.out.println(\"Hello world\")\n{}\n1 error\n",
        caret_line
    );
    let result = analyse(&log, "/home/michael/tmp/gradle-test");

    assert_eq!(
        result,
        vec![Message {
            error: "error ';' expected".to_string(),
            locations: vec![Location {
                path: "/home/michael/tmp/gradle-test/app/src/main/java/gradle/test/App.java"
                    .to_string(),
                row: 8,
                col: 30
            }]
        }]
    );
}

#[test]
fn gradle_without_caret_line_keeps_column_unknown() {
    let m = parse_error("/p/App.java:12: warning unused", None).unwrap();
    assert_eq!(m.error, "warning unused");
    assert_eq!(
        m.locations,
        vec![Location { path: "/p/App.java".to_string(), row: 12, col: 0 }]
    );
}

#[test]
fn gradle_row_accepts_a_leading_plus() {
    let m = parse_error("/p/App.java:+8: error x", None).unwrap();
    assert_eq!(m.locations[0].row, 8);
}

#[test]
fn gradle_caret_column_is_one_based() {
    let m = parse_error("/p/App.java:3: error x", Some("  ^")).unwrap();
    assert_eq!(m.error, "error x");
    assert_eq!(m.locations[0].col, 3);
    assert_eq!(m.locations[0].row, 3);
}

#[test]
fn gradle_unparsable_row_yields_nothing() {
    assert_eq!(parse_error("/p/App.java:twelve: error x", None), None);
    assert_eq!(parse_error("/p/App.java:99999999999999999999999: error x", None), None);
    assert_eq!(parse_error("no colon here", None), None);
}

#[test]
fn gradle_message_colons_are_dropped_by_the_split() {
    let m = parse_error("/p/App.java:5: error: bad: worse", None).unwrap();
    assert_eq!(m.error, "error bad worse");
}

#[test]
fn gradle_trigger_matches_trimmed_line() {
    let log = "   /root/proj/A.java:2: error y\n\n\n";
    let result = analyse(log, "/root/proj");
    assert_eq!(result.len(), 1);
    assert_eq!(result[0].locations[0].row, 2);
    assert_eq!(result[0].locations[0].col, 0);
}
