use log_analyser::karma_jasmine::{analyse, parse_frame_location, parse_test_location};
use log_analyser::types::{AnalyseReport, Location, Message};

const FAILED: &str = " FAILED\u{1b}[39m";

#[test]
fn karma_jasmine_should_find_syntax_error() {
    let log = format!(
        "Chrome Headless 90.0 (Linux) AppComponent should create{}\n\tExpected true to be false.\n\tat stuff (node_modules/karma-jasmine/lib/boot.js:123:19)\n\tat UserContext.<anonymous> (src/app/app.component.spec.ts:35:18)\n\nChrome Headless 90.0 (Linux) OtherServiceService should be created{}\n\tExpected OtherServiceService({{  }}) to be false.\n\tat UserContext.<anonymous> (src/app/components/other-service.service.spec.ts:14:21)\n",
        FAILED, FAILED
    );
    let result = analyse(&log, "/tmp/project");

    assert_eq!(
        result,
        AnalyseReport {
            errors: vec![
                Message {
                    error: "Expected true to be false.".to_string(),
                    locations: vec![Location {
                        path: "/tmp/project/src/app/app.component.spec.ts".to_string(),
                        row: 35,
                        col: 18
                    }]
                },
                Message {
                    error: "Expected OtherServiceService({  }) to be false.".to_string(),
                    locations: vec![Location {
                        path: "/tmp/project/src/app/components/other-service.service.spec.ts"
                            .to_string(),
                        row: 14,
                        col: 21
                    }]
                }
            ],
        }
    );
}

#[test]
fn exception_block_with_frame() {
    let log = "TypeError: Cannot read property 'x' of undefined\n    at Foo (/src/app/foo.ts:10:5)\n";
    let result = analyse(log, "/tmp/project");
    assert_eq!(
        result.errors,
        vec![Message {
            error: "Cannot read property 'x' of undefined".to_string(),
            locations: vec![Location {
                path: "/tmp/project/src/app/foo.ts".to_string(),
                row: 10,
                col: 5
            }]
        }]
    );
}

#[test]
fn failed_block_with_application_frame() {
    let log = format!(
        "HeadlessChrome 90.0 (Linux) AppComponent should create{}\nExpected true to be false.\nsome filler line\n",
        FAILED
    );
    // The frame run starts two lines below the marker; here it is empty, so
    // nothing is emitted even though an error line exists.
    assert_eq!(analyse(&log, "/tmp/project").errors, vec![]);

    let log = format!(
        "spec{}\n  Expected true to be false.\n  at UserCtx.<anonymous> (src/app/app.component.spec.ts:35:18)\n",
        FAILED
    );
    let result = analyse(&log, "/tmp/project");
    assert_eq!(
        result.errors,
        vec![Message {
            error: "Expected true to be false.".to_string(),
            locations: vec![Location {
                path: "/tmp/project/src/app/app.component.spec.ts".to_string(),
                row: 35,
                col: 18
            }]
        }]
    );
}

#[test]
fn failed_block_without_application_frame_is_silent() {
    let log = format!(
        "X should work{}\nExpected 1 to be 2.\n  at foo (node_modules/lib/a.js:1:2)\n  at bar (node_modules/lib/b.js:3:4)\n",
        FAILED
    );
    assert_eq!(analyse(&log, "/tmp/project").errors, vec![]);
}

#[test]
fn exception_line_without_delimiter_is_silent() {
    let log = "TypeError:\n    at Foo (/src/app/foo.ts:10:5)\n";
    assert_eq!(analyse(log, "/tmp/project").errors, vec![]);
    let log = "Error\n    at Foo (/src/app/foo.ts:10:5)\n";
    assert_eq!(analyse(log, "/tmp/project").errors, vec![]);
}

#[test]
fn usage_sentinel_opens_an_exception_block() {
    let log = "Usage: tool run [options]\n";
    let result = analyse(log, "/p");
    assert_eq!(result.errors.len(), 1);
    assert_eq!(result.errors[0].error, "tool run [options]");
    assert_eq!(result.errors[0].locations, vec![]);
}

#[test]
fn exception_emits_even_without_resolvable_frames() {
    let log = "Error: something broke\n    at q (/node_modules/x.js:1:2)\nnext\n";
    let result = analyse(log, "/tmp/project");
    assert_eq!(
        result.errors,
        vec![Message { error: "something broke".to_string(), locations: vec![] }]
    );
}

#[test]
fn emitted_frame_paths_stay_under_src() {
    let log = "Error: mixed frames\n  at a (/src/app/a.ts:1:2)\n  at b (/node_modules/b.js:3:4)\n  at c (/usr/lib/runtime.js:5:6)\n  at d (src/app/d.ts:7:8)\n";
    let result = analyse(log, "/p");
    assert_eq!(result.errors.len(), 1);
    let paths: Vec<&str> = result.errors[0]
        .locations
        .iter()
        .map(|l| l.path.as_str())
        .collect();
    assert_eq!(paths, vec!["/p/src/app/a.ts", "/p/src/app/d.ts"]);
    assert!(paths.iter().all(|p| p.contains("/src/")));
}

#[test]
fn scan_is_idempotent() {
    let log = format!(
        "Error: boom\n    at Foo (/src/app/foo.ts:10:5)\nspec{}\nExpected a to be b.\n  at c (src/app/c.ts:1:2)\n",
        FAILED
    );
    let first = analyse(&log, "/tmp/project");
    let second = analyse(&log, "/tmp/project");
    assert_eq!(first, second);
}

#[test]
fn messages_keep_log_order() {
    let log = format!(
        "TypeError: first\n    at Foo (/src/app/foo.ts:1:1)\nfiller\nspec{}\nsecond\n  at c (src/app/c.ts:2:2)\nfiller\nError: third\n",
        FAILED
    );
    let result = analyse(&log, "/p");
    let errors: Vec<String> = result.errors.iter().map(|m| m.error.clone()).collect();
    assert_eq!(
        errors,
        vec!["first".to_string(), "second".to_string(), "third".to_string()]
    );
}

#[test]
fn both_triggers_can_fire_on_one_line() {
    let log = format!(
        "Error: boom{}\nnext msg\n  at x (src/app/a.ts:1:2)\n",
        FAILED
    );
    let result = analyse(&log, "/p");
    assert_eq!(result.errors.len(), 2);
    assert_eq!(result.errors[0].error, format!("boom{}", FAILED));
    assert_eq!(result.errors[0].locations, vec![]);
    assert_eq!(result.errors[1].error, "next msg");
    assert_eq!(
        result.errors[1].locations,
        vec![Location { path: "/p/src/app/a.ts".to_string(), row: 1, col: 2 }]
    );
}

#[test]
fn frame_with_bundler_marker_is_rewritten() {
    let loc =
        parse_frame_location("at Foo (bundle.../webpack:/src/app/m.ts:3:9)", "/p").unwrap();
    assert_eq!(loc.path, "/p/src/app/m.ts");
    assert_eq!(loc.row, 3);
    assert_eq!(loc.col, 9);
}

#[test]
fn frame_outside_src_subtree_is_dropped() {
    assert_eq!(parse_frame_location("at q (/node_modules/x.js:1:2)", "/p"), None);
    assert_eq!(parse_frame_location("at q (plain)", "/p"), None);
    assert_eq!(parse_frame_location("no parens here", "/p"), None);
}

#[test]
fn frame_path_is_made_absolute() {
    let loc = parse_frame_location("at Foo (src/app/foo.ts:10:5)", "/p").unwrap();
    assert_eq!(loc.path, "/p/src/app/foo.ts");
}

#[test]
fn frame_with_unparsable_row_defaults_to_zero() {
    let loc = parse_frame_location("at Foo (/src/app/foo.ts:ten:5x)", "/p").unwrap();
    assert_eq!(loc.row, 0);
    assert_eq!(loc.col, 0);
}

#[test]
fn test_location_reads_path_row_col() {
    let loc =
        parse_test_location("at UserCtx.<anonymous> (src/app/x.spec.ts:35:18)", "/tmp/project")
            .unwrap();
    assert_eq!(loc.path, "/tmp/project/src/app/x.spec.ts");
    assert_eq!(loc.row, 35);
    assert_eq!(loc.col, 18);

    let loc = parse_test_location("at x (src/app/y.ts:+35:18)", "/p").unwrap();
    assert_eq!(loc.row, 35);
    assert_eq!(loc.col, 18);
}

#[test]
fn test_location_needs_bracket_and_colons() {
    assert_eq!(parse_test_location("at nothing here", "/p"), None);
    assert_eq!(parse_test_location("at x (nocolon)", "/p"), None);
    assert_eq!(parse_test_location("at x (only:", "/p"), None);
    assert_eq!(parse_test_location("at x (one:2)", "/p"), None);
}

#[test]
fn failed_marker_must_end_the_line() {
    let log = format!("spec{} trailing\nExpected.\n  at c (src/app/c.ts:1:2)\n", FAILED);
    assert_eq!(analyse(&log, "/p").errors, vec![]);
}
