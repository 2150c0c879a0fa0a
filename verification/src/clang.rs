//! Compiler-style scanner: a line starting with the project directory is read
//! as `path:row:col: message` and becomes one message with one location.

use crate::text::{
    find_char, lemma_find_char_from_props, parse_usize_or_zero, spec_find_char_from, spec_lines,
    spec_parse_or_zero, spec_starts_with, spec_trim_start, split_lines, starts_with, trim_start,
};
use crate::types::{report_view, Location, LocationView, Message, MessageView};
use vstd::prelude::*;
use vstd::string::*;

verus! {

/// The location the first three `':'`-separated fields of `l` encode: `path`
/// before the first `':'`, then row and column, each 0 when unparsable.
/// Nothing when `l` holds fewer than two `':'`.
pub open spec fn spec_parse_location(l: Seq<char>) -> Option<LocationView> {
    match spec_find_char_from(l, ':', 0) {
        None => None,
        Some(c1) => match spec_find_char_from(l, ':', c1 + 1) {
            None => None,
            Some(c2) => {
                let col_str = match spec_find_char_from(l, ':', c2 + 1) {
                    Some(c3) => l.subrange(c2 + 1, c3),
                    None => l.subrange(c2 + 1, l.len() as int),
                };
                Some(
                    LocationView {
                        path: l.take(c1),
                        row: spec_parse_or_zero(l.subrange(c1 + 1, c2)),
                        col: spec_parse_or_zero(col_str),
                    },
                )
            },
        },
    }
}

/// The message one log line yields: its location and, after the third `':'`,
/// the message text with leading whitespace removed. Nothing when `l` holds
/// fewer than three `':'`.
pub open spec fn spec_parse_line(l: Seq<char>) -> Option<MessageView> {
    match spec_find_char_from(l, ':', 0) {
        None => None,
        Some(c1) => match spec_find_char_from(l, ':', c1 + 1) {
            None => None,
            Some(c2) => match spec_find_char_from(l, ':', c2 + 1) {
                None => None,
                Some(c3) => Some(
                    MessageView {
                        error: spec_trim_start(l.subrange(c3 + 1, l.len() as int)),
                        locations: seq![
                            LocationView {
                                path: l.take(c1),
                                row: spec_parse_or_zero(l.subrange(c1 + 1, c2)),
                                col: spec_parse_or_zero(l.subrange(c2 + 1, c3)),
                            },
                        ],
                    },
                ),
            },
        },
    }
}

/// Messages of the lines from index `i` on: one per line that starts with
/// `dir` and parses, in line order.
pub open spec fn spec_scan_from(lines: Seq<Seq<char>>, dir: Seq<char>, i: int) -> Seq<MessageView>
    decreases lines.len() - i,
{
    if i < 0 || i >= lines.len() {
        Seq::empty()
    } else {
        let rest = spec_scan_from(lines, dir, i + 1);
        if spec_starts_with(lines[i], dir) {
            match spec_parse_line(lines[i]) {
                Some(m) => seq![m] + rest,
                None => rest,
            }
        } else {
            rest
        }
    }
}

/// Full result of this scanner on log text `log` with prefix `dir`.
pub open spec fn spec_analyse(log: Seq<char>, dir: Seq<char>) -> Seq<MessageView> {
    spec_scan_from(spec_lines(log), dir, 0)
}

/// Reads `path:row:col` from the first three fields of a line.
pub fn parse_location(location: &str) -> (r: Option<Location>)
    ensures
        match r {
            Some(loc) => spec_parse_location(location@) == Some(loc@),
            None => spec_parse_location(location@) is None,
        },
{
    let n = location.unicode_len();
    let c1 = match find_char(location, ':', 0) {
        Some(i) => i,
        None => {
            return None;
        },
    };
    let c2 = match find_char(location, ':', c1 + 1) {
        Some(i) => i,
        None => {
            return None;
        },
    };
    proof {
        lemma_find_char_from_props(location@, ':', 0);
        lemma_find_char_from_props(location@, ':', c1 + 1);
    }
    let n = location.unicode_len();
    let col_str = match find_char(location, ':', c2 + 1) {
        Some(c3) => {
            proof {
                lemma_find_char_from_props(location@, ':', c2 + 1);
            }
            location.substring_char(c2 + 1, c3)
        },
        None => location.substring_char(c2 + 1, n),
    };
    let path = location.substring_char(0, c1);
    let row_str = location.substring_char(c1 + 1, c2);
    let loc = Location {
        path: String::from_str(path),
        row: parse_usize_or_zero(row_str),
        col: parse_usize_or_zero(col_str),
    };
    proof {
        assert(loc@ =~= spec_parse_location(location@)->Some_0);
    }
    Some(loc)
}

/// Parses one compiler line into a message with its location.
pub fn parse_line(line: &str) -> (r: Option<Message>)
    ensures
        match r {
            Some(m) => spec_parse_line(line@) == Some(m@),
            None => spec_parse_line(line@) is None,
        },
{
    let n = line.unicode_len();
    let c1 = match find_char(line, ':', 0) {
        Some(i) => i,
        None => {
            return None;
        },
    };
    let c2 = match find_char(line, ':', c1 + 1) {
        Some(i) => i,
        None => {
            return None;
        },
    };
    let c3 = match find_char(line, ':', c2 + 1) {
        Some(i) => i,
        None => {
            return None;
        },
    };
    proof {
        lemma_find_char_from_props(line@, ':', 0);
        lemma_find_char_from_props(line@, ':', c1 + 1);
        lemma_find_char_from_props(line@, ':', c2 + 1);
    }
    let path = line.substring_char(0, c1);
    let row_str = line.substring_char(c1 + 1, c2);
    let col_str = line.substring_char(c2 + 1, c3);
    let msg = trim_start(line.substring_char(c3 + 1, n));
    let loc = Location {
        path: String::from_str(path),
        row: parse_usize_or_zero(row_str),
        col: parse_usize_or_zero(col_str),
    };
    let m = Message { error: String::from_str(msg), locations: vec![loc] };
    proof {
        assert(m@.locations =~= seq![loc@]);
        assert(m@ =~= spec_parse_line(line@)->Some_0);
    }
    Some(m)
}

/// Scans a complete compiler log: every line that starts with `project_dir`
/// and parses as `path:row:col: message` contributes one message, in order.
pub fn analyse(log: &str, project_dir: &str) -> (r: Vec<Message>)
    ensures
        report_view(r@) == spec_analyse(log@, project_dir@),
{
    let lines = split_lines(log);
    let ghost gl = spec_lines(log@);
    let n = lines.len();
    let mut errors: Vec<Message> = Vec::new();
    let mut i: usize = 0;
    while i < n
        invariant
            i <= n,
            n == gl.len(),
            lines@.len() == gl.len(),
            forall|j: int| 0 <= j < n ==> lines@[j]@ == gl[j],
            report_view(errors@) + spec_scan_from(gl, project_dir@, i as int) == spec_analyse(
                log@,
                project_dir@,
            ),
        decreases n - i,
    {
        let line = lines[i];
        if starts_with(line, project_dir) {
            match parse_line(line) {
                Some(m) => {
                    proof {
                        assert(report_view(errors@.push(m)) =~= report_view(errors@) + seq![m@]);
                        assert((report_view(errors@) + seq![m@]) + spec_scan_from(
                            gl,
                            project_dir@,
                            i + 1,
                        ) =~= report_view(errors@) + (seq![m@] + spec_scan_from(
                            gl,
                            project_dir@,
                            i + 1,
                        )));
                    }
                    errors.push(m);
                },
                None => {},
            }
        }
        i += 1;
    }
    proof {
        assert(report_view(errors@) + spec_scan_from(gl, project_dir@, n as int) =~= report_view(
            errors@,
        ));
    }
    errors
}

} // verus!
