//! Build-tool scanner: a trimmed line starting with the project directory is
//! read as `path:row: message`; the line two below it, when it carries a
//! caret marker, refines the column.

use crate::text::{
    find_char, lemma_find_char_from_props, opt_str_view, parse_usize_strict, remove_colons,
    spec_find_char_from, spec_lines, spec_parse_usize, spec_remove_colons, spec_starts_with,
    spec_trim, split_lines, starts_with, trim,
};
use crate::types::{report_view, Location, LocationView, Message, MessageView};
use vstd::prelude::*;
use vstd::string::*;

verus! {

/// The message a line `t` yields, given the line two below it. `path` is the
/// text before the first `':'`; the second field must parse as a row number,
/// else nothing is produced. The message is the rest of the line with its
/// separator colons removed and surrounding whitespace trimmed. A caret in
/// `col_line` sets the column to the caret's position plus 1; without one
/// the column is 0 ("unknown"). The caret position is counted in characters,
/// not bytes — a deliberate choice: the column names a character of the
/// offending line, and on the all-ASCII caret lines the format produces the
/// two counts coincide.
pub open spec fn spec_parse_error(t: Seq<char>, col_line: Option<Seq<char>>) -> Option<
    MessageView,
> {
    match spec_find_char_from(t, ':', 0) {
        None => None,
        Some(c1) => {
            let row_str = match spec_find_char_from(t, ':', c1 + 1) {
                Some(c2) => t.subrange(c1 + 1, c2),
                None => t.subrange(c1 + 1, t.len() as int),
            };
            let msg = match spec_find_char_from(t, ':', c1 + 1) {
                Some(c2) => spec_remove_colons(t.subrange(c2 + 1, t.len() as int)),
                None => Seq::<char>::empty(),
            };
            match spec_parse_usize(row_str) {
                None => None,
                Some(row) => {
                    let caret = match col_line {
                        Some(cl) => spec_find_char_from(cl, '^', 0),
                        None => None,
                    };
                    let col = match caret {
                        Some(c) => c + 1,
                        None => 0,
                    };
                    Some(
                        MessageView {
                            error: spec_trim(msg),
                            locations: seq![LocationView { path: t.take(c1), row, col }],
                        },
                    )
                },
            }
        },
    }
}

/// Messages of the lines from index `i` on: one per trimmed line that starts
/// with `dir` and parses, in line order, each refined by the line two below.
pub open spec fn spec_scan_from(lines: Seq<Seq<char>>, dir: Seq<char>, i: int) -> Seq<MessageView>
    decreases lines.len() - i,
{
    if i < 0 || i >= lines.len() {
        Seq::empty()
    } else {
        let rest = spec_scan_from(lines, dir, i + 1);
        if spec_starts_with(spec_trim(lines[i]), dir) {
            let cl = if i + 2 < lines.len() {
                Some(lines[i + 2])
            } else {
                None
            };
            match spec_parse_error(spec_trim(lines[i]), cl) {
                Some(m) => seq![m] + rest,
                None => rest,
            }
        } else {
            rest
        }
    }
}

/// Full result of this scanner on log text `log` with prefix `dir`.
pub open spec fn spec_analyse(log: Seq<char>, dir: Seq<char>) -> Seq<MessageView> {
    spec_scan_from(spec_lines(log), dir, 0)
}

/// Parses one `path:row: message` line, refining the column from the caret
/// line two below when there is one.
pub fn parse_error(line: &str, col_line: Option<&str>) -> (r: Option<Message>)
    ensures
        match r {
            Some(m) => spec_parse_error(line@, opt_str_view(col_line)) == Some(m@),
            None => spec_parse_error(line@, opt_str_view(col_line)) is None,
        },
{
    let n = line.unicode_len();
    let c1 = match find_char(line, ':', 0) {
        Some(i) => i,
        None => {
            return None;
        },
    };
    proof {
        lemma_find_char_from_props(line@, ':', 0);
    }
    let (row_s, msg): (&str, String) = match find_char(line, ':', c1 + 1) {
        Some(c2) => {
            proof {
                lemma_find_char_from_props(line@, ':', c1 + 1);
            }
            (line.substring_char(c1 + 1, c2), remove_colons(line.substring_char(c2 + 1, n)))
        },
        None => (line.substring_char(c1 + 1, n), String::new()),
    };
    let row = match parse_usize_strict(row_s) {
        Some(v) => v,
        None => {
            return None;
        },
    };
    let path = String::from_str(line.substring_char(0, c1));
    let col: usize = match col_line {
        Some(cl) => {
            // Pins the line length, so that the caret index below stays incrementable.
            let _caret_line_len = cl.unicode_len();
            match find_char(cl, '^', 0) {
                Some(c) => c + 1,
                None => 0,
            }
        },
        None => 0,
    };
    let error = String::from_str(trim(msg.as_str()));
    let m = Message { error, locations: vec![Location { path, row, col }] };
    proof {
        assert(m@.locations =~= seq![m@.locations[0]]);
        assert(m@ =~= spec_parse_error(line@, opt_str_view(col_line))->Some_0);
    }
    Some(m)
}

/// Scans a complete build log: every line whose trimmed text starts with
/// `project_dir` and parses as `path:row: message` contributes one message,
/// in order; the line two below a hit refines its column.
pub fn analyse(log: &str, project_dir: &str) -> (r: Vec<Message>)
    ensures
        report_view(r@) == spec_analyse(log@, project_dir@),
{
    let lines = split_lines(log);
    let ghost gl = spec_lines(log@);
    let n = lines.len();
    let mut errors: Vec<Message> = Vec::new();
    let mut i: usize = 0;
    while i < n
        invariant
            i <= n,
            n == gl.len(),
            lines@.len() == gl.len(),
            forall|j: int| 0 <= j < n ==> lines@[j]@ == gl[j],
            report_view(errors@) + spec_scan_from(gl, project_dir@, i as int) == spec_analyse(
                log@,
                project_dir@,
            ),
        decreases n - i,
    {
        let line_t = trim(lines[i]);
        if starts_with(line_t, project_dir) {
            let cl: Option<&str> = if n - i > 2 {
                Some(lines[i + 2])
            } else {
                None
            };
            match parse_error(line_t, cl) {
                Some(m) => {
                    proof {
                        assert(report_view(errors@.push(m)) =~= report_view(errors@) + seq![m@]);
                        assert((report_view(errors@) + seq![m@]) + spec_scan_from(
                            gl,
                            project_dir@,
                            i + 1,
                        ) =~= report_view(errors@) + (seq![m@] + spec_scan_from(
                            gl,
                            project_dir@,
                            i + 1,
                        )));
                    }
                    errors.push(m);
                },
                None => {},
            }
        }
        i += 1;
    }
    proof {
        assert(report_view(errors@) + spec_scan_from(gl, project_dir@, n as int) =~= report_view(
            errors@,
        ));
    }
    errors
}

} // verus!
