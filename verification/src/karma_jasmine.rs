//! Test-runner scanner: a single left-to-right pass over the log lines that
//! recognises two independent failure signatures per line.
//!
//! An *exception trigger* fires on a trimmed line starting with one of the
//! exception sentinels; the text after the first `": "` becomes the message
//! and the run of `"at "` lines below contributes the locations that resolve
//! (possibly none — the message is emitted regardless).
//!
//! A *failed-test trigger* fires on a line ending with the styled `FAILED`
//! marker; the next line, trimmed, is the message, and the run of `"at "`
//! lines starting two below is searched for the first resolvable frame in
//! application source. Without such a frame, nothing is emitted.

use crate::text::{
    contains_sub, ends_with, find_char, find_sub, lemma_find_char_from_props,
    lemma_find_sub_from_props, parse_usize_or_zero, rfind_char, spec_contains_sub,
    spec_ends_with, spec_find_char_from, spec_find_sub_from, spec_lines, spec_match_at,
    spec_parse_or_zero, spec_rfind_char, spec_starts_with, spec_trim, split_lines, starts_with,
    trim,
};
use crate::types::{locs_view, report_view, AnalyseReport, Location, LocationView, Message,
    MessageView};
use vstd::prelude::*;
use vstd::string::*;

verus! {

/// The line suffix that marks a failed test: `" FAILED"` followed by the
/// ANSI style reset that the runner appends.
pub open spec fn spec_failed_marker() -> Seq<char> {
    " FAILED\u{1b}[39m"@
}

/// A trimmed line opens an uncaught-exception block.
pub open spec fn spec_exception_sentinel(t: Seq<char>) -> bool {
    spec_starts_with(t, "Error: "@) || spec_starts_with(t, "Usage:"@) || spec_starts_with(
        t,
        "TypeError:"@,
    )
}

/// The location a trimmed stack-frame line `t` encodes, or nothing.
///
/// The fragment from the last `'('` to the end of the line, with one leading
/// and one trailing bracket character stripped (lines too short for that do
/// not match), is rewritten: everything after a bundler marker
/// `".../webpack:"`, or the part after a `" ("` delimiter when it starts
/// with `"src/"`, else the fragment itself. The result is made absolute and
/// split at its first `':'` into path and row/column; only paths under a
/// `/src/` subtree are kept — frames in framework or runtime code yield
/// nothing. `dir` is prepended to the accepted path; row and column each
/// default to 0 when unparsable.
pub open spec fn spec_parse_frame_location(t: Seq<char>, dir: Seq<char>) -> Option<LocationView> {
    match spec_rfind_char(t, '(') {
        None => None,
        Some(p) => {
            if t.len() - p < 2 {
                None
            } else {
                let frag = t.subrange(p + 1, t.len() - 1);
                let cand = match spec_find_sub_from(frag, ".../webpack:"@, 0) {
                    Some(w) => frag.subrange(w + ".../webpack:"@.len(), frag.len() as int),
                    None => match spec_find_sub_from(frag, " ("@, 0) {
                        Some(q) => if spec_starts_with(
                            frag.subrange(q + 2, frag.len() as int),
                            "src/"@,
                        ) {
                            frag.subrange(q + 2, frag.len() as int)
                        } else {
                            frag
                        },
                        None => frag,
                    },
                };
                let abs = if cand.len() > 0 && cand[0] == '/' {
                    cand
                } else {
                    "/"@ + cand
                };
                match spec_find_char_from(abs, ':', 0) {
                    None => None,
                    Some(c1) => {
                        let path = abs.take(c1);
                        if !spec_contains_sub(path, "/src/"@) {
                            None
                        } else {
                            let rc = abs.subrange(c1 + 1, abs.len() as int);
                            match spec_find_char_from(rc, ':', 0) {
                                None => None,
                                Some(c2) => Some(
                                    LocationView {
                                        path: dir + path,
                                        row: spec_parse_or_zero(rc.take(c2)),
                                        col: spec_parse_or_zero(
                                            rc.subrange(c2 + 1, rc.len() as int),
                                        ),
                                    },
                                ),
                            }
                        }
                    },
                }
            }
        },
    }
}

/// The location a trimmed failed-test frame line `t` encodes, or nothing:
/// the text after the first `'('` is split at its first `':'` into path and
/// row/column; one trailing character (the closing bracket) is dropped from
/// the remainder before the row/column split. `dir` and a `'/'` are
/// prepended to the path; row and column each default to 0 when unparsable.
pub open spec fn spec_parse_test_location(t: Seq<char>, dir: Seq<char>) -> Option<LocationView> {
    match spec_find_char_from(t, '(', 0) {
        None => None,
        Some(p) => {
            let loc = t.subrange(p + 1, t.len() as int);
            match spec_find_char_from(loc, ':', 0) {
                None => None,
                Some(c1) => {
                    let rc0 = loc.subrange(c1 + 1, loc.len() as int);
                    if rc0.len() < 1 {
                        None
                    } else {
                        let rc = rc0.take(rc0.len() - 1);
                        match spec_find_char_from(rc, ':', 0) {
                            None => None,
                            Some(c2) => Some(
                                LocationView {
                                    path: dir + "/"@ + loc.take(c1),
                                    row: spec_parse_or_zero(rc.take(c2)),
                                    col: spec_parse_or_zero(rc.subrange(c2 + 1, rc.len() as int)),
                                },
                            ),
                        }
                    }
                },
            }
        },
    }
}

/// The locations of the `"at "` run starting at line `j`: one per frame that
/// resolves, in frame order; the run ends at the first line not starting
/// (trimmed) with `"at "` or at end of input.
pub open spec fn spec_frame_run_locs(lines: Seq<Seq<char>>, dir: Seq<char>, j: int) -> Seq<
    LocationView,
>
    decreases lines.len() - j,
{
    if j < 0 || j >= lines.len() || !spec_starts_with(spec_trim(lines[j]), "at "@) {
        Seq::empty()
    } else {
        let rest = spec_frame_run_locs(lines, dir, j + 1);
        match spec_parse_frame_location(spec_trim(lines[j]), dir) {
            Some(l) => seq![l] + rest,
            None => rest,
        }
    }
}

/// What the exception trigger emits at line `i`: one message when the
/// trimmed line starts with a sentinel and holds a `": "` delimiter — even
/// when no frame below resolves — and nothing otherwise.
pub open spec fn spec_exception_msgs(lines: Seq<Seq<char>>, dir: Seq<char>, i: int) -> Seq<
    MessageView,
> {
    if 0 <= i < lines.len() {
        let t = spec_trim(lines[i]);
        if spec_exception_sentinel(t) {
            match spec_find_sub_from(t, ": "@, 0) {
                Some(k) => seq![
                    MessageView {
                        error: t.subrange(k + 2, t.len() as int),
                        locations: spec_frame_run_locs(lines, dir, i + 1),
                    },
                ],
                None => Seq::empty(),
            }
        } else {
            Seq::empty()
        }
    } else {
        Seq::empty()
    }
}

/// The first resolvable application-source frame of the `"at "` run starting
/// at line `j`: the first frame that both mentions `"(src/app"` and parses.
/// The search stops at the first non-frame line.
pub open spec fn spec_failed_seek(lines: Seq<Seq<char>>, dir: Seq<char>, j: int) -> Option<
    LocationView,
>
    decreases lines.len() - j,
{
    if j < 0 || j >= lines.len() || !spec_starts_with(spec_trim(lines[j]), "at "@) {
        None
    } else {
        let t = spec_trim(lines[j]);
        if spec_contains_sub(t, "(src/app"@) && spec_parse_test_location(t, dir) is Some {
            spec_parse_test_location(t, dir)
        } else {
            spec_failed_seek(lines, dir, j + 1)
        }
    }
}

/// What the failed-test trigger emits at line `i`: one message when the line
/// ends with the `FAILED` marker, a next line exists (its trimmed text is
/// the message) and the run starting two lines below holds a resolvable
/// application-source frame; nothing otherwise.
pub open spec fn spec_failed_msgs(lines: Seq<Seq<char>>, dir: Seq<char>, i: int) -> Seq<
    MessageView,
> {
    if 0 <= i && i + 1 < lines.len() && spec_ends_with(lines[i], spec_failed_marker()) {
        match spec_failed_seek(lines, dir, i + 2) {
            Some(l) => seq![
                MessageView { error: spec_trim(lines[i + 1]), locations: seq![l] },
            ],
            None => Seq::empty(),
        }
    } else {
        Seq::empty()
    }
}

/// Everything line `i` emits: both triggers are evaluated independently,
/// the exception trigger's message first.
pub open spec fn spec_msgs_at(lines: Seq<Seq<char>>, dir: Seq<char>, i: int) -> Seq<MessageView> {
    spec_exception_msgs(lines, dir, i) + spec_failed_msgs(lines, dir, i)
}

/// The report of the lines from index `i` on, in line order.
pub open spec fn spec_scan_from(lines: Seq<Seq<char>>, dir: Seq<char>, i: int) -> Seq<MessageView>
    decreases lines.len() - i,
{
    if i < 0 || i >= lines.len() {
        Seq::empty()
    } else {
        spec_msgs_at(lines, dir, i) + spec_scan_from(lines, dir, i + 1)
    }
}

/// Full result of this scanner on log text `log` with prefix `dir`.
pub open spec fn spec_analyse(log: Seq<char>, dir: Seq<char>) -> Seq<MessageView> {
    spec_scan_from(spec_lines(log), dir, 0)
}

/// Extracts the location of one trimmed exception stack-frame line.
pub fn parse_frame_location(line: &str, project_dir: &str) -> (r: Option<Location>)
    ensures
        match r {
            Some(loc) => spec_parse_frame_location(line@, project_dir@) == Some(loc@),
            None => spec_parse_frame_location(line@, project_dir@) is None,
        },
{
    let n = line.unicode_len();
    let p = match rfind_char(line, '(') {
        Some(i) => i,
        None => {
            return None;
        },
    };
    if n - p < 2 {
        return None;
    }
    let frag = line.substring_char(p + 1, n - 1);
    let fln = frag.unicode_len();
    let wm = ".../webpack:";
    let cand: &str = match find_sub(frag, wm, 0) {
        Some(w) => frag.substring_char(w + wm.unicode_len(), fln),
        None => match find_sub(frag, " (", 0) {
            Some(q) => {
                proof {
                    reveal_strlit(" (");
                }
                let after = frag.substring_char(q + 2, fln);
                if starts_with(after, "src/") {
                    after
                } else {
                    frag
                }
            },
            None => frag,
        },
    };
    let abs: String = if cand.unicode_len() > 0 && cand.get_char(0) == '/' {
        String::from_str(cand)
    } else {
        String::from_str("/").concat(cand)
    };
    let a = abs.as_str();
    let an = a.unicode_len();
    let c1 = match find_char(a, ':', 0) {
        Some(i) => i,
        None => {
            return None;
        },
    };
    let path = a.substring_char(0, c1);
    if !contains_sub(path, "/src/") {
        return None;
    }
    let rc = a.substring_char(c1 + 1, an);
    let rcn = rc.unicode_len();
    let c2 = match find_char(rc, ':', 0) {
        Some(i) => i,
        None => {
            return None;
        },
    };
    let row = parse_usize_or_zero(rc.substring_char(0, c2));
    let col = parse_usize_or_zero(rc.substring_char(c2 + 1, rcn));
    let loc = Location { path: String::from_str(project_dir).concat(path), row, col };
    proof {
        assert(loc@ =~= spec_parse_frame_location(line@, project_dir@)->Some_0);
    }
    Some(loc)
}

/// Extracts the location of one trimmed failed-test frame line.
pub fn parse_test_location(location: &str, project_dir: &str) -> (r: Option<Location>)
    ensures
        match r {
            Some(loc) => spec_parse_test_location(location@, project_dir@) == Some(loc@),
            None => spec_parse_test_location(location@, project_dir@) is None,
        },
{
    let n = location.unicode_len();
    let p = match find_char(location, '(', 0) {
        Some(i) => i,
        None => {
            return None;
        },
    };
    let loc_part = location.substring_char(p + 1, n);
    let ln = loc_part.unicode_len();
    let c1 = match find_char(loc_part, ':', 0) {
        Some(i) => i,
        None => {
            return None;
        },
    };
    let rc0 = loc_part.substring_char(c1 + 1, ln);
    let rn = rc0.unicode_len();
    if rn < 1 {
        return None;
    }
    let rc = rc0.substring_char(0, rn - 1);
    let rcn = rc.unicode_len();
    let c2 = match find_char(rc, ':', 0) {
        Some(i) => i,
        None => {
            return None;
        },
    };
    let row = parse_usize_or_zero(rc.substring_char(0, c2));
    let col = parse_usize_or_zero(rc.substring_char(c2 + 1, rcn));
    let path = String::from_str(project_dir).concat("/").concat(
        loc_part.substring_char(0, c1),
    );
    let loc = Location { path, row, col };
    proof {
        assert(loc@ =~= spec_parse_test_location(location@, project_dir@)->Some_0);
    }
    Some(loc)
}

/// Scans a complete test-runner log in one pass, evaluating both triggers
/// against every line, and returns the report in log order.
pub fn analyse(log: &str, project_dir: &str) -> (r: AnalyseReport)
    ensures
        r@ == spec_analyse(log@, project_dir@),
{
    let lines = split_lines(log);
    let ghost gl = spec_lines(log@);
    let ghost d = project_dir@;
    let n = lines.len();
    let mut errors: Vec<Message> = Vec::new();
    let mut i: usize = 0;
    while i < n
        invariant
            i <= n,
            n == gl.len(),
            lines@.len() == gl.len(),
            forall|j: int| 0 <= j < n ==> lines@[j]@ == gl[j],
            d == project_dir@,
            report_view(errors@) + spec_scan_from(gl, d, i as int) == spec_analyse(log@, d),
        decreases n - i,
    {
        let ghost before = report_view(errors@);
        // Exception trigger.
        let t = trim(lines[i]);
        if starts_with(t, "Error: ") || starts_with(t, "Usage:") || starts_with(t, "TypeError:") {
            match find_sub(t, ": ", 0) {
                Some(k) => {
                    proof {
                        reveal_strlit(": ");
                    }
                    let tn = t.unicode_len();
                    let err = t.substring_char(k + 2, tn);
                    let mut locs: Vec<Location> = Vec::new();
                    let mut j = i + 1;
                    while j < n
                        invariant
                            i + 1 <= j <= n,
                            n == gl.len(),
                            lines@.len() == gl.len(),
                            forall|m: int| 0 <= m < n ==> lines@[m]@ == gl[m],
                            d == project_dir@,
                            locs_view(locs@) + spec_frame_run_locs(gl, d, j as int)
                                == spec_frame_run_locs(gl, d, i + 1),
                        ensures
                            locs_view(locs@) == spec_frame_run_locs(gl, d, i + 1),
                        decreases n - j,
                    {
                        let tj = trim(lines[j]);
                        if !starts_with(tj, "at ") {
                            break ;
                        }
                        match parse_frame_location(tj, project_dir) {
                            Some(loc) => {
                                proof {
                                    assert(locs_view(locs@.push(loc)) =~= locs_view(locs@)
                                        + seq![loc@]);
                                    assert((locs_view(locs@) + seq![loc@]) + spec_frame_run_locs(
                                        gl,
                                        d,
                                        j + 1,
                                    ) =~= locs_view(locs@) + (seq![loc@] + spec_frame_run_locs(
                                        gl,
                                        d,
                                        j + 1,
                                    )));
                                }
                                locs.push(loc);
                            },
                            None => {},
                        }
                        j += 1;
                    }
                    let m = Message { error: String::from_str(err), locations: locs };
                    proof {
                        assert(m@ =~= spec_exception_msgs(gl, d, i as int)[0]);
                        assert(report_view(errors@.push(m)) =~= before + spec_exception_msgs(
                            gl,
                            d,
                            i as int,
                        ));
                    }
                    errors.push(m);
                },
                None => {
                    proof {
                        assert(spec_exception_msgs(gl, d, i as int) =~= Seq::<
                            MessageView,
                        >::empty());
                    }
                },
            }
        } else {
            proof {
                assert(spec_exception_msgs(gl, d, i as int) =~= Seq::<MessageView>::empty());
            }
        }
        proof {
            assert(report_view(errors@) =~= before + spec_exception_msgs(gl, d, i as int));
        }
        let ghost mid = report_view(errors@);
        // Failed-test trigger.
        if ends_with(lines[i], " FAILED\u{1b}[39m") {
            if n - i > 1 {
                let err = trim(lines[i + 1]);
                let mut j = i + 2;
                let mut found: Option<Location> = None;
                while j < n
                    invariant_except_break
                        found is None,
                        spec_failed_seek(gl, d, i + 2) == spec_failed_seek(gl, d, j as int),
                    invariant
                        i + 2 <= j <= n,
                        n == gl.len(),
                        lines@.len() == gl.len(),
                        forall|m: int| 0 <= m < n ==> lines@[m]@ == gl[m],
                        d == project_dir@,
                    ensures
                        match found {
                            Some(loc) => spec_failed_seek(gl, d, i + 2) == Some(loc@),
                            None => spec_failed_seek(gl, d, i + 2) is None,
                        },
                    decreases n - j,
                {
                    let tj = trim(lines[j]);
                    if !starts_with(tj, "at ") {
                        break ;
                    }
                    if contains_sub(tj, "(src/app") {
                        match parse_test_location(tj, project_dir) {
                            Some(loc) => {
                                found = Some(loc);
                                break ;
                            },
                            None => {},
                        }
                    }
                    j += 1;
                }
                match found {
                    Some(loc) => {
                        let m = Message {
                            error: String::from_str(err),
                            locations: vec![loc],
                        };
                        proof {
                            assert(m@.locations =~= seq![loc@]);
                            assert(m@ =~= spec_failed_msgs(gl, d, i as int)[0]);
                            assert(report_view(errors@.push(m)) =~= mid + spec_failed_msgs(
                                gl,
                                d,
                                i as int,
                            ));
                        }
                        errors.push(m);
                    },
                    None => {
                        proof {
                            assert(spec_failed_msgs(gl, d, i as int) =~= Seq::<
                                MessageView,
                            >::empty());
                        }
                    },
                }
            } else {
                proof {
                    assert(spec_failed_msgs(gl, d, i as int) =~= Seq::<MessageView>::empty());
                }
            }
        } else {
            proof {
                assert(spec_failed_msgs(gl, d, i as int) =~= Seq::<MessageView>::empty());
            }
        }
        proof {
            assert(report_view(errors@) =~= mid + spec_failed_msgs(gl, d, i as int));
            assert(report_view(errors@) =~= before + spec_msgs_at(gl, d, i as int));
            assert(before + (spec_msgs_at(gl, d, i as int) + spec_scan_from(gl, d, i + 1)) =~= (
            before + spec_msgs_at(gl, d, i as int)) + spec_scan_from(gl, d, i + 1));
        }
        i += 1;
    }
    proof {
        assert(report_view(errors@) + spec_scan_from(gl, d, n as int) =~= report_view(errors@));
    }
    AnalyseReport { errors }
}

// ---------------------------------------------------------------------------
// Laws
// ---------------------------------------------------------------------------

/// Law: the scan is a pure function of the log text and the project
/// directory — two scans of the same input yield structurally identical
/// reports.
pub proof fn lemma_analyse_deterministic(
    log: Seq<char>,
    dir: Seq<char>,
    r1: Seq<MessageView>,
    r2: Seq<MessageView>,
)
    requires
        r1 == spec_analyse(log, dir),
        r2 == spec_analyse(log, dir),
    ensures
        r1 == r2,
{
}

proof fn lemma_scan_flatten_from(lines: Seq<Seq<char>>, dir: Seq<char>, i: int)
    requires
        0 <= i <= lines.len(),
    ensures
        spec_scan_from(lines, dir, i) == Seq::new(
            (lines.len() - i) as nat,
            |k: int| spec_msgs_at(lines, dir, i + k),
        ).flatten(),
    decreases lines.len() - i,
{
    let s = Seq::new((lines.len() - i) as nat, |k: int| spec_msgs_at(lines, dir, i + k));
    if i == lines.len() {
        assert(s.flatten() =~= Seq::<MessageView>::empty());
    } else {
        lemma_scan_flatten_from(lines, dir, i + 1);
        let s2 = Seq::new((lines.len() - i - 1) as nat, |k: int| spec_msgs_at(lines, dir, i + 1 + k));
        assert(s.drop_first() =~= s2);
        assert(s.first() == spec_msgs_at(lines, dir, i));
        assert(s.flatten() == s.first() + s.drop_first().flatten());
    }
}

/// Law: message order matches trigger-line order — the report is the
/// concatenation, in line order, of what each line emits.
pub proof fn lemma_order_preservation(lines: Seq<Seq<char>>, dir: Seq<char>)
    ensures
        spec_scan_from(lines, dir, 0) == Seq::new(
            lines.len(),
            |i: int| spec_msgs_at(lines, dir, i),
        ).flatten(),
{
    lemma_scan_flatten_from(lines, dir, 0);
    assert(Seq::new((lines.len() - 0) as nat, |k: int| spec_msgs_at(lines, dir, 0 + k)) =~= Seq::new(
        lines.len(),
        |i: int| spec_msgs_at(lines, dir, i),
    ));
}

/// Law: an exception line with a `": "` delimiter emits exactly one message,
/// whatever the frames below it yield — even when none resolves.
pub proof fn lemma_exception_always_emits(lines: Seq<Seq<char>>, dir: Seq<char>, i: int)
    requires
        0 <= i < lines.len(),
        spec_exception_sentinel(spec_trim(lines[i])),
        spec_find_sub_from(spec_trim(lines[i]), ": "@, 0) is Some,
    ensures
        spec_exception_msgs(lines, dir, i).len() == 1,
        spec_exception_msgs(lines, dir, i)[0].error == spec_trim(lines[i]).subrange(
            spec_find_sub_from(spec_trim(lines[i]), ": "@, 0)->Some_0 + 2,
            spec_trim(lines[i]).len() as int,
        ),
        spec_exception_msgs(lines, dir, i)[0].locations == spec_frame_run_locs(lines, dir, i + 1),
{
}

/// Where the `"at "` run starting at line `j` ends: the index of the first
/// line at `j` or later that does not start (trimmed) with `"at "`.
pub open spec fn spec_frame_run_end(lines: Seq<Seq<char>>, j: int) -> int
    decreases lines.len() - j,
{
    if j < 0 || j >= lines.len() || !spec_starts_with(spec_trim(lines[j]), "at "@) {
        j
    } else {
        spec_frame_run_end(lines, j + 1)
    }
}

proof fn lemma_frame_run_end_ge(lines: Seq<Seq<char>>, j: int)
    ensures
        spec_frame_run_end(lines, j) >= j,
    decreases lines.len() - j,
{
    if 0 <= j < lines.len() && spec_starts_with(spec_trim(lines[j]), "at "@) {
        lemma_frame_run_end_ge(lines, j + 1);
    }
}

proof fn lemma_failed_seek_none(lines: Seq<Seq<char>>, dir: Seq<char>, j: int)
    requires
        0 <= j,
        forall|k: int|
            j <= k < spec_frame_run_end(lines, j) ==> !(spec_contains_sub(
                #[trigger] spec_trim(lines[k]),
                "(src/app"@,
            ) && spec_parse_test_location(spec_trim(lines[k]), dir) is Some),
    ensures
        spec_failed_seek(lines, dir, j) is None,
    decreases lines.len() - j,
{
    if j >= lines.len() || !spec_starts_with(spec_trim(lines[j]), "at "@) {
    } else {
        lemma_frame_run_end_ge(lines, j + 1);
        assert(spec_frame_run_end(lines, j) == spec_frame_run_end(lines, j + 1));
        lemma_failed_seek_none(lines, dir, j + 1);
    }
}

/// Law: a failed-test marker whose frame run holds no resolvable
/// application-source frame emits nothing.
pub proof fn lemma_failed_silent_on_miss(lines: Seq<Seq<char>>, dir: Seq<char>, i: int)
    requires
        0 <= i,
        forall|k: int|
            i + 2 <= k < spec_frame_run_end(lines, i + 2) ==> !(spec_contains_sub(
                #[trigger] spec_trim(lines[k]),
                "(src/app"@,
            ) && spec_parse_test_location(spec_trim(lines[k]), dir) is Some),
    ensures
        spec_failed_msgs(lines, dir, i) == Seq::<MessageView>::empty(),
{
    lemma_failed_seek_none(lines, dir, i + 2);
}

/// Law: every location an exception stack frame resolves to lies under a
/// `/src/` subtree.
pub proof fn lemma_frame_location_under_src(t: Seq<char>, dir: Seq<char>)
    requires
        spec_parse_frame_location(t, dir) is Some,
    ensures
        spec_contains_sub(spec_parse_frame_location(t, dir)->Some_0.path, "/src/"@),
{
    let p = spec_rfind_char(t, '(')->Some_0;
    let frag = t.subrange(p + 1, t.len() - 1);
    let cand = match spec_find_sub_from(frag, ".../webpack:"@, 0) {
        Some(w) => frag.subrange(w + ".../webpack:"@.len(), frag.len() as int),
        None => match spec_find_sub_from(frag, " ("@, 0) {
            Some(q) => if spec_starts_with(frag.subrange(q + 2, frag.len() as int), "src/"@) {
                frag.subrange(q + 2, frag.len() as int)
            } else {
                frag
            },
            None => frag,
        },
    };
    let abs = if cand.len() > 0 && cand[0] == '/' {
        cand
    } else {
        "/"@ + cand
    };
    let c1 = spec_find_char_from(abs, ':', 0)->Some_0;
    let pp = abs.take(c1);
    assert(spec_contains_sub(pp, "/src/"@));
    assert(spec_parse_frame_location(t, dir)->Some_0.path == dir + pp);
    let w = spec_find_sub_from(pp, "/src/"@, 0)->Some_0;
    lemma_find_sub_from_props(pp, "/src/"@, 0);
    assert(spec_match_at(dir + pp, "/src/"@, dir.len() + w)) by {
        assert((dir + pp).subrange(dir.len() + w, dir.len() + w + "/src/"@.len()) =~= pp.subrange(
            w,
            w + "/src/"@.len(),
        ));
    }
    if spec_find_sub_from(dir + pp, "/src/"@, 0) is None {
        lemma_find_sub_from_props(dir + pp, "/src/"@, 0);
    }
}

proof fn lemma_frame_run_locs_under_src(lines: Seq<Seq<char>>, dir: Seq<char>, j: int)
    ensures
        forall|x: int|
            0 <= x < spec_frame_run_locs(lines, dir, j).len() ==> spec_contains_sub(
                #[trigger] spec_frame_run_locs(lines, dir, j)[x].path,
                "/src/"@,
            ),
    decreases lines.len() - j,
{
    if j < 0 || j >= lines.len() || !spec_starts_with(spec_trim(lines[j]), "at "@) {
    } else {
        lemma_frame_run_locs_under_src(lines, dir, j + 1);
        let rest = spec_frame_run_locs(lines, dir, j + 1);
        match spec_parse_frame_location(spec_trim(lines[j]), dir) {
            Some(l) => {
                lemma_frame_location_under_src(spec_trim(lines[j]), dir);
                assert(spec_frame_run_locs(lines, dir, j) == seq![l] + rest);
                assert(forall|x: int|
                    0 < x < spec_frame_run_locs(lines, dir, j).len() ==> spec_frame_run_locs(
                        lines,
                        dir,
                        j,
                    )[x] == rest[x - 1]);
            },
            None => {
            },
        }
    }
}

/// Law: no emitted exception-message location points outside a `/src/`
/// subtree, whatever the log holds.
pub proof fn lemma_exception_paths_under_src(lines: Seq<Seq<char>>, dir: Seq<char>, i: int)
    ensures
        forall|k: int, x: int|
            0 <= k < spec_exception_msgs(lines, dir, i).len() && 0 <= x < spec_exception_msgs(
                lines,
                dir,
                i,
            )[k].locations.len() ==> spec_contains_sub(
                #[trigger] spec_exception_msgs(lines, dir, i)[k].locations[x].path,
                "/src/"@,
            ),
{
    lemma_frame_run_locs_under_src(lines, dir, i + 1);
}

} // verus!
