//! Verified text utilities over `Seq<char>` views: prefix and suffix tests,
//! first and last occurrence search, whitespace trimming, line splitting and
//! decimal parsing. Every executable function states its exact result.

use vstd::prelude::*;
use vstd::string::*;

verus! {

// ---------------------------------------------------------------------------
// Prefix and suffix tests
// ---------------------------------------------------------------------------

/// `p` is a prefix of `s`.
pub open spec fn spec_starts_with(s: Seq<char>, p: Seq<char>) -> bool {
    p.len() <= s.len() && s.subrange(0, p.len() as int) == p
}

/// `p` is a suffix of `s`.
pub open spec fn spec_ends_with(s: Seq<char>, p: Seq<char>) -> bool {
    p.len() <= s.len() && s.subrange(s.len() - p.len(), s.len() as int) == p
}

pub fn starts_with(s: &str, p: &str) -> (b: bool)
    ensures
        b == spec_starts_with(s@, p@),
{
    let n = p.unicode_len();
    if n > s.unicode_len() {
        return false;
    }
    let mut i: usize = 0;
    while i < n
        invariant
            i <= n,
            n == p@.len(),
            n <= s@.len(),
            forall|j: int| 0 <= j < i ==> s@[j] == p@[j],
        decreases n - i,
    {
        if s.get_char(i) != p.get_char(i) {
            proof {
                assert(spec_starts_with(s@, p@) ==> s@.subrange(0, n as int)[i as int] == p@[
                    i as int
                ]);
            }
            return false;
        }
        i += 1;
    }
    proof {
        assert(s@.subrange(0, n as int) =~= p@);
    }
    true
}

pub fn ends_with(s: &str, p: &str) -> (b: bool)
    ensures
        b == spec_ends_with(s@, p@),
{
    let n = p.unicode_len();
    let sn = s.unicode_len();
    if n > sn {
        return false;
    }
    let off = sn - n;
    let mut i: usize = 0;
    while i < n
        invariant
            i <= n,
            n == p@.len(),
            sn == s@.len(),
            off == sn - n,
            forall|j: int| 0 <= j < i ==> s@[off + j] == p@[j],
        decreases n - i,
    {
        if s.get_char(off + i) != p.get_char(i) {
            proof {
                assert(spec_ends_with(s@, p@) ==> s@.subrange(off as int, sn as int)[i as int]
                    == p@[i as int]);
            }
            return false;
        }
        i += 1;
    }
    proof {
        assert(s@.subrange(off as int, sn as int) =~= p@);
    }
    true
}

// ---------------------------------------------------------------------------
// First occurrence of a character
// ---------------------------------------------------------------------------

/// Index of the first occurrence of `c` in `s` at position `pos` or later.
pub open spec fn spec_find_char_from(s: Seq<char>, c: char, pos: int) -> Option<int>
    decreases s.len() - pos,
{
    if pos < 0 || pos >= s.len() {
        None
    } else if s[pos] == c {
        Some(pos)
    } else {
        spec_find_char_from(s, c, pos + 1)
    }
}

pub proof fn lemma_find_char_from_props(s: Seq<char>, c: char, pos: int)
    requires
        0 <= pos,
    ensures
        match spec_find_char_from(s, c, pos) {
            Some(i) => pos <= i < s.len() && s[i] == c && (forall|j: int|
                pos <= j < i ==> s[j] != c),
            None => forall|j: int| pos <= j < s.len() ==> s[j] != c,
        },
    decreases s.len() - pos,
{
    if pos >= s.len() {
    } else if s[pos] == c {
    } else {
        lemma_find_char_from_props(s, c, pos + 1);
    }
}

pub fn find_char(s: &str, c: char, from: usize) -> (r: Option<usize>)
    ensures
        match r {
            Some(i) => spec_find_char_from(s@, c, from as int) == Some(i as int) && from <= i
                && i < s@.len(),
            None => spec_find_char_from(s@, c, from as int) is None,
        },
{
    let n = s.unicode_len();
    let mut i = from;
    if from >= n {
        return None;
    }
    while i < n
        invariant
            from <= i <= n,
            n == s@.len(),
            spec_find_char_from(s@, c, from as int) == spec_find_char_from(s@, c, i as int),
        decreases n - i,
    {
        if s.get_char(i) == c {
            return Some(i);
        }
        i += 1;
    }
    None
}

// ---------------------------------------------------------------------------
// First occurrence of a substring
// ---------------------------------------------------------------------------

/// `p` occurs in `s` at position `pos`.
pub open spec fn spec_match_at(s: Seq<char>, p: Seq<char>, pos: int) -> bool {
    0 <= pos && pos + p.len() <= s.len() && s.subrange(pos, pos + p.len()) == p
}

/// Position of the first occurrence of `p` in `s` at `pos` or later.
pub open spec fn spec_find_sub_from(s: Seq<char>, p: Seq<char>, pos: int) -> Option<int>
    decreases s.len() - pos,
{
    if pos < 0 || pos + p.len() > s.len() {
        None
    } else if spec_match_at(s, p, pos) {
        Some(pos)
    } else if pos >= s.len() {
        None
    } else {
        spec_find_sub_from(s, p, pos + 1)
    }
}

/// `p` occurs somewhere in `s`.
pub open spec fn spec_contains_sub(s: Seq<char>, p: Seq<char>) -> bool {
    spec_find_sub_from(s, p, 0) is Some
}

pub proof fn lemma_find_sub_from_props(s: Seq<char>, p: Seq<char>, pos: int)
    requires
        0 <= pos,
    ensures
        match spec_find_sub_from(s, p, pos) {
            Some(i) => spec_match_at(s, p, i) && pos <= i && (forall|j: int|
                pos <= j < i ==> !spec_match_at(s, p, j)),
            None => forall|j: int| pos <= j ==> !spec_match_at(s, p, j),
        },
    decreases s.len() - pos,
{
    if pos + p.len() > s.len() {
    } else if spec_match_at(s, p, pos) {
    } else if pos >= s.len() {
    } else {
        lemma_find_sub_from_props(s, p, pos + 1);
    }
}

pub fn find_sub(s: &str, p: &str, from: usize) -> (r: Option<usize>)
    ensures
        match r {
            Some(i) => spec_find_sub_from(s@, p@, from as int) == Some(i as int) && from <= i
                && i + p@.len() <= s@.len(),
            None => spec_find_sub_from(s@, p@, from as int) is None,
        },
{
    let n = s.unicode_len();
    let m = p.unicode_len();
    if from > n || m > n - from {
        return None;
    }
    if m == 0 {
        proof {
            assert(s@.subrange(from as int, from as int) =~= p@);
        }
        return Some(from);
    }
    let mut i = from;
    while i <= n - m
        invariant
            from <= i,
            i <= n - m + 1,
            1 <= m <= n,
            n == s@.len(),
            m == p@.len(),
            spec_find_sub_from(s@, p@, from as int) == spec_find_sub_from(s@, p@, i as int),
        decreases n - i,
    {
        let mut k: usize = 0;
        let mut matched = true;
        while k < m
            invariant
                k <= m,
                i + m <= n,
                n == s@.len(),
                m == p@.len(),
                matched ==> forall|j: int| 0 <= j < k ==> s@[i + j] == p@[j],
                !matched ==> !spec_match_at(s@, p@, i as int),
            ensures
                matched ==> forall|j: int| 0 <= j < m ==> s@[i + j] == p@[j],
                !matched ==> !spec_match_at(s@, p@, i as int),
            decreases m - k,
        {
            if s.get_char(i + k) != p.get_char(k) {
                proof {
                    assert(spec_match_at(s@, p@, i as int) ==> s@.subrange(
                        i as int,
                        i + m,
                    )[k as int] == p@[k as int]);
                }
                matched = false;
                break ;
            }
            k += 1;
        }
        if matched {
            proof {
                assert(s@.subrange(i as int, i + m) =~= p@);
            }
            return Some(i);
        }
        i += 1;
    }
    None
}

pub fn contains_sub(s: &str, p: &str) -> (b: bool)
    ensures
        b == spec_contains_sub(s@, p@),
{
    match find_sub(s, p, 0) {
        Some(_) => true,
        None => false,
    }
}

// ---------------------------------------------------------------------------
// Last occurrence of a character
// ---------------------------------------------------------------------------

/// Index of the last occurrence of `c` in `s`.
pub open spec fn spec_rfind_char(s: Seq<char>, c: char) -> Option<int>
    decreases s.len(),
{
    if s.len() == 0 {
        None
    } else if s[s.len() - 1] == c {
        Some(s.len() - 1)
    } else {
        spec_rfind_char(s.drop_last(), c)
    }
}

pub fn rfind_char(s: &str, c: char) -> (r: Option<usize>)
    ensures
        match r {
            Some(i) => spec_rfind_char(s@, c) == Some(i as int) && i < s@.len(),
            None => spec_rfind_char(s@, c) is None,
        },
{
    let n = s.unicode_len();
    let mut i = n;
    proof {
        assert(s@.take(n as int) =~= s@);
    }
    while i > 0
        invariant
            i <= n,
            n == s@.len(),
            spec_rfind_char(s@, c) == spec_rfind_char(s@.take(i as int), c),
        decreases i,
    {
        if s.get_char(i - 1) == c {
            proof {
                assert(s@.take(i as int)[i - 1] == s@[i - 1]);
            }
            return Some(i - 1);
        }
        proof {
            assert(s@.take(i as int).drop_last() =~= s@.take(i - 1));
            assert(s@.take(i as int)[i - 1] == s@[i - 1]);
        }
        i -= 1;
    }
    None
}

// ---------------------------------------------------------------------------
// Whitespace and trimming
// ---------------------------------------------------------------------------

/// The characters `char::is_whitespace` accepts.
pub open spec fn spec_is_ws(c: char) -> bool {
    c == ' ' || c == '\t' || c == '\n' || c == '\r' || c == '\u{b}' || c == '\u{c}' || c
        == '\u{85}' || c == '\u{a0}' || c == '\u{1680}' || c == '\u{2000}' || c == '\u{2001}' || c
        == '\u{2002}' || c == '\u{2003}' || c == '\u{2004}' || c == '\u{2005}' || c == '\u{2006}'
        || c == '\u{2007}' || c == '\u{2008}' || c == '\u{2009}' || c == '\u{200a}' || c
        == '\u{2028}' || c == '\u{2029}' || c == '\u{202f}' || c == '\u{205f}' || c == '\u{3000}'
}

pub fn is_ws_char(c: char) -> (b: bool)
    ensures
        b == spec_is_ws(c),
{
    c == ' ' || c == '\t' || c == '\n' || c == '\r' || c == '\u{b}' || c == '\u{c}' || c
        == '\u{85}' || c == '\u{a0}' || c == '\u{1680}' || c == '\u{2000}' || c == '\u{2001}' || c
        == '\u{2002}' || c == '\u{2003}' || c == '\u{2004}' || c == '\u{2005}' || c == '\u{2006}'
        || c == '\u{2007}' || c == '\u{2008}' || c == '\u{2009}' || c == '\u{200a}' || c
        == '\u{2028}' || c == '\u{2029}' || c == '\u{202f}' || c == '\u{205f}' || c == '\u{3000}'
}

/// Index of the first non-whitespace character at `i` or later, or `s.len()`.
pub open spec fn spec_ws_prefix_end(s: Seq<char>, i: int) -> int
    decreases s.len() - i,
{
    if i < 0 {
        0
    } else if i >= s.len() {
        s.len() as int
    } else if spec_is_ws(s[i]) {
        spec_ws_prefix_end(s, i + 1)
    } else {
        i
    }
}

/// One past the last non-whitespace character below `i`, or 0.
pub open spec fn spec_ws_suffix_start(s: Seq<char>, i: int) -> int
    decreases i,
{
    if i <= 0 {
        0
    } else if 0 <= i - 1 < s.len() && spec_is_ws(s[i - 1]) {
        spec_ws_suffix_start(s, i - 1)
    } else {
        i
    }
}

/// `s` with leading whitespace removed.
pub open spec fn spec_trim_start(s: Seq<char>) -> Seq<char> {
    s.skip(spec_ws_prefix_end(s, 0))
}

/// `s` with leading and trailing whitespace removed.
pub open spec fn spec_trim(s: Seq<char>) -> Seq<char> {
    let a = spec_ws_prefix_end(s, 0);
    let b = spec_ws_suffix_start(s, s.len() as int);
    if a < b {
        s.subrange(a, b)
    } else {
        Seq::empty()
    }
}

pub proof fn lemma_ws_suffix_start_bounds(s: Seq<char>, i: int)
    requires
        0 <= i,
    ensures
        0 <= spec_ws_suffix_start(s, i) <= i,
    decreases i,
{
    if i > 0 && 0 <= i - 1 < s.len() && spec_is_ws(s[i - 1]) {
        lemma_ws_suffix_start_bounds(s, i - 1);
    }
}

fn scan_ws_prefix(s: &str) -> (a: usize)
    ensures
        a <= s@.len(),
        a as int == spec_ws_prefix_end(s@, 0),
        a < s@.len() ==> !spec_is_ws(s@[a as int]),
{
    let n = s.unicode_len();
    let mut a: usize = 0;
    while a < n
        invariant
            a <= n,
            n == s@.len(),
            spec_ws_prefix_end(s@, 0) == spec_ws_prefix_end(s@, a as int),
        ensures
            a <= n,
            spec_ws_prefix_end(s@, 0) == a as int,
            a < n ==> !spec_is_ws(s@[a as int]),
        decreases n - a,
    {
        if !is_ws_char(s.get_char(a)) {
            break ;
        }
        a += 1;
    }
    a
}

pub fn trim_start(s: &str) -> (r: &str)
    ensures
        r@ == spec_trim_start(s@),
{
    let a = scan_ws_prefix(s);
    s.substring_char(a, s.unicode_len())
}

pub fn trim(s: &str) -> (r: &str)
    ensures
        r@ == spec_trim(s@),
{
    let n = s.unicode_len();
    let a = scan_ws_prefix(s);
    if a == n {
        proof {
            lemma_ws_suffix_start_bounds(s@, n as int);
        }
        return s.substring_char(0, 0);
    }
    let mut b: usize = n;
    while b > a
        invariant
            a <= b <= n,
            a < n,
            n == s@.len(),
            a as int == spec_ws_prefix_end(s@, 0),
            !spec_is_ws(s@[a as int]),
            spec_ws_suffix_start(s@, n as int) == spec_ws_suffix_start(s@, b as int),
            forall|j: int| b <= j < n ==> spec_is_ws(s@[j]),
        ensures
            a < b <= n,
            spec_ws_suffix_start(s@, n as int) == b as int,
        decreases b,
    {
        if !is_ws_char(s.get_char(b - 1)) {
            break ;
        }
        b -= 1;
    }
    s.substring_char(a, b)
}

// ---------------------------------------------------------------------------
// Decimal parsing
// ---------------------------------------------------------------------------

pub open spec fn spec_is_digit(c: char) -> bool {
    48 <= c as int <= 57
}

pub open spec fn spec_all_digits(s: Seq<char>) -> bool {
    forall|j: int| 0 <= j < s.len() ==> spec_is_digit(s[j])
}

/// Value of a digit string read in base 10 (0 when empty).
pub open spec fn spec_digits_val(s: Seq<char>) -> int
    decreases s.len(),
{
    if s.len() == 0 {
        0
    } else {
        spec_digits_val(s.drop_last()) * 10 + (s.last() as int - 48)
    }
}

/// The digit run `str::parse::<usize>` reads: `s` without its one optional
/// leading `'+'`.
pub open spec fn spec_usize_digits(s: Seq<char>) -> Seq<char> {
    if s.len() > 0 && s[0] == '+' {
        s.skip(1)
    } else {
        s
    }
}

/// What `str::parse::<usize>` returns: after one optional leading `'+'`, a
/// non-empty run of digits whose value fits in `usize` gives that value;
/// anything else gives nothing.
pub open spec fn spec_parse_usize(s: Seq<char>) -> Option<int> {
    let d = spec_usize_digits(s);
    if d.len() > 0 && spec_all_digits(d) && spec_digits_val(d) <= usize::MAX as int {
        Some(spec_digits_val(d))
    } else {
        None
    }
}

/// The row/column policy of every extractor: an unparsable field means 0.
pub open spec fn spec_parse_or_zero(s: Seq<char>) -> int {
    match spec_parse_usize(s) {
        Some(v) => v,
        None => 0,
    }
}

pub proof fn lemma_digits_val_nonneg(s: Seq<char>)
    requires
        spec_all_digits(s),
    ensures
        spec_digits_val(s) >= 0,
    decreases s.len(),
{
    if s.len() > 0 {
        assert(spec_all_digits(s.drop_last()));
        lemma_digits_val_nonneg(s.drop_last());
    }
}

pub fn parse_usize_strict(s: &str) -> (r: Option<usize>)
    ensures
        match r {
            Some(v) => spec_parse_usize(s@) == Some(v as int),
            None => spec_parse_usize(s@) is None,
        },
{
    let sn = s.unicode_len();
    let t = if sn > 0 && s.get_char(0) == '+' {
        s.substring_char(1, sn)
    } else {
        s
    };
    proof {
        assert(t@ =~= spec_usize_digits(s@));
    }
    let n = t.unicode_len();
    if n == 0 {
        return None;
    }
    let mut acc: usize = 0;
    let mut over = false;
    let mut i: usize = 0;
    while i < n
        invariant
            i <= n,
            n == t@.len(),
            n > 0,
            t@ == spec_usize_digits(s@),
            forall|j: int| 0 <= j < i ==> spec_is_digit(t@[j]),
            !over ==> acc as int == spec_digits_val(t@.take(i as int)),
            over ==> spec_digits_val(t@.take(i as int)) > usize::MAX as int,
        decreases n - i,
    {
        let c = t.get_char(i);
        if c < '0' || c > '9' {
            proof {
                assert(!spec_all_digits(t@));
            }
            return None;
        }
        let d = (c as u32 - 48) as usize;
        proof {
            assert(t@.take(i + 1).drop_last() =~= t@.take(i as int));
            assert(t@.take(i + 1).last() == t@[i as int]);
        }
        if over {
            proof {
                assert(spec_all_digits(t@.take(i as int)));
                lemma_digits_val_nonneg(t@.take(i as int));
                assert(spec_digits_val(t@.take(i as int)) * 10 >= spec_digits_val(
                    t@.take(i as int),
                )) by (nonlinear_arith)
                    requires
                        spec_digits_val(t@.take(i as int)) >= 0,
                ;
            }
        } else {
            if acc <= (usize::MAX - d) / 10 {
                proof {
                    assert(acc * 10 <= ((usize::MAX - d) / 10) * 10) by (nonlinear_arith)
                        requires
                            acc <= (usize::MAX - d) / 10,
                    ;
                    assert(((usize::MAX - d) as usize / 10) * 10 <= (usize::MAX - d) as usize);
                }
                acc = acc * 10 + d;
            } else {
                proof {
                    assert(acc * 10 + d > usize::MAX) by (nonlinear_arith)
                        requires
                            acc > (usize::MAX - d) / 10,
                            d <= 9,
                    ;
                }
                over = true;
            }
        }
        i += 1;
    }
    proof {
        assert(t@.take(n as int) =~= t@);
    }
    if over {
        None
    } else {
        Some(acc)
    }
}

pub fn parse_usize_or_zero(s: &str) -> (r: usize)
    ensures
        r as int == spec_parse_or_zero(s@),
{
    match parse_usize_strict(s) {
        Some(v) => v,
        None => 0,
    }
}

/// The view of an optional borrowed line.
pub open spec fn opt_str_view(o: Option<&str>) -> Option<Seq<char>> {
    match o {
        Some(s) => Some(s@),
        None => None,
    }
}

// ---------------------------------------------------------------------------
// Line splitting
// ---------------------------------------------------------------------------

/// A line with one trailing carriage return removed: what remains of a
/// segment that ended at a `'\n'`, so that a `"\r\n"` ending counts as one
/// line break, as `str::lines` reads it.
pub open spec fn spec_strip_cr(l: Seq<char>) -> Seq<char> {
    if l.len() > 0 && l.last() == '\r' {
        l.drop_last()
    } else {
        l
    }
}

/// The lines of `s` from position `pos` on: split at `'\n'`, a `'\r'`
/// immediately before the `'\n'` removed with it, no empty line after a
/// final `'\n'`. A `'\r'` at the very end of input, with no `'\n'` after it,
/// stays — `str::lines` keeps it too.
pub open spec fn spec_lines_from(s: Seq<char>, pos: int) -> Seq<Seq<char>>
    decreases s.len() - pos,
{
    if pos < 0 || pos >= s.len() {
        Seq::empty()
    } else {
        match spec_find_char_from(s, '\n', pos) {
            Some(i) => if pos <= i < s.len() {
                seq![spec_strip_cr(s.subrange(pos, i))] + spec_lines_from(s, i + 1)
            } else {
                Seq::empty()
            },
            None => seq![s.subrange(pos, s.len() as int)],
        }
    }
}

/// What `str::lines` returns.
pub open spec fn spec_lines(s: Seq<char>) -> Seq<Seq<char>> {
    spec_lines_from(s, 0)
}

pub fn split_lines(s: &str) -> (v: Vec<&str>)
    ensures
        v@.len() == spec_lines(s@).len(),
        forall|j: int| 0 <= j < v@.len() ==> v@[j]@ == spec_lines(s@)[j],
{
    let n = s.unicode_len();
    let mut v: Vec<&str> = Vec::new();
    let mut pos: usize = 0;
    while pos < n
        invariant
            pos <= n,
            n == s@.len(),
            v@.len() + spec_lines_from(s@, pos as int).len() == spec_lines(s@).len(),
            forall|j: int| 0 <= j < v@.len() ==> v@[j]@ == spec_lines(s@)[j],
            forall|j: int|
                0 <= j < spec_lines_from(s@, pos as int).len() ==> spec_lines_from(
                    s@,
                    pos as int,
                )[j] == spec_lines(s@)[v@.len() + j],
        decreases n - pos,
    {
        let ghost prev = spec_lines_from(s@, pos as int);
        let (line, next) = match find_char(s, '\n', pos) {
            Some(i) => {
                proof {
                    lemma_find_char_from_props(s@, '\n', pos as int);
                }
                let raw = s.substring_char(pos, i);
                let rl = raw.unicode_len();
                let stripped = if rl > 0 && raw.get_char(rl - 1) == '\r' {
                    raw.substring_char(0, rl - 1)
                } else {
                    raw
                };
                proof {
                    assert(stripped@ =~= spec_strip_cr(raw@));
                }
                (stripped, i + 1)
            },
            None => (s.substring_char(pos, n), n),
        };
        let ghost rest = spec_lines_from(s@, next as int);
        proof {
            assert(prev =~= seq![line@] + rest);
            assert(prev[0] == line@);
            assert(spec_lines(s@)[v@.len() as int] == line@);
            assert forall|j: int| 0 <= j < rest.len() implies rest[j] == spec_lines(s@)[v@.len()
                + 1 + j] by {
                assert(rest[j] == prev[j + 1]);
            }
        }
        v.push(line);
        pos = next;
    }
    proof {
        assert(spec_lines_from(s@, pos as int).len() == 0);
    }
    v
}

// ---------------------------------------------------------------------------
// Removing separator colons
// ---------------------------------------------------------------------------

/// `s` with every `':'` removed: what joining the fields of a `':'` split
/// without a separator leaves.
pub open spec fn spec_remove_colons(s: Seq<char>) -> Seq<char>
    decreases s.len(),
{
    if s.len() == 0 {
        Seq::empty()
    } else if s.last() == ':' {
        spec_remove_colons(s.drop_last())
    } else {
        spec_remove_colons(s.drop_last()).push(s.last())
    }
}

pub fn remove_colons(s: &str) -> (r: String)
    ensures
        r@ == spec_remove_colons(s@),
{
    let n = s.unicode_len();
    let mut r = String::new();
    let mut i: usize = 0;
    while i < n
        invariant
            i <= n,
            n == s@.len(),
            r@ == spec_remove_colons(s@.take(i as int)),
        decreases n - i,
    {
        proof {
            assert(s@.take(i + 1).drop_last() =~= s@.take(i as int));
            assert(s@.take(i + 1).last() == s@[i as int]);
        }
        if s.get_char(i) != ':' {
            let piece = s.substring_char(i, i + 1);
            r.append(piece);
            proof {
                assert(r@ =~= spec_remove_colons(s@.take(i as int)).push(s@[i as int]));
            }
        }
        i += 1;
    }
    proof {
        assert(s@.take(n as int) =~= s@);
    }
    r
}

} // verus!
