//! The query parser: source text to a statement sequence, with bounded
//! nesting depth.
//!
//! The scanner walks the text once, skipping string literals and block
//! comments, matching `(`/`[`/`{` against their closers with an explicit
//! stack capped at [`MAX_RECURSIVE_QUERIES`], and splitting statements at
//! top-level `;`. Each statement is then classified by its leading keyword;
//! anything the classifier does not recognize is kept as a raw data
//! statement. Empty or whitespace-only input — and input whose statements
//! are all empty — is refused with `QueryEmpty`; a scan failure is reported
//! with the 1-based line and 0-based column of the offending position and
//! the offending fragment truncated to 100 characters; exceeding the
//! nesting cap is reported as `TooManySubqueries`.
//!
//! The nesting cap is enforced through the scanner's stack, a plain value
//! that every code path threads explicitly, so the depth at any point is at
//! most the cap and there is no counter left to reset when `parse` returns,
//! on success and on failure alike.

use vstd::prelude::*;
use crate::err::{Error, SpecError};
use crate::statement::{DataKind, DataStmt, Expr, Query, SpecStatement, Statement};
use crate::strutil::{
    ascii_uppercase, chars_of, spec_ascii_upper_seq, str_eq, string_of_range,
};
use crate::value::Value;

verus! {

broadcast use vstd::std_specs::vec::group_vec_axioms, vstd::seq::group_seq_axioms;

/// How deep groups may nest before the parser gives up.
pub const MAX_RECURSIVE_QUERIES: usize = 16;

/// The parser's whitespace.
pub open spec fn spec_is_ws(c: char) -> bool {
    c == ' ' || c == '\t' || c == '\n' || c == '\r'
}

/// Whether `c` is whitespace to the parser.
pub fn is_ws(c: char) -> (r: bool)
    ensures
        r == spec_is_ws(c),
{
    c == ' ' || c == '\t' || c == '\n' || c == '\r'
}

/// The closer matching an opening delimiter.
pub open spec fn spec_closer(c: char) -> char {
    if c == '(' {
        ')'
    } else if c == '[' {
        ']'
    } else {
        '}'
    }
}

/// The index just past the string literal opened by the quote at `i`, with
/// `\` escaping the next character, or -1 when the literal never closes.
pub open spec fn spec_skip_string(s: Seq<char>, q: char, i: int) -> int
    decreases s.len() - i,
{
    if i < 0 || i >= s.len() {
        -1
    } else if s[i] == q {
        i + 1
    } else if s[i] == '\\' {
        if i + 1 < s.len() {
            spec_skip_string(s, q, i + 2)
        } else {
            -1
        }
    } else {
        spec_skip_string(s, q, i + 1)
    }
}

/// The index just past the `*/` closing the comment opened at `i` (which
/// points at the `/` of `/*`), or -1 when the comment never closes.
pub open spec fn spec_skip_comment(s: Seq<char>, i: int) -> int
    decreases s.len() - i,
{
    if i < 0 || i + 1 >= s.len() {
        -1
    } else if s[i] == '*' && s[i + 1] == '/' {
        i + 2
    } else {
        spec_skip_comment(s, i + 1)
    }
}

/// The scanner's span list as mathematical pairs.
pub open spec fn spans_view(s: Seq<(usize, usize)>) -> Seq<(int, int)> {
    Seq::new(s.len(), |k: int| (s[k].0 as int, s[k].1 as int))
}

/// The scanner's stack as mathematical pairs.
pub open spec fn stack_view(s: Seq<(char, usize)>) -> Seq<(char, int)> {
    Seq::new(s.len(), |k: int| (s[k].0, s[k].1 as int))
}

/// What the scanner can decide.
#[verifier::ext_equal]
pub enum ScanOut {
    /// The statement spans, in source order.
    Spans(Seq<(int, int)>),
    /// The scan failed at this position.
    Syntax(int),
    /// The nesting cap was exceeded.
    Depth,
}

/// One pass over the text: splits statements at top-level `;`, matches
/// delimiters through the `stack` of pending closers (paired with their
/// opening position, for diagnostics), skips string literals and `/* */`
/// comments, and refuses nesting past the cap.
pub open spec fn spec_scan(
    s: Seq<char>,
    i: int,
    stack: Seq<(char, int)>,
    start: int,
    spans: Seq<(int, int)>,
) -> ScanOut
    decreases s.len() - i,
    via spec_scan_dec
{
    if i < 0 || i >= s.len() {
        if stack.len() > 0 {
            ScanOut::Syntax(stack.last().1)
        } else {
            ScanOut::Spans(spans.push((start, s.len() as int)))
        }
    } else {
        let c = s[i];
        if c == ';' && stack.len() == 0 {
            spec_scan(s, i + 1, stack, i + 1, spans.push((start, i)))
        } else if c == '(' || c == '[' || c == '{' {
            if stack.len() >= MAX_RECURSIVE_QUERIES {
                ScanOut::Depth
            } else {
                spec_scan(s, i + 1, stack.push((spec_closer(c), i)), start, spans)
            }
        } else if c == ')' || c == ']' || c == '}' {
            if stack.len() > 0 && stack.last().0 == c {
                spec_scan(s, i + 1, stack.drop_last(), start, spans)
            } else {
                ScanOut::Syntax(i)
            }
        } else if c == '\'' || c == '"' || c == '`' {
            let j = spec_skip_string(s, c, i + 1);
            if j < 0 {
                ScanOut::Syntax(i)
            } else {
                spec_scan(s, j, stack, start, spans)
            }
        } else if c == '/' && i + 1 < s.len() && s[i + 1] == '*' {
            let j = spec_skip_comment(s, i + 2);
            if j < 0 {
                ScanOut::Syntax(i)
            } else {
                spec_scan(s, j, stack, start, spans)
            }
        } else {
            spec_scan(s, i + 1, stack, start, spans)
        }
    }
}

#[via_fn]
proof fn spec_scan_dec(
    s: Seq<char>,
    i: int,
    stack: Seq<(char, int)>,
    start: int,
    spans: Seq<(int, int)>,
) {
    if 0 <= i < s.len() {
        lemma_skip_string_bounds(s, s[i], i + 1);
        if i + 2 <= s.len() {
            lemma_skip_comment_bounds(s, i + 2);
        }
    }
}

/// `spec_skip_string` moves strictly forward within the text.
pub proof fn lemma_skip_string_bounds(s: Seq<char>, q: char, i: int)
    requires
        0 <= i <= s.len(),
    ensures
        spec_skip_string(s, q, i) == -1 || (i < spec_skip_string(s, q, i) <= s.len()),
    decreases s.len() - i,
{
    if i < s.len() && s[i] != q {
        if s[i] == '\\' {
            if i + 1 < s.len() {
                lemma_skip_string_bounds(s, q, i + 2);
            }
        } else {
            lemma_skip_string_bounds(s, q, i + 1);
        }
    }
}

/// `spec_skip_comment` moves strictly forward within the text.
pub proof fn lemma_skip_comment_bounds(s: Seq<char>, i: int)
    requires
        0 <= i <= s.len(),
    ensures
        spec_skip_comment(s, i) == -1 || (i + 1 < spec_skip_comment(s, i) <= s.len()),
    decreases s.len() - i,
{
    if i + 1 < s.len() && !(s[i] == '*' && s[i + 1] == '/') {
        lemma_skip_comment_bounds(s, i + 1);
    }
}

/// The 1-based line of position `pos`: one more than the newlines before it.
pub open spec fn spec_line_of(s: Seq<char>, pos: int) -> int
    decreases pos,
{
    if pos <= 0 {
        1
    } else if s[pos - 1] == '\n' {
        1 + spec_line_of(s, pos - 1)
    } else {
        spec_line_of(s, pos - 1)
    }
}

/// The 0-based column of position `pos`: its distance from the line start.
pub open spec fn spec_col_of(s: Seq<char>, pos: int) -> int
    decreases pos,
{
    if pos <= 0 {
        0
    } else if s[pos - 1] == '\n' {
        0
    } else {
        1 + spec_col_of(s, pos - 1)
    }
}

/// The offending fragment reported for a failure at `pos`: the rest of the
/// input, truncated to 100 characters.
pub open spec fn spec_fragment(s: Seq<char>, pos: int) -> Seq<char> {
    if s.len() - pos <= 100 {
        s.subrange(pos, s.len() as int)
    } else {
        s.subrange(pos, pos + 100)
    }
}

/// The line and column of `pos`, walked in one pass.
#[verifier::loop_isolation(false)]
pub fn locate(cs: &Vec<char>, pos: usize) -> (r: (usize, usize))
    requires
        pos < usize::MAX,
        pos <= cs@.len(),
    ensures
        r.0 == spec_line_of(cs@, pos as int),
        r.1 == spec_col_of(cs@, pos as int),
{
    let mut line: usize = 1;
    let mut col: usize = 0;
    let mut i: usize = 0;
    while i < pos
        invariant
            i <= pos,
            line == spec_line_of(cs@, i as int),
            col == spec_col_of(cs@, i as int),
            line <= i + 1,
            col <= i,
        decreases pos - i,
    {
        if cs[i] == '\n' {
            line = line + 1;
            col = 0;
        } else {
            col = col + 1;
        }
        i = i + 1;
    }
    (line, col)
}

/// The `InvalidQuery` error for a scan failure at `pos`.
#[verifier::loop_isolation(false)]
fn invalid_query_at(cs: &Vec<char>, pos: usize) -> (r: Error)
    requires
        pos < cs@.len(),
    ensures
        r.deep_view() == (SpecError::InvalidQuery {
            line: spec_line_of(cs@, pos as int),
            character: spec_col_of(cs@, pos as int),
            sql: spec_fragment(cs@, pos as int),
        }),
{
    let n = cs.len();
    assert(pos < n);
    let (line, col) = locate(cs, pos);
    let end = if cs.len() - pos <= 100 {
        cs.len()
    } else {
        pos + 100
    };
    let sql = string_of_range(cs, pos, end);
    Error::InvalidQuery { line, character: col, sql }
}

/// Runs the scanner: the statement spans, or the failure.
#[verifier::loop_isolation(false)]
#[verifier::rlimit(100)]
#[verifier::spinoff_prover]
fn scan(cs: &Vec<char>) -> (r: Result<Vec<(usize, usize)>, Error>)
    ensures
        match spec_scan(cs@, 0, Seq::empty(), 0, Seq::empty()) {
            ScanOut::Spans(sp) => r is Ok && spans_view(r->Ok_0@) == sp && (forall|k: int|
                #![trigger sp[k]]
                0 <= k < sp.len() ==> 0 <= sp[k].0 <= sp[k].1 <= cs@.len()),
            ScanOut::Syntax(p) => r is Err && r->Err_0.deep_view() == (SpecError::InvalidQuery {
                line: spec_line_of(cs@, p),
                character: spec_col_of(cs@, p),
                sql: spec_fragment(cs@, p),
            }),
            ScanOut::Depth => r is Err && r->Err_0.deep_view() == SpecError::TooManySubqueries,
        },
{
    let n = cs.len();
    let mut stack: Vec<(char, usize)> = Vec::new();
    let mut spans: Vec<(usize, usize)> = Vec::new();
    let mut start: usize = 0;
    let mut i: usize = 0;
    proof {
        assert(stack_view(stack@) =~= Seq::<(char, int)>::empty());
        assert(spans_view(spans@) =~= Seq::<(int, int)>::empty());
    }
    loop
        invariant
            i <= n,
            n == cs@.len(),
            start <= i,
            forall|k: int|
                #![trigger spans@[k]]
                0 <= k < spans@.len() ==> 0 <= spans@[k].0 <= spans@[k].1 <= cs@.len(),
            forall|k: int| #![trigger stack@[k]] 0 <= k < stack@.len() ==> stack@[k].1 < cs@.len(),
            stack@.len() <= MAX_RECURSIVE_QUERIES,
            spec_scan(cs@, 0, Seq::empty(), 0, Seq::empty()) == spec_scan(
                cs@,
                i as int,
                stack_view(stack@),
                start as int,
                spans_view(spans@),
            ),
        decreases n - i,
    {
        let ghost gstack = stack_view(stack@);
        let ghost gspans = spans_view(spans@);
        if i >= n {
            if stack.len() > 0 {
                let p = stack[stack.len() - 1].1;
                return Err(invalid_query_at(cs, p));
            } else {
                spans.push((start, n));
                proof {
                    assert(spans_view(spans@) =~= gspans.push((start as int, n as int)));
                }
                return Ok(spans);
            }
        }
        let c = cs[i];
        if c == ';' && stack.len() == 0 {
            spans.push((start, i));
            proof {
                assert(spans_view(spans@) =~= gspans.push((start as int, i as int)));
            }
            start = i + 1;
            i = i + 1;
        } else if c == '(' || c == '[' || c == '{' {
            if stack.len() >= MAX_RECURSIVE_QUERIES {
                return Err(Error::TooManySubqueries);
            }
            let cl = if c == '(' {
                ')'
            } else if c == '[' {
                ']'
            } else {
                '}'
            };
            stack.push((cl, i));
            proof {
                assert(stack_view(stack@) =~= gstack.push((spec_closer(c), i as int)));
            }
            i = i + 1;
        } else if c == ')' || c == ']' || c == '}' {
            if stack.len() > 0 && stack[stack.len() - 1].0 == c {
                let _ = stack.pop();
                proof {
                    assert(stack_view(stack@) =~= gstack.drop_last());
                }
                i = i + 1;
            } else {
                return Err(invalid_query_at(cs, i));
            }
        } else if c == '\'' || c == '"' || c == '`' {
            proof {
                lemma_skip_string_bounds(cs@, c, i + 1);
            }
            let j = skip_string(cs, c, i + 1);
            match j {
                Some(j) => {
                    i = j;
                },
                None => {
                    return Err(invalid_query_at(cs, i));
                },
            }
        } else if c == '/' && i + 1 < n && cs[i + 1] == '*' {
            proof {
                lemma_skip_comment_bounds(cs@, i + 2);
            }
            let j = skip_comment(cs, i + 2);
            match j {
                Some(j) => {
                    i = j;
                },
                None => {
                    return Err(invalid_query_at(cs, i));
                },
            }
        } else {
            i = i + 1;
        }
    }
}

/// The index just past the literal opened before `i`, or `None`.
#[verifier::loop_isolation(false)]
fn skip_string(cs: &Vec<char>, q: char, i: usize) -> (r: Option<usize>)
    requires
        i <= cs@.len(),
    ensures
        match r {
            Some(j) => spec_skip_string(cs@, q, i as int) == j && i < j <= cs@.len(),
            None => spec_skip_string(cs@, q, i as int) == -1,
        },
{
    let ghost i0: int = i as int;
    let mut i = i;
    loop
        invariant
            i0 <= i <= cs@.len(),
            spec_skip_string(cs@, q, i0) == spec_skip_string(cs@, q, i as int),
        decreases cs@.len() - i,
    {
        proof {
            lemma_skip_string_bounds(cs@, q, i as int);
        }
        if i >= cs.len() {
            return None;
        }
        if cs[i] == q {
            return Some(i + 1);
        }
        if cs[i] == '\\' {
            if i + 1 < cs.len() {
                i = i + 2;
            } else {
                return None;
            }
        } else {
            i = i + 1;
        }
    }
}

/// The first content position in `[i, end)`, skipping whitespace and block
/// comments, or `end`.
pub open spec fn spec_skip_blank(s: Seq<char>, i: int, end: int) -> int
    decreases end - i,
    via spec_skip_blank_dec
{
    if i < 0 || i >= end || end > s.len() {
        end
    } else if spec_is_ws(s[i]) {
        spec_skip_blank(s, i + 1, end)
    } else if s[i] == '/' && i + 1 < end && s[i + 1] == '*' {
        let j = spec_skip_comment(s, i + 2);
        if j < 0 || j > end {
            end
        } else {
            spec_skip_blank(s, j, end)
        }
    } else {
        i
    }
}

#[via_fn]
proof fn spec_skip_blank_dec(s: Seq<char>, i: int, end: int) {
    if 0 <= i < end <= s.len() {
        if i + 2 <= s.len() {
            lemma_skip_comment_bounds(s, i + 2);
        }
    }
}

/// `spec_skip_blank` stays within `[i, end]`.
pub proof fn lemma_skip_blank_bounds(s: Seq<char>, i: int, end: int)
    requires
        0 <= i <= end <= s.len(),
    ensures
        i <= spec_skip_blank(s, i, end) <= end,
    decreases end - i,
{
    if i < end {
        if spec_is_ws(s[i]) {
            lemma_skip_blank_bounds(s, i + 1, end);
        } else if s[i] == '/' && i + 1 < end && s[i + 1] == '*' {
            lemma_skip_comment_bounds(s, i + 2);
            let j = spec_skip_comment(s, i + 2);
            if 0 <= j <= end {
                lemma_skip_blank_bounds(s, j, end);
            }
        }
    }
}

/// The end of the word starting at `i`: the next whitespace, or `end`.
pub open spec fn spec_word_end(s: Seq<char>, i: int, end: int) -> int
    decreases end - i,
{
    if i < 0 || i >= end || end > s.len() {
        end
    } else if spec_is_ws(s[i]) {
        i
    } else {
        spec_word_end(s, i + 1, end)
    }
}

/// The next word in `[i, end)`: its bounds, or `None` at the blank tail.
pub open spec fn spec_next_word(s: Seq<char>, i: int, end: int) -> Option<(int, int)> {
    let a = spec_skip_blank(s, i, end);
    if a >= end {
        None
    } else {
        Some((a, spec_word_end(s, a, end)))
    }
}

/// The trimmed bounds of `[a, b)`: whitespace stripped from both ends.
pub open spec fn spec_trim_start(s: Seq<char>, a: int, b: int) -> int
    decreases b - a,
{
    if a < 0 || a >= b || b > s.len() {
        a
    } else if spec_is_ws(s[a]) {
        spec_trim_start(s, a + 1, b)
    } else {
        a
    }
}

/// The end bound of `[a, b)` with trailing whitespace stripped.
pub open spec fn spec_trim_end(s: Seq<char>, a: int, b: int) -> int
    decreases b - a,
{
    if a < 0 || a >= b || b > s.len() {
        b
    } else if spec_is_ws(s[b - 1]) {
        spec_trim_end(s, a, b - 1)
    } else {
        b
    }
}

/// `spec_trim_start` and `spec_trim_end` stay within the range.
pub proof fn lemma_trim_bounds(s: Seq<char>, a: int, b: int)
    requires
        0 <= a <= b <= s.len(),
    ensures
        a <= spec_trim_start(s, a, b) <= b,
        a <= spec_trim_end(s, a, b) <= b,
        spec_trim_start(s, a, b) <= s.len(),
    decreases b - a,
{
    if a < b {
        if spec_is_ws(s[a]) {
            lemma_trim_bounds(s, a + 1, b);
            if spec_is_ws(s[b - 1]) {
                lemma_trim_bounds(s, a, b - 1);
            }
        } else if spec_is_ws(s[b - 1]) {
            lemma_trim_bounds(s, a, b - 1);
        }
    }
}

/// Whether `c` may appear in a plain identifier.
pub open spec fn spec_is_ident_char(c: char) -> bool {
    let u = c as u32;
    (48 <= u <= 57) || (65 <= u <= 90) || (97 <= u <= 122) || c == '_'
}

/// Whether `t` is a non-empty plain identifier.
pub open spec fn spec_is_ident(t: Seq<char>) -> bool {
    t.len() > 0 && forall|i: int| 0 <= i < t.len() ==> spec_is_ident_char(t[i])
}

/// The index just past the comment opened before `i`, or `None`.
#[verifier::loop_isolation(false)]
fn skip_comment(cs: &Vec<char>, i: usize) -> (r: Option<usize>)
    requires
        i <= cs@.len(),
    ensures
        match r {
            Some(j) => spec_skip_comment(cs@, i as int) == j && i + 1 < j <= cs@.len(),
            None => spec_skip_comment(cs@, i as int) == -1,
        },
{
    let ghost i0: int = i as int;
    let mut i = i;
    loop
        invariant
            i0 <= i <= cs@.len(),
            spec_skip_comment(cs@, i0) == spec_skip_comment(cs@, i as int),
        decreases cs@.len() - i,
    {
        proof {
            lemma_skip_comment_bounds(cs@, i as int);
        }
        if i >= cs.len() {
            return None;
        }
        if i + 1 >= cs.len() {
            return None;
        }
        if cs[i] == '*' && cs[i + 1] == '/' {
            return Some(i + 2);
        }
        i = i + 1;
    }
}

/// What an expression text means: the empty text is `Nil`; `$name` (one
/// word) is a parameter reference; a single-quoted text is a string; the
/// words TRUE, FALSE, NULL and NONE (any case) are the matching values;
/// anything else is kept as a string of its own text.
pub open spec fn spec_parse_expr(t: Seq<char>) -> crate::statement::SpecExpr {
    let up = spec_ascii_upper_seq(t);
    if t.len() == 0 {
        crate::statement::SpecExpr::Literal(crate::value::SpecValue::Nil)
    } else if t[0] == '$' && t.len() >= 2 && (forall|i: int| 0 <= i < t.len() ==> !spec_is_ws(t[i])) {
        crate::statement::SpecExpr::Param(t.skip(1))
    } else if t.len() >= 2 && t[0] == '\'' && t.last() == '\'' {
        crate::statement::SpecExpr::Literal(
            crate::value::SpecValue::Strand(t.subrange(1, t.len() - 1)),
        )
    } else if up == "TRUE"@ {
        crate::statement::SpecExpr::Literal(crate::value::SpecValue::True)
    } else if up == "FALSE"@ {
        crate::statement::SpecExpr::Literal(crate::value::SpecValue::False)
    } else if up == "NULL"@ || up == "NONE"@ {
        crate::statement::SpecExpr::Literal(crate::value::SpecValue::Nil)
    } else {
        crate::statement::SpecExpr::Literal(crate::value::SpecValue::Strand(t))
    }
}

/// The raw fallback statement for a span.
pub open spec fn spec_raw_of(s: Seq<char>, a: int, b: int) -> SpecStatement {
    let tb = spec_trim_end(s, a, b);
    let ta = spec_trim_start(s, a, tb);
    SpecStatement::Other(
        crate::statement::SpecDataStmt {
            kind: crate::statement::SpecDataKind::Raw(s.subrange(ta, tb)),
            timeout: None,
        },
    )
}

/// The trimmed remainder of a span after position `i`, as an expression.
pub open spec fn spec_rest_expr(s: Seq<char>, i: int, b: int) -> crate::statement::SpecExpr {
    let tb = spec_trim_end(s, i, b);
    let ta = spec_trim_start(s, i, tb);
    spec_parse_expr(s.subrange(ta, tb))
}

/// `USE NS n [DB d]` or `USE DB d`; anything else is the raw fallback.
pub open spec fn spec_classify_use(s: Seq<char>, a: int, i: int, b: int) -> SpecStatement {
    match spec_next_word(s, i, b) {
        Some((k2a, k2b)) => {
            let kw2 = spec_ascii_upper_seq(s.subrange(k2a, k2b));
            if kw2 == "NS"@ {
                match spec_next_word(s, k2b, b) {
                    Some((na, nb)) => if spec_is_ident(s.subrange(na, nb)) {
                        match spec_next_word(s, nb, b) {
                            Some((k4a, k4b)) => {
                                let kw4 = spec_ascii_upper_seq(s.subrange(k4a, k4b));
                                if kw4 == "DB"@ {
                                    match spec_next_word(s, k4b, b) {
                                        Some((da, db_)) => if spec_is_ident(s.subrange(da, db_))
                                            && spec_next_word(s, db_, b) is None {
                                            SpecStatement::Use {
                                                ns: Some(s.subrange(na, nb)),
                                                db: Some(s.subrange(da, db_)),
                                            }
                                        } else {
                                            spec_raw_of(s, a, b)
                                        },
                                        None => spec_raw_of(s, a, b),
                                    }
                                } else {
                                    spec_raw_of(s, a, b)
                                }
                            },
                            None => SpecStatement::Use { ns: Some(s.subrange(na, nb)), db: None },
                        }
                    } else {
                        spec_raw_of(s, a, b)
                    },
                    None => spec_raw_of(s, a, b),
                }
            } else if kw2 == "DB"@ {
                match spec_next_word(s, k2b, b) {
                    Some((da, db_)) => if spec_is_ident(s.subrange(da, db_)) && spec_next_word(
                        s,
                        db_,
                        b,
                    ) is None {
                        SpecStatement::Use { ns: None, db: Some(s.subrange(da, db_)) }
                    } else {
                        spec_raw_of(s, a, b)
                    },
                    None => spec_raw_of(s, a, b),
                }
            } else {
                spec_raw_of(s, a, b)
            }
        },
        None => spec_raw_of(s, a, b),
    }
}

/// `LET $name = expr`; anything else is the raw fallback.
pub open spec fn spec_classify_let(s: Seq<char>, a: int, i: int, b: int) -> SpecStatement {
    match spec_next_word(s, i, b) {
        Some((pa, pb)) => if pb - pa >= 2 && s[pa] == '$' && spec_is_ident(
            s.subrange(pa + 1, pb),
        ) {
            match spec_next_word(s, pb, b) {
                Some((ea, eb)) => if s.subrange(ea, eb) == "="@ {
                    SpecStatement::Let {
                        name: s.subrange(pa + 1, pb),
                        what: spec_rest_expr(s, eb, b),
                    }
                } else {
                    spec_raw_of(s, a, b)
                },
                None => spec_raw_of(s, a, b),
            }
        } else {
            spec_raw_of(s, a, b)
        },
        None => spec_raw_of(s, a, b),
    }
}

/// `OPTION NAME` or `OPTION NAME = TRUE|FALSE`; anything else is the raw
/// fallback.
pub open spec fn spec_classify_option(s: Seq<char>, a: int, i: int, b: int) -> SpecStatement {
    match spec_next_word(s, i, b) {
        Some((na, nb)) => if spec_is_ident(s.subrange(na, nb)) {
            match spec_next_word(s, nb, b) {
                None => SpecStatement::Opt { name: s.subrange(na, nb), what: true },
                Some((ea, eb)) => if s.subrange(ea, eb) == "="@ {
                    match spec_next_word(s, eb, b) {
                        Some((va, vb)) => {
                            let v = spec_ascii_upper_seq(s.subrange(va, vb));
                            if v == "TRUE"@ && spec_next_word(s, vb, b) is None {
                                SpecStatement::Opt { name: s.subrange(na, nb), what: true }
                            } else if v == "FALSE"@ && spec_next_word(s, vb, b) is None {
                                SpecStatement::Opt { name: s.subrange(na, nb), what: false }
                            } else {
                                spec_raw_of(s, a, b)
                            }
                        },
                        None => spec_raw_of(s, a, b),
                    }
                } else {
                    spec_raw_of(s, a, b)
                },
            }
        } else {
            spec_raw_of(s, a, b)
        },
        None => spec_raw_of(s, a, b),
    }
}

/// `CREATE tb` or `CREATE tb:id` (one word); anything else is the raw
/// fallback.
pub open spec fn spec_classify_create(s: Seq<char>, a: int, i: int, b: int) -> SpecStatement {
    match spec_next_word(s, i, b) {
        Some((wa, wb)) => if spec_next_word(s, wb, b) is None {
            let p = crate::ipaddr::spec_find_colon(s, wa);
            if p >= wb {
                if spec_is_ident(s.subrange(wa, wb)) {
                    SpecStatement::Other(
                        crate::statement::SpecDataStmt {
                            kind: crate::statement::SpecDataKind::Create {
                                tb: s.subrange(wa, wb),
                                id: None,
                            },
                            timeout: None,
                        },
                    )
                } else {
                    spec_raw_of(s, a, b)
                }
            } else {
                if spec_is_ident(s.subrange(wa, p)) && spec_is_ident(s.subrange(p + 1, wb))
                    && crate::ipaddr::spec_find_colon(s, p + 1) >= wb {
                    SpecStatement::Other(
                        crate::statement::SpecDataStmt {
                            kind: crate::statement::SpecDataKind::Create {
                                tb: s.subrange(wa, p),
                                id: Some(s.subrange(p + 1, wb)),
                            },
                            timeout: None,
                        },
                    )
                } else {
                    spec_raw_of(s, a, b)
                }
            }
        } else {
            spec_raw_of(s, a, b)
        },
        None => spec_raw_of(s, a, b),
    }
}

/// `SELECT * FROM tb` (exactly); anything else is the raw fallback.
pub open spec fn spec_classify_select(s: Seq<char>, a: int, i: int, b: int) -> SpecStatement {
    match spec_next_word(s, i, b) {
        Some((sa, sb)) => if s.subrange(sa, sb) == "*"@ {
            match spec_next_word(s, sb, b) {
                Some((fa, fb)) => if spec_ascii_upper_seq(s.subrange(fa, fb)) == "FROM"@ {
                    match spec_next_word(s, fb, b) {
                        Some((ta, tb_)) => if spec_is_ident(s.subrange(ta, tb_))
                            && spec_next_word(s, tb_, b) is None {
                            SpecStatement::Other(
                                crate::statement::SpecDataStmt {
                                    kind: crate::statement::SpecDataKind::Select {
                                        tb: s.subrange(ta, tb_),
                                    },
                                    timeout: None,
                                },
                            )
                        } else {
                            spec_raw_of(s, a, b)
                        },
                        None => spec_raw_of(s, a, b),
                    }
                } else {
                    spec_raw_of(s, a, b)
                },
                None => spec_raw_of(s, a, b),
            }
        } else {
            spec_raw_of(s, a, b)
        },
        None => spec_raw_of(s, a, b),
    }
}

/// The statement meant by span `[a, b)`, decided by its leading keyword.
pub open spec fn spec_classify(s: Seq<char>, a: int, b: int) -> SpecStatement {
    match spec_next_word(s, a, b) {
        None => spec_raw_of(s, a, b),
        Some((w1a, w1b)) => {
            let kw = spec_ascii_upper_seq(s.subrange(w1a, w1b));
            if kw == "BEGIN"@ {
                SpecStatement::Begin
            } else if kw == "COMMIT"@ {
                SpecStatement::Commit
            } else if kw == "CANCEL"@ {
                SpecStatement::Cancel
            } else if kw == "USE"@ {
                spec_classify_use(s, a, w1b, b)
            } else if kw == "LET"@ {
                spec_classify_let(s, a, w1b, b)
            } else if kw == "OPTION"@ {
                spec_classify_option(s, a, w1b, b)
            } else if kw == "RETURN"@ {
                SpecStatement::Output(spec_rest_expr(s, w1b, b))
            } else if kw == "CREATE"@ {
                spec_classify_create(s, a, w1b, b)
            } else if kw == "SELECT"@ {
                spec_classify_select(s, a, w1b, b)
            } else {
                spec_raw_of(s, a, b)
            }
        },
    }
}

/// The statements of the scanned spans, in order, with blank spans dropped.
pub open spec fn spec_classify_spans(s: Seq<char>, spans: Seq<(int, int)>) -> Seq<SpecStatement>
    decreases spans.len(),
{
    if spans.len() == 0 {
        Seq::empty()
    } else {
        let rest = spec_classify_spans(s, spans.drop_last());
        let (a, b) = spans.last();
        if spec_next_word(s, a, b) is Some {
            rest.push(spec_classify(s, a, b))
        } else {
            rest
        }
    }
}

/// Whether the input is nothing but whitespace.
pub open spec fn spec_all_ws(s: Seq<char>) -> bool {
    forall|i: int| 0 <= i < s.len() ==> spec_is_ws(s[i])
}

/// What `parse` returns, in full: whitespace-only input and input with no
/// non-blank statement are `QueryEmpty`; a scan failure is `InvalidQuery`
/// located at the failing position; nesting past the cap is
/// `TooManySubqueries`; everything else is the non-empty classified
/// statement sequence.
pub open spec fn spec_parse(s: Seq<char>) -> Result<Seq<SpecStatement>, SpecError> {
    if spec_all_ws(s) {
        Err(SpecError::QueryEmpty)
    } else {
        match spec_scan(s, 0, Seq::empty(), 0, Seq::empty()) {
            ScanOut::Depth => Err(SpecError::TooManySubqueries),
            ScanOut::Syntax(p) => Err(
                SpecError::InvalidQuery {
                    line: spec_line_of(s, p),
                    character: spec_col_of(s, p),
                    sql: spec_fragment(s, p),
                },
            ),
            ScanOut::Spans(sp) => {
                let sts = spec_classify_spans(s, sp);
                if sts.len() == 0 {
                    Err(SpecError::QueryEmpty)
                } else {
                    Ok(sts)
                }
            },
        }
    }
}

/// The first content position in `[i, end)`, as executable code.
#[verifier::loop_isolation(false)]
fn skip_blank(cs: &Vec<char>, i: usize, end: usize) -> (r: usize)
    requires
        i <= end <= cs@.len(),
    ensures
        r == spec_skip_blank(cs@, i as int, end as int),
        i <= r <= end,
{
    let ghost i0: int = i as int;
    let mut i = i;
    loop
        invariant
            i0 <= i <= end,
            spec_skip_blank(cs@, i0, end as int) == spec_skip_blank(cs@, i as int, end as int),
        decreases end - i,
    {
        proof {
            lemma_skip_blank_bounds(cs@, i as int, end as int);
        }
        if i >= end {
            return i;
        }
        if is_ws(cs[i]) {
            i = i + 1;
        } else if cs[i] == '/' && i + 1 < end && cs[i + 1] == '*' {
            proof {
                lemma_skip_comment_bounds(cs@, i + 2 as int);
            }
            match skip_comment(cs, i + 2) {
                Some(j) => {
                    if j > end {
                        return end;
                    }
                    i = j;
                },
                None => {
                    return end;
                },
            }
        } else {
            return i;
        }
    }
}

/// The end of the word starting at `i`, as executable code.
#[verifier::loop_isolation(false)]
fn word_end(cs: &Vec<char>, i: usize, end: usize) -> (r: usize)
    requires
        i <= end <= cs@.len(),
    ensures
        r == spec_word_end(cs@, i as int, end as int),
        i <= r <= end,
{
    let ghost i0: int = i as int;
    let mut i = i;
    loop
        invariant
            i0 <= i <= end,
            spec_word_end(cs@, i0, end as int) == spec_word_end(cs@, i as int, end as int),
        decreases end - i,
    {
        if i >= end {
            return i;
        }
        if is_ws(cs[i]) {
            return i;
        }
        i = i + 1;
    }
}

/// The next word in `[i, end)`, as executable code.
fn next_word(cs: &Vec<char>, i: usize, end: usize) -> (r: Option<(usize, usize)>)
    requires
        i <= end <= cs@.len(),
    ensures
        match r {
            Some(w) => spec_next_word(cs@, i as int, end as int) == Some((w.0 as int, w.1 as int))
                && i <= w.0 <= w.1 <= end,
            None => spec_next_word(cs@, i as int, end as int) is None,
        },
{
    let a = skip_blank(cs, i, end);
    if a >= end {
        None
    } else {
        let e = word_end(cs, a, end);
        Some((a, e))
    }
}

/// The trimmed bounds of `[a, b)`: the end is stripped of trailing
/// whitespace first, then the start is stripped up to that end, so the
/// start never passes the end.
#[verifier::loop_isolation(false)]
fn trim_range(cs: &Vec<char>, a: usize, b: usize) -> (r: (usize, usize))
    requires
        a <= b <= cs@.len(),
    ensures
        r.1 == spec_trim_end(cs@, a as int, b as int),
        r.0 == spec_trim_start(cs@, a as int, r.1 as int),
        a <= r.0 <= r.1 <= b,
{
    proof {
        lemma_trim_bounds(cs@, a as int, b as int);
    }
    let ghost a0: int = a as int;
    let mut tb = b;
    while tb > a && is_ws(cs[tb - 1])
        invariant
            a <= tb <= b,
            spec_trim_end(cs@, a0, b as int) == spec_trim_end(cs@, a0, tb as int),
        decreases tb,
    {
        tb = tb - 1;
    }
    proof {
        lemma_trim_bounds(cs@, a as int, tb as int);
    }
    let ghost tb0: int = tb as int;
    let mut ta = a;
    while ta < tb && is_ws(cs[ta])
        invariant
            a <= ta <= tb,
            spec_trim_start(cs@, a0, tb0) == spec_trim_start(cs@, ta as int, tb0),
        decreases tb - ta,
    {
        ta = ta + 1;
    }
    (ta, tb)
}

/// Whether `[a, b)` is a non-empty plain identifier, as executable code.
#[verifier::loop_isolation(false)]
fn is_ident_range(cs: &Vec<char>, a: usize, b: usize) -> (r: bool)
    requires
        a <= b <= cs@.len(),
    ensures
        r == spec_is_ident(cs@.subrange(a as int, b as int)),
{
    let ghost t = cs@.subrange(a as int, b as int);
    if a == b {
        return false;
    }
    let mut i = a;
    while i < b
        invariant
            a <= i <= b,
            forall|k: int| 0 <= k < i - a ==> spec_is_ident_char(t[k]),
        decreases b - i,
    {
        let u = cs[i] as u32;
        let okc = (48 <= u && u <= 57) || (65 <= u && u <= 90) || (97 <= u && u <= 122)
            || cs[i] == '_';
        if !okc {
            proof {
                assert(t[i - a as int] == cs@[i as int]);
                assert(!spec_is_ident_char(t[i - a as int]));
            }
            return false;
        }
        proof {
            assert(t[i - a as int] == cs@[i as int]);
        }
        i = i + 1;
    }
    true
}

/// Whether the range `[a, b)` is exactly the text `lit`.
fn range_is(cs: &Vec<char>, a: usize, b: usize, lit: &str) -> (r: bool)
    requires
        a <= b <= cs@.len(),
    ensures
        r == (cs@.subrange(a as int, b as int) == lit@),
{
    let w = string_of_range(cs, a, b);
    str_eq(w.as_str(), lit)
}

/// Whether the text is nothing but whitespace.
#[verifier::loop_isolation(false)]
fn all_whitespace(cs: &Vec<char>) -> (r: bool)
    ensures
        r == spec_all_ws(cs@),
{
    let mut i: usize = 0;
    while i < cs.len()
        invariant
            i <= cs@.len(),
            forall|k: int| 0 <= k < i ==> spec_is_ws(cs@[k]),
        decreases cs@.len() - i,
    {
        if !is_ws(cs[i]) {
            proof {
                assert(!spec_is_ws(cs@[i as int]));
            }
            return false;
        }
        i = i + 1;
    }
    true
}

/// Whether the word `[a, b)` uppercases to `kw`.
fn word_is(cs: &Vec<char>, a: usize, b: usize, kw: &str) -> (r: bool)
    requires
        a <= b <= cs@.len(),
    ensures
        r == (spec_ascii_upper_seq(cs@.subrange(a as int, b as int)) == kw@),
{
    let w = string_of_range(cs, a, b);
    let up = ascii_uppercase(w.as_str());
    str_eq(up.as_str(), kw)
}

/// Whether the range `[a, b)` holds any whitespace.
#[verifier::loop_isolation(false)]
fn range_has_ws(cs: &Vec<char>, a: usize, b: usize) -> (r: bool)
    requires
        a <= b <= cs@.len(),
    ensures
        r == exists|k: int| a <= k < b && spec_is_ws(cs@[k]),
{
    let mut i = a;
    while i < b
        invariant
            a <= i <= b,
            forall|k: int| a <= k < i ==> !spec_is_ws(cs@[k]),
        decreases b - i,
    {
        if is_ws(cs[i]) {
            return true;
        }
        i = i + 1;
    }
    false
}

/// The expression meant by the (already trimmed) text `[a, b)`.
fn parse_expr_range(cs: &Vec<char>, a: usize, b: usize) -> (r: Expr)
    requires
        a <= b <= cs@.len(),
    ensures
        r.deep_view() == spec_parse_expr(cs@.subrange(a as int, b as int)),
{
    let ghost t = cs@.subrange(a as int, b as int);
    if a == b {
        return Expr::Literal(Value::Nil);
    }
    if cs[a] == '$' && b - a >= 2 && !range_has_ws(cs, a, b) {
        proof {
            assert forall|k: int| 0 <= k < t.len() implies !spec_is_ws(t[k]) by {
                assert(t[k] == cs@[a + k]);
            }
            assert(t.skip(1) =~= cs@.subrange(a + 1 as int, b as int));
        }
        return Expr::Param(string_of_range(cs, a + 1, b));
    }
    proof {
        if t[0] == '$' && t.len() >= 2 && (forall|k: int| 0 <= k < t.len() ==> !spec_is_ws(t[k])) {
            let k = choose|k: int| a <= k < b && spec_is_ws(cs@[k]);
            assert(t[k - a as int] == cs@[k]);
        }
    }
    if b - a >= 2 && cs[a] == '\'' && cs[b - 1] == '\'' {
        proof {
            assert(t.last() == cs@[b - 1]);
            assert(t.subrange(1, t.len() - 1) =~= cs@.subrange(a + 1 as int, b - 1 as int));
        }
        return Expr::Literal(Value::Strand(string_of_range(cs, a + 1, b - 1)));
    }
    proof {
        assert(t.last() == cs@[b - 1]);
    }
    if word_is(cs, a, b, "TRUE") {
        Expr::Literal(Value::True)
    } else if word_is(cs, a, b, "FALSE") {
        Expr::Literal(Value::False)
    } else if word_is(cs, a, b, "NULL") || word_is(cs, a, b, "NONE") {
        Expr::Literal(Value::Nil)
    } else {
        Expr::Literal(Value::Strand(string_of_range(cs, a, b)))
    }
}

/// The trimmed remainder of a span after `i`, as an expression.
fn rest_expr(cs: &Vec<char>, i: usize, b: usize) -> (r: Expr)
    requires
        i <= b <= cs@.len(),
    ensures
        r.deep_view() == spec_rest_expr(cs@, i as int, b as int),
{
    let (ta, tb) = trim_range(cs, i, b);
    parse_expr_range(cs, ta, tb)
}

/// The raw fallback statement for span `[a, b)`.
fn raw_of(cs: &Vec<char>, a: usize, b: usize) -> (r: Statement)
    requires
        a <= b <= cs@.len(),
    ensures
        r.deep_view() == spec_raw_of(cs@, a as int, b as int),
{
    let (ta, tb) = trim_range(cs, a, b);
    Statement::Other(
        DataStmt { kind: DataKind::Raw(string_of_range(cs, ta, tb)), timeout: None },
    )
}

/// The first `:` inside `[from, to)`, or `to` when none sits there.
#[verifier::loop_isolation(false)]
fn find_colon_to(cs: &Vec<char>, from: usize, to: usize) -> (r: usize)
    requires
        from <= to <= cs@.len(),
    ensures
        ({
            let p = crate::ipaddr::spec_find_colon(cs@, from as int);
            if p < to {
                r == p
            } else {
                r == to
            }
        }),
        from <= r <= to,
{
    let ghost f0: int = from as int;
    let mut i = from;
    while i < to
        invariant
            from <= i <= to,
            forall|k: int| f0 <= k < i ==> cs@[k] != ':',
        decreases to - i,
    {
        if cs[i] == ':' {
            proof {
                lemma_find_colon_stops(cs@, f0, i as int);
            }
            return i;
        }
        i = i + 1;
    }
    proof {
        lemma_find_colon_past(cs@, f0, to as int);
    }
    to
}

/// With no colon in `[from, i)` and a colon at `i`, the search from `from`
/// stops at `i`.
proof fn lemma_find_colon_stops(s: Seq<char>, from: int, i: int)
    requires
        0 <= from <= i < s.len(),
        forall|k: int| from <= k < i ==> s[k] != ':',
        s[i] == ':',
    ensures
        crate::ipaddr::spec_find_colon(s, from) == i,
    decreases i - from,
{
    if from < i {
        lemma_find_colon_stops(s, from + 1, i);
    }
}

/// When no colon sits in `[from, to)`, the first colon at or after `from`
/// sits at or past `to`.
proof fn lemma_find_colon_past(s: Seq<char>, from: int, to: int)
    requires
        0 <= from <= to <= s.len(),
        forall|k: int| from <= k < to ==> s[k] != ':',
    ensures
        crate::ipaddr::spec_find_colon(s, from) >= to,
    decreases to - from,
{
    if from < to {
        lemma_find_colon_past(s, from + 1, to);
    } else {
        crate::ipaddr::lemma_find_colon_bounds(s, from);
    }
}

/// The statement meant by span `[a, b)`, as executable code.
#[verifier::rlimit(60)]
fn classify(cs: &Vec<char>, a: usize, b: usize) -> (r: Statement)
    requires
        a <= b <= cs@.len(),
    ensures
        r.deep_view() == spec_classify(cs@, a as int, b as int),
{
    let w1 = match next_word(cs, a, b) {
        Some(w) => w,
        None => {
            return raw_of(cs, a, b);
        },
    };
    if word_is(cs, w1.0, w1.1, "BEGIN") {
        Statement::Begin
    } else if word_is(cs, w1.0, w1.1, "COMMIT") {
        Statement::Commit
    } else if word_is(cs, w1.0, w1.1, "CANCEL") {
        Statement::Cancel
    } else if word_is(cs, w1.0, w1.1, "USE") {
        classify_use(cs, a, w1.1, b)
    } else if word_is(cs, w1.0, w1.1, "LET") {
        classify_let(cs, a, w1.1, b)
    } else if word_is(cs, w1.0, w1.1, "OPTION") {
        classify_option(cs, a, w1.1, b)
    } else if word_is(cs, w1.0, w1.1, "RETURN") {
        Statement::Output(rest_expr(cs, w1.1, b))
    } else if word_is(cs, w1.0, w1.1, "CREATE") {
        classify_create(cs, a, w1.1, b)
    } else if word_is(cs, w1.0, w1.1, "SELECT") {
        classify_select(cs, a, w1.1, b)
    } else {
        raw_of(cs, a, b)
    }
}

/// `USE`, as executable code.
#[verifier::rlimit(60)]
fn classify_use(cs: &Vec<char>, a: usize, i: usize, b: usize) -> (r: Statement)
    requires
        a <= b <= cs@.len(),
        i <= b,
    ensures
        r.deep_view() == spec_classify_use(cs@, a as int, i as int, b as int),
{
    let w2 = match next_word(cs, i, b) {
        Some(w) => w,
        None => {
            return raw_of(cs, a, b);
        },
    };
    if word_is(cs, w2.0, w2.1, "NS") {
        let w3 = match next_word(cs, w2.1, b) {
            Some(w) => w,
            None => {
                return raw_of(cs, a, b);
            },
        };
        if !is_ident_range(cs, w3.0, w3.1) {
            return raw_of(cs, a, b);
        }
        match next_word(cs, w3.1, b) {
            None => Statement::Use { ns: Some(string_of_range(cs, w3.0, w3.1)), db: None },
            Some(w4) => {
                if !word_is(cs, w4.0, w4.1, "DB") {
                    return raw_of(cs, a, b);
                }
                let w5 = match next_word(cs, w4.1, b) {
                    Some(w) => w,
                    None => {
                        return raw_of(cs, a, b);
                    },
                };
                if is_ident_range(cs, w5.0, w5.1) && next_word(cs, w5.1, b).is_none() {
                    Statement::Use {
                        ns: Some(string_of_range(cs, w3.0, w3.1)),
                        db: Some(string_of_range(cs, w5.0, w5.1)),
                    }
                } else {
                    raw_of(cs, a, b)
                }
            },
        }
    } else if word_is(cs, w2.0, w2.1, "DB") {
        let w3 = match next_word(cs, w2.1, b) {
            Some(w) => w,
            None => {
                return raw_of(cs, a, b);
            },
        };
        if is_ident_range(cs, w3.0, w3.1) && next_word(cs, w3.1, b).is_none() {
            Statement::Use { ns: None, db: Some(string_of_range(cs, w3.0, w3.1)) }
        } else {
            raw_of(cs, a, b)
        }
    } else {
        raw_of(cs, a, b)
    }
}

/// `LET`, as executable code.
#[verifier::rlimit(60)]
fn classify_let(cs: &Vec<char>, a: usize, i: usize, b: usize) -> (r: Statement)
    requires
        a <= b <= cs@.len(),
        i <= b,
    ensures
        r.deep_view() == spec_classify_let(cs@, a as int, i as int, b as int),
{
    let w2 = match next_word(cs, i, b) {
        Some(w) => w,
        None => {
            return raw_of(cs, a, b);
        },
    };
    if !(w2.1 - w2.0 >= 2 && cs[w2.0] == '$' && is_ident_range(cs, w2.0 + 1, w2.1)) {
        return raw_of(cs, a, b);
    }
    let w3 = match next_word(cs, w2.1, b) {
        Some(w) => w,
        None => {
            return raw_of(cs, a, b);
        },
    };
    let eq_word = range_is(cs, w3.0, w3.1, "=");
    if eq_word {
        Statement::Let {
            name: string_of_range(cs, w2.0 + 1, w2.1),
            what: rest_expr(cs, w3.1, b),
        }
    } else {
        raw_of(cs, a, b)
    }
}

/// `OPTION`, as executable code.
#[verifier::rlimit(60)]
fn classify_option(cs: &Vec<char>, a: usize, i: usize, b: usize) -> (r: Statement)
    requires
        a <= b <= cs@.len(),
        i <= b,
    ensures
        r.deep_view() == spec_classify_option(cs@, a as int, i as int, b as int),
{
    let w2 = match next_word(cs, i, b) {
        Some(w) => w,
        None => {
            return raw_of(cs, a, b);
        },
    };
    if !is_ident_range(cs, w2.0, w2.1) {
        return raw_of(cs, a, b);
    }
    match next_word(cs, w2.1, b) {
        None => Statement::Opt { name: string_of_range(cs, w2.0, w2.1), what: true },
        Some(w3) => {
            let eq_word = range_is(cs, w3.0, w3.1, "=");
            if !eq_word {
                return raw_of(cs, a, b);
            }
            let w4 = match next_word(cs, w3.1, b) {
                Some(w) => w,
                None => {
                    return raw_of(cs, a, b);
                },
            };
            if word_is(cs, w4.0, w4.1, "TRUE") && next_word(cs, w4.1, b).is_none() {
                Statement::Opt { name: string_of_range(cs, w2.0, w2.1), what: true }
            } else if word_is(cs, w4.0, w4.1, "FALSE") && next_word(cs, w4.1, b).is_none() {
                Statement::Opt { name: string_of_range(cs, w2.0, w2.1), what: false }
            } else {
                raw_of(cs, a, b)
            }
        },
    }
}

/// `CREATE`, as executable code.
#[verifier::rlimit(60)]
fn classify_create(cs: &Vec<char>, a: usize, i: usize, b: usize) -> (r: Statement)
    requires
        a <= b <= cs@.len(),
        i <= b,
    ensures
        r.deep_view() == spec_classify_create(cs@, a as int, i as int, b as int),
{
    let w2 = match next_word(cs, i, b) {
        Some(w) => w,
        None => {
            return raw_of(cs, a, b);
        },
    };
    if next_word(cs, w2.1, b).is_some() {
        return raw_of(cs, a, b);
    }
    let p = find_colon_to(cs, w2.0, w2.1);
    if p == w2.1 {
        if is_ident_range(cs, w2.0, w2.1) {
            Statement::Other(
                DataStmt {
                    kind: DataKind::Create { tb: string_of_range(cs, w2.0, w2.1), id: None },
                    timeout: None,
                },
            )
        } else {
            raw_of(cs, a, b)
        }
    } else {
        let second = find_colon_to(cs, p + 1, w2.1);
        if is_ident_range(cs, w2.0, p) && is_ident_range(cs, p + 1, w2.1) && second == w2.1 {
            Statement::Other(
                DataStmt {
                    kind: DataKind::Create {
                        tb: string_of_range(cs, w2.0, p),
                        id: Some(string_of_range(cs, p + 1, w2.1)),
                    },
                    timeout: None,
                },
            )
        } else {
            raw_of(cs, a, b)
        }
    }
}

/// `SELECT`, as executable code.
#[verifier::rlimit(60)]
fn classify_select(cs: &Vec<char>, a: usize, i: usize, b: usize) -> (r: Statement)
    requires
        a <= b <= cs@.len(),
        i <= b,
    ensures
        r.deep_view() == spec_classify_select(cs@, a as int, i as int, b as int),
{
    let w2 = match next_word(cs, i, b) {
        Some(w) => w,
        None => {
            return raw_of(cs, a, b);
        },
    };
    let star = range_is(cs, w2.0, w2.1, "*");
    if !star {
        return raw_of(cs, a, b);
    }
    let w3 = match next_word(cs, w2.1, b) {
        Some(w) => w,
        None => {
            return raw_of(cs, a, b);
        },
    };
    if !word_is(cs, w3.0, w3.1, "FROM") {
        return raw_of(cs, a, b);
    }
    let w4 = match next_word(cs, w3.1, b) {
        Some(w) => w,
        None => {
            return raw_of(cs, a, b);
        },
    };
    if is_ident_range(cs, w4.0, w4.1) && next_word(cs, w4.1, b).is_none() {
        Statement::Other(
            DataStmt {
                kind: DataKind::Select { tb: string_of_range(cs, w4.0, w4.1) },
                timeout: None,
            },
        )
    } else {
        raw_of(cs, a, b)
    }
}

/// Parses source text into a query: the statements in source order, never
/// empty on success; `QueryEmpty` for blank input or input with only blank
/// statements; `InvalidQuery` with line, column and fragment for a scan
/// failure; `TooManySubqueries` past the nesting cap — exactly
/// [`spec_parse`].
#[verifier::loop_isolation(false)]
pub fn parse(input: &str) -> (r: Result<Query, Error>)
    ensures
        match spec_parse(input@) {
            Ok(sts) => r is Ok && r->Ok_0.deep_view() == sts,
            Err(e) => r is Err && r->Err_0.deep_view() == e,
        },
        r is Ok ==> r->Ok_0.deep_view().len() > 0,
        spec_all_ws(input@) ==> r is Err && r->Err_0.deep_view() == SpecError::QueryEmpty,
{
    let cs = chars_of(input);
    if all_whitespace(&cs) {
        return Err(Error::QueryEmpty);
    }
    let spans = match scan(&cs) {
        Ok(sp) => sp,
        Err(e) => {
            return Err(e);
        },
    };
    let ghost spv = spans_view(spans@);
    let mut stmts: Vec<Statement> = Vec::new();
    let mut k: usize = 0;
    proof {
        assert(spv.take(0) =~= Seq::<(int, int)>::empty());
        assert(stmts.deep_view() =~= spec_classify_spans(cs@, spv.take(0)));
    }
    while k < spans.len()
        invariant
            k <= spans@.len(),
            stmts.deep_view() == spec_classify_spans(cs@, spv.take(k as int)),
        decreases spans@.len() - k,
    {
        let ghost pre = stmts.deep_view();
        let (a, b) = spans[k];
        proof {
            assert(spv[k as int] == (a as int, b as int));
        }
        if next_word(&cs, a, b).is_some() {
            let st = classify(&cs, a, b);
            stmts.push(st);
            proof {
                assert(stmts.deep_view() =~= pre.push(spec_classify(cs@, a as int, b as int)));
            }
        }
        proof {
            assert(spv.take(k + 1 as int).drop_last() =~= spv.take(k as int));
            assert(spv.take(k + 1 as int).last() == spv[k as int]);
            assert(stmts.deep_view() =~= spec_classify_spans(cs@, spv.take(k + 1 as int)));
        }
        k = k + 1;
    }
    proof {
        assert(spv.take(spans@.len() as int) =~= spv);
    }
    if stmts.len() == 0 {
        Err(Error::QueryEmpty)
    } else {
        Ok(Query { stmts })
    }
}

/// A text with any non-whitespace keeps a non-blank trimmed end, and the
/// trimmed start stops strictly before it, on a non-whitespace character.
proof fn lemma_trim_end_keeps(s: Seq<char>, a: int, b: int)
    requires
        0 <= a <= b <= s.len(),
        exists|k: int| a <= k < b && !spec_is_ws(s[k]),
    ensures
        a < spec_trim_end(s, a, b) <= b,
        !spec_is_ws(s[spec_trim_end(s, a, b) - 1]),
    decreases b - a,
{
    let k = choose|k: int| a <= k < b && !spec_is_ws(s[k]);
    if spec_is_ws(s[b - 1]) {
        assert(a <= k < b - 1);
        lemma_trim_end_keeps(s, a, b - 1);
    }
}

/// The trimmed start of a range with any non-whitespace lands strictly
/// inside it, on a non-whitespace character.
proof fn lemma_trim_start_stops(s: Seq<char>, a: int, b: int)
    requires
        0 <= a <= b <= s.len(),
        exists|k: int| a <= k < b && !spec_is_ws(s[k]),
    ensures
        a <= spec_trim_start(s, a, b) < b,
        !spec_is_ws(s[spec_trim_start(s, a, b)]),
    decreases b - a,
{
    let k = choose|k: int| a <= k < b && !spec_is_ws(s[k]);
    if spec_is_ws(s[a]) {
        assert(a + 1 <= k < b);
        lemma_trim_start_stops(s, a + 1, b);
    }
}

/// A record pointer parsed from text.
#[derive(Debug, PartialEq, Eq)]
pub struct Thing {
    /// The table name.
    pub tb: String,
    /// The record id.
    pub id: String,
}

/// What `thing` accepts: the trimmed text must be exactly `tb:id` with both
/// sides plain identifiers.
pub open spec fn spec_thing(s: Seq<char>) -> Result<(Seq<char>, Seq<char>), SpecError> {
    if spec_all_ws(s) {
        Err(SpecError::QueryEmpty)
    } else {
        let b = spec_trim_end(s, 0, s.len() as int);
        let a = spec_trim_start(s, 0, b);
        let p = crate::ipaddr::spec_find_colon(s, a);
        if p < b && spec_is_ident(s.subrange(a, p)) && spec_is_ident(s.subrange(p + 1, b))
            && crate::ipaddr::spec_find_colon(s, p + 1) >= b {
            Ok((s.subrange(a, p), s.subrange(p + 1, b)))
        } else {
            Err(
                SpecError::InvalidQuery {
                    line: spec_line_of(s, a),
                    character: spec_col_of(s, a),
                    sql: spec_fragment(s, a),
                },
            )
        }
    }
}

/// Parses a record pointer `tb:id`.
pub fn thing(input: &str) -> (r: Result<Thing, Error>)
    ensures
        match spec_thing(input@) {
            Ok(t) => r is Ok && r->Ok_0.tb@ == t.0 && r->Ok_0.id@ == t.1,
            Err(e) => r is Err && r->Err_0.deep_view() == e,
        },
{
    let cs = chars_of(input);
    if all_whitespace(&cs) {
        return Err(Error::QueryEmpty);
    }
    let n = cs.len();
    proof {
        let k = choose|k: int| 0 <= k < cs@.len() && !spec_is_ws(cs@[k]);
        lemma_trim_end_keeps(cs@, 0, n as int);
        lemma_trim_start_stops(cs@, 0, spec_trim_end(cs@, 0, n as int));
    }
    let (a, b) = trim_range(&cs, 0, n);
    let p = find_colon_to(&cs, a, b);
    if p < b && is_ident_range(&cs, a, p) && is_ident_range(&cs, p + 1, b) && find_colon_to(
        &cs,
        p + 1,
        b,
    ) == b {
        Ok(Thing { tb: string_of_range(&cs, a, p), id: string_of_range(&cs, p + 1, b) })
    } else {
        Err(invalid_query_at(&cs, a))
    }
}

/// What one step of JSON parsing can decide.
#[verifier::ext_equal]
pub enum JsonOut {
    /// A value, and the position just past it.
    Val(crate::value::SpecValue, int),
    /// Nesting past the cap.
    Deep,
    /// Not JSON, at this position.
    Bad(int),
}

/// The first non-whitespace position at or after `i`, or the length.
pub open spec fn spec_json_ws(s: Seq<char>, i: int) -> int
    decreases s.len() - i,
{
    if i < 0 || i >= s.len() {
        s.len() as int
    } else if spec_is_ws(s[i]) {
        spec_json_ws(s, i + 1)
    } else {
        i
    }
}

/// Whether `[i, ...)` spells `word`.
pub open spec fn spec_word_at(s: Seq<char>, i: int, word: Seq<char>) -> bool {
    0 <= i && i + word.len() <= s.len() && s.subrange(i, i + word.len()) == word
}

/// The end of a digit run starting at `i`.
pub open spec fn spec_digits_end(s: Seq<char>, i: int) -> int
    decreases s.len() - i,
{
    if i < 0 || i >= s.len() {
        s.len() as int
    } else if crate::checks::spec_is_digit(s[i]) {
        spec_digits_end(s, i + 1)
    } else {
        i
    }
}

/// `spec_digits_end` stays within `[i, len]`, and the run is all digits.
pub proof fn lemma_digits_end_bounds(s: Seq<char>, i: int)
    requires
        0 <= i <= s.len(),
    ensures
        i <= spec_digits_end(s, i) <= s.len(),
        forall|k: int| i <= k < spec_digits_end(s, i) ==> crate::checks::spec_is_digit(s[k]),
    decreases s.len() - i,
{
    if i < s.len() && crate::checks::spec_is_digit(s[i]) {
        lemma_digits_end_bounds(s, i + 1);
    }
}

/// The value of the digit run `[a, b)`.
pub open spec fn spec_digits_val(s: Seq<char>, a: int, b: int) -> int
    decreases b - a,
{
    if a >= b {
        0
    } else {
        spec_digits_val(s, a, b - 1) * 10 + ((s[b - 1] as u32) - 48)
    }
}

/// Powers of ten, for the digit bound.
pub open spec fn spec_pow10(n: int) -> int
    decreases n,
{
    if n <= 0 {
        1
    } else {
        spec_pow10(n - 1) * 10
    }
}

/// A digit run of at most eighteen digits stays under `10^18`.
pub proof fn lemma_digits_val_bounds(s: Seq<char>, a: int, b: int)
    requires
        0 <= a <= b <= s.len(),
        b - a <= 18,
        forall|i: int| a <= i < b ==> crate::checks::spec_is_digit(s[i]),
    ensures
        0 <= spec_digits_val(s, a, b) < 1_000_000_000_000_000_000,
{
    lemma_digits_val_bounds_n(s, a, b, b - a);
    lemma_pow10_mono(b - a, 18);
}

/// `spec_digits_val` is bounded by `10^len`.
proof fn lemma_digits_val_bounds_n(s: Seq<char>, a: int, b: int, n: int)
    requires
        0 <= a <= b <= s.len(),
        b - a == n,
        forall|i: int| a <= i < b ==> crate::checks::spec_is_digit(s[i]),
    ensures
        0 <= spec_digits_val(s, a, b),
        spec_digits_val(s, a, b) < spec_pow10(n),
    decreases n,
{
    if n > 0 {
        lemma_digits_val_bounds_n(s, a, b - 1, n - 1);
        assert(spec_digits_val(s, a, b - 1) * 10 <= (spec_pow10(n - 1) - 1) * 10) by (
        nonlinear_arith)
            requires
                0 <= spec_digits_val(s, a, b - 1) <= spec_pow10(n - 1) - 1,
        ;
    }
}

/// Powers of ten are positive.
proof fn lemma_pow10_pos(n: int)
    ensures
        spec_pow10(n) >= 1,
    decreases n,
{
    if n > 0 {
        lemma_pow10_pos(n - 1);
    }
}

/// Powers of ten grow with the exponent.
proof fn lemma_pow10_mono(a: int, b: int)
    requires
        a <= b,
    ensures
        spec_pow10(a) <= spec_pow10(b),
        spec_pow10(18) == 1_000_000_000_000_000_000,
    decreases b - a,
{
    if a < b {
        lemma_pow10_mono(a, b - 1);
        lemma_pow10_pos(b - 1);
        if b > 0 {
            assert(spec_pow10(b) == spec_pow10(b - 1) * 10);
        }
    }
    assert(spec_pow10(0) == 1);
    assert(spec_pow10(1) == 10);
    assert(spec_pow10(2) == 100);
    assert(spec_pow10(3) == 1000);
    assert(spec_pow10(4) == 10000);
    assert(spec_pow10(5) == 100000);
    assert(spec_pow10(6) == 1000000);
    assert(spec_pow10(7) == 10000000);
    assert(spec_pow10(8) == 100000000);
    assert(spec_pow10(9) == 1000000000);
    assert(spec_pow10(10) == 10000000000);
    assert(spec_pow10(11) == 100000000000);
    assert(spec_pow10(12) == 1000000000000);
    assert(spec_pow10(13) == 10000000000000);
    assert(spec_pow10(14) == 100000000000000);
    assert(spec_pow10(15) == 1000000000000000);
    assert(spec_pow10(16) == 10000000000000000);
    assert(spec_pow10(17) == 100000000000000000);
    assert(spec_pow10(18) == 1_000_000_000_000_000_000);
}

/// The position just past the closing quote of the string opened before
/// `i`, or -1; these strings carry no escape sequences.
pub open spec fn spec_json_str_end(s: Seq<char>, i: int) -> int
    decreases s.len() - i,
{
    if i < 0 || i >= s.len() {
        -1
    } else if s[i] == '"' {
        i + 1
    } else {
        spec_json_str_end(s, i + 1)
    }
}

/// `spec_json_str_end` moves strictly forward.
pub proof fn lemma_json_str_end_bounds(s: Seq<char>, i: int)
    requires
        0 <= i <= s.len(),
    ensures
        spec_json_str_end(s, i) == -1 || i < spec_json_str_end(s, i) <= s.len(),
    decreases s.len() - i,
{
    if i < s.len() && s[i] != '"' {
        lemma_json_str_end_bounds(s, i + 1);
    }
}

/// One JSON value at `i`: a keyword, an integer, a string without escape
/// sequences, an array, or an object, with nesting capped. The `fuel`
/// bounds the recursion; the entry point supplies more than any input can
/// use, so running out reads as a failure at `i`.
pub open spec fn spec_json_value(s: Seq<char>, i: int, depth: int, fuel: int) -> JsonOut
    decreases fuel, 1int,
{
    if fuel <= 0 {
        JsonOut::Bad(i)
    } else {
        let j = spec_json_ws(s, i);
        if j >= s.len() {
            JsonOut::Bad(j)
        } else if spec_word_at(s, j, "null"@) {
            JsonOut::Val(crate::value::SpecValue::Nil, j + 4)
        } else if spec_word_at(s, j, "true"@) {
            JsonOut::Val(crate::value::SpecValue::True, j + 4)
        } else if spec_word_at(s, j, "false"@) {
            JsonOut::Val(crate::value::SpecValue::False, j + 5)
        } else if s[j] == '-' || crate::checks::spec_is_digit(s[j]) {
            let a = if s[j] == '-' {
                j + 1
            } else {
                j
            };
            let b = spec_digits_end(s, a);
            if b == a || b - a > 18 {
                JsonOut::Bad(j)
            } else {
                let v = spec_digits_val(s, a, b);
                JsonOut::Val(
                    crate::value::SpecValue::Int(
                        if s[j] == '-' {
                            (-v) as i64
                        } else {
                            v as i64
                        },
                    ),
                    b,
                )
            }
        } else if s[j] == '"' {
            let e = spec_json_str_end(s, j + 1);
            if e < 0 {
                JsonOut::Bad(j)
            } else {
                JsonOut::Val(crate::value::SpecValue::Strand(s.subrange(j + 1, e - 1)), e)
            }
        } else if s[j] == '[' {
            if depth >= MAX_RECURSIVE_QUERIES {
                JsonOut::Deep
            } else {
                let k = spec_json_ws(s, j + 1);
                if k < s.len() && s[k] == ']' {
                    JsonOut::Val(crate::value::SpecValue::Array(Seq::empty()), k + 1)
                } else {
                    spec_json_elems(s, j + 1, depth + 1, fuel - 1, Seq::empty())
                }
            }
        } else if s[j] == '{' {
            if depth >= MAX_RECURSIVE_QUERIES {
                JsonOut::Deep
            } else {
                let k = spec_json_ws(s, j + 1);
                if k < s.len() && s[k] == '}' {
                    JsonOut::Val(crate::value::SpecValue::Object(Seq::empty()), k + 1)
                } else {
                    spec_json_fields(s, j + 1, depth + 1, fuel - 1, Seq::empty())
                }
            }
        } else {
            JsonOut::Bad(j)
        }
    }
}

/// The elements of a non-empty array, from just after `[` or a comma.
pub open spec fn spec_json_elems(
    s: Seq<char>,
    i: int,
    depth: int,
    fuel: int,
    acc: Seq<crate::value::SpecValue>,
) -> JsonOut
    decreases fuel, 2int,
{
    if fuel <= 0 {
        JsonOut::Bad(i)
    } else {
        match spec_json_value(s, i, depth, fuel) {
            JsonOut::Deep => JsonOut::Deep,
            JsonOut::Bad(p) => JsonOut::Bad(p),
            JsonOut::Val(v, j) => {
                let k = spec_json_ws(s, j);
                if k < s.len() && s[k] == ']' {
                    JsonOut::Val(crate::value::SpecValue::Array(acc.push(v)), k + 1)
                } else if k < s.len() && s[k] == ',' {
                    spec_json_elems(s, k + 1, depth, fuel - 1, acc.push(v))
                } else {
                    JsonOut::Bad(k)
                }
            },
        }
    }
}

/// The fields of a non-empty object, from just after `{` or a comma.
pub open spec fn spec_json_fields(
    s: Seq<char>,
    i: int,
    depth: int,
    fuel: int,
    acc: Seq<(Seq<char>, crate::value::SpecValue)>,
) -> JsonOut
    decreases fuel, 2int,
{
    if fuel <= 0 {
        JsonOut::Bad(i)
    } else {
        let k0 = spec_json_ws(s, i);
        if !(k0 < s.len() && s[k0] == '"') {
            JsonOut::Bad(k0)
        } else {
            let e = spec_json_str_end(s, k0 + 1);
            if e < 0 {
                JsonOut::Bad(k0)
            } else {
                let key = s.subrange(k0 + 1, e - 1);
                let c = spec_json_ws(s, e);
                if !(c < s.len() && s[c] == ':') {
                    JsonOut::Bad(c)
                } else {
                    match spec_json_value(s, c + 1, depth, fuel) {
                        JsonOut::Deep => JsonOut::Deep,
                        JsonOut::Bad(p) => JsonOut::Bad(p),
                        JsonOut::Val(v, j) => {
                            let k = spec_json_ws(s, j);
                            if k < s.len() && s[k] == '}' {
                                JsonOut::Val(
                                    crate::value::SpecValue::Object(acc.push((key, v))),
                                    k + 1,
                                )
                            } else if k < s.len() && s[k] == ',' {
                                spec_json_fields(s, k + 1, depth, fuel - 1, acc.push((key, v)))
                            } else {
                                JsonOut::Bad(k)
                            }
                        },
                    }
                }
            }
        }
    }
}

/// The fuel the JSON entry point supplies: twice the input length and a
/// little more, saturating — more calls than any parse can make.
pub open spec fn spec_json_fuel(len: int) -> int {
    if 2 * len + 4 <= u64::MAX {
        2 * len + 4
    } else {
        u64::MAX as int
    }
}

/// What `json` returns, in full: whitespace-only input is `QueryEmpty`;
/// nesting past the cap is `TooManySubqueries`; any other failure is
/// `InvalidQuery` located at the failing position (clamped into the text);
/// otherwise the parsed value, which must take the whole trimmed input.
pub open spec fn spec_json(s: Seq<char>) -> Result<crate::value::SpecValue, SpecError> {
    if spec_all_ws(s) {
        Err(SpecError::QueryEmpty)
    } else {
        let err_at = |p: int|
            {
                let pe = if 0 <= p < s.len() {
                    p
                } else {
                    s.len() - 1
                };
                SpecError::InvalidQuery {
                    line: spec_line_of(s, pe),
                    character: spec_col_of(s, pe),
                    sql: spec_fragment(s, pe),
                }
            };
        match spec_json_value(s, 0, 0, spec_json_fuel(s.len() as int)) {
            JsonOut::Deep => Err(SpecError::TooManySubqueries),
            JsonOut::Bad(p) => Err(err_at(p)),
            JsonOut::Val(v, j) => if spec_json_ws(s, j) >= s.len() {
                Ok(v)
            } else {
                Err(err_at(spec_json_ws(s, j)))
            },
        }
    }
}

/// The executable form of [`JsonOut`].
enum JsonStep {
    Val(Value, usize),
    Deep,
    Bad(usize),
}

/// The first non-whitespace position, as executable code.
#[verifier::loop_isolation(false)]
fn json_ws(cs: &Vec<char>, i: usize) -> (r: usize)
    requires
        i <= cs@.len(),
    ensures
        r == spec_json_ws(cs@, i as int),
        i <= r <= cs@.len(),
{
    let ghost i0: int = i as int;
    let mut i = i;
    while i < cs.len()
        invariant
            i0 <= i <= cs@.len(),
            spec_json_ws(cs@, i0) == spec_json_ws(cs@, i as int),
        decreases cs@.len() - i,
    {
        if !is_ws(cs[i]) {
            return i;
        }
        i = i + 1;
    }
    i
}

/// The end of a digit run, as executable code.
#[verifier::loop_isolation(false)]
fn digits_end(cs: &Vec<char>, i: usize) -> (r: usize)
    requires
        i <= cs@.len(),
    ensures
        r == spec_digits_end(cs@, i as int),
        i <= r <= cs@.len(),
{
    let ghost i0: int = i as int;
    let mut i = i;
    while i < cs.len()
        invariant
            i0 <= i <= cs@.len(),
            spec_digits_end(cs@, i0) == spec_digits_end(cs@, i as int),
        decreases cs@.len() - i,
    {
        let u = cs[i] as u32;
        if !(48 <= u && u <= 57) {
            return i;
        }
        i = i + 1;
    }
    i
}

/// The value of a digit run of at most eighteen digits.
#[verifier::loop_isolation(false)]
fn digits_val(cs: &Vec<char>, a: usize, b: usize) -> (r: u64)
    requires
        a <= b <= cs@.len(),
        b - a <= 18,
        forall|k: int| a <= k < b ==> crate::checks::spec_is_digit(cs@[k]),
    ensures
        r as int == spec_digits_val(cs@, a as int, b as int),
        r < 1_000_000_000_000_000_000,
{
    proof {
        lemma_digits_val_bounds(cs@, a as int, b as int);
    }
    let mut acc: u64 = 0;
    let mut i = a;
    while i < b
        invariant
            a <= i <= b,
            acc as int == spec_digits_val(cs@, a as int, i as int),
            acc < 1_000_000_000_000_000_000,
        decreases b - i,
    {
        proof {
            lemma_digits_val_bounds(cs@, a as int, i as int);
            lemma_digits_val_bounds(cs@, a as int, i + 1 as int);
        }
        let d = (cs[i] as u32) - 48;
        acc = acc * 10 + (d as u64);
        i = i + 1;
    }
    acc
}

/// The position just past the string opened before `i`, as executable code.
#[verifier::loop_isolation(false)]
fn json_str_end(cs: &Vec<char>, i: usize) -> (r: Option<usize>)
    requires
        i <= cs@.len(),
    ensures
        match r {
            Some(j) => spec_json_str_end(cs@, i as int) == j && i < j <= cs@.len(),
            None => spec_json_str_end(cs@, i as int) == -1,
        },
{
    let ghost i0: int = i as int;
    let mut i = i;
    loop
        invariant
            i0 <= i <= cs@.len(),
            spec_json_str_end(cs@, i0) == spec_json_str_end(cs@, i as int),
        decreases cs@.len() - i,
    {
        proof {
            lemma_json_str_end_bounds(cs@, i as int);
        }
        if i >= cs.len() {
            return None;
        }
        if cs[i] == '"' {
            return Some(i + 1);
        }
        i = i + 1;
    }
}

/// One JSON value, as executable code.
#[verifier::loop_isolation(false)]
#[verifier::rlimit(100)]
fn json_value(cs: &Vec<char>, i: usize, depth: usize, fuel: u64) -> (r: JsonStep)
    requires
        i <= cs@.len(),
    ensures
        ({
            let m = spec_json_value(cs@, i as int, depth as int, fuel as int);
            match r {
                JsonStep::Val(v, j) => m == JsonOut::Val(v.deep_view(), j as int) && j
                    <= cs@.len(),
                JsonStep::Deep => m is Deep,
                JsonStep::Bad(p) => m == JsonOut::Bad(p as int) && p <= cs@.len(),
            }
        }),
    decreases fuel, 1int,
{
    if fuel == 0 {
        return JsonStep::Bad(i);
    }
    let j = json_ws(cs, i);
    if j >= cs.len() {
        return JsonStep::Bad(j);
    }
    if cs.len() - j >= 4 && range_is(cs, j, j + 4, "null") {
        proof {
            assert(spec_word_at(cs@, j as int, "null"@));
        }
        return JsonStep::Val(Value::Nil, j + 4);
    }
    proof {
        reveal_strlit("null");
        if spec_word_at(cs@, j as int, "null"@) {
            assert(cs@.subrange(j as int, j + 4 as int) == "null"@);
        }
    }
    if cs.len() - j >= 4 && range_is(cs, j, j + 4, "true") {
        proof {
            assert(spec_word_at(cs@, j as int, "true"@));
        }
        return JsonStep::Val(Value::True, j + 4);
    }
    proof {
        reveal_strlit("true");
        if spec_word_at(cs@, j as int, "true"@) {
            assert(cs@.subrange(j as int, j + 4 as int) == "true"@);
        }
    }
    if cs.len() - j >= 5 && range_is(cs, j, j + 5, "false") {
        proof {
            assert(spec_word_at(cs@, j as int, "false"@));
        }
        return JsonStep::Val(Value::False, j + 5);
    }
    proof {
        reveal_strlit("false");
        if spec_word_at(cs@, j as int, "false"@) {
            assert(cs@.subrange(j as int, j + 5 as int) == "false"@);
        }
    }
    let c = cs[j];
    let cu = c as u32;
    if c == '-' || (48 <= cu && cu <= 57) {
        let a = if c == '-' {
            j + 1
        } else {
            j
        };
        let b = digits_end(cs, a);
        if b == a || b - a > 18 {
            return JsonStep::Bad(j);
        }
        proof {
            lemma_digits_end_bounds(cs@, a as int);
        }
        let v = digits_val(cs, a, b);
        let iv: i64 = if c == '-' {
            -(v as i64)
        } else {
            v as i64
        };
        return JsonStep::Val(Value::Int(iv), b);
    }
    if c == '"' {
        match json_str_end(cs, j + 1) {
            None => {
                return JsonStep::Bad(j);
            },
            Some(e) => {
                let sv = string_of_range(cs, j + 1, e - 1);
                return JsonStep::Val(Value::Strand(sv), e);
            },
        }
    }
    if c == '[' {
        if depth >= MAX_RECURSIVE_QUERIES {
            return JsonStep::Deep;
        }
        let k = json_ws(cs, j + 1);
        if k < cs.len() && cs[k] == ']' {
            proof {
                assert(crate::value::arr_view(Seq::<Value>::empty()) =~= Seq::<
                    crate::value::SpecValue,
                >::empty());
            }
            return JsonStep::Val(Value::Array(Vec::new()), k + 1);
        }
        return json_elems(cs, j + 1, depth + 1, fuel - 1);
    }
    if c == '{' {
        if depth >= MAX_RECURSIVE_QUERIES {
            return JsonStep::Deep;
        }
        let k = json_ws(cs, j + 1);
        if k < cs.len() && cs[k] == '}' {
            proof {
                assert(crate::value::obj_view(Seq::<(String, Value)>::empty()) =~= Seq::<
                    (Seq<char>, crate::value::SpecValue),
                >::empty());
            }
            return JsonStep::Val(Value::Object(Vec::new()), k + 1);
        }
        return json_fields(cs, j + 1, depth + 1, fuel - 1);
    }
    JsonStep::Bad(j)
}

/// The elements of a non-empty array, as executable code.
#[verifier::loop_isolation(false)]
#[verifier::rlimit(100)]
fn json_elems(cs: &Vec<char>, i: usize, depth: usize, fuel: u64) -> (r: JsonStep)
    requires
        i <= cs@.len(),
    ensures
        ({
            let m = spec_json_elems(cs@, i as int, depth as int, fuel as int, Seq::empty());
            match r {
                JsonStep::Val(v, j) => m == JsonOut::Val(v.deep_view(), j as int) && j
                    <= cs@.len(),
                JsonStep::Deep => m is Deep,
                JsonStep::Bad(p) => m == JsonOut::Bad(p as int) && p <= cs@.len(),
            }
        }),
    decreases fuel, 2int,
{
    let ghost i0: int = i as int;
    let ghost fuel0: int = fuel as int;
    let mut acc: Vec<Value> = Vec::new();
    let mut i = i;
    let mut fuel = fuel;
    proof {
        assert(crate::value::arr_view(acc@) =~= Seq::<crate::value::SpecValue>::empty());
    }
    loop
        invariant
            i <= cs@.len(),
            fuel <= fuel0,
            spec_json_elems(cs@, i0, depth as int, fuel0, Seq::empty()) == spec_json_elems(
                cs@,
                i as int,
                depth as int,
                fuel as int,
                crate::value::arr_view(acc@),
            ),
        decreases fuel,
    {
        if fuel == 0 {
            return JsonStep::Bad(i);
        }
        match json_value(cs, i, depth, fuel) {
            JsonStep::Val(v, j) => {
                let k = json_ws(cs, j);
                if k < cs.len() && cs[k] == ']' {
                    let ghost pre = crate::value::arr_view(acc@);
                    acc.push(v);
                    proof {
                        assert(crate::value::arr_view(acc@) =~= pre.push(
                            acc@.last().deep_view(),
                        ));
                    }
                    return JsonStep::Val(Value::Array(acc), k + 1);
                } else if k < cs.len() && cs[k] == ',' {
                    let ghost pre = crate::value::arr_view(acc@);
                    acc.push(v);
                    proof {
                        assert(crate::value::arr_view(acc@) =~= pre.push(
                            acc@.last().deep_view(),
                        ));
                    }
                    i = k + 1;
                    fuel = fuel - 1;
                } else {
                    return JsonStep::Bad(k);
                }
            },
            JsonStep::Deep => {
                return JsonStep::Deep;
            },
            JsonStep::Bad(p) => {
                return JsonStep::Bad(p);
            },
        }
    }
}

/// The fields of a non-empty object, as executable code.
#[verifier::loop_isolation(false)]
#[verifier::rlimit(100)]
fn json_fields(cs: &Vec<char>, i: usize, depth: usize, fuel: u64) -> (r: JsonStep)
    requires
        i <= cs@.len(),
    ensures
        ({
            let m = spec_json_fields(cs@, i as int, depth as int, fuel as int, Seq::empty());
            match r {
                JsonStep::Val(v, j) => m == JsonOut::Val(v.deep_view(), j as int) && j
                    <= cs@.len(),
                JsonStep::Deep => m is Deep,
                JsonStep::Bad(p) => m == JsonOut::Bad(p as int) && p <= cs@.len(),
            }
        }),
    decreases fuel, 2int,
{
    let ghost i0: int = i as int;
    let ghost fuel0: int = fuel as int;
    let mut acc: Vec<(String, Value)> = Vec::new();
    let mut i = i;
    let mut fuel = fuel;
    proof {
        assert(crate::value::obj_view(acc@) =~= Seq::<
            (Seq<char>, crate::value::SpecValue),
        >::empty());
    }
    loop
        invariant
            i <= cs@.len(),
            fuel <= fuel0,
            spec_json_fields(cs@, i0, depth as int, fuel0, Seq::empty()) == spec_json_fields(
                cs@,
                i as int,
                depth as int,
                fuel as int,
                crate::value::obj_view(acc@),
            ),
        decreases fuel,
    {
        if fuel == 0 {
            return JsonStep::Bad(i);
        }
        let k0 = json_ws(cs, i);
        if !(k0 < cs.len() && cs[k0] == '"') {
            return JsonStep::Bad(k0);
        }
        let e = match json_str_end(cs, k0 + 1) {
            Some(e) => e,
            None => {
                return JsonStep::Bad(k0);
            },
        };
        let key = string_of_range(cs, k0 + 1, e - 1);
        let c = json_ws(cs, e);
        if !(c < cs.len() && cs[c] == ':') {
            return JsonStep::Bad(c);
        }
        match json_value(cs, c + 1, depth, fuel) {
            JsonStep::Val(v, j) => {
                let k = json_ws(cs, j);
                if k < cs.len() && cs[k] == '}' {
                    let ghost pre = crate::value::obj_view(acc@);
                    acc.push((key, v));
                    proof {
                        assert(crate::value::obj_view(acc@) =~= pre.push(
                            (acc@.last().0@, acc@.last().1.deep_view()),
                        ));
                    }
                    return JsonStep::Val(Value::Object(acc), k + 1);
                } else if k < cs.len() && cs[k] == ',' {
                    let ghost pre = crate::value::obj_view(acc@);
                    acc.push((key, v));
                    proof {
                        assert(crate::value::obj_view(acc@) =~= pre.push(
                            (acc@.last().0@, acc@.last().1.deep_view()),
                        ));
                    }
                    i = k + 1;
                    fuel = fuel - 1;
                } else {
                    return JsonStep::Bad(k);
                }
            },
            JsonStep::Deep => {
                return JsonStep::Deep;
            },
            JsonStep::Bad(p) => {
                return JsonStep::Bad(p);
            },
        }
    }
}

/// Parses a JSON value: the keywords, integers, strings without escape
/// sequences, arrays and objects, with nesting capped — exactly
/// [`spec_json`].
pub fn json(input: &str) -> (r: Result<Value, Error>)
    ensures
        match spec_json(input@) {
            Ok(v) => r is Ok && r->Ok_0.deep_view() == v,
            Err(e) => r is Err && r->Err_0.deep_view() == e,
        },
{
    let cs = chars_of(input);
    if all_whitespace(&cs) {
        return Err(Error::QueryEmpty);
    }
    let fuel = crate::limiter::sat_add(crate::limiter::sat_mul(cs.len() as u64, 2), 4);
    proof {
        assert(fuel as int == spec_json_fuel(cs@.len() as int));
        assert(cs@.len() > 0);
    }
    match json_value(&cs, 0, 0, fuel) {
        JsonStep::Deep => Err(Error::TooManySubqueries),
        JsonStep::Bad(p) => {
            let pe = if p < cs.len() {
                p
            } else {
                cs.len() - 1
            };
            Err(invalid_query_at(&cs, pe))
        },
        JsonStep::Val(v, j) => {
            let k = json_ws(&cs, j);
            if k >= cs.len() {
                Ok(v)
            } else {
                Err(invalid_query_at(&cs, k))
            }
        },
    }
}

} // verus!
