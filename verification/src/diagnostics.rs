//! Diagnostics for lexical errors: from a source text and a failing
//! position, the line and column of the failure, a bounded excerpt of the
//! offending line, and the offset of the marker that points at the failing
//! character. Rendering and coloring are the caller's business; this module
//! only computes the parts.
use vstd::prelude::*;

use vstd::string::StrSliceExecFns;

verus! {

/// How many characters of context the excerpt keeps on each side of the
/// failing position.
pub const EXCERPT_CONTEXT: usize = 9;

/// The start of the excerpt: walk left from `idx` up to `steps` characters,
/// stopping at the start of the text or just after a line break.
pub open spec fn excerpt_lo(s: Seq<char>, idx: int, steps: nat) -> int
    decreases steps,
{
    if steps == 0 {
        idx
    } else if idx - 1 < 0 || s[idx - 1] == '\n' {
        idx
    } else {
        excerpt_lo(s, idx - 1, (steps - 1) as nat)
    }
}

/// The end of the excerpt: walk right from `idx` up to `steps` characters,
/// stopping at the end of the text or just before a line break.
pub open spec fn excerpt_hi(s: Seq<char>, idx: int, steps: nat) -> int
    decreases steps,
{
    if steps == 0 {
        idx
    } else if idx + 1 >= s.len() || s[idx + 1] == '\n' {
        idx
    } else {
        excerpt_hi(s, idx + 1, (steps - 1) as nat)
    }
}

/// The 1-based line number of a position: one more than the line breaks
/// before it.
pub open spec fn line_of(s: Seq<char>, pos: int) -> nat
    decreases pos,
{
    if pos <= 0 {
        1
    } else {
        line_of(s, pos - 1) + (if s[pos - 1] == '\n' {
            1nat
        } else {
            0nat
        })
    }
}

/// The 0-based column of a position within its line.
pub open spec fn col_of(s: Seq<char>, pos: int) -> nat
    decreases pos,
{
    if pos <= 0 {
        0
    } else if s[pos - 1] == '\n' {
        0
    } else {
        col_of(s, pos - 1) + 1
    }
}

/// Where a lexical error lies in the source, ready to render: the 1-based
/// line, the 0-based column, a bounded excerpt of the offending line, and
/// the offset of the failing character within the excerpt.
#[derive(Debug, PartialEq, Eq)]
pub struct Diagnostic {
    pub line: usize,
    pub col: usize,
    pub excerpt: String,
    pub marker_offset: usize,
}

/// Extract the bounded excerpt of the line around `lexer_idx`, and the
/// offset of that position within the excerpt.
pub fn extract_err_line(line: &str, lexer_idx: usize) -> (r: (String, usize))
    requires
        lexer_idx < line@.len(),
    ensures
        ({
            let lo = excerpt_lo(line@, lexer_idx as int, EXCERPT_CONTEXT as nat);
            let hi = excerpt_hi(line@, lexer_idx as int, EXCERPT_CONTEXT as nat);
            &&& r.0@ == line@.subrange(lo, hi + 1)
            &&& r.1 == lexer_idx - lo
        }),
{
    let ghost s = line@;
    let n = line.unicode_len();
    let mut lo: usize = lexer_idx;
    let mut steps: usize = 0;
    while steps < EXCERPT_CONTEXT && lo >= 1 && line.get_char(lo - 1) != '\n'
        invariant
            lo <= lexer_idx < n,
            n == s.len(),
            s == line@,
            steps <= EXCERPT_CONTEXT,
            steps == lexer_idx - lo,
            excerpt_lo(s, lexer_idx as int, EXCERPT_CONTEXT as nat) == excerpt_lo(
                s,
                lo as int,
                (EXCERPT_CONTEXT - steps) as nat,
            ),
        decreases EXCERPT_CONTEXT - steps,
    {
        lo = lo - 1;
        steps = steps + 1;
    }
    proof {
        assert(excerpt_lo(s, lo as int, (EXCERPT_CONTEXT - steps) as nat) == lo as int);
    }
    let mut hi: usize = lexer_idx;
    let mut steps_r: usize = 0;
    while steps_r < EXCERPT_CONTEXT && hi + 1 < n && line.get_char(hi + 1) != '\n'
        invariant
            lexer_idx <= hi < n,
            n == s.len(),
            s == line@,
            steps_r <= EXCERPT_CONTEXT,
            steps_r == hi - lexer_idx,
            excerpt_hi(s, lexer_idx as int, EXCERPT_CONTEXT as nat) == excerpt_hi(
                s,
                hi as int,
                (EXCERPT_CONTEXT - steps_r) as nat,
            ),
        decreases EXCERPT_CONTEXT - steps_r,
    {
        hi = hi + 1;
        steps_r = steps_r + 1;
    }
    proof {
        assert(excerpt_hi(s, hi as int, (EXCERPT_CONTEXT - steps_r) as nat) == hi as int);
    }
    let excerpt = line.substring_char(lo, hi + 1);
    (String::from_str(excerpt), lexer_idx - lo)
}

/// The 1-based line and 0-based column of a position in the source.
pub fn line_and_col(source: &str, pos: usize) -> (r: (usize, usize))
    requires
        pos <= source@.len(),
        pos < usize::MAX,
    ensures
        r.0 as nat == line_of(source@, pos as int),
        r.1 as nat == col_of(source@, pos as int),
{
    let ghost s = source@;
    let mut line: usize = 1;
    let mut col: usize = 0;
    let mut i: usize = 0;
    while i < pos
        invariant
            i <= pos <= s.len(),
            pos < usize::MAX,
            s == source@,
            line as nat == line_of(s, i as int),
            col as nat == col_of(s, i as int),
            line <= i + 1,
            col <= i,
        decreases pos - i,
    {
        if source.get_char(i) == '\n' {
            line = line + 1;
            col = 0;
        } else {
            col = col + 1;
        }
        i = i + 1;
    }
    (line, col)
}

/// The full diagnostic for a lexical error at `position`.
pub fn diagnostic_for(source: &str, position: usize) -> (r: Diagnostic)
    requires
        position < source@.len(),
        position < usize::MAX,
    ensures
        r.line as nat == line_of(source@, position as int),
        r.col as nat == col_of(source@, position as int),
        ({
            let lo = excerpt_lo(source@, position as int, EXCERPT_CONTEXT as nat);
            let hi = excerpt_hi(source@, position as int, EXCERPT_CONTEXT as nat);
            &&& r.excerpt@ == source@.subrange(lo, hi + 1)
            &&& r.marker_offset == position - lo
        }),
{
    let (line, col) = line_and_col(source, position);
    let (excerpt, marker_offset) = extract_err_line(source, position);
    Diagnostic { line, col, excerpt, marker_offset }
}

} // verus!
