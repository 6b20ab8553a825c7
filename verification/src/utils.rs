//! Byte offsets, line/column positions and spans in a source text.

use vstd::prelude::*;

verus! {

/// A position in a text, with 1-based line and column numbers.
#[derive(Debug, Clone, Copy, PartialEq, Eq, Structural)]
pub struct FileLocation {
    pub line: usize,
    pub column: usize,
}

/// A region of a text, from a start location to an end location.
#[derive(Debug, Clone, Copy, PartialEq, Eq, Structural)]
pub struct Span {
    pub start: FileLocation,
    pub end: FileLocation,
}

/// How many line feeds occur in `s`.
pub open spec fn newline_count(s: Seq<u8>) -> int
    decreases s.len(),
{
    if s.len() == 0 {
        0
    } else {
        newline_count(s.drop_last()) + if s.last() == 10u8 { 1int } else { 0int }
    }
}

/// The offset right after the last line feed at or before `off`
/// (0 when no line feed precedes `off`).
pub open spec fn line_start(s: Seq<u8>, off: int) -> int
    decreases off,
{
    if off <= 0 {
        0
    } else if s[off - 1] == 10u8 {
        off
    } else {
        line_start(s, off - 1)
    }
}

/// The 1-based line number of byte offset `off` in `s`.
pub open spec fn spec_line_of(s: Seq<u8>, off: int) -> int {
    1 + newline_count(s.take(off))
}

/// The 1-based column number of byte offset `off` in `s`.
pub open spec fn spec_column_of(s: Seq<u8>, off: int) -> int {
    off - line_start(s, off) + 1
}

proof fn lemma_take_succ(s: Seq<u8>, i: int)
    requires
        0 <= i < s.len(),
    ensures
        s.take(i + 1).drop_last() == s.take(i),
        s.take(i + 1).last() == s[i],
{
    assert(s.take(i + 1).drop_last() =~= s.take(i));
}

/// Computes the 1-based line and column of a byte offset.
///
/// A line feed byte counts as the last byte of its line; the byte after it
/// starts the next line.  Columns count bytes, not characters.
pub fn location_of(src: &Vec<u8>, offset: usize) -> (loc: FileLocation)
    requires
        offset <= src@.len(),
        src@.len() < usize::MAX,
    ensures
        loc.line == spec_line_of(src@, offset as int),
        loc.column == spec_column_of(src@, offset as int),
        loc.line >= 1,
        loc.column >= 1,
{
    let mut i: usize = 0;
    let mut newlines: usize = 0;
    let mut start: usize = 0;
    while i < offset
        invariant
            0 <= i <= offset <= src@.len() < usize::MAX,
            newlines == newline_count(src@.take(i as int)),
            newlines <= i,
            start == line_start(src@, i as int),
            start <= i,
        decreases offset - i,
    {
        proof {
            lemma_take_succ(src@, i as int);
        }
        if src[i] == 10u8 {
            newlines = newlines + 1;
            start = i + 1;
        }
        i = i + 1;
    }
    FileLocation { line: newlines + 1, column: offset - start + 1 }
}

/// The line/column span covering the byte range `[start, end]` of a text.
pub fn span_of(src: &Vec<u8>, start: usize, end: usize) -> (r: Span)
    requires
        start <= src@.len(),
        end <= src@.len(),
        src@.len() < usize::MAX,
    ensures
        r.start.line == spec_line_of(src@, start as int),
        r.start.column == spec_column_of(src@, start as int),
        r.end.line == spec_line_of(src@, end as int),
        r.end.column == spec_column_of(src@, end as int),
{
    Span { start: location_of(src, start), end: location_of(src, end) }
}

/// Copies a byte text.
pub fn copy_bytes(src: &Vec<u8>) -> (r: Vec<u8>)
    ensures
        r@ == src@,
{
    let n = src.len();
    let mut r: Vec<u8> = Vec::new();
    let mut i: usize = 0;
    while i < n
        invariant
            i <= n,
            n == src@.len(),
            r@ == src@.subrange(0, i as int),
        decreases n - i,
    {
        r.push(src[i]);
        assert(src@.subrange(0, i + 1) =~= src@.subrange(0, i as int).push(src@[i as int]));
        i = i + 1;
    }
    proof {
        assert(src@.subrange(0, n as int) =~= src@);
    }
    r
}

/// What `str::to_lowercase` returns for a given character sequence.
pub uninterp spec fn lower_of(s: Seq<char>) -> Seq<char>;

/// Relies on `str::to_lowercase` of std: the result is a function of the
/// characters of `s` alone.
#[verifier::external_body]
fn lowercase(s: &str) -> (r: String)
    ensures
        r@ == lower_of(s@),
        s@.len() == 0 ==> r@.len() == 0,
{
    s.to_lowercase()
}

/// Renders the head of a grammar rule for a SQL function: the lowercased
/// function name followed by ` = `.  The collected definition text is carried
/// by the caller and is not part of the rule head.
#[allow(unused_variables)]
pub fn translate_definition(definition: &str, function_name: &str) -> (r: String)
    ensures
        r@ == lower_of(function_name@) + " = "@,
{
    let mut res = lowercase(function_name);
    res.append(" = ");
    res
}

} // verus!
