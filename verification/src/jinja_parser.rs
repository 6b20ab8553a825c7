//! Template layer of the pipeline: scans a raw source into typed segments,
//! renders the generated SQL, and maps output offsets back to the original
//! file.
//!
//! The template sub-language is deliberately small.  A source is a sequence
//! of literal SQL runs, comment blocks `{# ... #}` (dropped from the output),
//! reference expressions `{{ ref('name') }}` (expanded to the quoted name
//! with one space of padding on each side), and anything else of the form
//! `{{ ... }}` or `{% ... %}`, which is an unknown construct: a source that
//! contains one is rejected as a whole, with no partial output.

use vstd::prelude::*;

verus! {

/// The category of one scanned segment.
#[derive(Debug, Clone, Copy, PartialEq, Eq, Structural)]
pub enum SegmentKind {
    /// A run of plain SQL text, copied verbatim to the output.
    Literal,
    /// A supported reference expression, expanded in the output.
    TemplateExpr,
    /// A well-delimited template construct outside the supported subset.
    Unknown,
}

/// One entry of the position map: a span of the original source paired with
/// the span it occupies in the generated output.
#[derive(Debug, Clone, Copy, PartialEq, Eq, Structural)]
pub struct Segment {
    pub kind: SegmentKind,
    pub orig_start: usize,
    pub orig_end: usize,
    pub out_start: usize,
    pub out_end: usize,
}

/// Why a source could not be rendered.
#[derive(Debug, Clone, Copy, PartialEq, Eq, Structural)]
pub enum TemplateError {
    /// The source contains a template construct outside the supported subset.
    UnsupportedConstruct,
    /// The template grammar itself failed to parse, e.g. an unterminated
    /// construct.
    GrammarFailure,
}

/// Ghost counterpart of a segment while scanning: original span plus the
/// exact bytes the segment contributes to the output.
pub ghost struct SpecSeg {
    pub kind: SegmentKind,
    pub orig_start: int,
    pub orig_end: int,
    pub out: Seq<u8>,
}

/// Whitespace accepted inside a reference expression.
pub open spec fn is_ws(b: u8) -> bool {
    b == 32 || b == 9 || b == 10 || b == 13
}

/// Whether a template construct (`{{`, `{#` or `{%`) begins at offset `i`.
pub open spec fn construct_at(src: Seq<u8>, i: int) -> bool {
    &&& 0 <= i
    &&& i + 1 < src.len()
    &&& src[i] == 123
    &&& (src[i + 1] == 123 || src[i + 1] == 35 || src[i + 1] == 37)
}

/// The first offset at or after `i` where a construct begins, or the length
/// of the source if none does.
pub open spec fn lit_end(src: Seq<u8>, i: int) -> int
    decreases src.len() - i,
{
    if i >= src.len() {
        src.len() as int
    } else if construct_at(src, i) {
        i
    } else {
        lit_end(src, i + 1)
    }
}

proof fn lemma_lit_end_bounds(src: Seq<u8>, i: int)
    requires
        0 <= i <= src.len(),
    ensures
        i <= lit_end(src, i) <= src.len(),
        forall|j: int| i <= j < lit_end(src, i) ==> !construct_at(src, j),
        lit_end(src, i) < src.len() ==> construct_at(src, lit_end(src, i)),
    decreases src.len() - i,
{
    if i < src.len() && !construct_at(src, i) {
        lemma_lit_end_bounds(src, i + 1);
    }
}

/// The first offset `j >= i` with `src[j] == c` and `src[j + 1] == '}'`,
/// closing a construct opened with the matching brace pair.
pub open spec fn find_close(src: Seq<u8>, i: int, c: u8) -> Option<int>
    decreases src.len() - i,
{
    if i + 1 >= src.len() {
        None
    } else if src[i] == c && src[i + 1] == 125 {
        Some(i)
    } else {
        find_close(src, i + 1, c)
    }
}

proof fn lemma_find_close_bounds(src: Seq<u8>, i: int, c: u8)
    requires
        0 <= i,
    ensures
        find_close(src, i, c) matches Some(j) ==> i <= j && j + 1 < src.len(),
    decreases src.len() - i,
{
    if i + 1 < src.len() && !(src[i] == c && src[i + 1] == 125) {
        lemma_find_close_bounds(src, i + 1, c);
    }
}

/// Skips whitespace within `[i, end)`.
pub open spec fn skip_ws(src: Seq<u8>, i: int, end: int) -> int
    decreases end - i,
{
    if i < end && i < src.len() && is_ws(src[i]) {
        skip_ws(src, i + 1, end)
    } else {
        i
    }
}

proof fn lemma_skip_ws_bounds(src: Seq<u8>, i: int, end: int)
    requires
        0 <= i,
    ensures
        i <= skip_ws(src, i, end),
        i <= end ==> skip_ws(src, i, end) <= end,
    decreases end - i,
{
    if i < end && i < src.len() && is_ws(src[i]) {
        lemma_skip_ws_bounds(src, i + 1, end);
    }
}

/// The first offset in `[i, end)` holding byte `b`.
pub open spec fn find_byte(src: Seq<u8>, i: int, end: int, b: u8) -> Option<int>
    decreases end - i,
{
    if i >= end || i >= src.len() {
        None
    } else if src[i] == b {
        Some(i)
    } else {
        find_byte(src, i + 1, end, b)
    }
}

proof fn lemma_find_byte_bounds(src: Seq<u8>, i: int, end: int, b: u8)
    requires
        0 <= i,
    ensures
        find_byte(src, i, end, b) matches Some(j) ==> i <= j && j < end && j < src.len(),
    decreases end - i,
{
    if !(i >= end || i >= src.len()) && src[i] != b {
        lemma_find_byte_bounds(src, i + 1, end, b);
    }
}

/// Parses the contents of a template expression as the supported reference
/// form: optional whitespace, `ref`, `(`, a single-quoted string, `)` and
/// optional whitespace, filling `[start, end)` exactly.  Returns the span of
/// the quoted contents.
pub open spec fn parse_ref(src: Seq<u8>, start: int, end: int) -> Option<(int, int)> {
    let r = skip_ws(src, start, end);
    if r + 3 <= end && src[r] == 114 && src[r + 1] == 101 && src[r + 2] == 102 {
        let p = skip_ws(src, r + 3, end);
        if p < end && src[p] == 40 {
            let q = skip_ws(src, p + 1, end);
            if q < end && src[q] == 39 {
                match find_byte(src, q + 1, end, 39) {
                    Some(cq) => {
                        let cp = skip_ws(src, cq + 1, end);
                        if cp < end && src[cp] == 41 && skip_ws(src, cp + 1, end) == end {
                            Some((q + 1, cq))
                        } else {
                            None
                        }
                    },
                    None => None,
                }
            } else {
                None
            }
        } else {
            None
        }
    } else {
        None
    }
}

proof fn lemma_parse_ref_bounds(src: Seq<u8>, start: int, end: int)
    requires
        0 <= start <= end <= src.len(),
    ensures
        parse_ref(src, start, end) matches Some(p) ==> start < p.0 <= p.1 < end,
{
    lemma_skip_ws_bounds(src, start, end);
    let r = skip_ws(src, start, end);
    if r + 3 <= end && src[r] == 114 && src[r + 1] == 101 && src[r + 2] == 102 {
        lemma_skip_ws_bounds(src, r + 3, end);
        let p = skip_ws(src, r + 3, end);
        if p < end && src[p] == 40 {
            lemma_skip_ws_bounds(src, p + 1, end);
            let q = skip_ws(src, p + 1, end);
            if q < end && src[q] == 39 {
                lemma_find_byte_bounds(src, q + 1, end, 39);
            }
        }
    }
}

/// The scanner: partitions `src` from offset `i` on into segments.  Comments
/// are consumed without producing a segment; unterminated constructs fail the
/// grammar as a whole.
pub open spec fn spec_scan(src: Seq<u8>, i: int) -> Result<Seq<SpecSeg>, TemplateError>
    decreases src.len() - i,
    when 0 <= i
    via spec_scan_decreases
{
    if i >= src.len() {
        Ok(Seq::empty())
    } else if construct_at(src, i) {
        if src[i + 1] == 35 {
            match find_close(src, i + 2, 35) {
                Some(j) => spec_scan(src, j + 2),
                None => Err(TemplateError::GrammarFailure),
            }
        } else if src[i + 1] == 123 {
            match find_close(src, i + 2, 125) {
                Some(j) => {
                    let seg = match parse_ref(src, i + 2, j) {
                        Some(p) => SpecSeg {
                            kind: SegmentKind::TemplateExpr,
                            orig_start: i,
                            orig_end: j + 2,
                            out: seq![32u8] + src.subrange(p.0, p.1) + seq![32u8],
                        },
                        None => SpecSeg {
                            kind: SegmentKind::Unknown,
                            orig_start: i,
                            orig_end: j + 2,
                            out: Seq::empty(),
                        },
                    };
                    match spec_scan(src, j + 2) {
                        Ok(ss) => Ok(seq![seg] + ss),
                        Err(e) => Err(e),
                    }
                },
                None => Err(TemplateError::GrammarFailure),
            }
        } else {
            match find_close(src, i + 2, 37) {
                Some(j) => {
                    let seg = SpecSeg {
                        kind: SegmentKind::Unknown,
                        orig_start: i,
                        orig_end: j + 2,
                        out: Seq::empty(),
                    };
                    match spec_scan(src, j + 2) {
                        Ok(ss) => Ok(seq![seg] + ss),
                        Err(e) => Err(e),
                    }
                },
                None => Err(TemplateError::GrammarFailure),
            }
        }
    } else {
        let e = lit_end(src, i + 1);
        let seg = SpecSeg {
            kind: SegmentKind::Literal,
            orig_start: i,
            orig_end: e,
            out: src.subrange(i, e),
        };
        match spec_scan(src, e) {
            Ok(ss) => Ok(seq![seg] + ss),
            Err(er) => Err(er),
        }
    }
}

#[via_fn]
proof fn spec_scan_decreases(src: Seq<u8>, i: int) {
    if i < src.len() {
        if construct_at(src, i) {
            if src[i + 1] == 35 {
                lemma_find_close_bounds(src, i + 2, 35);
            } else if src[i + 1] == 123 {
                lemma_find_close_bounds(src, i + 2, 125);
            } else {
                lemma_find_close_bounds(src, i + 2, 37);
            }
        } else {
            lemma_lit_end_bounds(src, i + 1);
        }
    }
}

/// Whether some scanned segment is an unknown construct.
pub open spec fn has_unknown(ss: Seq<SpecSeg>) -> bool {
    exists|k: int| 0 <= k < ss.len() && ss[k].kind == SegmentKind::Unknown
}

/// The generated output: the concatenation of the segments' contributions.
pub open spec fn spec_out(ss: Seq<SpecSeg>) -> Seq<u8>
    decreases ss.len(),
{
    if ss.len() == 0 {
        Seq::empty()
    } else {
        ss[0].out + spec_out(ss.drop_first())
    }
}

proof fn lemma_spec_out_push(ss: Seq<SpecSeg>, x: SpecSeg)
    ensures
        spec_out(ss.push(x)) == spec_out(ss) + x.out,
    decreases ss.len(),
{
    if ss.len() == 0 {
        assert(ss.push(x)[0] == x);
        assert(ss.push(x).drop_first() =~= Seq::<SpecSeg>::empty());
        assert(spec_out(ss.push(x).drop_first()) =~= Seq::<u8>::empty());
        assert(spec_out(ss.push(x)) =~= x.out);
        assert(spec_out(ss) =~= Seq::<u8>::empty());
        assert(spec_out(ss) + x.out =~= x.out);
    } else {
        assert(ss.push(x)[0] == ss[0]);
        assert(ss.push(x).drop_first() =~= ss.drop_first().push(x));
        lemma_spec_out_push(ss.drop_first(), x);
        assert(spec_out(ss.push(x)) =~= ss[0].out + (spec_out(ss.drop_first()) + x.out));
        assert(ss[0].out + (spec_out(ss.drop_first()) + x.out) =~= (ss[0].out + spec_out(
            ss.drop_first(),
        )) + x.out);
        assert(spec_out(ss.push(x)) =~= spec_out(ss) + x.out);
    }
}

/// Whether the concrete position map `segs` records exactly the scanned
/// segments `ss`, with output spans laid out contiguously from `off` on.
pub open spec fn segs_correspond(ss: Seq<SpecSeg>, segs: Seq<Segment>, off: int) -> bool
    decreases ss.len(),
{
    if ss.len() == 0 {
        segs.len() == 0
    } else {
        &&& segs.len() > 0
        &&& segs[0].kind == ss[0].kind
        &&& segs[0].orig_start == ss[0].orig_start
        &&& segs[0].orig_end == ss[0].orig_end
        &&& segs[0].out_start == off
        &&& segs[0].out_end == off + ss[0].out.len()
        &&& segs_correspond(ss.drop_first(), segs.drop_first(), off + ss[0].out.len())
    }
}

proof fn lemma_correspond_push(ss: Seq<SpecSeg>, segs: Seq<Segment>, off: int, x: SpecSeg, y: Segment)
    requires
        segs_correspond(ss, segs, off),
        y.kind == x.kind,
        y.orig_start == x.orig_start,
        y.orig_end == x.orig_end,
        y.out_start == off + spec_out(ss).len(),
        y.out_end == off + spec_out(ss).len() + x.out.len(),
    ensures
        segs_correspond(ss.push(x), segs.push(y), off),
    decreases ss.len(),
{
    if ss.len() == 0 {
        assert(segs.len() == 0);
        assert(ss.push(x)[0] == x);
        assert(segs.push(y)[0] == y);
        assert(spec_out(ss) =~= Seq::<u8>::empty());
        assert(ss.push(x).drop_first() =~= Seq::<SpecSeg>::empty());
        assert(segs.push(y).drop_first() =~= Seq::<Segment>::empty());
        assert(segs_correspond(ss.push(x).drop_first(), segs.push(y).drop_first(), off + x.out.len()));
    } else {
        assert(ss.push(x)[0] == ss[0]);
        assert(segs.push(y)[0] == segs[0]);
        assert(ss.push(x).drop_first() =~= ss.drop_first().push(x));
        assert(segs.push(y).drop_first() =~= segs.drop_first().push(y));
        assert(spec_out(ss).len() == ss[0].out.len() + spec_out(ss.drop_first()).len());
        lemma_correspond_push(ss.drop_first(), segs.drop_first(), off + ss[0].out.len(), x, y);
    }
}

proof fn lemma_correspond_kinds(ss: Seq<SpecSeg>, segs: Seq<Segment>, off: int)
    requires
        segs_correspond(ss, segs, off),
    ensures
        segs.len() == ss.len(),
        forall|k: int| 0 <= k < ss.len() ==> (#[trigger] segs[k]).kind == ss[k].kind,
    decreases ss.len(),
{
    if ss.len() > 0 {
        lemma_correspond_kinds(ss.drop_first(), segs.drop_first(), off + ss[0].out.len());
        assert forall|k: int| 0 <= k < ss.len() implies (#[trigger] segs[k]).kind == ss[k].kind by {
            if k > 0 {
                assert(segs.drop_first()[k - 1] == segs[k]);
                assert(ss.drop_first()[k - 1] == ss[k]);
            }
        }
    }
}

fn exec_lit_end(src: &Vec<u8>, i: usize) -> (r: usize)
    requires
        i <= src@.len(),
    ensures
        r == lit_end(src@, i as int),
{
    let n = src.len();
    let mut j = i;
    while j < n
        invariant
            i <= j <= n,
            n == src@.len(),
            lit_end(src@, i as int) == lit_end(src@, j as int),
        decreases n - j,
    {
        if n - j > 1 && src[j] == 123 && (src[j + 1] == 123 || src[j + 1] == 35 || src[j + 1] == 37) {
            return j;
        }
        assert(!construct_at(src@, j as int));
        j = j + 1;
    }
    j
}

fn exec_find_close(src: &Vec<u8>, i: usize, c: u8) -> (r: Option<usize>)
    requires
        i <= src@.len(),
    ensures
        match find_close(src@, i as int, c) {
            Some(j) => r == Some(j as usize),
            None => r is None,
        },
{
    let n = src.len();
    let mut j = i;
    while j < n && n - j > 1
        invariant
            i <= j,
            j <= n,
            n == src@.len(),
            find_close(src@, i as int, c) == find_close(src@, j as int, c),
        decreases n - j,
    {
        if src[j] == c && src[j + 1] == 125 {
            proof {
                lemma_find_close_bounds(src@, j as int, c);
            }
            return Some(j);
        }
        j = j + 1;
    }
    None
}

fn exec_skip_ws(src: &Vec<u8>, i: usize, end: usize) -> (r: usize)
    requires
        i <= end <= src@.len(),
    ensures
        r == skip_ws(src@, i as int, end as int),
        i <= r <= end,
{
    proof {
        lemma_skip_ws_bounds(src@, i as int, end as int);
    }
    let mut j = i;
    while j < end && (src[j] == 32 || src[j] == 9 || src[j] == 10 || src[j] == 13)
        invariant
            i <= j <= end <= src@.len(),
            skip_ws(src@, i as int, end as int) == skip_ws(src@, j as int, end as int),
        decreases end - j,
    {
        j = j + 1;
    }
    j
}

fn exec_find_byte(src: &Vec<u8>, i: usize, end: usize, b: u8) -> (r: Option<usize>)
    requires
        i <= end <= src@.len(),
    ensures
        match find_byte(src@, i as int, end as int, b) {
            Some(j) => r == Some(j as usize),
            None => r is None,
        },
{
    let mut j = i;
    while j < end
        invariant
            i <= j <= end <= src@.len(),
            find_byte(src@, i as int, end as int, b) == find_byte(src@, j as int, end as int, b),
        decreases end - j,
    {
        if src[j] == b {
            return Some(j);
        }
        j = j + 1;
    }
    None
}

fn exec_parse_ref(src: &Vec<u8>, start: usize, end: usize) -> (r: Option<(usize, usize)>)
    requires
        start <= end <= src@.len(),
    ensures
        match parse_ref(src@, start as int, end as int) {
            Some(p) => r == Some((p.0 as usize, p.1 as usize)),
            None => r is None,
        },
{
    proof {
        lemma_parse_ref_bounds(src@, start as int, end as int);
    }
    let r = exec_skip_ws(src, start, end);
    if end - r >= 3 && src[r] == 114 && src[r + 1] == 101 && src[r + 2] == 102 {
        let p = exec_skip_ws(src, r + 3, end);
        if p < end && src[p] == 40 {
            let q = exec_skip_ws(src, p + 1, end);
            if q < end && src[q] == 39 {
                match exec_find_byte(src, q + 1, end, 39) {
                    Some(cq) => {
                        proof {
                            lemma_find_byte_bounds(src@, q as int + 1, end as int, 39);
                        }
                        let cp = exec_skip_ws(src, cq + 1, end);
                        if cp < end && src[cp] == 41 && exec_skip_ws(src, cp + 1, end) == end {
                            Some((q + 1, cq))
                        } else {
                            None
                        }
                    },
                    None => None,
                }
            } else {
                None
            }
        } else {
            None
        }
    } else {
        None
    }
}

/// A scan suffix combined with the segments already scanned before it.
pub open spec fn scan_combine(
    prefix: Seq<SpecSeg>,
    r: Result<Seq<SpecSeg>, TemplateError>,
) -> Result<Seq<SpecSeg>, TemplateError> {
    match r {
        Ok(ss) => Ok(prefix + ss),
        Err(e) => Err(e),
    }
}

proof fn lemma_combine_step(
    prefix: Seq<SpecSeg>,
    g: SpecSeg,
    r: Result<Seq<SpecSeg>, TemplateError>,
)
    ensures
        scan_combine(
            prefix,
            match r {
                Ok(ss) => Ok(seq![g] + ss),
                Err(e) => Err(e),
            },
        ) == scan_combine(prefix.push(g), r),
{
    match r {
        Ok(ss) => {
            assert(prefix + (seq![g] + ss) =~~= prefix.push(g) + ss);
        },
        Err(_) => {},
    }
}

/// Per-segment well-formedness of a stored position map entry: spans lie in
/// bounds and a literal's output span is as long as its original span.
pub open spec fn seg_wf(g: Segment, srclen: int) -> bool {
    &&& g.orig_start <= g.orig_end <= srclen
    &&& g.out_start <= g.out_end
    &&& (g.kind == SegmentKind::Literal ==> g.out_end - g.out_start == g.orig_end - g.orig_start)
}

/// The relation between one scanned segment and what the scan loop records
/// for it: equal original span and kind, and output bytes determined by the
/// kind (copied source for a literal, the padded quoted contents for a
/// reference, nothing for an unknown construct).
pub open spec fn seg_output_ok(s: SpecSeg, g: Segment, p: (usize, usize), src: Seq<u8>) -> bool {
    &&& g.kind == s.kind
    &&& g.orig_start == s.orig_start
    &&& g.orig_end == s.orig_end
    &&& 0 <= s.orig_start <= s.orig_end <= src.len()
    &&& (s.kind == SegmentKind::Literal ==> s.out == src.subrange(s.orig_start, s.orig_end))
    &&& (s.kind == SegmentKind::TemplateExpr ==> p.0 <= p.1 && p.1 <= src.len() && s.out == seq![
        32u8,
    ] + src.subrange(p.0 as int, p.1 as int) + seq![32u8])
    &&& (s.kind == SegmentKind::Unknown ==> s.out == Seq::<u8>::empty())
}

/// Whether some recorded segment is an unknown template construct.
pub fn contains_unknown_jinja(segments: &Vec<Segment>) -> (r: bool)
    ensures
        r == exists|k: int|
            0 <= k < segments@.len() && segments@[k].kind == SegmentKind::Unknown,
{
    let mut k: usize = 0;
    while k < segments.len()
        invariant
            k <= segments@.len(),
            forall|j: int| 0 <= j < k ==> segments@[j].kind != SegmentKind::Unknown,
        decreases segments@.len() - k,
    {
        if match segments[k].kind {
            SegmentKind::Unknown => true,
            _ => false,
        } {
            return true;
        }
        k = k + 1;
    }
    false
}

/// Appends `src[a..b]` to `out`.
fn push_range(out: &mut Vec<u8>, src: &Vec<u8>, a: usize, b: usize)
    requires
        a <= b <= src@.len(),
    ensures
        final(out)@ == old(out)@ + src@.subrange(a as int, b as int),
{
    let mut k = a;
    while k < b
        invariant
            a <= k <= b <= src@.len(),
            out@ == old(out)@ + src@.subrange(a as int, k as int),
        decreases b - k,
    {
        out.push(src[k]);
        assert(src@.subrange(a as int, k + 1) =~= src@.subrange(a as int, k as int).push(src@[k as int]));
        k = k + 1;
    }
    assert(out@ =~= old(out)@ + src@.subrange(a as int, b as int));
}

/// Scans `src` and, when it holds no grammar failure and no unknown
/// construct, renders the output and the position map.
fn scan_render(src: &Vec<u8>) -> (r: Result<(Vec<Segment>, Vec<u8>), TemplateError>)
    ensures
        match spec_scan(src@, 0) {
            Err(e) => r matches Err(e2) && e2 == e,
            Ok(ss) => {
                if has_unknown(ss) {
                    r matches Err(e2) && e2 == TemplateError::UnsupportedConstruct
                } else {
                    r matches Ok(pair) && segs_correspond(ss, pair.0@, 0) && pair.1@ == spec_out(ss)
                        && forall|k: int|
                        0 <= k < pair.0@.len() ==> seg_wf(#[trigger] pair.0@[k], src@.len() as int)
                }
            },
        },
{
    let n = src.len();
    let mut segs: Vec<Segment> = Vec::new();
    let mut pays: Vec<(usize, usize)> = Vec::new();
    let mut out_len: usize = 0;
    let mut pos: usize = 0;
    let ghost mut gp: Seq<SpecSeg> = Seq::empty();
    while pos < n
        invariant
            n == src@.len(),
            pos <= n,
            out_len <= pos,
            out_len == spec_out(gp).len(),
            segs@.len() == gp.len(),
            pays@.len() == gp.len(),
            segs_correspond(gp, segs@, 0),
            forall|k: int|
                0 <= k < gp.len() ==> seg_output_ok(gp[k], #[trigger] segs@[k], pays@[k], src@),
            scan_combine(gp, spec_scan(src@, pos as int)) == spec_scan(src@, 0),
        decreases n - pos,
    {
        let ghost pos0 = pos as int;
        if n - pos > 1 && src[pos] == 123 && (src[pos + 1] == 123 || src[pos + 1] == 35 || src[pos
            + 1] == 37) {
            assert(construct_at(src@, pos0));
            let d = src[pos + 1];
            if d == 35 {
                match exec_find_close(src, pos + 2, 35) {
                    Some(j) => {
                        proof {
                            lemma_find_close_bounds(src@, pos0 + 2, 35);
                        }
                        pos = j + 2;
                    },
                    None => {
                        return Err(TemplateError::GrammarFailure);
                    },
                }
            } else if d == 123 {
                match exec_find_close(src, pos + 2, 125) {
                    Some(j) => {
                        proof {
                            lemma_find_close_bounds(src@, pos0 + 2, 125);
                        }
                        match exec_parse_ref(src, pos + 2, j) {
                            Some((a, b)) => {
                                proof {
                                    lemma_parse_ref_bounds(src@, pos0 + 2, j as int);
                                }
                                let olen = b - a + 2;
                                let seg = Segment {
                                    kind: SegmentKind::TemplateExpr,
                                    orig_start: pos,
                                    orig_end: j + 2,
                                    out_start: out_len,
                                    out_end: out_len + olen,
                                };
                                let ghost gseg = SpecSeg {
                                    kind: SegmentKind::TemplateExpr,
                                    orig_start: pos0,
                                    orig_end: j + 2,
                                    out: seq![32u8] + src@.subrange(a as int, b as int) + seq![
                                        32u8,
                                    ],
                                };
                                proof {
                                    lemma_spec_out_push(gp, gseg);
                                    lemma_correspond_push(gp, segs@, 0, gseg, seg);
                                    lemma_combine_step(gp, gseg, spec_scan(src@, j + 2));
                                }
                                segs.push(seg);
                                pays.push((a, b));
                                proof {
                                    gp = gp.push(gseg);
                                }
                                out_len = out_len + olen;
                                pos = j + 2;
                            },
                            None => {
                                let seg = Segment {
                                    kind: SegmentKind::Unknown,
                                    orig_start: pos,
                                    orig_end: j + 2,
                                    out_start: out_len,
                                    out_end: out_len,
                                };
                                let ghost gseg = SpecSeg {
                                    kind: SegmentKind::Unknown,
                                    orig_start: pos0,
                                    orig_end: j + 2,
                                    out: Seq::empty(),
                                };
                                proof {
                                    lemma_spec_out_push(gp, gseg);
                                    lemma_correspond_push(gp, segs@, 0, gseg, seg);
                                    lemma_combine_step(gp, gseg, spec_scan(src@, j + 2));
                                }
                                segs.push(seg);
                                pays.push((0, 0));
                                proof {
                                    gp = gp.push(gseg);
                                }
                                pos = j + 2;
                            },
                        }
                    },
                    None => {
                        return Err(TemplateError::GrammarFailure);
                    },
                }
            } else {
                match exec_find_close(src, pos + 2, 37) {
                    Some(j) => {
                        proof {
                            lemma_find_close_bounds(src@, pos0 + 2, 37);
                        }
                        let seg = Segment {
                            kind: SegmentKind::Unknown,
                            orig_start: pos,
                            orig_end: j + 2,
                            out_start: out_len,
                            out_end: out_len,
                        };
                        let ghost gseg = SpecSeg {
                            kind: SegmentKind::Unknown,
                            orig_start: pos0,
                            orig_end: j + 2,
                            out: Seq::empty(),
                        };
                        proof {
                            lemma_spec_out_push(gp, gseg);
                            lemma_correspond_push(gp, segs@, 0, gseg, seg);
                            lemma_combine_step(gp, gseg, spec_scan(src@, j + 2));
                        }
                        segs.push(seg);
                        pays.push((0, 0));
                        proof {
                            gp = gp.push(gseg);
                        }
                        pos = j + 2;
                    },
                    None => {
                        return Err(TemplateError::GrammarFailure);
                    },
                }
            }
        } else {
            assert(!construct_at(src@, pos0));
            let e = exec_lit_end(src, pos + 1);
            proof {
                lemma_lit_end_bounds(src@, pos0 + 1);
            }
            let seg = Segment {
                kind: SegmentKind::Literal,
                orig_start: pos,
                orig_end: e,
                out_start: out_len,
                out_end: out_len + (e - pos),
            };
            let ghost gseg = SpecSeg {
                kind: SegmentKind::Literal,
                orig_start: pos0,
                orig_end: e as int,
                out: src@.subrange(pos0, e as int),
            };
            proof {
                lemma_spec_out_push(gp, gseg);
                lemma_correspond_push(gp, segs@, 0, gseg, seg);
                lemma_combine_step(gp, gseg, spec_scan(src@, e as int));
            }
            segs.push(seg);
            pays.push((0, 0));
            proof {
                gp = gp.push(gseg);
            }
            out_len = out_len + (e - pos);
            pos = e;
        }
    }
    proof {
        assert(spec_scan(src@, pos as int) == Ok::<Seq<SpecSeg>, TemplateError>(Seq::empty()));
        assert(gp + Seq::<SpecSeg>::empty() =~~= gp);
        assert(spec_scan(src@, 0) == Ok::<Seq<SpecSeg>, TemplateError>(gp));
    }
    if contains_unknown_jinja(&segs) {
        proof {
            let k = choose|k: int|
                0 <= k < segs@.len() && segs@[k].kind == SegmentKind::Unknown;
            assert(gp[k].kind == SegmentKind::Unknown);
        }
        return Err(TemplateError::UnsupportedConstruct);
    }
    assert forall|k: int| 0 <= k < gp.len() implies gp[k].kind != SegmentKind::Unknown by {
        assert(segs@[k].kind != SegmentKind::Unknown);
        assert(seg_output_ok(gp[k], segs@[k], pays@[k], src@));
    }
    let mut out: Vec<u8> = Vec::new();
    let mut k: usize = 0;
    while k < segs.len()
        invariant
            n == src@.len(),
            segs@.len() == gp.len(),
            pays@.len() == gp.len(),
            k <= gp.len(),
            forall|j: int|
                0 <= j < gp.len() ==> seg_output_ok(gp[j], #[trigger] segs@[j], pays@[j], src@),
            out@ == spec_out(gp.take(k as int)),
        decreases gp.len() - k,
    {
        proof {
            assert(gp.take(k + 1) =~= gp.take(k as int).push(gp[k as int]));
            lemma_spec_out_push(gp.take(k as int), gp[k as int]);
        }
        let seg = segs[k];
        match seg.kind {
            SegmentKind::Literal => {
                push_range(&mut out, src, seg.orig_start, seg.orig_end);
            },
            SegmentKind::TemplateExpr => {
                let (a, b) = pays[k];
                out.push(32);
                push_range(&mut out, src, a, b);
                out.push(32);
                assert(out@ =~= spec_out(gp.take(k as int)) + gp[k as int].out);
            },
            SegmentKind::Unknown => {},
        }
        k = k + 1;
    }
    proof {
        assert(gp.take(gp.len() as int) =~= gp);
    }
    assert forall|k2: int| 0 <= k2 < segs@.len() implies seg_wf(
        #[trigger] segs@[k2],
        src@.len() as int,
    ) by {
        assert(seg_output_ok(gp[k2], segs@[k2], pays@[k2], src@));
        lemma_correspond_wf(gp, segs@, 0);
    }
    Ok((segs, out))
}

/// The output contribution of one scanned segment, recomputed from the
/// source: the copied run for a literal, the padded quoted name for a
/// template expression, and nothing for an unknown construct.
pub fn parse_pair(src: &Vec<u8>, segment: &Segment) -> (r: Option<Vec<u8>>)
    requires
        segment.orig_start <= segment.orig_end <= src@.len(),
    ensures
        segment.kind == SegmentKind::Literal ==> (r matches Some(v) && v@ == src@.subrange(
            segment.orig_start as int,
            segment.orig_end as int,
        )),
        segment.kind == SegmentKind::Unknown ==> r is None,
        segment.kind == SegmentKind::TemplateExpr && segment.orig_end - segment.orig_start >= 4
            ==> (match parse_ref(src@, segment.orig_start + 2, segment.orig_end - 2) {
            Some(p) => r matches Some(v) && v@ == seq![32u8] + src@.subrange(p.0, p.1) + seq![
                32u8,
            ],
            None => r is None,
        }),
        segment.kind == SegmentKind::TemplateExpr && segment.orig_end - segment.orig_start < 4
            ==> r is None,
{
    match segment.kind {
        SegmentKind::Literal => Some(subvec_bytes(src, segment.orig_start, segment.orig_end)),
        SegmentKind::Unknown => None,
        SegmentKind::TemplateExpr => {
            if segment.orig_end - segment.orig_start < 4 {
                return None;
            }
            proof {
                lemma_parse_ref_bounds(
                    src@,
                    segment.orig_start + 2,
                    segment.orig_end - 2,
                );
            }
            match exec_parse_ref(src, segment.orig_start + 2, segment.orig_end - 2) {
                Some((a, b)) => {
                    let mut out: Vec<u8> = Vec::new();
                    out.push(32);
                    push_range(&mut out, src, a, b);
                    out.push(32);
                    proof {
                        assert(out@ =~= seq![32u8] + src@.subrange(a as int, b as int) + seq![
                            32u8,
                        ]);
                    }
                    Some(out)
                },
                None => None,
            }
        },
    }
}

/// Copies `src[a..b]` out into a fresh vector.
fn subvec_bytes(src: &Vec<u8>, a: usize, b: usize) -> (r: Vec<u8>)
    requires
        a <= b <= src@.len(),
    ensures
        r@ == src@.subrange(a as int, b as int),
{
    let mut r: Vec<u8> = Vec::new();
    push_range(&mut r, src, a, b);
    proof {
        assert(r@ =~= src@.subrange(a as int, b as int));
    }
    r
}

/// Where the scanned segments send an output offset, stated over the scan
/// itself: `off` is the output offset at which the remaining segments
/// begin.  Mirrors [`spec_translate_segs`] on the recorded map.
pub open spec fn spec_translate_scan(ss: Seq<SpecSeg>, off: int, pos: int) -> Option<int>
    decreases ss.len(),
{
    if ss.len() == 0 {
        None
    } else if off < pos < off + ss[0].out.len() {
        if ss[0].kind == SegmentKind::Literal {
            Some(ss[0].orig_start + (pos - off))
        } else {
            Some(ss[0].orig_start)
        }
    } else {
        spec_translate_scan(ss.drop_first(), off + ss[0].out.len(), pos)
    }
}

/// A recorded position map translates exactly as the scan it records.
pub proof fn lemma_translate_matches_scan(ss: Seq<SpecSeg>, segs: Seq<Segment>, off: int, pos: int)
    requires
        segs_correspond(ss, segs, off),
    ensures
        spec_translate_segs(segs, pos) == spec_translate_scan(ss, off, pos),
    decreases ss.len(),
{
    if ss.len() > 0 {
        lemma_translate_matches_scan(ss.drop_first(), segs.drop_first(), off + ss[0].out.len(), pos);
    }
}

/// A translated offset lies within the original source.
pub proof fn lemma_translate_in_bounds(segs: Seq<Segment>, srclen: int, pos: int)
    requires
        forall|k: int| 0 <= k < segs.len() ==> seg_wf(#[trigger] segs[k], srclen),
    ensures
        spec_translate_segs(segs, pos) matches Some(o) ==> 0 <= o <= srclen,
    decreases segs.len(),
{
    if segs.len() > 0 {
        assert(seg_wf(segs[0], srclen));
        assert forall|k: int| 0 <= k < segs.drop_first().len() implies seg_wf(
            #[trigger] segs.drop_first()[k],
            srclen,
        ) by {
            assert(segs.drop_first()[k] == segs[k + 1]);
        }
        lemma_translate_in_bounds(segs.drop_first(), srclen, pos);
    }
}

/// Holds a raw source together with, once rendered, the generated output and
/// the position map that ties the two texts together.
pub struct JinjaParser {
    snippets: Option<Vec<Segment>>,
    out_string: Vec<u8>,
    src: Vec<u8>,
}

/// The abstract state of a [`JinjaParser`].
pub ghost struct JinjaParserView {
    pub snippets: Option<Seq<Segment>>,
    pub out: Seq<u8>,
    pub src: Seq<u8>,
}

impl View for JinjaParser {
    type V = JinjaParserView;

    closed spec fn view(&self) -> JinjaParserView {
        JinjaParserView {
            snippets: match self.snippets {
                Some(v) => Some(v@),
                None => None,
            },
            out: self.out_string@,
            src: self.src@,
        }
    }
}

/// Every stored segment of the position map is well formed.
pub open spec fn map_wf(v: JinjaParserView) -> bool {
    match v.snippets {
        None => true,
        Some(segs) => forall|k: int|
            0 <= k < segs.len() ==> seg_wf(#[trigger] segs[k], v.src.len() as int),
    }
}

/// Where one position map entry sends an output offset strictly inside its
/// output span: the affine shift for a literal, the start of the original
/// span for a template expression.
pub open spec fn spec_translate_segs(segs: Seq<Segment>, pos: int) -> Option<int>
    decreases segs.len(),
{
    if segs.len() == 0 {
        None
    } else if segs[0].out_start < pos && pos < segs[0].out_end {
        if segs[0].kind == SegmentKind::Literal {
            Some(segs[0].orig_start + (pos - segs[0].out_start))
        } else {
            Some(segs[0].orig_start as int)
        }
    } else {
        spec_translate_segs(segs.drop_first(), pos)
    }
}

/// What [`JinjaParser::translate`] returns on an output offset.
pub open spec fn spec_translate(v: JinjaParserView, pos: int) -> Option<int> {
    match v.snippets {
        Some(segs) => spec_translate_segs(segs, pos),
        None => None,
    }
}

impl JinjaParser {
    /// A fresh parser over `src`; nothing is rendered yet.
    pub fn new(src: Vec<u8>) -> (r: JinjaParser)
        ensures
            r@.src == src@,
            r@.out == Seq::<u8>::empty(),
            r@.snippets is None,
            map_wf(r@),
    {
        JinjaParser { snippets: None, out_string: Vec::new(), src }
    }

    /// The raw source this parser was built over.
    pub fn source(&self) -> (r: &Vec<u8>)
        ensures
            r@ == self@.src,
    {
        &self.src
    }

    /// The generated output (empty until a successful render).
    pub fn output(&self) -> (r: &Vec<u8>)
        ensures
            r@ == self@.out,
    {
        &self.out_string
    }

    /// The generated output as one text; same as [`Self::output`].
    pub fn unify(&self) -> (r: &Vec<u8>)
        ensures
            r@ == self@.out,
    {
        &self.out_string
    }

    /// Read access to the position map, present after a successful render.
    pub fn segments(&self) -> (r: Option<&Vec<Segment>>)
        ensures
            match r {
                Some(v) => self@.snippets == Some(v@),
                None => self@.snippets is None,
            },
    {
        match &self.snippets {
            Some(v) => Some(v),
            None => None,
        }
    }

    /// Scans the source and renders the generated SQL.
    ///
    /// On success the output is the concatenation of the scanned segments'
    /// contributions and the position map records exactly those segments.  A
    /// source holding a well-delimited construct outside the supported subset
    /// is rejected as a whole with `UnsupportedConstruct`; an unterminated
    /// construct is rejected with `GrammarFailure`.  In either failure case
    /// no output and no position map are kept.
    pub fn render_jinja(&mut self) -> (r: Result<(), TemplateError>)
        ensures
            final(self)@.src == old(self)@.src,
            map_wf(final(self)@),
            match spec_scan(old(self)@.src, 0) {
                Err(e) => r == Err::<(), TemplateError>(e) && final(self)@.snippets is None
                    && final(self)@.out.len() == 0,
                Ok(ss) => {
                    if has_unknown(ss) {
                        r == Err::<(), TemplateError>(TemplateError::UnsupportedConstruct)
                            && final(self)@.snippets is None && final(self)@.out.len() == 0
                    } else {
                        &&& r == Ok::<(), TemplateError>(())
                        &&& final(self)@.out == spec_out(ss)
                        &&& final(self)@.snippets matches Some(segs) && segs_correspond(ss, segs, 0)
                    }
                },
            },
    {
        match scan_render(&self.src) {
            Ok((segs, out)) => {
                self.snippets = Some(segs);
                self.out_string = out;
                Ok(())
            },
            Err(e) => {
                self.snippets = None;
                self.out_string = Vec::new();
                Err(e)
            },
        }
    }

    /// Maps an offset of the generated output back to an offset of the
    /// original source.
    ///
    /// The segment whose output span strictly contains the offset decides:
    /// inside a literal the original offset is the affine shift of the output
    /// offset; inside a template expression it is the start of the original
    /// construct.  Offsets on a segment boundary, beyond the output, or with
    /// no render performed are unmapped.
    pub fn translate(&self, out_position: usize) -> (r: Option<usize>)
        requires
            map_wf(self@),
        ensures
            match r {
                Some(p) => spec_translate(self@, out_position as int) == Some(p as int),
                None => spec_translate(self@, out_position as int) is None,
            },
    {
        match &self.snippets {
            Some(snips) => {
                proof {
                    assert(snips@.skip(0) =~= snips@);
                }
                let mut k: usize = 0;
                while k < snips.len()
                    invariant
                        k <= snips@.len(),
                        map_wf(self@),
                        self@.snippets == Some(snips@),
                        spec_translate_segs(snips@, out_position as int) == spec_translate_segs(
                            snips@.skip(k as int),
                            out_position as int,
                        ),
                    decreases snips@.len() - k,
                {
                    proof {
                        assert(snips@.skip(k as int).drop_first() =~= snips@.skip(k as int + 1));
                        assert(snips@.skip(k as int)[0] == snips@[k as int]);
                    }
                    let seg = snips[k];
                    if seg.out_start < out_position && out_position < seg.out_end {
                        match seg.kind {
                            SegmentKind::Literal => {
                                return Some(seg.orig_start + (out_position - seg.out_start));
                            },
                            _ => {
                                return Some(seg.orig_start);
                            },
                        }
                    }
                    k = k + 1;
                }
                proof {
                    assert(snips@.skip(snips@.len() as int) =~= Seq::<Segment>::empty());
                }
                None
            },
            None => None,
        }
    }

    /// Maps an output span back to an original span: both ends are
    /// translated as in [`Self::translate`], and the span is reported only
    /// when both ends map.
    pub fn translate_span(&self, start: usize, end: usize) -> (r: Option<(usize, usize)>)
        requires
            map_wf(self@),
        ensures
            match r {
                Some(p) => spec_translate(self@, start as int) == Some(p.0 as int)
                    && spec_translate(self@, end as int) == Some(p.1 as int),
                None => spec_translate(self@, start as int) is None || spec_translate(
                    self@,
                    end as int,
                ) is None,
            },
    {
        match (self.translate(start), self.translate(end)) {
            (Some(a), Some(b)) => Some((a, b)),
            _ => None,
        }
    }
}

#[verifier::rlimit(50)]
proof fn lemma_round_trip_rec(ss: Seq<SpecSeg>, segs: Seq<Segment>, off: int, k: int, pos: int)
    requires
        segs_correspond(ss, segs, off),
        off >= 0,
        0 <= k < segs.len(),
        segs[k].kind == SegmentKind::Literal,
        segs[k].out_start < pos < segs[k].out_end,
    ensures
        spec_translate_segs(segs, pos) == Some(segs[k].orig_start + (pos - segs[k].out_start)),
    decreases k,
{
    if k == 0 {
    } else {
        let off2 = off + ss[0].out.len();
        lemma_correspond_wf(ss.drop_first(), segs.drop_first(), off2);
        assert(segs.drop_first()[k - 1] == segs[k]);
        assert(segs[k].out_start >= off2);
        assert(!(segs[0].out_start < pos && pos < segs[0].out_end));
        lemma_round_trip_rec(ss.drop_first(), segs.drop_first(), off2, k - 1, pos);
    }
}

/// Round-trip coverage law: for every literal segment of a position map and
/// every output offset strictly inside its output span, translation returns
/// exactly the affine shift into the segment's original span,
/// `orig = seg.orig_start + (pos - seg.out_start)`.
pub proof fn lemma_literal_round_trip(ss: Seq<SpecSeg>, segs: Seq<Segment>, k: int, pos: int)
    requires
        segs_correspond(ss, segs, 0),
        0 <= k < segs.len(),
        segs[k].kind == SegmentKind::Literal,
        segs[k].out_start < pos < segs[k].out_end,
    ensures
        spec_translate_segs(segs, pos) == Some(segs[k].orig_start + (pos - segs[k].out_start)),
{
    lemma_round_trip_rec(ss, segs, 0, k, pos);
}

proof fn lemma_no_construct_lit_end(src: Seq<u8>, i: int)
    requires
        0 <= i <= src.len(),
        forall|j: int| !construct_at(src, j),
    ensures
        lit_end(src, i) == src.len(),
    decreases src.len() - i,
{
    if i < src.len() {
        lemma_no_construct_lit_end(src, i + 1);
    }
}

/// Idempotence law: a non-empty source without any template construct scans
/// to a single literal segment spanning the whole file, whose rendered
/// output is the source itself.
pub proof fn lemma_plain_source_identity(src: Seq<u8>)
    requires
        src.len() > 0,
        forall|i: int| !construct_at(src, i),
    ensures
        spec_scan(src, 0) matches Ok(ss) && ss.len() == 1 && ss[0].kind == SegmentKind::Literal
            && ss[0].orig_start == 0 && ss[0].orig_end == src.len() && !has_unknown(ss)
            && spec_out(ss) == src,
{
    lemma_no_construct_lit_end(src, 1);
    let seg = SpecSeg {
        kind: SegmentKind::Literal,
        orig_start: 0,
        orig_end: src.len() as int,
        out: src.subrange(0, src.len() as int),
    };
    assert(src.subrange(0, src.len() as int) =~= src);
    assert(spec_scan(src, src.len() as int) == Ok::<Seq<SpecSeg>, TemplateError>(Seq::empty()));
    assert(spec_scan(src, 0) == Ok::<Seq<SpecSeg>, TemplateError>(seq![seg] + Seq::empty()));
    assert(seq![seg] + Seq::<SpecSeg>::empty() =~= seq![seg]);
    let ss = (seq![seg] + Seq::<SpecSeg>::empty());
    assert(ss[0] == seg);
    assert(ss.drop_first() =~= Seq::<SpecSeg>::empty());
    assert(spec_out(Seq::<SpecSeg>::empty()) == Seq::<u8>::empty());
    assert(spec_out(ss) == ss[0].out + spec_out(ss.drop_first()));
    assert(spec_out(ss) =~= src);
}

proof fn lemma_correspond_wf(ss: Seq<SpecSeg>, segs: Seq<Segment>, off: int)
    requires
        segs_correspond(ss, segs, off),
        off >= 0,
    ensures
        forall|k: int|
            0 <= k < segs.len() ==> off <= (#[trigger] segs[k]).out_start <= segs[k].out_end && (k
                + 1 < segs.len() ==> segs[k].out_end == segs[k + 1].out_start) && segs[k].out_end
                - segs[k].out_start == ss[k].out.len() && (k == 0 ==> segs[k].out_start == off),
        segs.len() == ss.len(),
    decreases ss.len(),
{
    if ss.len() > 0 {
        lemma_correspond_wf(ss.drop_first(), segs.drop_first(), off + ss[0].out.len());
        assert forall|k: int|
            0 <= k < segs.len() implies off <= (#[trigger] segs[k]).out_start <= segs[k].out_end
            && (k + 1 < segs.len() ==> segs[k].out_end == segs[k + 1].out_start) && segs[k].out_end
            - segs[k].out_start == ss[k].out.len() && (k == 0 ==> segs[k].out_start == off) by {
            if k > 0 {
                assert(segs.drop_first()[k - 1] == segs[k]);
                assert(ss.drop_first()[k - 1] == ss[k]);
                if k + 1 < segs.len() {
                    assert(segs.drop_first()[k] == segs[k + 1]);
                }
            } else {
                if 1 < segs.len() {
                    assert(segs.drop_first()[0] == segs[1]);
                }
            }
        }
    }
}

} // verus!
