//! Tests of the template scanner, renderer and position translator.

use sql_lineage::jinja_parser::{contains_unknown_jinja, parse_pair, JinjaParser, Segment,
    SegmentKind, TemplateError};

fn rendered(src: &str) -> JinjaParser {
    let mut p = JinjaParser::new(src.as_bytes().to_vec());
    p.render_jinja().expect("render should succeed");
    p
}

#[test]
fn plain_source_renders_to_itself() {
    // A source with no template construct renders unchanged, as one literal
    // segment spanning the whole file.
    let src = "select id, name from customers\n";
    let p = rendered(src);
    assert_eq!(p.output().as_slice(), src.as_bytes());
    let segs: &Vec<Segment> = p.segments().expect("position map present");
    assert_eq!(segs.len(), 1);
    assert_eq!(segs[0].kind, SegmentKind::Literal);
    assert_eq!(segs[0].orig_start, 0);
    assert_eq!(segs[0].orig_end, src.len());
    assert_eq!(segs[0].out_start, 0);
    assert_eq!(segs[0].out_end, src.len());
}

#[test]
fn reference_expands_to_padded_name() {
    let p = rendered("select * from {{ ref('raw_customers') }}");
    assert_eq!(p.output().as_slice(), b"select * from  raw_customers ");
    let segs = p.segments().unwrap();
    assert_eq!(segs.len(), 2);
    assert_eq!(segs[0].kind, SegmentKind::Literal);
    assert_eq!(segs[1].kind, SegmentKind::TemplateExpr);
    assert_eq!(segs[1].orig_start, 14);
    assert_eq!(segs[1].orig_end, 40);
}

#[test]
fn comment_is_dropped_from_output() {
    let p = rendered("a{# a comment #}b");
    assert_eq!(p.output().as_slice(), b"ab");
    let segs = p.segments().unwrap();
    assert_eq!(segs.len(), 2);
    assert_eq!(segs[0].out_end, 1);
    assert_eq!(segs[1].out_start, 1);
    assert_eq!(segs[1].orig_start, 16);
}

#[test]
fn unknown_expression_rejected_without_output() {
    let mut p = JinjaParser::new(b"select 1 {{ config(materialized='table') }}".to_vec());
    let r = p.render_jinja();
    assert_eq!(r, Err(TemplateError::UnsupportedConstruct));
    assert!(p.output().is_empty());
    assert!(p.segments().is_none());
}

#[test]
fn unknown_statement_rejected_without_output() {
    let mut p = JinjaParser::new(b"{% if flag %}select 1{% endif %}".to_vec());
    let r = p.render_jinja();
    assert_eq!(r, Err(TemplateError::UnsupportedConstruct));
    assert!(p.output().is_empty());
}

#[test]
fn unterminated_construct_is_a_grammar_failure() {
    let mut p = JinjaParser::new(b"select * from {{ ref('x'".to_vec());
    assert_eq!(p.render_jinja(), Err(TemplateError::GrammarFailure));
    assert!(p.output().is_empty());
}

#[test]
fn translate_is_affine_inside_literals() {
    // "abc {{ ref('t') }} def": literal [0,4) -> out [0,4),
    // expansion [4,18) -> out " t " = [4,7), literal [18,22) -> out [7,11).
    let p = rendered("abc {{ ref('t') }} def");
    assert_eq!(p.output().as_slice(), b"abc  t  def");
    // Strictly inside the first literal: exact affine relationship.
    assert_eq!(p.translate(1), Some(1));
    assert_eq!(p.translate(2), Some(2));
    assert_eq!(p.translate(3), Some(3));
    // Inside the expansion: collapse to the construct's start.
    assert_eq!(p.translate(5), Some(4));
    assert_eq!(p.translate(6), Some(4));
    // Inside the trailing literal: affine with the segment's shift.
    assert_eq!(p.translate(8), Some(19));
    assert_eq!(p.translate(9), Some(20));
    // Boundaries and out-of-range offsets are unmapped.
    assert_eq!(p.translate(0), None);
    assert_eq!(p.translate(4), None);
    assert_eq!(p.translate(7), None);
    assert_eq!(p.translate(11), None);
    assert_eq!(p.translate(1000), None);
}

#[test]
fn translate_before_render_is_unmapped() {
    let p = JinjaParser::new(b"select 1".to_vec());
    assert_eq!(p.translate(3), None);
}

#[test]
fn translate_span_needs_both_ends() {
    let p = rendered("abc {{ ref('t') }} def");
    assert_eq!(p.translate_span(1, 3), Some((1, 3)));
    assert_eq!(p.translate_span(1, 4), None);
    assert_eq!(p.translate_span(0, 3), None);
}

#[test]
fn parse_pair_recomputes_segment_output() {
    let src = "abc {{ ref('t') }} def";
    let p = rendered(src);
    let srcv = src.as_bytes().to_vec();
    let segs = p.segments().unwrap();
    assert_eq!(parse_pair(&srcv, &segs[0]).as_deref(), Some(b"abc " as &[u8]));
    assert_eq!(parse_pair(&srcv, &segs[1]).as_deref(), Some(b" t " as &[u8]));
    assert_eq!(parse_pair(&srcv, &segs[2]).as_deref(), Some(b" def" as &[u8]));
}

#[test]
fn contains_unknown_reports_unknown_segments() {
    let p = rendered("plain text");
    assert!(!contains_unknown_jinja(p.segments().unwrap()));
    let none: Vec<Segment> = Vec::new();
    assert!(!contains_unknown_jinja(&none));
    let unknown = vec![Segment {
        kind: SegmentKind::Unknown,
        orig_start: 0,
        orig_end: 4,
        out_start: 0,
        out_end: 0,
    }];
    assert!(contains_unknown_jinja(&unknown));
}

#[test]
fn source_and_unify_accessors() {
    let src = "select 2";
    let p = rendered(src);
    assert_eq!(p.source().as_slice(), src.as_bytes());
    assert_eq!(p.unify().as_slice(), src.as_bytes());
}
