//! Tests of the SQL grammar: queries, CTE lists, set operations, select
//! lists and alias inference.

use sql_lineage::jinja_parser::JinjaParser;
use sql_lineage::parser::{
    parse_rendered_sql, parse_sql, parse_expression_alias, Expression, Projection, Query,
    SetOperation, SetOperator, ErrorLoc,
};

fn parse(sql: &str) -> Query {
    parse_rendered_sql(&sql.as_bytes().to_vec()).expect("should parse")
}

fn select_of(op: &SetOperation) -> &sql_lineage::parser::SelectStatement {
    match op {
        SetOperation::Query(iq) => &iq.select,
        SetOperation::Operation { .. } => panic!("expected a plain query"),
    }
}

#[test]
fn parses_single_select_with_alias() {
    let q = parse("select 1 as x");
    assert!(q.ctes.is_none());
    let sel = select_of(&q.body);
    assert_eq!(sel.projection.len(), 1);
    assert_eq!(sel.from.len(), 0);
    match &sel.projection[0] {
        Projection::ExprWithAlias { expr, alias, .. } => {
            assert_eq!(alias.as_slice(), b"x");
            match expr {
                Expression::Other(text) => assert_eq!(text.as_slice(), b"1"),
                _ => panic!("a number is no identifier"),
            }
        },
        _ => panic!("expected an aliased expression"),
    }
}

#[test]
fn parses_projections_and_from_list() {
    let q = parse("select id, customer.name, * from db.schema.customers, orders");
    let sel = select_of(&q.body);
    assert_eq!(sel.projection.len(), 3);
    match &sel.projection[0] {
        Projection::Expr { expr: Expression::Identifier(parts), .. } => {
            assert_eq!(parts.len(), 1);
            assert_eq!(parts[0].as_slice(), b"id");
        },
        _ => panic!("expected a bare identifier"),
    }
    match &sel.projection[1] {
        Projection::Expr { expr: Expression::Identifier(parts), .. } => {
            assert_eq!(parts.len(), 2);
            assert_eq!(parts[0].as_slice(), b"customer");
            assert_eq!(parts[1].as_slice(), b"name");
        },
        _ => panic!("expected a dotted identifier"),
    }
    assert!(matches!(&sel.projection[2], Projection::Wildcard { .. }));
    assert_eq!(sel.from.len(), 2);
    assert_eq!(sel.from[0].name.as_slice(), b"db.schema.customers");
    assert_eq!(sel.from[1].name.as_slice(), b"orders");
}

#[test]
fn parses_qualified_wildcard() {
    let q = parse("select t.* from t");
    let sel = select_of(&q.body);
    match &sel.projection[0] {
        Projection::QualifiedWildcard { qualifier, .. } => {
            assert_eq!(qualifier.as_slice(), b"t");
        },
        _ => panic!("expected a qualified wildcard"),
    }
}

#[test]
fn parses_with_clause_in_order() {
    let q = parse("with a as (select id from t), b as (select id from a) select * from b");
    let ctes = q.ctes.as_ref().expect("with clause present");
    assert_eq!(ctes.len(), 2);
    assert_eq!(ctes[0].name.as_slice(), b"a");
    assert_eq!(ctes[1].name.as_slice(), b"b");
    let body = select_of(&q.body);
    assert_eq!(body.from[0].name.as_slice(), b"b");
}

#[test]
fn union_chain_parses_left_leaning() {
    let q = parse("select a from t union all select b from t union select c from t");
    match &q.body {
        SetOperation::Operation { op, left, right, .. } => {
            assert_eq!(*op, SetOperator::Union);
            assert!(matches!(**right, SetOperation::Query(_)));
            match &**left {
                SetOperation::Operation { op: inner_op, left: ll, right: lr, .. } => {
                    assert_eq!(*inner_op, SetOperator::UnionAll);
                    assert!(matches!(**ll, SetOperation::Query(_)));
                    assert!(matches!(**lr, SetOperation::Query(_)));
                },
                _ => panic!("the left operand should hold the earlier operator"),
            }
        },
        _ => panic!("expected a set operation"),
    }
}

#[test]
fn except_and_intersect_are_recognized() {
    let q = parse("select a from t except select a from u");
    match &q.body {
        SetOperation::Operation { op, .. } => assert_eq!(*op, SetOperator::Except),
        _ => panic!("expected a set operation"),
    }
    let q2 = parse("select a from t intersect select a from u");
    match &q2.body {
        SetOperation::Operation { op, .. } => assert_eq!(*op, SetOperator::Intersect),
        _ => panic!("expected a set operation"),
    }
}

#[test]
fn keywords_match_case_insensitively() {
    let q = parse("SELECT Id FROM T UNION ALL select id from t");
    match &q.body {
        SetOperation::Operation { op, .. } => assert_eq!(*op, SetOperator::UnionAll),
        _ => panic!("expected a set operation"),
    }
}

#[test]
fn rejects_malformed_sql_with_offset() {
    // The CTE body must be parenthesized: parsing stops at offset 10, the
    // `s` of `select`.
    let r = parse_rendered_sql(&b"with a as select 1".to_vec());
    assert_eq!(r.err(), Some(10));
    // Trailing content after the query errs at its own offset.
    let r2 = parse_rendered_sql(&b"select 1 as x )".to_vec());
    assert_eq!(r2.err(), Some(14));
}

#[test]
fn parse_sql_translates_error_positions() {
    let mut p = JinjaParser::new(b"with a as select 1".to_vec());
    p.render_jinja().unwrap();
    let e = parse_sql(&p).err().expect("should fail");
    assert_eq!(*e.position(), ErrorLoc::Position(10));
    assert_eq!(e.message(), "SQL syntax error");
}

#[test]
fn parse_sql_returns_query_on_success() {
    let mut p = JinjaParser::new(b"select id from {{ ref('customers') }}".to_vec());
    p.render_jinja().unwrap();
    let q = parse_sql(&p).expect("should parse");
    let sel = select_of(&q.body);
    assert_eq!(sel.from[0].name.as_slice(), b"customers");
}

#[test]
fn alias_inference_takes_last_component_or_text() {
    let id = Expression::Identifier(vec![b"t".to_vec(), b"c".to_vec()]);
    assert_eq!(parse_expression_alias(&id).as_slice(), b"c");
    let bare = Expression::Identifier(vec![b"c".to_vec()]);
    assert_eq!(parse_expression_alias(&bare).as_slice(), b"c");
    let other = Expression::Other(b"a + b".to_vec());
    assert_eq!(parse_expression_alias(&other).as_slice(), b"a + b");
}

#[test]
fn expression_runs_keep_strings_and_parens_whole() {
    let q = parse("select coalesce(a, ',') as v, nxt from t");
    let sel = select_of(&q.body);
    assert_eq!(sel.projection.len(), 2);
    match &sel.projection[0] {
        Projection::ExprWithAlias { expr: Expression::Other(text), alias, .. } => {
            assert_eq!(text.as_slice(), b"coalesce(a, ',')");
            assert_eq!(alias.as_slice(), b"v");
        },
        _ => panic!("expected an aliased expression"),
    }
}
