//! Tests of scope handling and column-lineage resolution.

use sql_lineage::parser::parse_rendered_sql;
use sql_lineage::validation::{
    bytes_eq, validate_query, validate_set_expr, walk_lineage, Column, ColumnSource, Context,
    LineageError, Model, ModelReference, SqlType,
};

fn given_column(name: &[u8]) -> Column {
    Column { name: name.to_vec(), tipe: SqlType::Unknown, source: ColumnSource::Given }
}

fn leaf_model(name: &[u8], columns: &[&[u8]]) -> Model {
    Model {
        name: name.to_vec(),
        columns: columns.iter().map(|c| given_column(c)).collect(),
    }
}

fn context_with(models: Vec<Model>) -> Context {
    let mut ctx = Context::new();
    for m in models {
        let name = m.name.clone();
        ctx.add_model(name, m);
    }
    ctx
}

#[test]
fn byte_names_compare_by_content() {
    assert!(bytes_eq(&b"person_id".to_vec(), &b"person_id".to_vec()));
    assert!(!bytes_eq(&b"person_id".to_vec(), &b"person_iD".to_vec()));
    assert!(!bytes_eq(&b"a".to_vec(), &b"ab".to_vec()));
}

#[test]
fn type_match_compares_arity() {
    let a = leaf_model(b"a", &[b"x", b"y"]);
    let b = leaf_model(b"b", &[b"u", b"v"]);
    let c = leaf_model(b"c", &[b"u"]);
    assert!(a.type_match(&b));
    assert!(!a.type_match(&c));
}

#[test]
fn get_model_prefers_latest_registration() {
    let mut ctx = Context::new();
    ctx.add_model(b"m".to_vec(), leaf_model(b"m", &[b"one"]));
    ctx.add_model(b"m".to_vec(), leaf_model(b"m", &[b"one", b"two"]));
    let m = ctx.get_model(&b"m".to_vec()).expect("registered");
    assert_eq!(m.columns.len(), 2);
    assert!(ctx.get_model(&b"absent".to_vec()).is_none());
}

#[test]
fn follow_model_reference_finds_named_column() {
    let ctx = context_with(vec![leaf_model(b"t", &[b"id", b"name"])]);
    let mr = ModelReference { model_name: b"t".to_vec(), column_name: b"name".to_vec() };
    let (col, model) = ctx.follow_model_reference(&mr).expect("resolves");
    assert_eq!(col.name.as_slice(), b"name");
    assert_eq!(model.name.as_slice(), b"t");
    let missing = ModelReference { model_name: b"t".to_vec(), column_name: b"zzz".to_vec() };
    assert!(ctx.follow_model_reference(&missing).is_none());
    let no_model = ModelReference { model_name: b"u".to_vec(), column_name: b"id".to_vec() };
    assert!(ctx.follow_model_reference(&no_model).is_none());
}

#[test]
fn select_one_constant_resolves_to_unknown_source() {
    // `select 1 as x` resolves to one column named x whose provenance is
    // unknown, per the non-identifier-expression rule.
    let q = parse_rendered_sql(&b"select 1 as x".to_vec()).unwrap();
    let (model, _ctx) = validate_query(&q, Context::new()).expect("resolves");
    assert_eq!(model.columns.len(), 1);
    assert_eq!(model.columns[0].name.as_slice(), b"x");
    assert!(matches!(model.columns[0].source, ColumnSource::Unknown));
}

#[test]
fn lineage_walks_cte_chain_to_leaf() {
    // CTE b reads from CTE a, which reads from the leaf model t: the lineage
    // of the output column ends at t.id.
    let src = b"with a as (select id from t), b as (select id from a) select * from b".to_vec();
    let q = parse_rendered_sql(&src).unwrap();
    let ctx = context_with(vec![leaf_model(b"t", &[b"id"])]);
    let (model, grown) = validate_query(&q, ctx).expect("resolves");
    assert_eq!(model.columns.len(), 1);
    assert_eq!(model.columns[0].name.as_slice(), b"id");
    let chain = walk_lineage(&grown, &model.columns[0].source, 16);
    assert_eq!(chain.len(), 3);
    assert_eq!(chain[0].model_name.as_slice(), b"b");
    assert_eq!(chain[1].model_name.as_slice(), b"a");
    assert_eq!(chain[2].model_name.as_slice(), b"t");
    assert_eq!(chain[2].column_name.as_slice(), b"id");
}

#[test]
fn walk_lineage_with_no_fuel_stops_at_first_reference() {
    let ctx = context_with(vec![leaf_model(b"t", &[b"id"])]);
    let src = ColumnSource::Single(ModelReference {
        model_name: b"t".to_vec(),
        column_name: b"id".to_vec(),
    });
    let chain = walk_lineage(&ctx, &src, 0);
    assert_eq!(chain.len(), 1);
    assert_eq!(chain[0].model_name.as_slice(), b"t");
}

#[test]
fn later_cte_cannot_be_referenced_earlier() {
    // b is declared before a and references it: the reference does not
    // resolve, because a CTE sees only those declared before it.
    let src = b"with b as (select id from a), a as (select 1 as id) select * from b".to_vec();
    let q = parse_rendered_sql(&src).unwrap();
    let r = validate_query(&q, Context::new());
    match r {
        Err(LineageError::UnresolvedTable(name)) => assert_eq!(name.as_slice(), b"a"),
        _ => panic!("a forward reference must not resolve"),
    }
}

#[test]
fn query_body_sees_every_cte() {
    let src = b"with a as (select 1 as x), b as (select 2 as y) select x from a".to_vec();
    let q = parse_rendered_sql(&src).unwrap();
    let (model, _) = validate_query(&q, Context::new()).expect("resolves");
    assert_eq!(model.columns[0].name.as_slice(), b"x");
}

#[test]
fn union_of_mismatched_arity_fails() {
    // One column against two: resolution fails with an arity mismatch and
    // produces no model.
    let src = b"select a from t union all select a, b from t".to_vec();
    let q = parse_rendered_sql(&src).unwrap();
    let ctx = context_with(vec![leaf_model(b"t", &[b"a", b"b"])]);
    let r = validate_query(&q, ctx);
    assert!(matches!(r, Err(LineageError::ArityMismatch)));
}

#[test]
fn union_merges_columns_disjointly() {
    let src = b"select a from t union all select b from t".to_vec();
    let q = parse_rendered_sql(&src).unwrap();
    let ctx = context_with(vec![leaf_model(b"t", &[b"a", b"b"])]);
    let (model, _) = validate_query(&q, ctx).expect("resolves");
    assert_eq!(model.columns.len(), 1);
    assert_eq!(model.columns[0].name.as_slice(), b"a");
    match &model.columns[0].source {
        ColumnSource::Disjoint(branches) => {
            assert_eq!(branches.len(), 2);
            match &branches[0] {
                ColumnSource::Single(mr) => {
                    assert_eq!(mr.model_name.as_slice(), b"left");
                    assert_eq!(mr.column_name.as_slice(), b"a");
                },
                _ => panic!("expected a single source per branch"),
            }
            match &branches[1] {
                ColumnSource::Single(mr) => assert_eq!(mr.model_name.as_slice(), b"right"),
                _ => panic!("expected a single source per branch"),
            }
        },
        _ => panic!("a union column must carry a disjoint source"),
    }
}

#[test]
fn except_is_unsupported_in_resolution() {
    let src = b"select a from t except select a from t".to_vec();
    let q = parse_rendered_sql(&src).unwrap();
    let ctx = context_with(vec![leaf_model(b"t", &[b"a"])]);
    assert!(matches!(validate_query(&q, ctx), Err(LineageError::UnsupportedSetOperator)));
}

#[test]
fn qualified_wildcard_is_unsupported_in_resolution() {
    let src = b"select t.* from t".to_vec();
    let q = parse_rendered_sql(&src).unwrap();
    let ctx = context_with(vec![leaf_model(b"t", &[b"a"])]);
    assert!(matches!(validate_query(&q, ctx), Err(LineageError::UnsupportedProjection)));
}

#[test]
fn unknown_column_is_reported() {
    let src = b"select missing from t".to_vec();
    let q = parse_rendered_sql(&src).unwrap();
    let ctx = context_with(vec![leaf_model(b"t", &[b"a"])]);
    match validate_query(&q, ctx) {
        Err(LineageError::UnresolvedColumn(name)) => assert_eq!(name.as_slice(), b"missing"),
        _ => panic!("an absent column must not resolve"),
    }
}

#[test]
fn wildcard_expands_in_from_order() {
    let src = b"select * from t, u".to_vec();
    let q = parse_rendered_sql(&src).unwrap();
    let ctx = context_with(vec![leaf_model(b"t", &[b"a", b"b"]), leaf_model(b"u", &[b"c"])]);
    let (model, _) = validate_query(&q, ctx).expect("resolves");
    let names: Vec<&[u8]> = model.columns.iter().map(|c| c.name.as_slice()).collect();
    assert_eq!(names, vec![b"a" as &[u8], b"b", b"c"]);
    match &model.columns[2].source {
        ColumnSource::Single(mr) => assert_eq!(mr.model_name.as_slice(), b"u"),
        _ => panic!("wildcard columns are single-sourced"),
    }
}

#[test]
fn validate_set_expr_resolves_plain_select() {
    let src = b"select a from t".to_vec();
    let q = parse_rendered_sql(&src).unwrap();
    let ctx = context_with(vec![leaf_model(b"t", &[b"a"])]);
    let model = validate_set_expr(&q.body, &ctx).expect("resolves");
    assert_eq!(model.columns.len(), 1);
    match &model.columns[0].source {
        ColumnSource::Single(mr) => {
            assert_eq!(mr.model_name.as_slice(), b"t");
            assert_eq!(mr.column_name.as_slice(), b"a");
        },
        _ => panic!("a bare identifier is single-sourced"),
    }
}
