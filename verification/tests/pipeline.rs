//! End-to-end tests: the full pipeline over realistic sources, diagnostics,
//! and the linter-output helpers.

use sql_lineage::diagnostics::{find_diagnostics, lint_diagnostics, trim_lint_wrapper, Analysis,
    SqlfluffLint};
use sql_lineage::parser::parse_rendered_sql;
use sql_lineage::utils::translate_definition;
use sql_lineage::validation::{
    validate_query, walk_lineage, Column, ColumnSource, Context, Model, SqlType,
};

fn base_membership_context() -> Context {
    let column_names: Vec<&[u8]> = vec![
        b"akassemedlemskab_id",
        b"person_id",
        b"fra_date",
        b"til_date",
        b"akasse_id",
        b"ind_aarsag",
        b"ud_aarsag",
        b"tilflyt_fra",
        b"fraflyt_til",
        b"tilflyt_fra_eos",
        b"opret_at",
        b"akasse_anc_at",
        b"ansoegnings_date",
        b"fraflyt_til_land",
        b"optaget_af",
        b"annulleringsaarsag",
        b"batch_at",
        b"oprettet_af",
        b"opdateret_utc_at",
        b"rettet_af",
        b"status_name",
        b"oprettet_med",
        b"opdateringssekvens",
        b"seneste_udloeb_kontfri_at",
        b"forrige_udloeb_kontfri_at",
        b"ikke_kontfri_jn",
        b"ikke_kontfri_aarsag",
        b"annulleringsaarsag_udmeld",
        b"lokal_opdateret_at",
    ];
    let columns: Vec<Column> = column_names
        .iter()
        .map(|n| Column { name: n.to_vec(), tipe: SqlType::Unknown, source: ColumnSource::Given })
        .collect();
    let mut ctx = Context::new();
    ctx.add_model(
        b"stg_modulus__akassemedlemskaber".to_vec(),
        Model { name: b"stg_modulus__akassemedlemskaber".to_vec(), columns },
    );
    ctx
}

#[test]
fn test_sql_parser() {
    let sql = "
    with

akassemedlemskaber as (
    select * from stg_modulus__akassemedlemskaber
),

indmeldelser as (
    select
        fra_date as bestand_date,
        'Indmeldelse' as aendringstype,
        *
    from akassemedlemskaber
),

udmeldelser as (
    select
        dateadd(day, case when til_date < '9999-12-31' then 1 else 0 end, til_date) as bestand_date,
        case
            when ud_aarsag in ('Slettet', 'SLETTET') then 'Restanceslettet'
            else 'Udmeldelse'
        end as aendringstype,
        *
    from akassemedlemskaber
),

aendringer as (
    select * from indmeldelser
    union all
    select * from udmeldelser
),

final as (
    select
        bestand_date,
        person_id,
        aendringstype
    from aendringer
)

select * from final";
    let parsed = parse_rendered_sql(&sql.as_bytes().to_vec());
    let query = match parsed {
        Ok(q) => q,
        Err(off) => panic!("syntax error at offset {}", off),
    };
    assert_eq!(query.ctes.as_ref().map(|c| c.len()), Some(5));

    let base_context = base_membership_context();
    let (output, grown) = validate_query(&query, base_context).expect("lineage resolves");
    assert_eq!(output.columns.len(), 3);
    assert_eq!(output.columns[0].name.as_slice(), b"bestand_date");

    // The first output column flows through the last CTE into the union,
    // whose disjoint source ends the walk.
    let chain = walk_lineage(&grown, &output.columns[0].source, 16);
    assert_eq!(chain.len(), 2);
    assert_eq!(chain[1].model_name.as_slice(), b"aendringer");
}

#[test]
fn unsupported_construct_diagnostic_is_anchored_at_file_start() {
    let src = b"select 1\n{{ config(materialized='table') }}\n".to_vec();
    match find_diagnostics(src) {
        Analysis::Failed(ds) => {
            assert_eq!(ds.len(), 1);
            assert_eq!(ds[0].start_line, 0);
            assert_eq!(ds[0].start_col, 0);
            assert_eq!(ds[0].message, "Unknown Jinja");
        },
        Analysis::Parsed { .. } => panic!("an unsupported construct must fail"),
    }
}

#[test]
fn syntax_error_diagnostic_is_positioned_in_source() {
    // The error lies at output offset 7 (an empty projection); the source
    // has no template construct, so the offset maps straight back: line 2
    // (zero-based 1), column 1.
    let src = b"select\nfrom t".to_vec();
    match find_diagnostics(src) {
        Analysis::Failed(ds) => {
            assert_eq!(ds.len(), 1);
            assert_eq!(ds[0].start_line, 1);
            assert_eq!(ds[0].start_col, 1);
            assert_eq!(ds[0].message, "SQL syntax error");
        },
        Analysis::Parsed { .. } => panic!("malformed SQL must fail"),
    }
}

#[test]
fn successful_analysis_returns_rendered_sql_and_query() {
    let src = b"select id from {{ ref('customers') }}".to_vec();
    match find_diagnostics(src) {
        Analysis::Parsed { rendered, query } => {
            assert_eq!(rendered.as_slice(), b"select id from  customers ");
            assert!(query.ctes.is_none());
        },
        Analysis::Failed(_) => panic!("this source analyzes cleanly"),
    }
}

#[test]
fn renderer_failure_keeps_no_partial_output() {
    let src = b"select * from {{ ref('a') }} where {{ exec_date() }}".to_vec();
    match find_diagnostics(src) {
        Analysis::Failed(ds) => assert_eq!(ds[0].message, "Unknown Jinja"),
        Analysis::Parsed { .. } => panic!("an unsupported construct must fail"),
    }
}

#[test]
fn lint_output_converts_to_zero_based_positions() {
    let lints = vec![
        SqlfluffLint {
            line_no: 3,
            line_pos: 5,
            code: String::from("L010"),
            description: String::from("Keywords must be consistently upper case."),
            name: String::from("capitalisation.keywords"),
        },
        SqlfluffLint {
            line_no: 1,
            line_pos: 1,
            code: String::from("L001"),
            description: String::from("Unnecessary trailing whitespace."),
            name: String::from("layout.spacing"),
        },
    ];
    let ds = lint_diagnostics(&lints);
    assert_eq!(ds.len(), 2);
    assert_eq!(ds[0].start_line, 2);
    assert_eq!(ds[0].start_col, 4);
    assert_eq!(ds[0].message, "Keywords must be consistently upper case.");
    assert_eq!(ds[1].start_line, 0);
    assert_eq!(ds[1].start_col, 0);
}

#[test]
fn lint_wrapper_bytes_are_trimmed() {
    let raw = b"[{\"violations\": []}]\n\n".to_vec();
    let trimmed = trim_lint_wrapper(&raw).expect("long enough");
    assert_eq!(trimmed.as_slice(), b"{\"violations\": []}");
    assert!(trim_lint_wrapper(&b"[]\n".to_vec()).is_none());
}

#[test]
fn translate_definition_lowercases_the_function_name() {
    assert_eq!(translate_definition("", "SUM"), "sum = ");
    assert_eq!(translate_definition("ARRAY_AGG( [ DISTINCT ] expr )", "Array_Agg"), "array_agg = ");
}
