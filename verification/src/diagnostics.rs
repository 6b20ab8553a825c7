//! From pipeline results to editor diagnostics.
//!
//! One analysis of one source runs the template renderer and the SQL parser
//! in sequence and stops at the first failing stage, turning the failure
//! into a single diagnostic positioned in the original source.  A failure
//! whose position cannot be translated is anchored at the start of the file:
//! visibility is preferred over precision.  When both stages succeed, the
//! rendered SQL is handed back so that the external linter can run over it;
//! the linter's findings are converted separately by [`lint_diagnostics`].

use vstd::prelude::*;

use crate::jinja_parser::{
    spec_scan, has_unknown, spec_out, JinjaParser, TemplateError, lemma_translate_matches_scan,
    lemma_translate_in_bounds, spec_translate_scan,
};

use crate::parser::{parse_sql, spec_parse_sql, Query, ErrorLoc};

use crate::utils::{location_of, spec_line_of, spec_column_of};

verus! {

/// One editor diagnostic: a zero-based line range in the original source
/// and a message.
#[derive(Debug)]
pub struct Diagnostic {
    pub start_line: usize,
    pub start_col: usize,
    pub end_line: usize,
    pub end_col: usize,
    pub message: String,
}

/// The outcome of analyzing one source.
pub enum Analysis {
    /// A stage failed; these diagnostics describe it.
    Failed(Vec<Diagnostic>),
    /// Template rendering and SQL parsing both succeeded.
    Parsed { rendered: Vec<u8>, query: Query },
}

/// The message a template-stage failure carries.
pub open spec fn spec_template_message(e: TemplateError) -> Seq<char> {
    match e {
        TemplateError::UnsupportedConstruct => "Unknown Jinja"@,
        TemplateError::GrammarFailure => "Jinja parsing error"@,
    }
}

/// Whether `d` is anchored at the start of the file with message `msg`.
pub open spec fn anchored_diag(d: Diagnostic, msg: Seq<char>) -> bool {
    d.start_line == 0 && d.start_col == 0 && d.end_line == 0 && d.end_col == 0 && d.message@ == msg
}

/// Runs the template and SQL stages over one source and reports the first
/// failure as a diagnostic in original-source coordinates.
///
/// A template failure is anchored at the start of the file.  A SQL syntax
/// error is positioned at the translated offset — reported with a zero-based
/// line and the 1-based column of that offset — or anchored at the start of
/// the file when the offset translates to no original position.  On success
/// the rendered SQL and the parsed query are handed back; the caller runs
/// the external linter over the rendered text and converts its findings
/// with [`lint_diagnostics`].
pub fn find_diagnostics(src: Vec<u8>) -> (r: Analysis)
    requires
        src@.len() < usize::MAX,
    ensures
        match spec_scan(src@, 0) {
            Err(e) => r matches Analysis::Failed(ds) && ds@.len() == 1 && anchored_diag(
                ds@[0],
                spec_template_message(e),
            ),
            Ok(ss) => {
                if has_unknown(ss) {
                    r matches Analysis::Failed(ds) && ds@.len() == 1 && anchored_diag(
                        ds@[0],
                        spec_template_message(TemplateError::UnsupportedConstruct),
                    )
                } else {
                    match spec_parse_sql(spec_out(ss)) {
                        Ok(qv) => r matches Analysis::Parsed { rendered, query } && rendered@
                            == spec_out(ss) && query@ == qv,
                        Err(p) => r matches Analysis::Failed(ds) && ds@.len() == 1
                            && ds@[0].message@ == "SQL syntax error"@ && (match spec_translate_scan(
                            ss,
                            0,
                            p,
                        ) {
                            Some(o) => ds@[0].start_line == spec_line_of(src@, o) - 1
                                && ds@[0].start_col == spec_column_of(src@, o) && ds@[0].end_line
                                == ds@[0].start_line && ds@[0].end_col == ds@[0].start_col,
                            None => anchored_diag(ds@[0], "SQL syntax error"@),
                        }),
                    }
                }
            },
        },
{
    let ghost srcv = src@;
    let mut jinja_parse = JinjaParser::new(src);
    match jinja_parse.render_jinja() {
        Err(e) => {
            let message = match e {
                TemplateError::UnsupportedConstruct => "Unknown Jinja".to_owned(),
                TemplateError::GrammarFailure => "Jinja parsing error".to_owned(),
            };
            let d = Diagnostic { start_line: 0, start_col: 0, end_line: 0, end_col: 0, message };
            let ds = vec![d];
            return Analysis::Failed(ds);
        },
        Ok(()) => {},
    }
    match parse_sql(&jinja_parse) {
        Ok(query) => {
            let out = jinja_parse.output();
            let rendered = crate::utils::copy_bytes(out);
            Analysis::Parsed { rendered, query }
        },
        Err(e) => {
            proof {
                let ss = spec_scan(srcv, 0)->Ok_0;
                let segs = jinja_parse@.snippets->Some_0;
                lemma_translate_matches_scan(ss, segs, 0, spec_parse_sql(jinja_parse@.out)->Err_0);
                lemma_translate_in_bounds(
                    segs,
                    srcv.len() as int,
                    spec_parse_sql(jinja_parse@.out)->Err_0,
                );
            }
            let d = match e.position() {
                ErrorLoc::Position(off) => {
                    let loc = location_of(jinja_parse.source(), *off);
                    Diagnostic {
                        start_line: loc.line - 1,
                        start_col: loc.column,
                        end_line: loc.line - 1,
                        end_col: loc.column,
                        message: "SQL syntax error".to_owned(),
                    }
                },
                ErrorLoc::Span(a, _b) => {
                    let loc = location_of(jinja_parse.source(), *a);
                    Diagnostic {
                        start_line: loc.line - 1,
                        start_col: loc.column,
                        end_line: loc.line - 1,
                        end_col: loc.column,
                        message: "SQL syntax error".to_owned(),
                    }
                },
                ErrorLoc::Unknown => Diagnostic {
                    start_line: 0,
                    start_col: 0,
                    end_line: 0,
                    end_col: 0,
                    message: "SQL syntax error".to_owned(),
                },
            };
            let ds = vec![d];
            Analysis::Failed(ds)
        },
    }
}

/// One violation reported by the external linter, already reduced to plain
/// values: 1-based line and column, and its texts.
pub struct SqlfluffLint {
    pub line_no: usize,
    pub line_pos: usize,
    pub code: String,
    pub description: String,
    pub name: String,
}

/// Converts the external linter's violations to diagnostics.  The linter
/// reports 1-based lines and columns; both are decremented to the editor's
/// zero-based convention, and the description becomes the message.
pub fn lint_diagnostics(lints: &Vec<SqlfluffLint>) -> (r: Vec<Diagnostic>)
    requires
        forall|i: int|
            0 <= i < lints@.len() ==> (#[trigger] lints@[i]).line_no >= 1 && lints@[i].line_pos
                >= 1,
    ensures
        r@.len() == lints@.len(),
        forall|i: int|
            0 <= i < lints@.len() ==> {
                &&& (#[trigger] r@[i]).start_line == lints@[i].line_no - 1
                &&& r@[i].start_col == lints@[i].line_pos - 1
                &&& r@[i].end_line == lints@[i].line_no - 1
                &&& r@[i].end_col == lints@[i].line_pos - 1
                &&& r@[i].message@ == lints@[i].description@
            },
{
    let n = lints.len();
    let mut out: Vec<Diagnostic> = Vec::new();
    let mut i: usize = 0;
    while i < n
        invariant
            i <= n == lints@.len(),
            out@.len() == i,
            forall|j: int|
                0 <= j < lints@.len() ==> (#[trigger] lints@[j]).line_no >= 1 && lints@[j].line_pos
                    >= 1,
            forall|j: int|
                0 <= j < i ==> {
                    &&& (#[trigger] out@[j]).start_line == lints@[j].line_no - 1
                    &&& out@[j].start_col == lints@[j].line_pos - 1
                    &&& out@[j].end_line == lints@[j].line_no - 1
                    &&& out@[j].end_col == lints@[j].line_pos - 1
                    &&& out@[j].message@ == lints@[j].description@
                },
        decreases n - i,
    {
        let l = &lints[i];
        out.push(
            Diagnostic {
                start_line: l.line_no - 1,
                start_col: l.line_pos - 1,
                end_line: l.line_no - 1,
                end_col: l.line_pos - 1,
                message: l.description.clone(),
            },
        );
        i = i + 1;
    }
    out
}

/// Strips the wrapper bytes the external linter emits around its JSON
/// payload: the first byte and the last three are dropped.  A text too
/// short to carry the wrapper yields nothing.
pub fn trim_lint_wrapper(raw: &Vec<u8>) -> (r: Option<Vec<u8>>)
    ensures
        raw@.len() >= 4 ==> (r matches Some(v) && v@ == raw@.subrange(1, raw@.len() - 3)),
        raw@.len() < 4 ==> r is None,
{
    let n = raw.len();
    if n < 4 {
        return None;
    }
    let mut out: Vec<u8> = Vec::new();
    let mut i: usize = 1;
    while i < n - 3
        invariant
            1 <= i <= n - 3,
            n == raw@.len(),
            out@ == raw@.subrange(1, i as int),
        decreases n - i,
    {
        out.push(raw[i]);
        assert(raw@.subrange(1, i + 1) =~= raw@.subrange(1, i as int).push(raw@[i as int]));
        i = i + 1;
    }
    Some(out)
}

} // verus!
