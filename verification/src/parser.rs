//! The SQL grammar of the pipeline: parses generated SQL into a structural
//! model of queries, CTE lists, set operations and select lists.
//!
//! The grammar covers the subset the lineage resolver understands: an
//! optional `WITH` clause of named CTEs, set-operation chains of single
//! `SELECT` statements, and projections that are a wildcard, a qualified
//! wildcard, or an expression with an optional `AS` alias.  Set-operation
//! chains parse left-leaning: `A UNION ALL B UNION ALL C` becomes
//! `((A UNION ALL B) UNION ALL C)`.  Keywords are matched without regard to
//! case; names keep the case they have in the text.
//!
//! The grammar is stated by the `spec` functions of this module, which double
//! as its documentation; each executable parsing function returns exactly
//! what the corresponding `spec` function describes, and on failure the byte
//! offset at which the text stopped matching.

use vstd::prelude::*;

verus! {

// ---------------------------------------------------------------------------
// The abstract syntax tree.
// ---------------------------------------------------------------------------
/// A table named in a `FROM` list; the name may be dotted (`db.schema.t`).
pub struct TableRef {
    pub name: Vec<u8>,
    pub span: (usize, usize),
}

/// A projection expression: either a (possibly dotted) identifier, or any
/// other expression kept as its raw source text.
pub enum Expression {
    Identifier(Vec<Vec<u8>>),
    Other(Vec<u8>),
}

/// One item of a select list.
pub enum Projection {
    Wildcard { span: (usize, usize) },
    QualifiedWildcard { qualifier: Vec<u8>, span: (usize, usize) },
    Expr { expr: Expression, span: (usize, usize) },
    ExprWithAlias { expr: Expression, alias: Vec<u8>, span: (usize, usize) },
}

/// A single `SELECT` statement: its projections and its `FROM` tables.
pub struct SelectStatement {
    pub projection: Vec<Projection>,
    pub from: Vec<TableRef>,
    pub span: (usize, usize),
}

/// A query at the leaves of a set-operation chain.
pub struct InnerQuery {
    pub select: SelectStatement,
    pub span: (usize, usize),
}

/// A set operator joining two operands.
#[derive(Debug, Clone, Copy, PartialEq, Eq, Structural)]
pub enum SetOperator {
    UnionAll,
    Union,
    Except,
    Intersect,
}

/// A set-operation chain, collapsed into left-leaning binary nodes.
pub enum SetOperation {
    Query(InnerQuery),
    Operation {
        op: SetOperator,
        left: Box<SetOperation>,
        right: Box<SetOperation>,
        span: (usize, usize),
    },
}

/// A named common table expression of a `WITH` clause.
pub struct Cte {
    pub name: Vec<u8>,
    pub span: (usize, usize),
    pub body: SetOperation,
}

/// A whole query: an optional `WITH` clause and a set-operation body.
pub struct Query {
    pub ctes: Option<Vec<Cte>>,
    pub body: SetOperation,
    pub span: (usize, usize),
}

// ---------------------------------------------------------------------------
// Ghost views of the syntax tree.
// ---------------------------------------------------------------------------
pub ghost struct TableRefView {
    pub name: Seq<u8>,
    pub span: (int, int),
}

pub ghost enum ExpressionView {
    Identifier(Seq<Seq<u8>>),
    Other(Seq<u8>),
}

pub ghost enum ProjectionView {
    Wildcard { span: (int, int) },
    QualifiedWildcard { qualifier: Seq<u8>, span: (int, int) },
    Expr { expr: ExpressionView, span: (int, int) },
    ExprWithAlias { expr: ExpressionView, alias: Seq<u8>, span: (int, int) },
}

pub ghost struct SelectView {
    pub projection: Seq<ProjectionView>,
    pub from: Seq<TableRefView>,
    pub span: (int, int),
}

pub ghost struct InnerQueryView {
    pub select: SelectView,
    pub span: (int, int),
}

pub ghost enum SetOpView {
    Query(InnerQueryView),
    Operation { op: SetOperator, left: Box<SetOpView>, right: Box<SetOpView>, span: (int, int) },
}

pub ghost struct CteView {
    pub name: Seq<u8>,
    pub span: (int, int),
    pub body: SetOpView,
}

pub ghost struct QueryView {
    pub ctes: Option<Seq<CteView>>,
    pub body: SetOpView,
    pub span: (int, int),
}

impl View for TableRef {
    type V = TableRefView;

    open spec fn view(&self) -> TableRefView {
        TableRefView { name: self.name@, span: (self.span.0 as int, self.span.1 as int) }
    }
}

impl View for Expression {
    type V = ExpressionView;

    open spec fn view(&self) -> ExpressionView {
        match self {
            Expression::Identifier(parts) => ExpressionView::Identifier(
                parts@.map_values(|p: Vec<u8>| p@),
            ),
            Expression::Other(text) => ExpressionView::Other(text@),
        }
    }
}

impl View for Projection {
    type V = ProjectionView;

    open spec fn view(&self) -> ProjectionView {
        match self {
            Projection::Wildcard { span } => ProjectionView::Wildcard {
                span: (span.0 as int, span.1 as int),
            },
            Projection::QualifiedWildcard { qualifier, span } => ProjectionView::QualifiedWildcard {
                qualifier: qualifier@,
                span: (span.0 as int, span.1 as int),
            },
            Projection::Expr { expr, span } => ProjectionView::Expr {
                expr: expr@,
                span: (span.0 as int, span.1 as int),
            },
            Projection::ExprWithAlias { expr, alias, span } => ProjectionView::ExprWithAlias {
                expr: expr@,
                alias: alias@,
                span: (span.0 as int, span.1 as int),
            },
        }
    }
}

impl View for SelectStatement {
    type V = SelectView;

    open spec fn view(&self) -> SelectView {
        SelectView {
            projection: self.projection@.map_values(|p: Projection| p@),
            from: self.from@.map_values(|t: TableRef| t@),
            span: (self.span.0 as int, self.span.1 as int),
        }
    }
}

impl View for InnerQuery {
    type V = InnerQueryView;

    open spec fn view(&self) -> InnerQueryView {
        InnerQueryView { select: self.select@, span: (self.span.0 as int, self.span.1 as int) }
    }
}

impl View for SetOperation {
    type V = SetOpView;

    open spec fn view(&self) -> SetOpView
        decreases self,
    {
        match self {
            SetOperation::Query(q) => SetOpView::Query(q@),
            SetOperation::Operation { op, left, right, span } => SetOpView::Operation {
                op: *op,
                left: Box::new((**left)@),
                right: Box::new((**right)@),
                span: (span.0 as int, span.1 as int),
            },
        }
    }
}

impl View for Cte {
    type V = CteView;

    open spec fn view(&self) -> CteView {
        CteView {
            name: self.name@,
            span: (self.span.0 as int, self.span.1 as int),
            body: self.body@,
        }
    }
}

impl View for Query {
    type V = QueryView;

    open spec fn view(&self) -> QueryView {
        QueryView {
            ctes: match &self.ctes {
                Some(cs) => Some(cs@.map_values(|c: Cte| c@)),
                None => None,
            },
            body: self.body@,
            span: (self.span.0 as int, self.span.1 as int),
        }
    }
}

// ---------------------------------------------------------------------------
// Lexical layer of the grammar.
// ---------------------------------------------------------------------------
/// Whitespace between SQL tokens.
pub open spec fn is_sql_ws(b: u8) -> bool {
    b == 32 || b == 9 || b == 10 || b == 13
}

/// The first non-whitespace offset at or after `i`.
pub open spec fn ws_to(src: Seq<u8>, i: int) -> int
    decreases src.len() - i,
{
    if 0 <= i && i < src.len() && is_sql_ws(src[i]) {
        ws_to(src, i + 1)
    } else {
        i
    }
}

proof fn lemma_ws_to(src: Seq<u8>, i: int)
    requires
        0 <= i <= src.len(),
    ensures
        i <= ws_to(src, i) <= src.len(),
        ws_to(src, i) < src.len() ==> !is_sql_ws(src[ws_to(src, i)]),
    decreases src.len() - i,
{
    if i < src.len() && is_sql_ws(src[i]) {
        lemma_ws_to(src, i + 1);
    }
}

/// Bytes that may begin a word: letters and underscore.
pub open spec fn is_word_start(b: u8) -> bool {
    (65 <= b && b <= 90) || (97 <= b && b <= 122) || b == 95
}

/// Bytes that may continue a word: word starts and digits.
pub open spec fn is_word_char(b: u8) -> bool {
    is_word_start(b) || (48 <= b && b <= 57)
}

/// The end of the word beginning at `i`.
pub open spec fn word_end(src: Seq<u8>, i: int) -> int
    decreases src.len() - i,
{
    if 0 <= i && i < src.len() && is_word_char(src[i]) {
        word_end(src, i + 1)
    } else {
        i
    }
}

proof fn lemma_word_end(src: Seq<u8>, i: int)
    requires
        0 <= i <= src.len(),
    ensures
        i <= word_end(src, i) <= src.len(),
        i < src.len() && is_word_char(src[i]) ==> word_end(src, i) > i,
    decreases src.len() - i,
{
    if i < src.len() && is_word_char(src[i]) {
        lemma_word_end(src, i + 1);
    }
}

/// Lowercases an ASCII letter and leaves every other byte alone.
pub open spec fn to_lower_byte(b: u8) -> u8 {
    if 65 <= b && b <= 90 {
        (b + 32) as u8
    } else {
        b
    }
}

/// Whether the word at `i` is exactly the keyword `kw` (stored lowercase),
/// compared without regard to case and ending at a word boundary.
pub open spec fn kw_at(src: Seq<u8>, i: int, kw: Seq<u8>) -> bool {
    &&& 0 <= i
    &&& i + kw.len() <= src.len()
    &&& (forall|j: int| 0 <= j < kw.len() ==> to_lower_byte(src[i + j]) == kw[j])
    &&& word_end(src, i) == i + kw.len()
}

pub open spec fn kw_select() -> Seq<u8> {
    seq![115u8, 101u8, 108u8, 101u8, 99u8, 116u8]
}

pub open spec fn kw_from() -> Seq<u8> {
    seq![102u8, 114u8, 111u8, 109u8]
}

pub open spec fn kw_as() -> Seq<u8> {
    seq![97u8, 115u8]
}

pub open spec fn kw_with() -> Seq<u8> {
    seq![119u8, 105u8, 116u8, 104u8]
}

pub open spec fn kw_union() -> Seq<u8> {
    seq![117u8, 110u8, 105u8, 111u8, 110u8]
}

pub open spec fn kw_all() -> Seq<u8> {
    seq![97u8, 108u8, 108u8]
}

pub open spec fn kw_except() -> Seq<u8> {
    seq![101u8, 120u8, 99u8, 101u8, 112u8, 116u8]
}

pub open spec fn kw_intersect() -> Seq<u8> {
    seq![105u8, 110u8, 116u8, 101u8, 114u8, 115u8, 101u8, 99u8, 116u8]
}

/// The end of a dotted name whose first word ends at `i`: follows every
/// `.word` group with no whitespace around the dots.
pub open spec fn dotted_end(src: Seq<u8>, i: int) -> int
    decreases src.len() - i,
    when 0 <= i <= src.len()
    via dotted_end_decreases
{
    if i + 1 < src.len() && src[i] == 46 && is_word_start(src[i + 1]) {
        dotted_end(src, word_end(src, i + 1))
    } else {
        i
    }
}

#[via_fn]
proof fn dotted_end_decreases(src: Seq<u8>, i: int) {
    if i + 1 < src.len() && src[i] == 46 && is_word_start(src[i + 1]) {
        lemma_word_end(src, i + 1);
    }
}

proof fn lemma_dotted_end(src: Seq<u8>, i: int)
    requires
        0 <= i <= src.len(),
    ensures
        i <= dotted_end(src, i) <= src.len(),
    decreases src.len() - i,
{
    if i + 1 < src.len() && src[i] == 46 && is_word_start(src[i + 1]) {
        lemma_word_end(src, i + 1);
        lemma_dotted_end(src, word_end(src, i + 1));
    }
}

/// The first offset at or after `i` holding a single quote.
pub open spec fn find_quote(src: Seq<u8>, i: int) -> Option<int>
    decreases src.len() - i,
{
    if !(0 <= i) || i >= src.len() {
        None
    } else if src[i] == 39 {
        Some(i)
    } else {
        find_quote(src, i + 1)
    }
}

proof fn lemma_find_quote(src: Seq<u8>, i: int)
    requires
        0 <= i,
    ensures
        find_quote(src, i) matches Some(j) ==> i <= j < src.len(),
    decreases src.len() - i,
{
    if i < src.len() && src[i] != 39 {
        lemma_find_quote(src, i + 1);
    }
}

/// Whether a keyword that ends a projection expression stands at `i`.
pub open spec fn expr_boundary_kw(src: Seq<u8>, i: int) -> bool {
    ||| kw_at(src, i, kw_from())
    ||| kw_at(src, i, kw_as())
    ||| kw_at(src, i, kw_union())
    ||| kw_at(src, i, kw_except())
    ||| kw_at(src, i, kw_intersect())
}

/// Scans a projection expression from `i`: a run of arbitrary tokens with
/// balanced parentheses and complete quoted strings, ending at the first
/// top-level comma, closing parenthesis, boundary keyword, or the end of the
/// text.  Fails at the opening quote of an unterminated string.
pub open spec fn expr_end(src: Seq<u8>, i: int, depth: int) -> Result<int, int>
    decreases src.len() - i,
    when 0 <= i <= src.len()
    via expr_end_decreases
{
    if i >= src.len() {
        Ok(i)
    } else {
        let b = src[i];
        if b == 39 {
            match find_quote(src, i + 1) {
                Some(q) => expr_end(src, q + 1, depth),
                None => Err(i),
            }
        } else if b == 40 {
            expr_end(src, i + 1, depth + 1)
        } else if b == 41 {
            if depth == 0 {
                Ok(i)
            } else {
                expr_end(src, i + 1, depth - 1)
            }
        } else if b == 44 && depth == 0 {
            Ok(i)
        } else if is_word_start(b) {
            if depth == 0 && expr_boundary_kw(src, i) {
                Ok(i)
            } else {
                expr_end(src, word_end(src, i), depth)
            }
        } else {
            expr_end(src, i + 1, depth)
        }
    }
}

#[via_fn]
proof fn expr_end_decreases(src: Seq<u8>, i: int, depth: int) {
    if i < src.len() {
        if src[i] == 39 {
            lemma_find_quote(src, i + 1);
        } else if is_word_start(src[i]) {
            lemma_word_end(src, i);
        }
    }
}

proof fn lemma_expr_end(src: Seq<u8>, i: int, depth: int)
    requires
        0 <= i <= src.len(),
    ensures
        expr_end(src, i, depth) matches Ok(e) ==> i <= e <= src.len(),
        expr_end(src, i, depth) matches Err(p) ==> 0 <= p <= src.len(),
    decreases src.len() - i,
{
    if i < src.len() {
        let b = src[i];
        if b == 39 {
            lemma_find_quote(src, i + 1);
            match find_quote(src, i + 1) {
                Some(q) => lemma_expr_end(src, q + 1, depth),
                None => {},
            }
        } else if b == 40 {
            lemma_expr_end(src, i + 1, depth + 1);
        } else if b == 41 {
            if depth != 0 {
                lemma_expr_end(src, i + 1, depth - 1);
            }
        } else if b == 44 && depth == 0 {
        } else if is_word_start(b) {
            if !(depth == 0 && expr_boundary_kw(src, i)) {
                lemma_word_end(src, i);
                lemma_expr_end(src, word_end(src, i), depth);
            }
        } else {
            lemma_expr_end(src, i + 1, depth);
        }
    }
}

/// Drops trailing whitespace from the run `[s, e)`.
pub open spec fn rstrip(src: Seq<u8>, s: int, e: int) -> int
    decreases e - s,
{
    if e > s && 0 <= e - 1 && e - 1 < src.len() && is_sql_ws(src[e - 1]) {
        rstrip(src, s, e - 1)
    } else {
        e
    }
}

proof fn lemma_rstrip(src: Seq<u8>, s: int, e: int)
    requires
        s <= e,
    ensures
        s <= rstrip(src, s, e) <= e,
    decreases e - s,
{
    if e > s && 0 <= e - 1 && e - 1 < src.len() && is_sql_ws(src[e - 1]) {
        lemma_rstrip(src, s, e - 1);
    }
}

/// The words of a dotted name covering `[i, t)`, in order.
pub open spec fn ident_parts(src: Seq<u8>, i: int, t: int) -> Seq<Seq<u8>>
    decreases t - i,
    when 0 <= i <= src.len() && t <= src.len()
    via ident_parts_decreases
{
    let we = word_end(src, i);
    if we < t && src[we] == 46 {
        seq![src.subrange(i, we)] + ident_parts(src, we + 1, t)
    } else {
        seq![src.subrange(i, if we <= t { we } else { t })]
    }
}

#[via_fn]
proof fn ident_parts_decreases(src: Seq<u8>, i: int, t: int) {
    lemma_word_end(src, i);
}

// ---------------------------------------------------------------------------
// The grammar productions.
// ---------------------------------------------------------------------------
/// The dotted-identifier reading of `[s, t)`, when that run is exactly one
/// dotted name.
pub open spec fn spec_qualified_ident(src: Seq<u8>, s: int, t: int) -> Option<Seq<Seq<u8>>> {
    if 0 <= s && s < t && t <= src.len() && is_word_start(src[s]) && dotted_end(
        src,
        word_end(src, s),
    ) == t {
        Some(ident_parts(src, s, t))
    } else {
        None
    }
}

/// Parses one projection expression: its reading, its trimmed span, and the
/// offset of the boundary that ended it.
pub open spec fn spec_parse_expression(src: Seq<u8>, i: int) -> Result<
    (ExpressionView, (int, int), int),
    int,
> {
    let s = ws_to(src, i);
    match expr_end(src, s, 0) {
        Err(p) => Err(p),
        Ok(e) => {
            let t = rstrip(src, s, e);
            if t <= s {
                Err(s)
            } else {
                let ev = match spec_qualified_ident(src, s, t) {
                    Some(ps) => ExpressionView::Identifier(ps),
                    None => ExpressionView::Other(src.subrange(s, t)),
                };
                Ok((ev, (s, t), e))
            }
        },
    }
}

/// Parses one projection that is an expression with an optional `AS` alias.
pub open spec fn spec_parse_proj_expr(src: Seq<u8>, i: int) -> Result<(ProjectionView, int), int> {
    match spec_parse_expression(src, i) {
        Err(p) => Err(p),
        Ok((ev, sp, e)) => {
            let a = ws_to(src, e);
            if kw_at(src, a, kw_as()) {
                let s2 = ws_to(src, a + 2);
                if s2 < src.len() && is_word_start(src[s2]) {
                    let we = word_end(src, s2);
                    Ok(
                        (
                            ProjectionView::ExprWithAlias {
                                expr: ev,
                                alias: src.subrange(s2, we),
                                span: (sp.0, we),
                            },
                            we,
                        ),
                    )
                } else {
                    Err(s2)
                }
            } else {
                Ok((ProjectionView::Expr { expr: ev, span: sp }, e))
            }
        },
    }
}

/// Parses one projection: `*`, a qualified wildcard `name.*`, or an
/// expression with an optional alias.
pub open spec fn spec_parse_projection(src: Seq<u8>, i: int) -> Result<(ProjectionView, int), int> {
    let s = ws_to(src, i);
    if s < src.len() && src[s] == 42 {
        Ok((ProjectionView::Wildcard { span: (s, s + 1) }, s + 1))
    } else if s < src.len() && is_word_start(src[s]) {
        let d = dotted_end(src, word_end(src, s));
        if d + 1 < src.len() && src[d] == 46 && src[d + 1] == 42 {
            Ok(
                (
                    ProjectionView::QualifiedWildcard {
                        qualifier: src.subrange(s, d),
                        span: (s, d + 2),
                    },
                    d + 2,
                ),
            )
        } else {
            spec_parse_proj_expr(src, i)
        }
    } else {
        spec_parse_proj_expr(src, i)
    }
}

proof fn lemma_parse_expression(src: Seq<u8>, i: int)
    requires
        0 <= i <= src.len(),
    ensures
        spec_parse_expression(src, i) matches Ok(r) ==> i <= r.1.0 < r.1.1 <= r.2 && r.2
            <= src.len(),
        spec_parse_expression(src, i) matches Err(p) ==> 0 <= p <= src.len(),
{
    lemma_ws_to(src, i);
    let s = ws_to(src, i);
    lemma_expr_end(src, s, 0);
    match expr_end(src, s, 0) {
        Err(_) => {},
        Ok(e) => {
            lemma_rstrip(src, s, e);
        },
    }
}

proof fn lemma_parse_projection(src: Seq<u8>, i: int)
    requires
        0 <= i <= src.len(),
    ensures
        spec_parse_projection(src, i) matches Ok(r) ==> i < r.1 <= src.len(),
        spec_parse_projection(src, i) matches Err(p) ==> 0 <= p <= src.len(),
        spec_parse_proj_expr(src, i) matches Ok(r) ==> i < r.1 <= src.len(),
        spec_parse_proj_expr(src, i) matches Err(p) ==> 0 <= p <= src.len(),
{
    lemma_ws_to(src, i);
    let s = ws_to(src, i);
    lemma_parse_expression(src, i);
    match spec_parse_expression(src, i) {
        Err(_) => {},
        Ok((ev, sp, e)) => {
            let a = ws_to(src, e);
            lemma_ws_to(src, e);
            if kw_at(src, a, kw_as()) {
                lemma_ws_to(src, a + 2);
                let s2 = ws_to(src, a + 2);
                if s2 < src.len() && is_word_start(src[s2]) {
                    lemma_word_end(src, s2);
                }
            }
        },
    }
    if s < src.len() && is_word_start(src[s]) {
        lemma_word_end(src, s);
        lemma_dotted_end(src, word_end(src, s));
    }
}

/// Parses a comma-separated select list of projections.
pub open spec fn spec_parse_projections(src: Seq<u8>, i: int) -> Result<
    (Seq<ProjectionView>, int),
    int,
>
    decreases src.len() - i,
    when 0 <= i <= src.len()
    via spec_parse_projections_decreases
{
    match spec_parse_projection(src, i) {
        Err(p) => Err(p),
        Ok((pr, e)) => {
            let c = ws_to(src, e);
            if c < src.len() && src[c] == 44 {
                match spec_parse_projections(src, c + 1) {
                    Err(p2) => Err(p2),
                    Ok((ps, e2)) => Ok((seq![pr] + ps, e2)),
                }
            } else {
                Ok((seq![pr], e))
            }
        },
    }
}

#[via_fn]
proof fn spec_parse_projections_decreases(src: Seq<u8>, i: int) {
    lemma_parse_projection(src, i);
    match spec_parse_projection(src, i) {
        Err(_) => {},
        Ok((_, e)) => {
            lemma_ws_to(src, e);
        },
    }
}

proof fn lemma_parse_projections(src: Seq<u8>, i: int)
    requires
        0 <= i <= src.len(),
    ensures
        spec_parse_projections(src, i) matches Ok(r) ==> i < r.1 <= src.len() && r.0.len() > 0,
        spec_parse_projections(src, i) matches Err(p) ==> 0 <= p <= src.len(),
    decreases src.len() - i,
{
    lemma_parse_projection(src, i);
    match spec_parse_projection(src, i) {
        Err(_) => {},
        Ok((_, e)) => {
            let c = ws_to(src, e);
            lemma_ws_to(src, e);
            if c < src.len() && src[c] == 44 {
                lemma_parse_projections(src, c + 1);
            }
        },
    }
}

/// Parses one table reference: a dotted name.
pub open spec fn spec_parse_table(src: Seq<u8>, i: int) -> Result<(TableRefView, int), int> {
    let s = ws_to(src, i);
    if s < src.len() && is_word_start(src[s]) {
        let d = dotted_end(src, word_end(src, s));
        Ok((TableRefView { name: src.subrange(s, d), span: (s, d) }, d))
    } else {
        Err(s)
    }
}

proof fn lemma_parse_table(src: Seq<u8>, i: int)
    requires
        0 <= i <= src.len(),
    ensures
        spec_parse_table(src, i) matches Ok(r) ==> i < r.1 <= src.len(),
        spec_parse_table(src, i) matches Err(p) ==> 0 <= p <= src.len(),
{
    lemma_ws_to(src, i);
    let s = ws_to(src, i);
    if s < src.len() && is_word_start(src[s]) {
        lemma_word_end(src, s);
        lemma_dotted_end(src, word_end(src, s));
    }
}

/// Parses a comma-separated `FROM` list of table references.
pub open spec fn spec_parse_tables(src: Seq<u8>, i: int) -> Result<(Seq<TableRefView>, int), int>
    decreases src.len() - i,
    when 0 <= i <= src.len()
    via spec_parse_tables_decreases
{
    match spec_parse_table(src, i) {
        Err(p) => Err(p),
        Ok((t, e)) => {
            let c = ws_to(src, e);
            if c < src.len() && src[c] == 44 {
                match spec_parse_tables(src, c + 1) {
                    Err(p2) => Err(p2),
                    Ok((ts, e2)) => Ok((seq![t] + ts, e2)),
                }
            } else {
                Ok((seq![t], e))
            }
        },
    }
}

#[via_fn]
proof fn spec_parse_tables_decreases(src: Seq<u8>, i: int) {
    lemma_parse_table(src, i);
    match spec_parse_table(src, i) {
        Err(_) => {},
        Ok((_, e)) => {
            lemma_ws_to(src, e);
        },
    }
}

proof fn lemma_parse_tables(src: Seq<u8>, i: int)
    requires
        0 <= i <= src.len(),
    ensures
        spec_parse_tables(src, i) matches Ok(r) ==> i < r.1 <= src.len(),
        spec_parse_tables(src, i) matches Err(p) ==> 0 <= p <= src.len(),
    decreases src.len() - i,
{
    lemma_parse_table(src, i);
    match spec_parse_table(src, i) {
        Err(_) => {},
        Ok((_, e)) => {
            let c = ws_to(src, e);
            lemma_ws_to(src, e);
            if c < src.len() && src[c] == 44 {
                lemma_parse_tables(src, c + 1);
            }
        },
    }
}

/// Parses a single `SELECT` statement with an optional `FROM` list.
pub open spec fn spec_parse_select(src: Seq<u8>, i: int) -> Result<(SelectView, int), int> {
    let s = ws_to(src, i);
    if kw_at(src, s, kw_select()) {
        match spec_parse_projections(src, s + 6) {
            Err(p) => Err(p),
            Ok((ps, e)) => {
                let f = ws_to(src, e);
                if kw_at(src, f, kw_from()) {
                    match spec_parse_tables(src, f + 4) {
                        Err(p2) => Err(p2),
                        Ok((ts, e2)) => Ok(
                            (SelectView { projection: ps, from: ts, span: (s, e2) }, e2),
                        ),
                    }
                } else {
                    Ok((SelectView { projection: ps, from: Seq::empty(), span: (s, e) }, e))
                }
            },
        }
    } else {
        Err(s)
    }
}

proof fn lemma_parse_select(src: Seq<u8>, i: int)
    requires
        0 <= i <= src.len(),
    ensures
        spec_parse_select(src, i) matches Ok(r) ==> i < r.1 <= src.len() && r.0.span.1 == r.1,
        spec_parse_select(src, i) matches Err(p) ==> 0 <= p <= src.len(),
{
    lemma_ws_to(src, i);
    let s = ws_to(src, i);
    if kw_at(src, s, kw_select()) {
        lemma_parse_projections(src, s + 6);
        match spec_parse_projections(src, s + 6) {
            Err(_) => {},
            Ok((_, e)) => {
                lemma_ws_to(src, e);
                let f = ws_to(src, e);
                if kw_at(src, f, kw_from()) {
                    lemma_parse_tables(src, f + 4);
                }
            },
        }
    }
}

/// Parses an inner query: a single `SELECT` statement.
pub open spec fn spec_parse_inner_query(src: Seq<u8>, i: int) -> Result<(InnerQueryView, int), int> {
    match spec_parse_select(src, i) {
        Err(p) => Err(p),
        Ok((sv, e)) => Ok((InnerQueryView { select: sv, span: sv.span }, e)),
    }
}

/// Extends `acc` with every following `UNION [ALL]`, `EXCEPT` or `INTERSECT`
/// operand, left-leaning.  `start` is the offset where the whole chain began.
pub open spec fn spec_parse_set_rest(src: Seq<u8>, i: int, acc: SetOpView, start: int) -> Result<
    (SetOpView, int),
    int,
>
    decreases src.len() - i,
    when 0 <= i <= src.len()
    via spec_parse_set_rest_decreases
{
    let s = ws_to(src, i);
    if kw_at(src, s, kw_union()) {
        let a2 = ws_to(src, s + 5);
        if kw_at(src, a2, kw_all()) {
            match spec_parse_inner_query(src, a2 + 3) {
                Err(p) => Err(p),
                Ok((q, e)) => spec_parse_set_rest(
                    src,
                    e,
                    SetOpView::Operation {
                        op: SetOperator::UnionAll,
                        left: Box::new(acc),
                        right: Box::new(SetOpView::Query(q)),
                        span: (start, e),
                    },
                    start,
                ),
            }
        } else {
            match spec_parse_inner_query(src, s + 5) {
                Err(p) => Err(p),
                Ok((q, e)) => spec_parse_set_rest(
                    src,
                    e,
                    SetOpView::Operation {
                        op: SetOperator::Union,
                        left: Box::new(acc),
                        right: Box::new(SetOpView::Query(q)),
                        span: (start, e),
                    },
                    start,
                ),
            }
        }
    } else if kw_at(src, s, kw_except()) {
        match spec_parse_inner_query(src, s + 6) {
            Err(p) => Err(p),
            Ok((q, e)) => spec_parse_set_rest(
                src,
                e,
                SetOpView::Operation {
                    op: SetOperator::Except,
                    left: Box::new(acc),
                    right: Box::new(SetOpView::Query(q)),
                    span: (start, e),
                },
                start,
            ),
        }
    } else if kw_at(src, s, kw_intersect()) {
        match spec_parse_inner_query(src, s + 9) {
            Err(p) => Err(p),
            Ok((q, e)) => spec_parse_set_rest(
                src,
                e,
                SetOpView::Operation {
                    op: SetOperator::Intersect,
                    left: Box::new(acc),
                    right: Box::new(SetOpView::Query(q)),
                    span: (start, e),
                },
                start,
            ),
        }
    } else {
        Ok((acc, i))
    }
}

#[via_fn]
proof fn spec_parse_set_rest_decreases(src: Seq<u8>, i: int, acc: SetOpView, start: int) {
    lemma_ws_to(src, i);
    let s = ws_to(src, i);
    if kw_at(src, s, kw_union()) {
        lemma_ws_to(src, s + 5);
        let a2 = ws_to(src, s + 5);
        if kw_at(src, a2, kw_all()) {
            lemma_parse_select(src, a2 + 3);
        } else {
            lemma_parse_select(src, s + 5);
        }
    } else if kw_at(src, s, kw_except()) {
        lemma_parse_select(src, s + 6);
    } else if kw_at(src, s, kw_intersect()) {
        lemma_parse_select(src, s + 9);
    }
}

proof fn lemma_parse_set_rest(src: Seq<u8>, i: int, acc: SetOpView, start: int)
    requires
        0 <= i <= src.len(),
    ensures
        spec_parse_set_rest(src, i, acc, start) matches Ok(r) ==> i <= r.1 <= src.len(),
        spec_parse_set_rest(src, i, acc, start) matches Err(p) ==> 0 <= p <= src.len(),
    decreases src.len() - i,
{
    lemma_ws_to(src, i);
    let s = ws_to(src, i);
    if kw_at(src, s, kw_union()) {
        lemma_ws_to(src, s + 5);
        let a2 = ws_to(src, s + 5);
        if kw_at(src, a2, kw_all()) {
            lemma_parse_select(src, a2 + 3);
            match spec_parse_inner_query(src, a2 + 3) {
                Err(_) => {},
                Ok((q, e)) => {
                    lemma_parse_set_rest(
                        src,
                        e,
                        SetOpView::Operation {
                            op: SetOperator::UnionAll,
                            left: Box::new(acc),
                            right: Box::new(SetOpView::Query(q)),
                            span: (start, e),
                        },
                        start,
                    );
                },
            }
        } else {
            lemma_parse_select(src, s + 5);
            match spec_parse_inner_query(src, s + 5) {
                Err(_) => {},
                Ok((q, e)) => {
                    lemma_parse_set_rest(
                        src,
                        e,
                        SetOpView::Operation {
                            op: SetOperator::Union,
                            left: Box::new(acc),
                            right: Box::new(SetOpView::Query(q)),
                            span: (start, e),
                        },
                        start,
                    );
                },
            }
        }
    } else if kw_at(src, s, kw_except()) {
        lemma_parse_select(src, s + 6);
        match spec_parse_inner_query(src, s + 6) {
            Err(_) => {},
            Ok((q, e)) => {
                lemma_parse_set_rest(
                    src,
                    e,
                    SetOpView::Operation {
                        op: SetOperator::Except,
                        left: Box::new(acc),
                        right: Box::new(SetOpView::Query(q)),
                        span: (start, e),
                    },
                    start,
                );
            },
        }
    } else if kw_at(src, s, kw_intersect()) {
        lemma_parse_select(src, s + 9);
        match spec_parse_inner_query(src, s + 9) {
            Err(_) => {},
            Ok((q, e)) => {
                lemma_parse_set_rest(
                    src,
                    e,
                    SetOpView::Operation {
                        op: SetOperator::Intersect,
                        left: Box::new(acc),
                        right: Box::new(SetOpView::Query(q)),
                        span: (start, e),
                    },
                    start,
                );
            },
        }
    }
}

/// Parses a set-operation chain of inner queries.
pub open spec fn spec_parse_set_operation(src: Seq<u8>, i: int) -> Result<(SetOpView, int), int> {
    match spec_parse_inner_query(src, i) {
        Err(p) => Err(p),
        Ok((q, e)) => spec_parse_set_rest(src, e, SetOpView::Query(q), q.span.0),
    }
}

proof fn lemma_parse_set_operation(src: Seq<u8>, i: int)
    requires
        0 <= i <= src.len(),
    ensures
        spec_parse_set_operation(src, i) matches Ok(r) ==> i < r.1 <= src.len(),
        spec_parse_set_operation(src, i) matches Err(p) ==> 0 <= p <= src.len(),
{
    lemma_parse_select(src, i);
    match spec_parse_inner_query(src, i) {
        Err(_) => {},
        Ok((q, e)) => {
            lemma_parse_set_rest(src, e, SetOpView::Query(q), q.span.0);
        },
    }
}

/// Parses one CTE: `name AS ( set-operation )`.
pub open spec fn spec_parse_cte(src: Seq<u8>, i: int) -> Result<(CteView, int), int> {
    let s = ws_to(src, i);
    if s < src.len() && is_word_start(src[s]) {
        let we = word_end(src, s);
        let a = ws_to(src, we);
        if kw_at(src, a, kw_as()) {
            let p = ws_to(src, a + 2);
            if p < src.len() && src[p] == 40 {
                match spec_parse_set_operation(src, p + 1) {
                    Err(p2) => Err(p2),
                    Ok((b, e)) => {
                        let c = ws_to(src, e);
                        if c < src.len() && src[c] == 41 {
                            Ok(
                                (
                                    CteView {
                                        name: src.subrange(s, we),
                                        span: (s, c + 1),
                                        body: b,
                                    },
                                    c + 1,
                                ),
                            )
                        } else {
                            Err(c)
                        }
                    },
                }
            } else {
                Err(p)
            }
        } else {
            Err(a)
        }
    } else {
        Err(s)
    }
}

proof fn lemma_parse_cte(src: Seq<u8>, i: int)
    requires
        0 <= i <= src.len(),
    ensures
        spec_parse_cte(src, i) matches Ok(r) ==> i < r.1 <= src.len(),
        spec_parse_cte(src, i) matches Err(p) ==> 0 <= p <= src.len(),
{
    lemma_ws_to(src, i);
    let s = ws_to(src, i);
    if s < src.len() && is_word_start(src[s]) {
        lemma_word_end(src, s);
        let we = word_end(src, s);
        lemma_ws_to(src, we);
        let a = ws_to(src, we);
        if kw_at(src, a, kw_as()) {
            lemma_ws_to(src, a + 2);
            let p = ws_to(src, a + 2);
            if p < src.len() && src[p] == 40 {
                lemma_parse_set_operation(src, p + 1);
                match spec_parse_set_operation(src, p + 1) {
                    Err(_) => {},
                    Ok((_, e)) => {
                        lemma_ws_to(src, e);
                    },
                }
            }
        }
    }
}

/// Parses the comma-separated CTE list of a `WITH` clause.
pub open spec fn spec_parse_ctes(src: Seq<u8>, i: int) -> Result<(Seq<CteView>, int), int>
    decreases src.len() - i,
    when 0 <= i <= src.len()
    via spec_parse_ctes_decreases
{
    match spec_parse_cte(src, i) {
        Err(p) => Err(p),
        Ok((c, e)) => {
            let k = ws_to(src, e);
            if k < src.len() && src[k] == 44 {
                match spec_parse_ctes(src, k + 1) {
                    Err(p2) => Err(p2),
                    Ok((cs, e2)) => Ok((seq![c] + cs, e2)),
                }
            } else {
                Ok((seq![c], e))
            }
        },
    }
}

#[via_fn]
proof fn spec_parse_ctes_decreases(src: Seq<u8>, i: int) {
    lemma_parse_cte(src, i);
    match spec_parse_cte(src, i) {
        Err(_) => {},
        Ok((_, e)) => {
            lemma_ws_to(src, e);
        },
    }
}

proof fn lemma_parse_ctes(src: Seq<u8>, i: int)
    requires
        0 <= i <= src.len(),
    ensures
        spec_parse_ctes(src, i) matches Ok(r) ==> i < r.1 <= src.len(),
        spec_parse_ctes(src, i) matches Err(p) ==> 0 <= p <= src.len(),
    decreases src.len() - i,
{
    lemma_parse_cte(src, i);
    match spec_parse_cte(src, i) {
        Err(_) => {},
        Ok((_, e)) => {
            let k = ws_to(src, e);
            lemma_ws_to(src, e);
            if k < src.len() && src[k] == 44 {
                lemma_parse_ctes(src, k + 1);
            }
        },
    }
}

/// Parses a whole query: an optional `WITH` clause, then the body.
pub open spec fn spec_parse_query(src: Seq<u8>, i: int) -> Result<(QueryView, int), int> {
    let s = ws_to(src, i);
    if kw_at(src, s, kw_with()) {
        match spec_parse_ctes(src, s + 4) {
            Err(p) => Err(p),
            Ok((cs, e)) => match spec_parse_set_operation(src, e) {
                Err(p2) => Err(p2),
                Ok((b, e2)) => Ok((QueryView { ctes: Some(cs), body: b, span: (s, e2) }, e2)),
            },
        }
    } else {
        match spec_parse_set_operation(src, i) {
            Err(p) => Err(p),
            Ok((b, e)) => Ok((QueryView { ctes: None, body: b, span: (s, e) }, e)),
        }
    }
}

proof fn lemma_parse_query(src: Seq<u8>, i: int)
    requires
        0 <= i <= src.len(),
    ensures
        spec_parse_query(src, i) matches Ok(r) ==> i < r.1 <= src.len(),
        spec_parse_query(src, i) matches Err(p) ==> 0 <= p <= src.len(),
{
    lemma_ws_to(src, i);
    let s = ws_to(src, i);
    lemma_parse_set_operation(src, i);
    if kw_at(src, s, kw_with()) {
        lemma_parse_ctes(src, s + 4);
        match spec_parse_ctes(src, s + 4) {
            Err(_) => {},
            Ok((_, e)) => {
                lemma_parse_set_operation(src, e);
            },
        }
    }
}

// ---------------------------------------------------------------------------
// Executable lexical helpers.
// ---------------------------------------------------------------------------
fn exec_ws_to(src: &Vec<u8>, i: usize) -> (r: usize)
    requires
        i <= src@.len(),
    ensures
        r == ws_to(src@, i as int),
        i <= r <= src@.len(),
{
    proof {
        lemma_ws_to(src@, i as int);
    }
    let n = src.len();
    let mut j = i;
    while j < n && (src[j] == 32 || src[j] == 9 || src[j] == 10 || src[j] == 13)
        invariant
            i <= j <= n,
            n == src@.len(),
            ws_to(src@, i as int) == ws_to(src@, j as int),
        decreases n - j,
    {
        j = j + 1;
    }
    j
}

fn exec_word_end(src: &Vec<u8>, i: usize) -> (r: usize)
    requires
        i <= src@.len(),
    ensures
        r == word_end(src@, i as int),
        i <= r <= src@.len(),
{
    proof {
        lemma_word_end(src@, i as int);
    }
    let n = src.len();
    let mut j = i;
    while j < n && (src[j] == 95 || (65 <= src[j] && src[j] <= 90) || (97 <= src[j] && src[j]
        <= 122) || (48 <= src[j] && src[j] <= 57))
        invariant
            i <= j <= n,
            n == src@.len(),
            word_end(src@, i as int) == word_end(src@, j as int),
        decreases n - j,
    {
        j = j + 1;
    }
    j
}

fn exec_dotted_end(src: &Vec<u8>, i: usize) -> (r: usize)
    requires
        i <= src@.len(),
    ensures
        r == dotted_end(src@, i as int),
        i <= r <= src@.len(),
    decreases src@.len() - i,
{
    proof {
        lemma_dotted_end(src@, i as int);
    }
    let n = src.len();
    if n - i > 1 && src[i] == 46 && (src[i + 1] == 95 || (65 <= src[i + 1] && src[i + 1] <= 90) || (
    97 <= src[i + 1] && src[i + 1] <= 122)) {
        let we = exec_word_end(src, i + 1);
        proof {
            lemma_word_end(src@, i as int + 1);
        }
        exec_dotted_end(src, we)
    } else {
        i
    }
}

fn exec_find_quote(src: &Vec<u8>, i: usize) -> (r: Option<usize>)
    requires
        i <= src@.len(),
    ensures
        match find_quote(src@, i as int) {
            Some(j) => r == Some(j as usize),
            None => r is None,
        },
{
    let n = src.len();
    let mut j = i;
    while j < n
        invariant
            i <= j <= n,
            n == src@.len(),
            find_quote(src@, i as int) == find_quote(src@, j as int),
        decreases n - j,
    {
        if src[j] == 39 {
            return Some(j);
        }
        j = j + 1;
    }
    None
}

fn lower_byte(b: u8) -> (r: u8)
    ensures
        r == to_lower_byte(b),
{
    if 65 <= b && b <= 90 {
        b + 32
    } else {
        b
    }
}

fn exec_kw_at(src: &Vec<u8>, i: usize, kw: &Vec<u8>) -> (r: bool)
    requires
        i <= src@.len(),
    ensures
        r == kw_at(src@, i as int, kw@),
{
    let m = kw.len();
    let n = src.len();
    if n - i < m {
        return false;
    }
    let mut j: usize = 0;
    while j < m
        invariant
            n == src@.len(),
            i + m <= n,
            j <= m,
            m == kw@.len(),
            forall|k: int| 0 <= k < j ==> to_lower_byte(src@[i + k]) == kw@[k],
        decreases m - j,
    {
        if lower_byte(src[i + j]) != kw[j] {
            return false;
        }
        j = j + 1;
    }
    let we = exec_word_end(src, i);
    we == i + m
}

fn exec_rstrip(src: &Vec<u8>, s: usize, e: usize) -> (r: usize)
    requires
        s <= e <= src@.len(),
    ensures
        r == rstrip(src@, s as int, e as int),
        s <= r <= e,
{
    proof {
        lemma_rstrip(src@, s as int, e as int);
    }
    let mut j = e;
    while j > s && (src[j - 1] == 32 || src[j - 1] == 9 || src[j - 1] == 10 || src[j - 1] == 13)
        invariant
            s <= j <= e <= src@.len(),
            rstrip(src@, s as int, e as int) == rstrip(src@, s as int, j as int),
        decreases j,
    {
        j = j - 1;
    }
    j
}

/// Copies `src[a..b]` out into a fresh vector.
fn subvec(src: &Vec<u8>, a: usize, b: usize) -> (r: Vec<u8>)
    requires
        a <= b <= src@.len(),
    ensures
        r@ == src@.subrange(a as int, b as int),
{
    let mut r: Vec<u8> = Vec::new();
    let mut k = a;
    while k < b
        invariant
            a <= k <= b <= src@.len(),
            r@ == src@.subrange(a as int, k as int),
        decreases b - k,
    {
        r.push(src[k]);
        assert(src@.subrange(a as int, k + 1) =~= src@.subrange(a as int, k as int).push(
            src@[k as int],
        ));
        k = k + 1;
    }
    r
}

fn exec_expr_end(src: &Vec<u8>, i: usize, depth: usize) -> (r: Result<usize, usize>)
    requires
        i <= src@.len(),
        depth <= i,
    ensures
        match expr_end(src@, i as int, depth as int) {
            Ok(e) => r == Ok::<usize, usize>(e as usize),
            Err(p) => r == Err::<usize, usize>(p as usize),
        },
    decreases src@.len() - i,
{
    proof {
        lemma_expr_end(src@, i as int, depth as int);
    }
    let n = src.len();
    if i >= n {
        return Ok(i);
    }
    let b = src[i];
    if b == 39 {
        match exec_find_quote(src, i + 1) {
            Some(q) => {
                proof {
                    lemma_find_quote(src@, i as int + 1);
                }
                exec_expr_end(src, q + 1, depth)
            },
            None => Err(i),
        }
    } else if b == 40 {
        exec_expr_end(src, i + 1, depth + 1)
    } else if b == 41 {
        if depth == 0 {
            Ok(i)
        } else {
            exec_expr_end(src, i + 1, depth - 1)
        }
    } else if b == 44 && depth == 0 {
        Ok(i)
    } else if b == 95 || (65 <= b && b <= 90) || (97 <= b && b <= 122) {
        assert(is_word_start(b));
        if depth == 0 && exec_expr_boundary_kw(src, i) {
            Ok(i)
        } else {
            let we = exec_word_end(src, i);
            proof {
                lemma_word_end(src@, i as int);
            }
            exec_expr_end(src, we, depth)
        }
    } else {
        exec_expr_end(src, i + 1, depth)
    }
}

fn exec_expr_boundary_kw(src: &Vec<u8>, i: usize) -> (r: bool)
    requires
        i <= src@.len(),
    ensures
        r == expr_boundary_kw(src@, i as int),
{
    let kw_f: Vec<u8> = vec![102u8, 114u8, 111u8, 109u8];
    let kw_a: Vec<u8> = vec![97u8, 115u8];
    let kw_u: Vec<u8> = vec![117u8, 110u8, 105u8, 111u8, 110u8];
    let kw_e: Vec<u8> = vec![101u8, 120u8, 99u8, 101u8, 112u8, 116u8];
    let kw_i: Vec<u8> = vec![105u8, 110u8, 116u8, 101u8, 114u8, 115u8, 101u8, 99u8, 116u8];
    proof {
        assert(kw_f@ =~= kw_from());
        assert(kw_a@ =~= kw_as());
        assert(kw_u@ =~= kw_union());
        assert(kw_e@ =~= kw_except());
        assert(kw_i@ =~= kw_intersect());
    }
    exec_kw_at(src, i, &kw_f) || exec_kw_at(src, i, &kw_a) || exec_kw_at(src, i, &kw_u)
        || exec_kw_at(src, i, &kw_e) || exec_kw_at(src, i, &kw_i)
}

fn kw_vec_select() -> (r: Vec<u8>)
    ensures
        r@ == kw_select(),
{
    let v: Vec<u8> = vec![115u8, 101u8, 108u8, 101u8, 99u8, 116u8];
    proof {
        assert(v@ =~= kw_select());
    }
    v
}

fn kw_vec_from() -> (r: Vec<u8>)
    ensures
        r@ == kw_from(),
{
    let v: Vec<u8> = vec![102u8, 114u8, 111u8, 109u8];
    proof {
        assert(v@ =~= kw_from());
    }
    v
}

fn kw_vec_as() -> (r: Vec<u8>)
    ensures
        r@ == kw_as(),
{
    let v: Vec<u8> = vec![97u8, 115u8];
    proof {
        assert(v@ =~= kw_as());
    }
    v
}

fn kw_vec_with() -> (r: Vec<u8>)
    ensures
        r@ == kw_with(),
{
    let v: Vec<u8> = vec![119u8, 105u8, 116u8, 104u8];
    proof {
        assert(v@ =~= kw_with());
    }
    v
}

fn kw_vec_union() -> (r: Vec<u8>)
    ensures
        r@ == kw_union(),
{
    let v: Vec<u8> = vec![117u8, 110u8, 105u8, 111u8, 110u8];
    proof {
        assert(v@ =~= kw_union());
    }
    v
}

fn kw_vec_all() -> (r: Vec<u8>)
    ensures
        r@ == kw_all(),
{
    let v: Vec<u8> = vec![97u8, 108u8, 108u8];
    proof {
        assert(v@ =~= kw_all());
    }
    v
}

fn kw_vec_except() -> (r: Vec<u8>)
    ensures
        r@ == kw_except(),
{
    let v: Vec<u8> = vec![101u8, 120u8, 99u8, 101u8, 112u8, 116u8];
    proof {
        assert(v@ =~= kw_except());
    }
    v
}

fn kw_vec_intersect() -> (r: Vec<u8>)
    ensures
        r@ == kw_intersect(),
{
    let v: Vec<u8> = vec![105u8, 110u8, 116u8, 101u8, 114u8, 115u8, 101u8, 99u8, 116u8];
    proof {
        assert(v@ =~= kw_intersect());
    }
    v
}

fn word_start_at(src: &Vec<u8>, s: usize) -> (r: bool)
    requires
        s <= src@.len(),
    ensures
        r == (s < src@.len() && is_word_start(src@[s as int])),
{
    s < src.len() && (src[s] == 95 || (65 <= src[s] && src[s] <= 90) || (97 <= src[s] && src[s]
        <= 122))
}

fn exec_ident_parts(src: &Vec<u8>, i: usize, t: usize) -> (r: Vec<Vec<u8>>)
    requires
        i <= t <= src@.len(),
    ensures
        r@.map_values(|p: Vec<u8>| p@) == ident_parts(src@, i as int, t as int),
{
    let mut parts: Vec<Vec<u8>> = Vec::new();
    let mut cur = i;
    loop
        invariant
            i <= cur <= t <= src@.len(),
            ident_parts(src@, i as int, t as int) =~~= parts@.map_values(|p: Vec<u8>| p@)
                + ident_parts(src@, cur as int, t as int),
        decreases t - cur,
    {
        let we = exec_word_end(src, cur);
        proof {
            lemma_word_end(src@, cur as int);
        }
        if we < t && src[we] == 46 {
            let ghost old_parts = parts@;
            parts.push(subvec(src, cur, we));
            proof {
                assert(parts@.map_values(|p: Vec<u8>| p@) =~~= old_parts.map_values(
                    |p: Vec<u8>| p@,
                ).push(src@.subrange(cur as int, we as int)));
                assert(ident_parts(src@, cur as int, t as int) == seq![
                    src@.subrange(cur as int, we as int),
                ] + ident_parts(src@, we + 1, t as int));
                assert(old_parts.map_values(|p: Vec<u8>| p@) + (seq![
                    src@.subrange(cur as int, we as int),
                ] + ident_parts(src@, we + 1, t as int)) =~~= parts@.map_values(|p: Vec<u8>| p@)
                    + ident_parts(src@, we + 1, t as int));
            }
            cur = we + 1;
        } else {
            let stop = if we <= t {
                we
            } else {
                t
            };
            let ghost old_parts = parts@;
            parts.push(subvec(src, cur, stop));
            proof {
                assert(ident_parts(src@, cur as int, t as int) == seq![
                    src@.subrange(cur as int, stop as int),
                ]);
                assert(parts@.map_values(|p: Vec<u8>| p@) =~~= old_parts.map_values(
                    |p: Vec<u8>| p@,
                ).push(src@.subrange(cur as int, stop as int)));
                assert(old_parts.map_values(|p: Vec<u8>| p@) + seq![
                    src@.subrange(cur as int, stop as int),
                ] =~~= parts@.map_values(|p: Vec<u8>| p@));
                assert(ident_parts(src@, i as int, t as int) =~~= parts@.map_values(
                    |p: Vec<u8>| p@,
                ));
            }
            return parts;
        }
    }
}

fn exec_parse_expression(src: &Vec<u8>, i: usize) -> (r: Result<
    (Expression, (usize, usize), usize),
    usize,
>)
    requires
        i <= src@.len(),
    ensures
        match spec_parse_expression(src@, i as int) {
            Ok(x) => r matches Ok(t) && t.0@ == x.0 && t.1.0 == x.1.0 && t.1.1 == x.1.1 && t.2
                == x.2,
            Err(p) => r matches Err(q) && q == p,
        },
{
    proof {
        lemma_parse_expression(src@, i as int);
    }
    let n = src.len();
    let s = exec_ws_to(src, i);
    match exec_expr_end(src, s, 0) {
        Err(p) => Err(p),
        Ok(e) => {
            proof {
                lemma_expr_end(src@, s as int, 0);
            }
            assert(s <= e <= n);
            let t = exec_rstrip(src, s, e);
            if t <= s {
                Err(s)
            } else {
                let is_qual = if word_start_at(src, s) {
                    let we = exec_word_end(src, s);
                    let d = exec_dotted_end(src, we);
                    d == t
                } else {
                    false
                };
                if is_qual {
                    let parts = exec_ident_parts(src, s, t);
                    Ok((Expression::Identifier(parts), (s, t), e))
                } else {
                    assert(spec_qualified_ident(src@, s as int, t as int) is None);
                    Ok((Expression::Other(subvec(src, s, t)), (s, t), e))
                }
            }
        },
    }
}

fn exec_parse_proj_expr(src: &Vec<u8>, i: usize) -> (r: Result<(Projection, usize), usize>)
    requires
        i <= src@.len(),
    ensures
        match spec_parse_proj_expr(src@, i as int) {
            Ok(x) => r matches Ok(t) && t.0@ == x.0 && t.1 == x.1,
            Err(p) => r matches Err(q) && q == p,
        },
{
    proof {
        lemma_parse_expression(src@, i as int);
    }
    match exec_parse_expression(src, i) {
        Err(p) => Err(p),
        Ok((ev, sp, e)) => {
            let a = exec_ws_to(src, e);
            let kw_a = kw_vec_as();
            if exec_kw_at(src, a, &kw_a) {
                let n = src.len();
                assert(a + 2 <= n);
                let s2 = exec_ws_to(src, a + 2);
                if word_start_at(src, s2) {
                    let we = exec_word_end(src, s2);
                    Ok(
                        (
                            Projection::ExprWithAlias {
                                expr: ev,
                                alias: subvec(src, s2, we),
                                span: (sp.0, we),
                            },
                            we,
                        ),
                    )
                } else {
                    Err(s2)
                }
            } else {
                Ok((Projection::Expr { expr: ev, span: sp }, e))
            }
        },
    }
}

fn exec_parse_projection(src: &Vec<u8>, i: usize) -> (r: Result<(Projection, usize), usize>)
    requires
        i <= src@.len(),
    ensures
        match spec_parse_projection(src@, i as int) {
            Ok(x) => r matches Ok(t) && t.0@ == x.0 && t.1 == x.1,
            Err(p) => r matches Err(q) && q == p,
        },
{
    proof {
        lemma_parse_projection(src@, i as int);
    }
    let s = exec_ws_to(src, i);
    let n = src.len();
    if s < n && src[s] == 42 {
        Ok((Projection::Wildcard { span: (s, s + 1) }, s + 1))
    } else if word_start_at(src, s) {
        let we = exec_word_end(src, s);
        let d = exec_dotted_end(src, we);
        if n - d > 1 && src[d] == 46 && src[d + 1] == 42 {
            Ok(
                (
                    Projection::QualifiedWildcard { qualifier: subvec(src, s, d), span: (s, d + 2) },
                    d + 2,
                ),
            )
        } else {
            exec_parse_proj_expr(src, i)
        }
    } else {
        exec_parse_proj_expr(src, i)
    }
}

fn exec_parse_projections(src: &Vec<u8>, i: usize) -> (r: Result<(Vec<Projection>, usize), usize>)
    requires
        i <= src@.len(),
    ensures
        match spec_parse_projections(src@, i as int) {
            Ok(x) => r matches Ok(t) && t.0@.map_values(|p: Projection| p@) == x.0 && t.1 == x.1,
            Err(p) => r matches Err(q) && q == p,
        },
    decreases src@.len() - i,
{
    proof {
        lemma_parse_projection(src@, i as int);
    }
    match exec_parse_projection(src, i) {
        Err(p) => Err(p),
        Ok((pr, e)) => {
            let c = exec_ws_to(src, e);
            if c < src.len() && src[c] == 44 {
                match exec_parse_projections(src, c + 1) {
                    Err(p2) => Err(p2),
                    Ok((mut ps, e2)) => {
                        let ghost old_ps = ps@;
                        ps.insert(0, pr);
                        proof {
                            assert(ps@.map_values(|p: Projection| p@) =~~= seq![pr@]
                                + old_ps.map_values(|p: Projection| p@));
                        }
                        Ok((ps, e2))
                    },
                }
            } else {
                let one = vec![pr];
                proof {
                    assert(one@.map_values(|p: Projection| p@) =~~= seq![pr@]);
                }
                Ok((one, e))
            }
        },
    }
}

fn exec_parse_table(src: &Vec<u8>, i: usize) -> (r: Result<(TableRef, usize), usize>)
    requires
        i <= src@.len(),
    ensures
        match spec_parse_table(src@, i as int) {
            Ok(x) => r matches Ok(t) && t.0@ == x.0 && t.1 == x.1,
            Err(p) => r matches Err(q) && q == p,
        },
{
    proof {
        lemma_parse_table(src@, i as int);
    }
    let s = exec_ws_to(src, i);
    if word_start_at(src, s) {
        let we = exec_word_end(src, s);
        let d = exec_dotted_end(src, we);
        Ok((TableRef { name: subvec(src, s, d), span: (s, d) }, d))
    } else {
        Err(s)
    }
}

fn exec_parse_tables(src: &Vec<u8>, i: usize) -> (r: Result<(Vec<TableRef>, usize), usize>)
    requires
        i <= src@.len(),
    ensures
        match spec_parse_tables(src@, i as int) {
            Ok(x) => r matches Ok(t) && t.0@.map_values(|t2: TableRef| t2@) == x.0 && t.1 == x.1,
            Err(p) => r matches Err(q) && q == p,
        },
    decreases src@.len() - i,
{
    proof {
        lemma_parse_table(src@, i as int);
    }
    match exec_parse_table(src, i) {
        Err(p) => Err(p),
        Ok((tr, e)) => {
            let c = exec_ws_to(src, e);
            if c < src.len() && src[c] == 44 {
                match exec_parse_tables(src, c + 1) {
                    Err(p2) => Err(p2),
                    Ok((mut ts, e2)) => {
                        let ghost old_ts = ts@;
                        ts.insert(0, tr);
                        proof {
                            assert(ts@.map_values(|t2: TableRef| t2@) =~~= seq![tr@]
                                + old_ts.map_values(|t2: TableRef| t2@));
                        }
                        Ok((ts, e2))
                    },
                }
            } else {
                let one = vec![tr];
                proof {
                    assert(one@.map_values(|t2: TableRef| t2@) =~~= seq![tr@]);
                }
                Ok((one, e))
            }
        },
    }
}

fn exec_parse_select(src: &Vec<u8>, i: usize) -> (r: Result<(SelectStatement, usize), usize>)
    requires
        i <= src@.len(),
    ensures
        match spec_parse_select(src@, i as int) {
            Ok(x) => r matches Ok(t) && t.0@ == x.0 && t.1 == x.1,
            Err(p) => r matches Err(q) && q == p,
        },
{
    proof {
        lemma_parse_select(src@, i as int);
        lemma_ws_to(src@, i as int);
    }
    let n = src.len();
    let s = exec_ws_to(src, i);
    let kw_s = kw_vec_select();
    if exec_kw_at(src, s, &kw_s) {
        assert(s + 6 <= n);
        proof {
            lemma_parse_projections(src@, s as int + 6);
        }
        match exec_parse_projections(src, s + 6) {
            Err(p) => Err(p),
            Ok((ps, e)) => {
                let f = exec_ws_to(src, e);
                let kw_f = kw_vec_from();
                if exec_kw_at(src, f, &kw_f) {
                    assert(f + 4 <= n);
                    proof {
                        lemma_parse_tables(src@, f as int + 4);
                    }
                    match exec_parse_tables(src, f + 4) {
                        Err(p2) => Err(p2),
                        Ok((ts, e2)) => Ok(
                            (SelectStatement { projection: ps, from: ts, span: (s, e2) }, e2),
                        ),
                    }
                } else {
                    let empty_from: Vec<TableRef> = Vec::new();
                    proof {
                        assert(empty_from@.map_values(|t2: TableRef| t2@) =~~= Seq::<
                            TableRefView,
                        >::empty());
                    }
                    Ok((SelectStatement { projection: ps, from: empty_from, span: (s, e) }, e))
                }
            },
        }
    } else {
        Err(s)
    }
}

fn exec_parse_inner_query(src: &Vec<u8>, i: usize) -> (r: Result<(InnerQuery, usize), usize>)
    requires
        i <= src@.len(),
    ensures
        match spec_parse_inner_query(src@, i as int) {
            Ok(x) => r matches Ok(t) && t.0@ == x.0 && t.1 == x.1,
            Err(p) => r matches Err(q) && q == p,
        },
{
    match exec_parse_select(src, i) {
        Err(p) => Err(p),
        Ok((sv, e)) => {
            let sp = sv.span;
            Ok((InnerQuery { select: sv, span: sp }, e))
        },
    }
}

#[verifier::rlimit(80)]
fn exec_parse_set_rest(src: &Vec<u8>, i: usize, acc: SetOperation, start: usize) -> (r: Result<
    (SetOperation, usize),
    usize,
>)
    requires
        i <= src@.len(),
    ensures
        match spec_parse_set_rest(src@, i as int, acc@, start as int) {
            Ok(x) => r matches Ok(t) && t.0@ == x.0 && t.1 == x.1,
            Err(p) => r matches Err(q) && q == p,
        },
    decreases src@.len() - i,
{
    proof {
        lemma_ws_to(src@, i as int);
    }
    let n = src.len();
    let s = exec_ws_to(src, i);
    let kw_u = kw_vec_union();
    let kw_e = kw_vec_except();
    let kw_i = kw_vec_intersect();
    if exec_kw_at(src, s, &kw_u) {
        assert(s + 5 <= n);
        let a2 = exec_ws_to(src, s + 5);
        let kw_a = kw_vec_all();
        if exec_kw_at(src, a2, &kw_a) {
            assert(a2 + 3 <= n);
            proof {
                lemma_parse_select(src@, a2 as int + 3);
            }
            match exec_parse_inner_query(src, a2 + 3) {
                Err(p) => Err(p),
                Ok((q, e)) => {
                    let ghost accv = acc@;
                    let ghost qv = q@;
                    let rightop = SetOperation::Query(q);
                    proof {
                        assert(rightop@ == SetOpView::Query(qv));
                    }
                    let node = SetOperation::Operation {
                        op: SetOperator::UnionAll,
                        left: Box::new(acc),
                        right: Box::new(rightop),
                        span: (start, e),
                    };
                    proof {
                        assert(node@ == SetOpView::Operation {
                            op: SetOperator::UnionAll,
                            left: Box::new(accv),
                            right: Box::new(SetOpView::Query(qv)),
                            span: (start as int, e as int),
                        });
                    }
                    exec_parse_set_rest(src, e, node, start)
                },
            }
        } else {
            proof {
                lemma_parse_select(src@, s as int + 5);
            }
            match exec_parse_inner_query(src, s + 5) {
                Err(p) => Err(p),
                Ok((q, e)) => {
                    let ghost accv = acc@;
                    let ghost qv = q@;
                    let rightop = SetOperation::Query(q);
                    proof {
                        assert(rightop@ == SetOpView::Query(qv));
                    }
                    let node = SetOperation::Operation {
                        op: SetOperator::Union,
                        left: Box::new(acc),
                        right: Box::new(rightop),
                        span: (start, e),
                    };
                    proof {
                        assert(node@ == SetOpView::Operation {
                            op: SetOperator::Union,
                            left: Box::new(accv),
                            right: Box::new(SetOpView::Query(qv)),
                            span: (start as int, e as int),
                        });
                    }
                    exec_parse_set_rest(src, e, node, start)
                },
            }
        }
    } else if exec_kw_at(src, s, &kw_e) {
        assert(s + 6 <= n);
        proof {
            lemma_parse_select(src@, s as int + 6);
        }
        match exec_parse_inner_query(src, s + 6) {
            Err(p) => Err(p),
            Ok((q, e)) => {
                let ghost accv = acc@;
                let ghost qv = q@;
                let rightop = SetOperation::Query(q);
                proof {
                    assert(rightop@ == SetOpView::Query(qv));
                }
                let node = SetOperation::Operation {
                    op: SetOperator::Except,
                    left: Box::new(acc),
                    right: Box::new(rightop),
                    span: (start, e),
                };
                proof {
                    assert(node@ == SetOpView::Operation {
                        op: SetOperator::Except,
                        left: Box::new(accv),
                        right: Box::new(SetOpView::Query(qv)),
                        span: (start as int, e as int),
                    });
                }
                exec_parse_set_rest(src, e, node, start)
            },
        }
    } else if exec_kw_at(src, s, &kw_i) {
        assert(s + 9 <= n);
        proof {
            lemma_parse_select(src@, s as int + 9);
        }
        match exec_parse_inner_query(src, s + 9) {
            Err(p) => Err(p),
            Ok((q, e)) => {
                let ghost accv = acc@;
                let ghost qv = q@;
                let rightop = SetOperation::Query(q);
                proof {
                    assert(rightop@ == SetOpView::Query(qv));
                }
                let node = SetOperation::Operation {
                    op: SetOperator::Intersect,
                    left: Box::new(acc),
                    right: Box::new(rightop),
                    span: (start, e),
                };
                proof {
                    assert(node@ == SetOpView::Operation {
                        op: SetOperator::Intersect,
                        left: Box::new(accv),
                        right: Box::new(SetOpView::Query(qv)),
                        span: (start as int, e as int),
                    });
                }
                exec_parse_set_rest(src, e, node, start)
            },
        }
    } else {
        Ok((acc, i))
    }
}

fn exec_parse_set_operation(src: &Vec<u8>, i: usize) -> (r: Result<(SetOperation, usize), usize>)
    requires
        i <= src@.len(),
    ensures
        match spec_parse_set_operation(src@, i as int) {
            Ok(x) => r matches Ok(t) && t.0@ == x.0 && t.1 == x.1,
            Err(p) => r matches Err(q) && q == p,
        },
{
    proof {
        lemma_parse_select(src@, i as int);
    }
    match exec_parse_inner_query(src, i) {
        Err(p) => Err(p),
        Ok((q, e)) => {
            let start = q.span.0;
            exec_parse_set_rest(src, e, SetOperation::Query(q), start)
        },
    }
}

fn exec_parse_cte(src: &Vec<u8>, i: usize) -> (r: Result<(Cte, usize), usize>)
    requires
        i <= src@.len(),
    ensures
        match spec_parse_cte(src@, i as int) {
            Ok(x) => r matches Ok(t) && t.0@ == x.0 && t.1 == x.1,
            Err(p) => r matches Err(q) && q == p,
        },
{
    proof {
        lemma_parse_cte(src@, i as int);
    }
    let s = exec_ws_to(src, i);
    if word_start_at(src, s) {
        let we = exec_word_end(src, s);
        let a = exec_ws_to(src, we);
        let kw_a = kw_vec_as();
        if exec_kw_at(src, a, &kw_a) {
            let n = src.len();
            assert(a + 2 <= n);
            let p = exec_ws_to(src, a + 2);
            if p < src.len() && src[p] == 40 {
                proof {
                    lemma_parse_set_operation(src@, p as int + 1);
                }
                match exec_parse_set_operation(src, p + 1) {
                    Err(p2) => Err(p2),
                    Ok((b, e)) => {
                        let c = exec_ws_to(src, e);
                        if c < src.len() && src[c] == 41 {
                            Ok(
                                (
                                    Cte { name: subvec(src, s, we), span: (s, c + 1), body: b },
                                    c + 1,
                                ),
                            )
                        } else {
                            Err(c)
                        }
                    },
                }
            } else {
                Err(p)
            }
        } else {
            Err(a)
        }
    } else {
        Err(s)
    }
}

fn exec_parse_ctes(src: &Vec<u8>, i: usize) -> (r: Result<(Vec<Cte>, usize), usize>)
    requires
        i <= src@.len(),
    ensures
        match spec_parse_ctes(src@, i as int) {
            Ok(x) => r matches Ok(t) && t.0@.map_values(|c: Cte| c@) == x.0 && t.1 == x.1,
            Err(p) => r matches Err(q) && q == p,
        },
    decreases src@.len() - i,
{
    proof {
        lemma_parse_cte(src@, i as int);
    }
    match exec_parse_cte(src, i) {
        Err(p) => Err(p),
        Ok((c, e)) => {
            let k = exec_ws_to(src, e);
            if k < src.len() && src[k] == 44 {
                match exec_parse_ctes(src, k + 1) {
                    Err(p2) => Err(p2),
                    Ok((mut cs, e2)) => {
                        let ghost old_cs = cs@;
                        cs.insert(0, c);
                        proof {
                            assert(cs@.map_values(|c2: Cte| c2@) =~~= seq![c@] + old_cs.map_values(
                                |c2: Cte| c2@,
                            ));
                        }
                        Ok((cs, e2))
                    },
                }
            } else {
                let one = vec![c];
                proof {
                    assert(one@.map_values(|c2: Cte| c2@) =~~= seq![c@]);
                }
                Ok((one, e))
            }
        },
    }
}

#[verifier::rlimit(60)]
fn exec_parse_query(src: &Vec<u8>, i: usize) -> (r: Result<(Query, usize), usize>)
    requires
        i <= src@.len(),
    ensures
        match spec_parse_query(src@, i as int) {
            Ok(x) => r matches Ok(t) && t.0@ == x.0 && t.1 == x.1,
            Err(p) => r matches Err(q) && q == p,
        },
{
    proof {
        lemma_parse_query(src@, i as int);
        lemma_ws_to(src@, i as int);
    }
    let s = exec_ws_to(src, i);
    let kw_w = kw_vec_with();
    if exec_kw_at(src, s, &kw_w) {
        let n = src.len();
        assert(s + 4 <= n);
        proof {
            lemma_parse_ctes(src@, s as int + 4);
        }
        match exec_parse_ctes(src, s + 4) {
            Err(p) => Err(p),
            Ok((cs, e)) => {
                proof {
                    lemma_parse_set_operation(src@, e as int);
                }
                match exec_parse_set_operation(src, e) {
                    Err(p2) => Err(p2),
                    Ok((b, e2)) => Ok((Query { ctes: Some(cs), body: b, span: (s, e2) }, e2)),
                }
            },
        }
    } else {
        match exec_parse_set_operation(src, i) {
            Err(p) => Err(p),
            Ok((b, e)) => Ok((Query { ctes: None, body: b, span: (s, e) }, e)),
        }
    }
}

/// Parses a complete generated text as one query.  On failure the byte
/// offset in the generated text where parsing stopped is returned.
pub fn parse_rendered_sql(src: &Vec<u8>) -> (r: Result<Query, usize>)
    ensures
        match spec_parse_sql(src@) {
            Ok(qv) => r matches Ok(q) && q@ == qv,
            Err(p) => r matches Err(q) && q == p,
        },
{
    proof {
        lemma_parse_query(src@, 0);
    }
    match exec_parse_query(src, 0) {
        Err(p) => Err(p),
        Ok((q, e)) => {
            let t = exec_ws_to(src, e);
            if t == src.len() {
                Ok(q)
            } else {
                Err(t)
            }
        },
    }
}

/// Parses a complete text as one query; trailing content that is not
/// whitespace is an error at its own offset.
pub open spec fn spec_parse_sql(src: Seq<u8>) -> Result<QueryView, int> {
    match spec_parse_query(src, 0) {
        Err(p) => Err(p),
        Ok((q, e)) => {
            let t = ws_to(src, e);
            if t == src.len() {
                Ok(q)
            } else {
                Err(t)
            }
        },
    }
}

/// Where an error lies in the original source: a single byte offset, a byte
/// span, or nowhere the position map could account for.
#[derive(Debug, Clone, Copy, PartialEq, Eq, Structural)]
pub enum ErrorLoc {
    Position(usize),
    Span(usize, usize),
    Unknown,
}

/// A syntax error of the generated SQL, re-expressed against the original
/// source through the position map.
#[derive(Debug)]
pub struct SqlParseError {
    position: ErrorLoc,
    message: String,
}

impl SqlParseError {
    /// Where the error lies in the original source.
    pub closed spec fn spec_position(&self) -> ErrorLoc {
        self.position
    }

    /// The message text.
    pub closed spec fn spec_message(&self) -> Seq<char> {
        self.message@
    }

    pub fn position(&self) -> (r: &ErrorLoc)
        ensures
            *r == self.spec_position(),
    {
        &self.position
    }

    pub fn message(&self) -> (r: &str)
        ensures
            r@ == self.spec_message(),
    {
        self.message.as_str()
    }
}

/// The inferred output name of an unaliased projection expression: the last
/// component of an identifier, or the expression's full source text.
pub open spec fn spec_expression_alias(e: ExpressionView) -> Seq<u8> {
    match e {
        ExpressionView::Identifier(ps) => if ps.len() > 0 {
            ps.last()
        } else {
            Seq::empty()
        },
        ExpressionView::Other(t) => t,
    }
}

/// Infers the alias of an unaliased projection expression: for a (possibly
/// dotted) identifier its last component, otherwise the expression's full
/// source text, used as a display name only.
pub fn parse_expression_alias(expr: &Expression) -> (r: Vec<u8>)
    ensures
        r@ == spec_expression_alias(expr@),
{
    match expr {
        Expression::Identifier(parts) => {
            if parts.len() > 0 {
                let lastp = &parts[parts.len() - 1];
                let r = subvec(lastp, 0, lastp.len());
                proof {
                    assert(lastp@.subrange(0, lastp@.len() as int) =~= lastp@);
                    assert(parts@.map_values(|p: Vec<u8>| p@).last() == lastp@);
                }
                r
            } else {
                Vec::new()
            }
        },
        Expression::Other(text) => {
            let r = subvec(text, 0, text.len());
            proof {
                assert(text@.subrange(0, text@.len() as int) =~= text@);
            }
            r
        },
    }
}

/// What [`parse_sql`] reports for a failure at output offset `p`: the offset
/// translated to the original source when the position map can account for
/// it, and an unknown location otherwise.
pub open spec fn spec_error_loc(v: crate::jinja_parser::JinjaParserView, p: int) -> ErrorLoc {
    match crate::jinja_parser::spec_translate(v, p) {
        Some(o) => ErrorLoc::Position(o as usize),
        None => ErrorLoc::Unknown,
    }
}

/// Parses the generated SQL held by a rendered template into a query.
///
/// On a grammar failure the offset where parsing stopped is translated back
/// through the position map: an offset inside a literal segment becomes the
/// affine-shifted original offset, one inside an expansion becomes the
/// template call site, and one on no segment is reported as unknown.
pub fn parse_sql(jinja_parse: &crate::jinja_parser::JinjaParser) -> (r: Result<
    Query,
    SqlParseError,
>)
    requires
        crate::jinja_parser::map_wf(jinja_parse@),
    ensures
        match spec_parse_sql(jinja_parse@.out) {
            Ok(qv) => r matches Ok(q) && q@ == qv,
            Err(p) => r matches Err(e) && e.spec_position() == spec_error_loc(jinja_parse@, p)
                && e.spec_message() == "SQL syntax error"@,
        },
{
    match parse_rendered_sql(jinja_parse.output()) {
        Ok(q) => Ok(q),
        Err(p) => {
            let position = match jinja_parse.translate(p) {
                Some(orig) => ErrorLoc::Position(orig),
                None => ErrorLoc::Unknown,
            };
            Err(SqlParseError { position, message: "SQL syntax error".to_owned() })
        },
    }
}

} // verus!
