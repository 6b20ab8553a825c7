//! Scope-aware column-lineage resolution.
//!
//! A parsed query is resolved bottom-up into [`Model`]s: one per CTE and one
//! for the final body.  Resolution happens against a [`Context`], a chain of
//! named scopes: CTEs registered earlier in a `WITH` clause are visible to
//! later CTEs and to the final body, never the reverse, and a child scope
//! shadows its parent.  Each output column carries a [`ColumnSource`] saying
//! where its values come from; a lineage walk follows `Single` sources
//! transitively until it reaches a model whose column is a given.

use vstd::prelude::*;

verus! {

/// The inferred SQL type of a column.  Type inference is a stub: every
/// column is currently of unknown type.
#[derive(Debug, Clone, Copy, PartialEq, Eq, Structural)]
pub enum SqlType {
    Unknown,
}

/// A named, not pointer, link to a column of an upstream model.
pub struct ModelReference {
    pub model_name: Vec<u8>,
    pub column_name: Vec<u8>,
}

/// Where a column's values come from.
pub enum ColumnSource {
    /// The column flows unchanged from one upstream column.
    Single(ModelReference),
    /// Different rows come from different branches, one per set-operation
    /// operand.
    Disjoint(Vec<ColumnSource>),
    /// The value is synthesized from several upstream columns.
    Aggregate(Vec<ModelReference>),
    /// No upstream at all: a given, as in a seed or source table; the
    /// terminus of every lineage walk.
    Given,
    /// Provenance not determined; the safe fallback for unsupported
    /// expression shapes.
    Unknown,
}

/// One output column of a resolved model.
pub struct Column {
    pub name: Vec<u8>,
    pub tipe: SqlType,
    pub source: ColumnSource,
}

/// A resolved model: a name and its ordered output columns.
pub struct Model {
    pub name: Vec<u8>,
    pub columns: Vec<Column>,
}

pub ghost struct ModelReferenceView {
    pub model_name: Seq<u8>,
    pub column_name: Seq<u8>,
}

pub ghost enum SourceView {
    Single(ModelReferenceView),
    Disjoint(Seq<SourceView>),
    Aggregate(Seq<ModelReferenceView>),
    Given,
    Unknown,
}

pub ghost struct ColumnView {
    pub name: Seq<u8>,
    pub tipe: SqlType,
    pub source: SourceView,
}

pub ghost struct ModelView {
    pub name: Seq<u8>,
    pub columns: Seq<ColumnView>,
}

impl View for ModelReference {
    type V = ModelReferenceView;

    open spec fn view(&self) -> ModelReferenceView {
        ModelReferenceView { model_name: self.model_name@, column_name: self.column_name@ }
    }
}

/// The abstract reading of a column source.
pub open spec fn source_view(s: ColumnSource) -> SourceView
    decreases s,
{
    match s {
        ColumnSource::Single(mr) => SourceView::Single(mr@),
        ColumnSource::Disjoint(ss) => SourceView::Disjoint(sources_view(ss@)),
        ColumnSource::Aggregate(mrs) => SourceView::Aggregate(
            mrs@.map_values(|m: ModelReference| m@),
        ),
        ColumnSource::Given => SourceView::Given,
        ColumnSource::Unknown => SourceView::Unknown,
    }
}

/// The abstract readings of a sequence of column sources, in order.
pub open spec fn sources_view(ss: Seq<ColumnSource>) -> Seq<SourceView>
    decreases ss,
{
    if ss.len() == 0 {
        Seq::empty()
    } else {
        seq![source_view(ss[0])] + sources_view(ss.drop_first())
    }
}

impl View for ColumnSource {
    type V = SourceView;

    open spec fn view(&self) -> SourceView {
        source_view(*self)
    }
}

impl View for Column {
    type V = ColumnView;

    open spec fn view(&self) -> ColumnView {
        ColumnView { name: self.name@, tipe: self.tipe, source: self.source@ }
    }
}

impl View for Model {
    type V = ModelView;

    open spec fn view(&self) -> ModelView {
        ModelView { name: self.name@, columns: self.columns@.map_values(|c: Column| c@) }
    }
}

/// Positional type compatibility: equal arity and equal inferred types at
/// every position.  Names are not compared.
pub open spec fn spec_type_match(a: ModelView, b: ModelView) -> bool {
    a.columns.len() == b.columns.len() && forall|i: int|
        0 <= i < a.columns.len() ==> (#[trigger] a.columns[i]).tipe == b.columns[i].tipe
}

impl Model {
    /// Whether `self` and `other` are positionally type compatible: same
    /// column count, same inferred type at each position.
    pub fn type_match(&self, other: &Model) -> (r: bool)
        ensures
            r == spec_type_match(self@, other@),
    {
        if self.columns.len() != other.columns.len() {
            return false;
        }
        let n = self.columns.len();
        let mut i: usize = 0;
        while i < n
            invariant
                n == self.columns@.len() == other.columns@.len(),
                i <= n,
                forall|j: int|
                    0 <= j < i ==> (#[trigger] self.columns@[j])@.tipe == other.columns@[j]@.tipe,
            decreases n - i,
        {
            let same = match (self.columns[i].tipe, other.columns[i].tipe) {
                (SqlType::Unknown, SqlType::Unknown) => true,
            };
            if !same {
                return false;
            }
            i = i + 1;
        }
        true
    }
}

/// Byte-for-byte equality of two names.
pub fn bytes_eq(a: &Vec<u8>, b: &Vec<u8>) -> (r: bool)
    ensures
        r == (a@ == b@),
{
    let n = a.len();
    if n != b.len() {
        return false;
    }
    let mut i: usize = 0;
    while i < n
        invariant
            i <= n,
            n == a@.len() == b@.len(),
            forall|j: int| 0 <= j < i ==> a@[j] == b@[j],
        decreases n - i,
    {
        if a[i] != b[i] {
            return false;
        }
        i = i + 1;
    }
    proof {
        assert(a@ =~= b@);
    }
    true
}

/// A scope: the models registered in it, in registration order, latest
/// binding of a name winning.
pub type ScopeView = Seq<(Seq<u8>, ModelView)>;

/// A chain of scopes, outermost first; the last scope is the local one.
pub type ContextView = Seq<ScopeView>;

/// The latest binding of `name` in one scope.
pub open spec fn lookup_scope(sc: ScopeView, name: Seq<u8>) -> Option<ModelView>
    decreases sc.len(),
{
    if sc.len() == 0 {
        None
    } else if sc.last().0 == name {
        Some(sc.last().1)
    } else {
        lookup_scope(sc.drop_last(), name)
    }
}

/// Scope-chain lookup: the local scope first, then outward; absence in
/// every scope is absence in the chain.
pub open spec fn spec_get_model(ctx: ContextView, name: Seq<u8>) -> Option<ModelView>
    decreases ctx.len(),
{
    if ctx.len() == 0 {
        None
    } else {
        match lookup_scope(ctx.last(), name) {
            Some(m) => Some(m),
            None => spec_get_model(ctx.drop_last(), name),
        }
    }
}

/// The first column of `cols` named `name`.
pub open spec fn first_column(cols: Seq<ColumnView>, name: Seq<u8>) -> Option<ColumnView>
    decreases cols.len(),
{
    if cols.len() == 0 {
        None
    } else if cols[0].name == name {
        Some(cols[0])
    } else {
        first_column(cols.drop_first(), name)
    }
}

/// Following a model reference: the named model is looked up through the
/// scope chain, and its first column of the referenced name is returned.  A
/// reference whose model is found but whose column is not resolves to
/// nothing.
pub open spec fn spec_follow(ctx: ContextView, mr: ModelReferenceView) -> Option<
    (ColumnView, ModelView),
> {
    match spec_get_model(ctx, mr.model_name) {
        None => None,
        Some(m) => match first_column(m.columns, mr.column_name) {
            Some(c) => Some((c, m)),
            None => None,
        },
    }
}

/// The scope chain the resolver works against.
pub struct Context {
    scopes: Vec<Vec<(Vec<u8>, Model)>>,
}

impl View for Context {
    type V = ContextView;

    closed spec fn view(&self) -> ContextView {
        self.scopes@.map_values(
            |sc: Vec<(Vec<u8>, Model)>| sc@.map_values(|e: (Vec<u8>, Model)| (e.0@, e.1@)),
        )
    }
}

impl Context {
    /// A fresh chain of one empty scope.
    pub fn new() -> (r: Context)
        ensures
            r@ =~~= seq![Seq::<(Seq<u8>, ModelView)>::empty()],
    {
        let mut scopes: Vec<Vec<(Vec<u8>, Model)>> = Vec::new();
        scopes.push(Vec::new());
        let r = Context { scopes };
        proof {
            assert(r@ =~~= seq![Seq::<(Seq<u8>, ModelView)>::empty()]);
        }
        r
    }

    /// Registers `model` under `name` in the local scope.
    pub fn add_model(&mut self, name: Vec<u8>, model: Model)
        requires
            old(self)@.len() > 0,
        ensures
            final(self)@ =~~= old(self)@.update(
                old(self)@.len() - 1,
                old(self)@.last().push((name@, model@)),
            ),
    {
        let ghost oldv = self@;
        let ghost namev = name@;
        let ghost modelv = model@;
        let k = self.scopes.len() - 1;
        let sc = &mut self.scopes[k];
        sc.push((name, model));
        proof {
            assert(self@ =~~= oldv.update(oldv.len() - 1, oldv.last().push((namev, modelv))));
        }
    }

    /// Opens a child scope at the inner end of the chain.
    fn child(self) -> (r: Context)
        ensures
            r@ =~~= self@.push(Seq::empty()),
    {
        let mut scopes = self.scopes;
        scopes.push(Vec::new());
        let r = Context { scopes };
        proof {
            assert(r@ =~~= self@.push(Seq::<(Seq<u8>, ModelView)>::empty()));
        }
        r
    }

    /// Looks a model up by name, innermost scope first; within one scope the
    /// latest registration of the name wins.
    pub fn get_model(&self, name: &Vec<u8>) -> (r: Option<&Model>)
        ensures
            match r {
                Some(m) => spec_get_model(self@, name@) == Some(m@),
                None => spec_get_model(self@, name@) is None,
            },
    {
        let ns = self.scopes.len();
        let mut si: usize = ns;
        proof {
            assert(self@.take(ns as int) =~= self@);
        }
        while si > 0
            invariant
                si <= ns,
                ns == self.scopes@.len(),
                self@.len() == ns,
                spec_get_model(self@, name@) == spec_get_model(self@.take(si as int), name@),
            decreases si,
        {
            si = si - 1;
            proof {
                assert(self@.take(si + 1).last() == self@[si as int]);
                assert(self@.take(si + 1).drop_last() =~= self@.take(si as int));
            }
            let sc = &self.scopes[si];
            let ghost scv = self@[si as int];
            let mut ei: usize = sc.len();
            proof {
                assert(scv.subrange(0, ei as int) =~= scv);
            }
            while ei > 0
                invariant
                    ei <= sc@.len(),
                    si < ns == self.scopes@.len(),
                    sc == &self.scopes@[si as int],
                    scv == self@[si as int],
                    scv.len() == sc@.len(),
                    forall|j: int| 0 <= j < sc@.len() ==> #[trigger] scv[j] == (sc@[j].0@, sc@[j].1@),
                    lookup_scope(scv, name@) == lookup_scope(scv.subrange(0, ei as int), name@),
                    spec_get_model(self@, name@) == spec_get_model(self@.take(si + 1), name@),
                    self@.take(si + 1).last() == scv,
                    self@.take(si + 1).drop_last() == self@.take(si as int),
                decreases ei,
            {
                ei = ei - 1;
                proof {
                    assert(scv.subrange(0, ei + 1).last() == scv[ei as int]);
                    assert(scv.subrange(0, ei + 1).drop_last() =~= scv.subrange(0, ei as int));
                }
                if bytes_eq(&sc[ei].0, name) {
                    proof {
                        assert(lookup_scope(scv, name@) == Some(scv[ei as int].1));
                    }
                    return Some(&sc[ei].1);
                }
            }
            proof {
                assert(scv.subrange(0, 0) =~= Seq::<(Seq<u8>, ModelView)>::empty());
                assert(lookup_scope(scv, name@) is None);
            }
        }
        proof {
            assert(self@.take(0) =~= Seq::<ScopeView>::empty());
        }
        None
    }

    /// Follows a model reference to the column and model it names, innermost
    /// scope first.  A reference whose model exists but lacks the column
    /// resolves to nothing.
    pub fn follow_model_reference(&self, model_reference: &ModelReference) -> (r: Option<
        (&Column, &Model),
    >)
        ensures
            match r {
                Some(p) => spec_follow(self@, model_reference@) == Some((p.0@, p.1@)),
                None => spec_follow(self@, model_reference@) is None,
            },
    {
        match self.get_model(&model_reference.model_name) {
            None => None,
            Some(m) => {
                let ghost colsv = m@.columns;
                let n = m.columns.len();
                let mut i: usize = 0;
                proof {
                    assert(colsv.skip(0) =~= colsv);
                }
                while i < n
                    invariant
                        i <= n == m.columns@.len(),
                        colsv == m@.columns,
                        colsv.len() == n,
                        spec_get_model(self@, model_reference@.model_name) == Some(m@),
                        forall|j: int|
                            0 <= j < n ==> #[trigger] colsv[j] == m.columns@[j]@,
                        first_column(colsv, model_reference@.column_name) == first_column(
                            colsv.skip(i as int),
                            model_reference@.column_name,
                        ),
                    decreases n - i,
                {
                    proof {
                        assert(colsv.skip(i as int)[0] == colsv[i as int]);
                        assert(colsv.skip(i as int).drop_first() =~= colsv.skip(i + 1));
                    }
                    if bytes_eq(&m.columns[i].name, &model_reference.column_name) {
                        proof {
                            assert(first_column(colsv, model_reference@.column_name) == Some(
                                colsv[i as int],
                            ));
                        }
                        return Some((&m.columns[i], m));
                    }
                    i = i + 1;
                }
                proof {
                    assert(colsv.skip(n as int) =~= Seq::<ColumnView>::empty());
                }
                None
            },
        }
    }
}

/// Why lineage resolution failed.
#[derive(Debug)]
pub enum LineageError {
    /// A `FROM` list names a model absent from every scope.
    UnresolvedTable(Vec<u8>),
    /// A projection names a column no input model has.
    UnresolvedColumn(Vec<u8>),
    /// The operands of a union differ in column count or types.
    ArityMismatch,
    /// `EXCEPT` and `INTERSECT` are recognized but not resolved.
    UnsupportedSetOperator,
    /// A projection shape the resolver does not understand: a qualified
    /// wildcard, or an unaliased expression that is no bare identifier.
    UnsupportedProjection,
}

pub ghost enum LineageErrorView {
    UnresolvedTable(Seq<u8>),
    UnresolvedColumn(Seq<u8>),
    ArityMismatch,
    UnsupportedSetOperator,
    UnsupportedProjection,
}

impl View for LineageError {
    type V = LineageErrorView;

    open spec fn view(&self) -> LineageErrorView {
        match self {
            LineageError::UnresolvedTable(n) => LineageErrorView::UnresolvedTable(n@),
            LineageError::UnresolvedColumn(n) => LineageErrorView::UnresolvedColumn(n@),
            LineageError::ArityMismatch => LineageErrorView::ArityMismatch,
            LineageError::UnsupportedSetOperator => LineageErrorView::UnsupportedSetOperator,
            LineageError::UnsupportedProjection => LineageErrorView::UnsupportedProjection,
        }
    }
}

/// The models of a `FROM` list, in order, each under the name it was
/// referenced by; the first unresolvable reference fails the list.
pub open spec fn spec_input_models(
    from: Seq<crate::parser::TableRefView>,
    ctx: ContextView,
) -> Result<Seq<(Seq<u8>, ModelView)>, LineageErrorView>
    decreases from.len(),
{
    if from.len() == 0 {
        Ok(Seq::empty())
    } else {
        match spec_get_model(ctx, from[0].name) {
            None => Err(LineageErrorView::UnresolvedTable(from[0].name)),
            Some(m) => match spec_input_models(from.drop_first(), ctx) {
                Err(e) => Err(e),
                Ok(rest) => Ok(seq![(from[0].name, m)] + rest),
            },
        }
    }
}

/// The first input model, in `FROM` order, holding a column of the given
/// name, together with that column.
pub open spec fn spec_find_input(ims: Seq<(Seq<u8>, ModelView)>, name: Seq<u8>) -> Option<
    (ColumnView, Seq<u8>),
>
    decreases ims.len(),
{
    if ims.len() == 0 {
        None
    } else {
        match first_column(ims[0].1.columns, name) {
            Some(c) => Some((c, ims[0].0)),
            None => spec_find_input(ims.drop_first(), name),
        }
    }
}

/// One model's contribution to a wildcard projection: each of its columns,
/// single-sourced from that model.
pub open spec fn model_wildcard_columns(mn: Seq<u8>, cols: Seq<ColumnView>) -> Seq<ColumnView> {
    Seq::new(
        cols.len(),
        |i: int|
            ColumnView {
                name: cols[i].name,
                tipe: cols[i].tipe,
                source: SourceView::Single(
                    ModelReferenceView { model_name: mn, column_name: cols[i].name },
                ),
            },
    )
}

/// A wildcard projection: one column per input model per column, in `FROM`
/// order then per-model column order.
pub open spec fn spec_wildcard(ims: Seq<(Seq<u8>, ModelView)>) -> Seq<ColumnView>
    decreases ims.len(),
{
    if ims.len() == 0 {
        Seq::empty()
    } else {
        model_wildcard_columns(ims[0].0, ims[0].1.columns) + spec_wildcard(ims.drop_first())
    }
}

/// The output columns one projection contributes.
pub open spec fn spec_project(
    p: crate::parser::ProjectionView,
    ims: Seq<(Seq<u8>, ModelView)>,
) -> Result<Seq<ColumnView>, LineageErrorView> {
    match p {
        crate::parser::ProjectionView::Wildcard { .. } => Ok(spec_wildcard(ims)),
        crate::parser::ProjectionView::QualifiedWildcard { .. } => Err(
            LineageErrorView::UnsupportedProjection,
        ),
        crate::parser::ProjectionView::Expr { expr, .. } => match expr {
            crate::parser::ExpressionView::Identifier(ps) => {
                if ps.len() == 1 {
                    match spec_find_input(ims, ps[0]) {
                        Some(cm) => Ok(
                            seq![
                                ColumnView {
                                    name: cm.0.name,
                                    tipe: cm.0.tipe,
                                    source: SourceView::Single(
                                        ModelReferenceView {
                                            model_name: cm.1,
                                            column_name: cm.0.name,
                                        },
                                    ),
                                },
                            ],
                        ),
                        None => Err(LineageErrorView::UnresolvedColumn(ps[0])),
                    }
                } else {
                    Err(LineageErrorView::UnsupportedProjection)
                }
            },
            crate::parser::ExpressionView::Other(_) => Err(
                LineageErrorView::UnsupportedProjection,
            ),
        },
        crate::parser::ProjectionView::ExprWithAlias { expr, alias, .. } => match expr {
            crate::parser::ExpressionView::Identifier(ps) => {
                if ps.len() == 1 {
                    match spec_find_input(ims, ps[0]) {
                        Some(cm) => Ok(
                            seq![
                                ColumnView {
                                    name: alias,
                                    tipe: cm.0.tipe,
                                    source: SourceView::Single(
                                        ModelReferenceView {
                                            model_name: cm.1,
                                            column_name: cm.0.name,
                                        },
                                    ),
                                },
                            ],
                        ),
                        None => Err(LineageErrorView::UnresolvedColumn(ps[0])),
                    }
                } else {
                    Ok(
                        seq![
                            ColumnView {
                                name: alias,
                                tipe: SqlType::Unknown,
                                source: SourceView::Unknown,
                            },
                        ],
                    )
                }
            },
            crate::parser::ExpressionView::Other(_) => Ok(
                seq![
                    ColumnView { name: alias, tipe: SqlType::Unknown, source: SourceView::Unknown },
                ],
            ),
        },
    }
}

/// The concatenated output columns of a select list; the first failing
/// projection fails the list.
pub open spec fn spec_project_all(
    ps: Seq<crate::parser::ProjectionView>,
    ims: Seq<(Seq<u8>, ModelView)>,
) -> Result<Seq<ColumnView>, LineageErrorView>
    decreases ps.len(),
{
    if ps.len() == 0 {
        Ok(Seq::empty())
    } else {
        match spec_project(ps[0], ims) {
            Err(e) => Err(e),
            Ok(cols) => match spec_project_all(ps.drop_first(), ims) {
                Err(e) => Err(e),
                Ok(rest) => Ok(cols + rest),
            },
        }
    }
}

/// Resolution of one `SELECT` statement against a scope chain.
pub open spec fn spec_resolve_select(
    sel: crate::parser::SelectView,
    ctx: ContextView,
) -> Result<ModelView, LineageErrorView> {
    match spec_input_models(sel.from, ctx) {
        Err(e) => Err(e),
        Ok(ims) => match spec_project_all(sel.projection, ims) {
            Err(e) => Err(e),
            Ok(cols) => Ok(ModelView { name: Seq::empty(), columns: cols }),
        },
    }
}

/// The branch label a union's left operand gets in a `Disjoint` source.
pub open spec fn branch_left() -> Seq<u8> {
    seq![108u8, 101u8, 102u8, 116u8]
}

/// The branch label a union's right operand gets in a `Disjoint` source.
pub open spec fn branch_right() -> Seq<u8> {
    seq![114u8, 105u8, 103u8, 104u8, 116u8]
}

/// The merged columns of a union: the left model's columns, each sourced
/// disjointly from the two branches under their placeholder labels.
pub open spec fn union_columns(cols: Seq<ColumnView>) -> Seq<ColumnView> {
    Seq::new(
        cols.len(),
        |i: int|
            ColumnView {
                name: cols[i].name,
                tipe: cols[i].tipe,
                source: SourceView::Disjoint(
                    seq![
                        SourceView::Single(
                            ModelReferenceView {
                                model_name: branch_left(),
                                column_name: cols[i].name,
                            },
                        ),
                        SourceView::Single(
                            ModelReferenceView {
                                model_name: branch_right(),
                                column_name: cols[i].name,
                            },
                        ),
                    ],
                ),
            },
    )
}

/// Resolution of a set-operation chain: a plain query resolves its select;
/// a union resolves both operands, requires positional type compatibility,
/// and merges; other set operators are unsupported.
pub open spec fn spec_resolve_set(
    s: crate::parser::SetOpView,
    ctx: ContextView,
) -> Result<ModelView, LineageErrorView>
    decreases s,
{
    match s {
        crate::parser::SetOpView::Query(iq) => spec_resolve_select(iq.select, ctx),
        crate::parser::SetOpView::Operation { op, left, right, .. } => {
            if op == crate::parser::SetOperator::Union || op
                == crate::parser::SetOperator::UnionAll {
                match spec_resolve_set(*left, ctx) {
                    Err(e) => Err(e),
                    Ok(lm) => match spec_resolve_set(*right, ctx) {
                        Err(e) => Err(e),
                        Ok(rm) => {
                            if !spec_type_match(lm, rm) {
                                Err(LineageErrorView::ArityMismatch)
                            } else {
                                Ok(ModelView { name: Seq::empty(), columns: union_columns(lm.columns) })
                            }
                        },
                    },
                }
            } else {
                Err(LineageErrorView::UnsupportedSetOperator)
            }
        },
    }
}

/// `ctx` with `(name, m)` registered in its local scope.
pub open spec fn push_model(ctx: ContextView, name: Seq<u8>, m: ModelView) -> ContextView {
    if ctx.len() == 0 {
        ctx
    } else {
        ctx.update(ctx.len() - 1, ctx.last().push((name, m)))
    }
}

/// Registers the CTEs from index 0 on, in declaration order: each CTE's
/// body is resolved against the context grown so far, so a CTE sees every
/// CTE declared before it and nothing declared after it.
pub open spec fn spec_register_ctes(
    ctes: Seq<crate::parser::CteView>,
    ctx: ContextView,
) -> Result<ContextView, LineageErrorView>
    decreases ctes.len(),
{
    if ctes.len() == 0 {
        Ok(ctx)
    } else {
        match spec_resolve_set(ctes[0].body, ctx) {
            Err(e) => Err(e),
            Ok(m) => spec_register_ctes(
                ctes.drop_first(),
                push_model(ctx, ctes[0].name, ModelView { name: ctes[0].name, columns: m.columns }),
            ),
        }
    }
}

/// Resolution of a whole query: a fresh child scope is opened under the
/// outer context, the `WITH` clause's CTEs are registered in declaration
/// order, and the body is resolved against the grown context, which is
/// returned with the model so lineage can be walked in it.
pub open spec fn spec_resolve_query(
    q: crate::parser::QueryView,
    outer: ContextView,
) -> Result<(ModelView, ContextView), LineageErrorView> {
    let ctx0 = outer.push(Seq::empty());
    let ctx1r = match q.ctes {
        Some(cs) => spec_register_ctes(cs, ctx0),
        None => Ok(ctx0),
    };
    match ctx1r {
        Err(e) => Err(e),
        Ok(ctx1) => match spec_resolve_set(q.body, ctx1) {
            Err(e) => Err(e),
            Ok(m) => Ok((m, ctx1)),
        },
    }
}

/// Copies a name.
fn clone_bytes(v: &Vec<u8>) -> (r: Vec<u8>)
    ensures
        r@ == v@,
{
    let n = v.len();
    let mut r: Vec<u8> = Vec::new();
    let mut i: usize = 0;
    while i < n
        invariant
            i <= n,
            n == v@.len(),
            r@ == v@.subrange(0, i as int),
        decreases n - i,
    {
        r.push(v[i]);
        assert(v@.subrange(0, i + 1) =~= v@.subrange(0, i as int).push(v@[i as int]));
        i = i + 1;
    }
    proof {
        assert(v@.subrange(0, n as int) =~= v@);
    }
    r
}

fn input_models_from<'a>(
    from: &Vec<crate::parser::TableRef>,
    k: usize,
    context: &'a Context,
) -> (r: Result<Vec<(Vec<u8>, &'a Model)>, LineageError>)
    requires
        k <= from@.len(),
    ensures
        match spec_input_models(
            from@.map_values(|t: crate::parser::TableRef| t@).skip(k as int),
            context@,
        ) {
            Ok(ims) => r matches Ok(v) && v@.map_values(|e: (Vec<u8>, &'a Model)| (e.0@, e.1@))
                == ims,
            Err(e) => r matches Err(e2) && e2@ == e,
        },
    decreases from@.len() - k,
{
    let ghost fv = from@.map_values(|t: crate::parser::TableRef| t@);
    if k == from.len() {
        let out: Vec<(Vec<u8>, &'a Model)> = Vec::new();
        proof {
            assert(fv.skip(k as int) =~= Seq::<crate::parser::TableRefView>::empty());
            assert(out@.map_values(|e: (Vec<u8>, &'a Model)| (e.0@, e.1@)) =~= Seq::<
                (Seq<u8>, ModelView),
            >::empty());
        }
        return Ok(out);
    }
    proof {
        assert(fv.skip(k as int)[0] == fv[k as int]);
        assert(fv.skip(k as int).drop_first() =~= fv.skip(k + 1));
    }
    match context.get_model(&from[k].name) {
        None => Err(LineageError::UnresolvedTable(clone_bytes(&from[k].name))),
        Some(m) => {
            match input_models_from(from, k + 1, context) {
                Err(e) => Err(e),
                Ok(mut rest) => {
                    let ghost old_rest = rest@;
                    rest.insert(0, (clone_bytes(&from[k].name), m));
                    proof {
                        assert(rest@.map_values(|e: (Vec<u8>, &'a Model)| (e.0@, e.1@)) =~~= seq![
                            (fv[k as int].name, m@),
                        ] + old_rest.map_values(|e: (Vec<u8>, &'a Model)| (e.0@, e.1@)));
                    }
                    Ok(rest)
                },
            }
        },
    }
}

fn first_col_in<'a>(m: &'a Model, name: &Vec<u8>) -> (r: Option<&'a Column>)
    ensures
        match r {
            Some(c) => first_column(m@.columns, name@) == Some(c@),
            None => first_column(m@.columns, name@) is None,
        },
{
    let ghost colsv = m@.columns;
    let n = m.columns.len();
    let mut i: usize = 0;
    proof {
        assert(colsv.skip(0) =~= colsv);
    }
    while i < n
        invariant
            i <= n == m.columns@.len(),
            colsv == m@.columns,
            colsv.len() == n,
            forall|j: int| 0 <= j < n ==> #[trigger] colsv[j] == m.columns@[j]@,
            first_column(colsv, name@) == first_column(colsv.skip(i as int), name@),
        decreases n - i,
    {
        proof {
            assert(colsv.skip(i as int)[0] == colsv[i as int]);
            assert(colsv.skip(i as int).drop_first() =~= colsv.skip(i + 1));
        }
        if bytes_eq(&m.columns[i].name, name) {
            proof {
                assert(first_column(colsv, name@) == Some(colsv[i as int]));
            }
            return Some(&m.columns[i]);
        }
        i = i + 1;
    }
    proof {
        assert(colsv.skip(n as int) =~= Seq::<ColumnView>::empty());
    }
    None
}

fn find_input_column<'a, 'b>(
    ims: &Vec<(Vec<u8>, &'b Model)>,
    k: usize,
    name: &Vec<u8>,
) -> (r: Option<(&'b Column, Vec<u8>)>)
    requires
        k <= ims@.len(),
    ensures
        ({
            let imsv = ims@.map_values(|e: (Vec<u8>, &'b Model)| (e.0@, e.1@));
            match spec_find_input(imsv.skip(k as int), name@) {
                Some(cm) => r matches Some(p) && p.0@ == cm.0 && p.1@ == cm.1,
                None => r is None,
            }
        }),
    decreases ims@.len() - k,
{
    let ghost imsv = ims@.map_values(|e: (Vec<u8>, &'b Model)| (e.0@, e.1@));
    if k == ims.len() {
        proof {
            assert(imsv.skip(k as int) =~= Seq::<(Seq<u8>, ModelView)>::empty());
        }
        return None;
    }
    proof {
        assert(imsv.skip(k as int)[0] == imsv[k as int]);
        assert(imsv.skip(k as int).drop_first() =~= imsv.skip(k + 1));
    }
    match first_col_in(ims[k].1, name) {
        Some(c) => Some((c, clone_bytes(&ims[k].0))),
        None => find_input_column(ims, k + 1, name),
    }
}

fn model_wildcard<'a>(mn: &Vec<u8>, m: &Model) -> (r: Vec<Column>)
    ensures
        r@.map_values(|c: Column| c@) == model_wildcard_columns(mn@, m@.columns),
{
    let n = m.columns.len();
    let mut out: Vec<Column> = Vec::new();
    let mut i: usize = 0;
    while i < n
        invariant
            i <= n == m.columns@.len(),
            out@.map_values(|c: Column| c@) =~= model_wildcard_columns(mn@, m@.columns).subrange(
                0,
                i as int,
            ),
        decreases n - i,
    {
        let c = &m.columns[i];
        let col = Column {
            name: clone_bytes(&c.name),
            tipe: c.tipe,
            source: ColumnSource::Single(
                ModelReference { model_name: clone_bytes(mn), column_name: clone_bytes(&c.name) },
            ),
        };
        let ghost old_out = out@;
        out.push(col);
        proof {
            assert(out@.map_values(|c2: Column| c2@) =~~= old_out.map_values(
                |c2: Column| c2@,
            ).push(model_wildcard_columns(mn@, m@.columns)[i as int]));
            assert(out@.map_values(|c2: Column| c2@) =~= model_wildcard_columns(
                mn@,
                m@.columns,
            ).subrange(0, i + 1));
        }
        i = i + 1;
    }
    proof {
        assert(model_wildcard_columns(mn@, m@.columns).subrange(0, n as int)
            =~= model_wildcard_columns(mn@, m@.columns));
    }
    out
}

/// Moves the elements of `b` to the end of `a`.
fn append_columns(a: &mut Vec<Column>, b: Vec<Column>)
    ensures
        final(a)@ == old(a)@ + b@,
{
    let ghost a0 = old(a)@;
    let ghost b0 = b@;
    let mut b = b;
    while b.len() > 0
        invariant
            a@ + b@ == a0 + b0,
        decreases b@.len(),
    {
        let x = b.remove(0);
        a.push(x);
        proof {
            assert(a@ + b@ =~= a0 + b0);
        }
    }
    proof {
        assert(a@ =~= a0 + b0);
    }
}

fn wildcard_cols<'a>(ims: &Vec<(Vec<u8>, &'a Model)>, k: usize) -> (r: Vec<Column>)
    requires
        k <= ims@.len(),
    ensures
        r@.map_values(|c: Column| c@) == spec_wildcard(
            ims@.map_values(|e: (Vec<u8>, &'a Model)| (e.0@, e.1@)).skip(k as int),
        ),
    decreases ims@.len() - k,
{
    let ghost imsv = ims@.map_values(|e: (Vec<u8>, &'a Model)| (e.0@, e.1@));
    if k == ims.len() {
        let out: Vec<Column> = Vec::new();
        proof {
            assert(imsv.skip(k as int) =~= Seq::<(Seq<u8>, ModelView)>::empty());
            assert(out@.map_values(|c: Column| c@) =~= Seq::<ColumnView>::empty());
        }
        return out;
    }
    proof {
        assert(imsv.skip(k as int)[0] == imsv[k as int]);
        assert(imsv.skip(k as int).drop_first() =~= imsv.skip(k + 1));
    }
    let mut head = model_wildcard(&ims[k].0, ims[k].1);
    let rest = wildcard_cols(ims, k + 1);
    let ghost headv = head@;
    append_columns(&mut head, rest);
    proof {
        assert(head@.map_values(|c: Column| c@) =~~= model_wildcard_columns(
            imsv[k as int].0,
            imsv[k as int].1.columns,
        ) + spec_wildcard(imsv.skip(k + 1)));
    }
    head
}

fn project_one<'a>(p: &crate::parser::Projection, ims: &Vec<(Vec<u8>, &'a Model)>) -> (r: Result<
    Vec<Column>,
    LineageError,
>)
    ensures
        ({
            let imsv = ims@.map_values(|e: (Vec<u8>, &'a Model)| (e.0@, e.1@));
            match spec_project(p@, imsv) {
                Ok(cols) => r matches Ok(v) && v@.map_values(|c: Column| c@) == cols,
                Err(e) => r matches Err(e2) && e2@ == e,
            }
        }),
{
    let ghost imsv = ims@.map_values(|e: (Vec<u8>, &'a Model)| (e.0@, e.1@));
    match p {
        crate::parser::Projection::Wildcard { .. } => {
            let cols = wildcard_cols(ims, 0);
            proof {
                assert(imsv.skip(0) =~= imsv);
            }
            Ok(cols)
        },
        crate::parser::Projection::QualifiedWildcard { .. } => Err(
            LineageError::UnsupportedProjection,
        ),
        crate::parser::Projection::Expr { expr, .. } => {
            match expr {
                crate::parser::Expression::Identifier(parts) => {
                    if parts.len() == 1 {
                        proof {
                            assert(parts@.map_values(|q: Vec<u8>| q@)[0] == parts@[0]@);
                        }
                        match find_input_column(ims, 0, &parts[0]) {
                            Some((c, mn)) => {
                                proof {
                                    assert(imsv.skip(0) =~= imsv);
                                }
                                let col = Column {
                                    name: clone_bytes(&c.name),
                                    tipe: c.tipe,
                                    source: ColumnSource::Single(
                                        ModelReference {
                                            model_name: mn,
                                            column_name: clone_bytes(&c.name),
                                        },
                                    ),
                                };
                                let out = vec![col];
                                proof {
                                    assert(out@.map_values(|c2: Column| c2@) =~~= spec_project(
                                        p@,
                                        imsv,
                                    )->Ok_0);
                                }
                                Ok(out)
                            },
                            None => {
                                proof {
                                    assert(imsv.skip(0) =~= imsv);
                                }
                                Err(LineageError::UnresolvedColumn(clone_bytes(&parts[0])))
                            },
                        }
                    } else {
                        Err(LineageError::UnsupportedProjection)
                    }
                },
                crate::parser::Expression::Other(_) => Err(LineageError::UnsupportedProjection),
            }
        },
        crate::parser::Projection::ExprWithAlias { expr, alias, .. } => {
            match expr {
                crate::parser::Expression::Identifier(parts) => {
                    if parts.len() == 1 {
                        proof {
                            assert(parts@.map_values(|q: Vec<u8>| q@)[0] == parts@[0]@);
                        }
                        match find_input_column(ims, 0, &parts[0]) {
                            Some((c, mn)) => {
                                proof {
                                    assert(imsv.skip(0) =~= imsv);
                                }
                                let col = Column {
                                    name: clone_bytes(alias),
                                    tipe: c.tipe,
                                    source: ColumnSource::Single(
                                        ModelReference {
                                            model_name: mn,
                                            column_name: clone_bytes(&c.name),
                                        },
                                    ),
                                };
                                let out = vec![col];
                                proof {
                                    assert(out@.map_values(|c2: Column| c2@) =~~= spec_project(
                                        p@,
                                        imsv,
                                    )->Ok_0);
                                }
                                Ok(out)
                            },
                            None => {
                                proof {
                                    assert(imsv.skip(0) =~= imsv);
                                }
                                Err(LineageError::UnresolvedColumn(clone_bytes(&parts[0])))
                            },
                        }
                    } else {
                        let col = Column {
                            name: clone_bytes(alias),
                            tipe: SqlType::Unknown,
                            source: ColumnSource::Unknown,
                        };
                        let out = vec![col];
                        proof {
                            assert(out@.map_values(|c2: Column| c2@) =~~= spec_project(
                                p@,
                                imsv,
                            )->Ok_0);
                        }
                        Ok(out)
                    }
                },
                crate::parser::Expression::Other(_) => {
                    let col = Column {
                        name: clone_bytes(alias),
                        tipe: SqlType::Unknown,
                        source: ColumnSource::Unknown,
                    };
                    let out = vec![col];
                    proof {
                        assert(out@.map_values(|c2: Column| c2@) =~~= spec_project(p@, imsv)->Ok_0);
                    }
                    Ok(out)
                },
            }
        },
    }
}

fn project_all<'a>(
    ps: &Vec<crate::parser::Projection>,
    k: usize,
    ims: &Vec<(Vec<u8>, &'a Model)>,
) -> (r: Result<Vec<Column>, LineageError>)
    requires
        k <= ps@.len(),
    ensures
        ({
            let imsv = ims@.map_values(|e: (Vec<u8>, &'a Model)| (e.0@, e.1@));
            match spec_project_all(
                ps@.map_values(|q: crate::parser::Projection| q@).skip(k as int),
                imsv,
            ) {
                Ok(cols) => r matches Ok(v) && v@.map_values(|c: Column| c@) == cols,
                Err(e) => r matches Err(e2) && e2@ == e,
            }
        }),
    decreases ps@.len() - k,
{
    let ghost psv = ps@.map_values(|q: crate::parser::Projection| q@);
    if k == ps.len() {
        let out: Vec<Column> = Vec::new();
        proof {
            assert(psv.skip(k as int) =~= Seq::<crate::parser::ProjectionView>::empty());
            assert(out@.map_values(|c: Column| c@) =~= Seq::<ColumnView>::empty());
        }
        return Ok(out);
    }
    proof {
        assert(psv.skip(k as int)[0] == psv[k as int]);
        assert(psv.skip(k as int).drop_first() =~= psv.skip(k + 1));
    }
    match project_one(&ps[k], ims) {
        Err(e) => Err(e),
        Ok(mut cols) => {
            match project_all(ps, k + 1, ims) {
                Err(e) => Err(e),
                Ok(rest) => {
                    let ghost colsv0 = cols@;
                    append_columns(&mut cols, rest);
                    proof {
                        assert(cols@.map_values(|c: Column| c@) =~~= spec_project_all(
                            psv.skip(k as int),
                            ims@.map_values(|e: (Vec<u8>, &'a Model)| (e.0@, e.1@)),
                        )->Ok_0);
                    }
                    Ok(cols)
                },
            }
        },
    }
}

/// Resolves one `SELECT` statement against the scope chain: its `FROM`
/// models are looked up in order, and each projection contributes its
/// columns with their provenance.
pub fn validate_select(select: &crate::parser::SelectStatement, context: &Context) -> (r: Result<
    Model,
    LineageError,
>)
    ensures
        match spec_resolve_select(select@, context@) {
            Ok(mv) => r matches Ok(m) && m@ == mv,
            Err(e) => r matches Err(e2) && e2@ == e,
        },
{
    let ghost fv = select.from@.map_values(|t: crate::parser::TableRef| t@);
    proof {
        assert(fv.skip(0) =~= fv);
    }
    match input_models_from(&select.from, 0, context) {
        Err(e) => Err(e),
        Ok(ims) => {
            let ghost psv = select.projection@.map_values(|q: crate::parser::Projection| q@);
            proof {
                assert(psv.skip(0) =~= psv);
            }
            match project_all(&select.projection, 0, &ims) {
                Err(e) => Err(e),
                Ok(cols) => {
                    let m = Model { name: Vec::new(), columns: cols };
                    proof {
                        assert(m@ =~~= spec_resolve_select(select@, context@)->Ok_0);
                    }
                    Ok(m)
                },
            }
        },
    }
}

fn union_cols_exec(cols: &Vec<Column>) -> (r: Vec<Column>)
    ensures
        r@.map_values(|c: Column| c@) == union_columns(cols@.map_values(|c: Column| c@)),
{
    let ghost cv = cols@.map_values(|c: Column| c@);
    let n = cols.len();
    let mut out: Vec<Column> = Vec::new();
    let mut i: usize = 0;
    while i < n
        invariant
            i <= n == cols@.len(),
            cv == cols@.map_values(|c: Column| c@),
            out@.map_values(|c: Column| c@) =~= union_columns(cv).subrange(0, i as int),
        decreases n - i,
    {
        let c = &cols[i];
        let left_name: Vec<u8> = vec![108u8, 101u8, 102u8, 116u8];
        let right_name: Vec<u8> = vec![114u8, 105u8, 103u8, 104u8, 116u8];
        proof {
            assert(left_name@ =~= branch_left());
            assert(right_name@ =~= branch_right());
        }
        let srcs: Vec<ColumnSource> = vec![
            ColumnSource::Single(
                ModelReference { model_name: left_name, column_name: clone_bytes(&c.name) },
            ),
            ColumnSource::Single(
                ModelReference { model_name: right_name, column_name: clone_bytes(&c.name) },
            ),
        ];
        proof {
            let d1 = srcs@.drop_first();
            assert(d1[0] == srcs@[1]);
            assert(d1.drop_first() =~= Seq::<ColumnSource>::empty());
            assert(sources_view(d1.drop_first()) =~= Seq::<SourceView>::empty());
            assert(sources_view(d1) =~= seq![source_view(d1[0])] + sources_view(d1.drop_first()));
            assert(sources_view(d1) =~= seq![source_view(srcs@[1])]);
            assert(sources_view(srcs@) =~= seq![
                source_view(srcs@[0]),
                source_view(srcs@[1]),
            ]);
        }
        let col = Column {
            name: clone_bytes(&c.name),
            tipe: c.tipe,
            source: ColumnSource::Disjoint(srcs),
        };
        let ghost old_out = out@;
        out.push(col);
        proof {
            assert(out@.map_values(|c2: Column| c2@) =~~= old_out.map_values(
                |c2: Column| c2@,
            ).push(union_columns(cv)[i as int]));
            assert(out@.map_values(|c2: Column| c2@) =~= union_columns(cv).subrange(0, i + 1));
        }
        i = i + 1;
    }
    proof {
        assert(union_columns(cv).subrange(0, n as int) =~= union_columns(cv));
    }
    out
}

/// Resolves a set-operation chain.  `UNION` and `UNION ALL` require the two
/// operands to be positionally type compatible — equal arity above all —
/// and merge them column by column with disjoint branch sources; `EXCEPT`
/// and `INTERSECT` are unsupported.
pub fn validate_set_expr(set_expr: &crate::parser::SetOperation, context: &Context) -> (r: Result<
    Model,
    LineageError,
>)
    ensures
        match spec_resolve_set(set_expr@, context@) {
            Ok(mv) => r matches Ok(m) && m@ == mv,
            Err(e) => r matches Err(e2) && e2@ == e,
        },
    decreases set_expr,
{
    match set_expr {
        crate::parser::SetOperation::Query(iq) => validate_select(&iq.select, context),
        crate::parser::SetOperation::Operation { op, left, right, .. } => {
            let supported = match op {
                crate::parser::SetOperator::Union => true,
                crate::parser::SetOperator::UnionAll => true,
                _ => false,
            };
            if supported {
                match validate_set_expr(left, context) {
                    Err(e) => Err(e),
                    Ok(lm) => {
                        match validate_set_expr(right, context) {
                            Err(e) => Err(e),
                            Ok(rm) => {
                                if !lm.type_match(&rm) {
                                    Err(LineageError::ArityMismatch)
                                } else {
                                    let m = Model {
                                        name: Vec::new(),
                                        columns: union_cols_exec(&lm.columns),
                                    };
                                    proof {
                                        assert(m@ =~~= spec_resolve_set(
                                            set_expr@,
                                            context@,
                                        )->Ok_0);
                                    }
                                    Ok(m)
                                }
                            },
                        }
                    },
                }
            } else {
                Err(LineageError::UnsupportedSetOperator)
            }
        },
    }
}

fn register_ctes(ctes: &Vec<crate::parser::Cte>, k: usize, context: Context) -> (r: Result<
    Context,
    LineageError,
>)
    requires
        k <= ctes@.len(),
        context@.len() > 0,
    ensures
        match spec_register_ctes(
            ctes@.map_values(|c: crate::parser::Cte| c@).skip(k as int),
            context@,
        ) {
            Ok(cv) => r matches Ok(c2) && c2@ == cv,
            Err(e) => r matches Err(e2) && e2@ == e,
        },
    decreases ctes@.len() - k,
{
    let ghost cv = ctes@.map_values(|c: crate::parser::Cte| c@);
    if k == ctes.len() {
        proof {
            assert(cv.skip(k as int) =~= Seq::<crate::parser::CteView>::empty());
        }
        return Ok(context);
    }
    proof {
        assert(cv.skip(k as int)[0] == cv[k as int]);
        assert(cv.skip(k as int).drop_first() =~= cv.skip(k + 1));
    }
    match validate_set_expr(&ctes[k].body, &context) {
        Err(e) => Err(e),
        Ok(m) => {
            let model = Model { name: clone_bytes(&ctes[k].name), columns: m.columns };
            let ghost modelv = model@;
            let mut context = context;
            let ghost ctxv = context@;
            context.add_model(clone_bytes(&ctes[k].name), model);
            proof {
                assert(context@ =~~= push_model(ctxv, cv[k as int].name, modelv));
                assert(modelv =~~= ModelView {
                    name: cv[k as int].name,
                    columns: spec_resolve_set(cv[k as int].body, ctxv)->Ok_0.columns,
                });
            }
            register_ctes(ctes, k + 1, context)
        },
    }
}

/// Resolves a whole query against an outer context.
///
/// A fresh child scope is opened under `context`; the CTEs of the `WITH`
/// clause are resolved and registered in declaration order, so each sees the
/// CTEs before it and the outer scopes, never a later one; the body is
/// resolved last, against all of them.  On success the body's model is
/// returned together with the grown context, in which lineage can be walked.
pub fn validate_query(query: &crate::parser::Query, context: Context) -> (r: Result<
    (Model, Context),
    LineageError,
>)
    ensures
        match spec_resolve_query(query@, context@) {
            Ok(p) => r matches Ok(t) && t.0@ == p.0 && t.1@ == p.1,
            Err(e) => r matches Err(e2) && e2@ == e,
        },
{
    let ghost outer = context@;
    let ctx0 = context.child();
    let ctx1 = match &query.ctes {
        Some(cs) => {
            let ghost csv = cs@.map_values(|c: crate::parser::Cte| c@);
            proof {
                assert(csv.skip(0) =~= csv);
            }
            match register_ctes(cs, 0, ctx0) {
                Err(e) => {
                    return Err(e);
                },
                Ok(c) => c,
            }
        },
        None => ctx0,
    };
    match validate_set_expr(&query.body, &ctx1) {
        Err(e) => Err(e),
        Ok(m) => Ok((m, ctx1)),
    }
}

/// The chain of model references a lineage walk follows from `s`: a
/// `Single` source contributes its reference and, when the reference
/// resolves in scope, continues through the column it resolves to; a
/// reference that resolves to no model in any scope is the end of the
/// chain, and every other source kind ends the walk at once.  `fuel`
/// bounds the number of steps taken.
pub open spec fn spec_walk(ctx: ContextView, s: SourceView, fuel: nat) -> Seq<ModelReferenceView>
    decreases fuel,
{
    match s {
        SourceView::Single(mr) => {
            if fuel == 0 {
                seq![mr]
            } else {
                match spec_follow(ctx, mr) {
                    Some(cm) => seq![mr] + spec_walk(ctx, cm.0.source, (fuel - 1) as nat),
                    None => seq![mr],
                }
            }
        },
        _ => Seq::empty(),
    }
}

/// Walks a column's lineage through the scope chain: `Single` sources are
/// followed transitively, every other source kind terminates at once.  The
/// returned chain lists every reference followed, ending at the first one
/// that leaves the scope chain or stops at a non-`Single` column.  `fuel`
/// bounds the walk's length.
pub fn walk_lineage(context: &Context, source: &ColumnSource, fuel: usize) -> (r: Vec<
    ModelReference,
>)
    ensures
        r@.map_values(|m: ModelReference| m@) == spec_walk(context@, source@, fuel as nat),
    decreases fuel,
{
    match source {
        ColumnSource::Single(mr) => {
            let head = ModelReference {
                model_name: clone_bytes(&mr.model_name),
                column_name: clone_bytes(&mr.column_name),
            };
            let ghost headv = head@;
            if fuel == 0 {
                let out = vec![head];
                proof {
                    assert(out@.map_values(|m: ModelReference| m@) =~~= seq![headv]);
                }
                return out;
            }
            match context.follow_model_reference(mr) {
                Some((c, _m)) => {
                    let mut rest = walk_lineage(context, &c.source, fuel - 1);
                    let ghost old_rest = rest@;
                    rest.insert(0, head);
                    proof {
                        assert(rest@.map_values(|m: ModelReference| m@) =~~= seq![headv]
                            + old_rest.map_values(|m: ModelReference| m@));
                    }
                    rest
                },
                None => {
                    let out = vec![head];
                    proof {
                        assert(out@.map_values(|m: ModelReference| m@) =~~= seq![headv]);
                    }
                    out
                },
            }
        },
        _ => {
            let out: Vec<ModelReference> = Vec::new();
            proof {
                assert(out@.map_values(|m: ModelReference| m@) =~= Seq::<
                    ModelReferenceView,
                >::empty());
            }
            out
        },
    }
}

/// Arity law: a `UNION` or `UNION ALL` whose operands resolve to models of
/// differing column counts resolves to an arity-mismatch error — no merged
/// model is produced, nothing is truncated or padded.
pub proof fn lemma_union_arity_mismatch(
    op: crate::parser::SetOperator,
    left: crate::parser::SetOpView,
    right: crate::parser::SetOpView,
    span: (int, int),
    ctx: ContextView,
    lm: ModelView,
    rm: ModelView,
)
    requires
        op == crate::parser::SetOperator::Union || op == crate::parser::SetOperator::UnionAll,
        spec_resolve_set(left, ctx) == Ok::<ModelView, LineageErrorView>(lm),
        spec_resolve_set(right, ctx) == Ok::<ModelView, LineageErrorView>(rm),
        lm.columns.len() != rm.columns.len(),
    ensures
        spec_resolve_set(
            crate::parser::SetOpView::Operation {
                op,
                left: Box::new(left),
                right: Box::new(right),
                span,
            },
            ctx,
        ) == Err::<ModelView, LineageErrorView>(LineageErrorView::ArityMismatch),
{
    assert(!spec_type_match(lm, rm));
}

/// A name bound in no scope of the chain resolves to no model.
pub proof fn lemma_lookup_scope_absent(sc: ScopeView, name: Seq<u8>)
    requires
        forall|j: int| 0 <= j < sc.len() ==> (#[trigger] sc[j]).0 != name,
    ensures
        lookup_scope(sc, name) is None,
    decreases sc.len(),
{
    if sc.len() > 0 {
        assert forall|j: int|
            0 <= j < sc.drop_last().len() implies (#[trigger] sc.drop_last()[j]).0 != name by {
            assert(sc.drop_last()[j] == sc[j]);
        }
        lemma_lookup_scope_absent(sc.drop_last(), name);
    }
}

/// Within one scope, a binding followed only by bindings of other names is
/// the one a lookup of its name finds: the latest registration wins, and
/// nothing declared after it under other names hides it.
pub proof fn lemma_lookup_scope_found(sc: ScopeView, i: int, name: Seq<u8>)
    requires
        0 <= i < sc.len(),
        sc[i].0 == name,
        forall|j: int| i < j < sc.len() ==> (#[trigger] sc[j]).0 != name,
    ensures
        lookup_scope(sc, name) == Some(sc[i].1),
    decreases sc.len(),
{
    if i == sc.len() - 1 {
    } else {
        assert(sc.drop_last()[i] == sc[i]);
        assert forall|j: int|
            i < j < sc.drop_last().len() implies (#[trigger] sc.drop_last()[j]).0 != name by {
            assert(sc.drop_last()[j] == sc[j]);
        }
        lemma_lookup_scope_found(sc.drop_last(), i, name);
    }
}

/// Registering CTEs grows exactly the local scope: every outer scope is
/// untouched, the bindings already in the local scope stay where they are,
/// and each CTE appends one binding carrying its name, in declaration
/// order.  [`lemma_cte_visible`] and [`lemma_later_cte_invisible`] draw the
/// two halves of the scope law from this.
pub proof fn lemma_register_ctes_scopes(
    ctes: Seq<crate::parser::CteView>,
    ctx: ContextView,
    ctx2: ContextView,
)
    requires
        ctx.len() > 0,
        spec_register_ctes(ctes, ctx) == Ok::<ContextView, LineageErrorView>(ctx2),
    ensures
        ctx2.len() == ctx.len(),
        forall|i: int| 0 <= i < ctx.len() - 1 ==> #[trigger] ctx2[i] == ctx[i],
        ctx2.last().len() == ctx.last().len() + ctes.len(),
        forall|j: int| 0 <= j < ctx.last().len() ==> #[trigger] ctx2.last()[j] == ctx.last()[j],
        forall|i: int|
            0 <= i < ctes.len() ==> (#[trigger] ctx2.last()[ctx.last().len() + i]).0
                == ctes[i].name && ctx2.last()[ctx.last().len() + i].1.name == ctes[i].name,
    decreases ctes.len(),
{
    if ctes.len() == 0 {
    } else {
        match spec_resolve_set(ctes[0].body, ctx) {
            Err(_) => {},
            Ok(m) => {
                let named = ModelView { name: ctes[0].name, columns: m.columns };
                let ctx1 = push_model(ctx, ctes[0].name, named);
                assert(ctx1.last() == ctx.last().push((ctes[0].name, named)));
                lemma_register_ctes_scopes(ctes.drop_first(), ctx1, ctx2);
                assert forall|i: int|
                    0 <= i < ctes.len() implies (#[trigger] ctx2.last()[ctx.last().len() + i]).0
                    == ctes[i].name && ctx2.last()[ctx.last().len() + i].1.name
                    == ctes[i].name by {
                    if i == 0 {
                        assert(ctx2.last()[ctx1.last().len() - 1] == ctx1.last()[ctx1.last().len()
                            - 1]);
                        assert(ctx1.last()[ctx.last().len() as int] == (ctes[0].name, named));
                    } else {
                        assert(ctes.drop_first()[i - 1] == ctes[i]);
                        assert((ctx2.last()[ctx1.last().len() + (i - 1)]).0 == ctes.drop_first()[i
                            - 1].name);
                    }
                }
            },
        }
    }
}

/// A lookup that finds nothing in a scope means no binding there has the
/// name.
pub proof fn lemma_lookup_none_absent(sc: ScopeView, name: Seq<u8>)
    requires
        lookup_scope(sc, name) is None,
    ensures
        forall|j: int| 0 <= j < sc.len() ==> (#[trigger] sc[j]).0 != name,
    decreases sc.len(),
{
    if sc.len() > 0 {
        lemma_lookup_none_absent(sc.drop_last(), name);
        assert forall|j: int| 0 <= j < sc.len() implies (#[trigger] sc[j]).0 != name by {
            if j < sc.len() - 1 {
                assert(sc.drop_last()[j] == sc[j]);
            }
        }
    }
}

/// Scope law, visibility half: once a `WITH` clause has registered its
/// CTEs, every CTE whose name no later CTE of the same clause reuses is
/// found under its name — so a CTE can be referenced by every CTE declared
/// after it and by the final body.
pub proof fn lemma_cte_visible(
    ctes: Seq<crate::parser::CteView>,
    ctx: ContextView,
    ctx2: ContextView,
    j: int,
)
    requires
        ctx.len() > 0,
        spec_register_ctes(ctes, ctx) == Ok::<ContextView, LineageErrorView>(ctx2),
        0 <= j < ctes.len(),
        forall|k: int| j < k < ctes.len() ==> (#[trigger] ctes[k]).name != ctes[j].name,
    ensures
        spec_get_model(ctx2, ctes[j].name) matches Some(m) && m.name == ctes[j].name,
{
    lemma_register_ctes_scopes(ctes, ctx, ctx2);
    let base = ctx.last().len() as int;
    assert forall|i2: int|
        base + j < i2 < ctx2.last().len() implies (#[trigger] ctx2.last()[i2]).0
        != ctes[j].name by {
        let k = i2 - base;
        assert((ctx2.last()[base + k]).0 == ctes[k].name);
    }
    lemma_lookup_scope_found(ctx2.last(), base + j, ctes[j].name);
}

/// Scope law, forward half: the context CTE `k` is resolved against is the
/// outer context grown by the CTEs before it alone.  A name that no outer
/// scope binds and that only CTEs at position `k` or later declare resolves
/// to nothing there: a CTE cannot reference one declared after it, and
/// neither can the clause's earlier CTEs.
pub proof fn lemma_later_cte_invisible(
    ctes: Seq<crate::parser::CteView>,
    ctx: ContextView,
    ctxk: ContextView,
    k: int,
    name: Seq<u8>,
)
    requires
        ctx.len() > 0,
        0 <= k <= ctes.len(),
        spec_register_ctes(ctes.take(k), ctx) == Ok::<ContextView, LineageErrorView>(ctxk),
        spec_get_model(ctx, name) is None,
        forall|i: int| 0 <= i < k ==> (#[trigger] ctes[i]).name != name,
    ensures
        spec_get_model(ctxk, name) is None,
{
    lemma_register_ctes_scopes(ctes.take(k), ctx, ctxk);
    lemma_lookup_none_absent(ctx.last(), name);
    let base = ctx.last().len() as int;
    assert forall|j: int| 0 <= j < ctxk.last().len() implies (#[trigger] ctxk.last()[j]).0
        != name by {
        if j < base {
            assert(ctxk.last()[j] == ctx.last()[j]);
        } else {
            assert((ctxk.last()[base + (j - base)]).0 == ctes.take(k)[j - base].name);
            assert(ctes.take(k)[j - base] == ctes[j - base]);
        }
    }
    lemma_lookup_scope_absent(ctxk.last(), name);
    assert(ctxk.drop_last() =~= ctx.drop_last());
}

} // verus!
