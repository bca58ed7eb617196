//! Compiling a planned operation on a mapped graph to one SQL statement.
use vstd::prelude::*;

use crate::analysis::index::spec_root;
use crate::analysis::projection::expression_path;
use crate::analysis::topology::spec_effectively_required;
use crate::compiled_graph::{derefs, dimension_positions, CompiledGraph};
use crate::definition::{spec_is_summary, GraphDefinition, OrderByDefinition, RelationCardinality, ScalarType};
use crate::expression::Expression;
use crate::mapping::CompiledRelationalMapping;
use crate::operation::QueryOperation;
use crate::planner::{build, ordering_items, plan_in_range, plan_outcome, plan_view, QueryPlan, SpecPlan};
use crate::sql::dialect::{dialect_name, join, joined, pagination_text, quote, supports_offset_fetch, texts_view, Dialect};
use crate::sql::render::{
    binding_state, bindings_fit, lemma_list_error_stays, names_in_order, render_list, render_orders, render_selected,
    render_expr, rendered, rendered_list, source_text, RenderContext, Renderer, SpecBinding,
};
use crate::sql::{sql_error_view, ParameterBinding, SqlColumn, SqlCompileError, SqlObject, SqlRelation, SqlStatement, SpecSqlError};
use crate::text::{concat, concat3, decimal_text, text, usize_text};
use crate::type_validation::projection_types;

verus! {

/// A result column as the rules describe it.
pub struct SpecColumn {
    pub name: Seq<char>,
    pub path: Seq<char>,
    pub scalar_type: ScalarType,
    pub nullable: bool,
    pub relations: Seq<Seq<char>>,
}

/// A joined relation as the rules describe it.
pub struct SpecRelation {
    pub name: Seq<char>,
    pub from: Seq<char>,
    pub to: Seq<char>,
    pub cardinality: RelationCardinality,
    pub required: bool,
}

/// A statement as the rules describe it; binding `k` is named `p` and `k`.
pub struct SpecStatement {
    pub sql: Seq<char>,
    pub bindings: Seq<SpecBinding>,
    pub columns: Seq<SpecColumn>,
    pub objects: Seq<SpecObject>,
    pub relations: Seq<SpecRelation>,
}

pub open spec fn column_name_text(k: int) -> Seq<char> {
    "c"@ + decimal_text(k as nat)
}

pub open spec fn relation_names(d: GraphDefinition, p: Seq<usize>) -> Seq<Seq<char>> {
    Seq::new(p.len(), |j: int| d.relations@[p[j] as int].name@)
}

/// The column that answers projection field `pi` at position `k` of the selection.
pub open spec fn column_of(g: CompiledGraph, k: int, pi: int) -> SpecColumn {
    let d = g.graph();
    let f = d.projection.fields@[pi];
    let ty = projection_types(d, g.graph_topology())[pi]->0;
    SpecColumn {
        name: column_name_text(k),
        path: joined(texts_view(f.path@), "."@),
        scalar_type: ty.scalar_type,
        nullable: ty.nullable,
        relations: relation_names(d, expression_path(d, g.graph_topology(), f.expression)),
    }
}

pub open spec fn columns_of(g: CompiledGraph, projections: Seq<usize>) -> Seq<SpecColumn> {
    Seq::new(projections.len(), |k: int| column_of(g, k, projections[k] as int))
}

pub open spec fn effectively_required(g: CompiledGraph, ri: int) -> bool {
    spec_effectively_required(g.graph(), g.graph_topology().relation_paths@, ri)
}

pub open spec fn relation_of(g: CompiledGraph, ri: int) -> SpecRelation {
    let r = g.graph().relations@[ri];
    SpecRelation {
        name: r.name@,
        from: r.from@,
        to: r.to@,
        cardinality: r.cardinality,
        required: effectively_required(g, ri),
    }
}

pub open spec fn relations_of(g: CompiledGraph, rels: Seq<usize>) -> Seq<SpecRelation> {
    Seq::new(rels.len(), |k: int| relation_of(g, rels[k] as int))
}

pub open spec fn projection_expressions(d: GraphDefinition, idx: Seq<usize>) -> Seq<Expression> {
    Seq::new(idx.len(), |k: int| d.projection.fields@[idx[k] as int].expression)
}

pub open spec fn constraint_predicates(d: GraphDefinition, idx: Seq<usize>) -> Seq<Expression> {
    Seq::new(idx.len(), |k: int| d.constraints@[idx[k] as int].predicate)
}

/// Select items: each rendered expression aliased as `prefix` and its position.
pub open spec fn aliased_items(dl: Dialect, xs: Seq<Seq<char>>, prefix: Seq<char>) -> Seq<Seq<char>> {
    Seq::new(xs.len(), |k: int| "  "@ + xs[k] + " AS "@ + quote(dl, prefix + decimal_text(k as nat)))
}

pub open spec fn object_presences(d: GraphDefinition, idx: Seq<usize>) -> Seq<Expression> {
    Seq::new(idx.len(), |k: int| d.projection.objects@[idx[k] as int].presence)
}

/// A projection object whose presence a statement reports.
pub struct SpecObject {
    pub path: Seq<char>,
    pub presence_column: Seq<char>,
}

pub open spec fn objects_of(d: GraphDefinition, idx: Seq<usize>) -> Seq<SpecObject> {
    Seq::new(
        idx.len(),
        |k: int| SpecObject {
            path: joined(texts_view(d.projection.objects@[idx[k] as int].path@), "."@),
            presence_column: "o"@ + decimal_text(k as nat),
        },
    )
}

/// A clause over a list of expressions: nothing when the list is empty, else the header
/// and the rendered expressions joined by `sep`.
pub open spec fn clause_text(c: RenderContext, es: Seq<Expression>, st: Seq<SpecBinding>, fuel: nat, header: Seq<char>, sep: Seq<char>) -> Result<(Seq<char>, Seq<SpecBinding>), SpecSqlError> {
    match render_list(c, es, es.len(), st, fuel) {
        Err(x) => Err(x),
        Ok((xs, s1)) => Ok(
            (
                if es.len() == 0 {
                    seq![]
                } else {
                    header + joined(xs, sep)
                },
                s1,
            ),
        ),
    }
}

/// The line that applies or joins the relation at position `ri`.
pub open spec fn relation_line(c: RenderContext, g: CompiledGraph, ri: int, st: Seq<SpecBinding>, fuel: nat) -> Result<(Seq<char>, Seq<SpecBinding>), SpecSqlError> {
    let rel = c.d.relations@[ri];
    let required = effectively_required(g, ri);
    match rel.selection {
        Some(_) => match render_selected(c, rel, st, fuel) {
            Err(x) => Err(x),
            Ok((target, s1)) => Ok(
                (
                    "\n"@ + (if required {
                        "CROSS APPLY"@
                    } else {
                        "OUTER APPLY"@
                    }) + " "@ + target,
                    s1,
                ),
            ),
        },
        None => match source_text(c, rel.to@) {
            Err(x) => Err(x),
            Ok(target) => match render_expr(c, rel.on, st, fuel) {
                Err(x) => Err(x),
                Ok((cond, s1)) => Ok(
                    (
                        "\n"@ + (if required {
                            "INNER JOIN"@
                        } else {
                            "LEFT JOIN"@
                        }) + " "@ + target + "\n  ON "@ + cond,
                        s1,
                    ),
                ),
            },
        },
    }
}

/// The lines for the first `n` planned relations.
pub open spec fn relation_lines(c: RenderContext, g: CompiledGraph, rels: Seq<usize>, n: nat, st: Seq<SpecBinding>, fuel: nat) -> Result<(Seq<char>, Seq<SpecBinding>), SpecSqlError>
    decreases n,
{
    if n == 0 || n > rels.len() {
        Ok((seq![], st))
    } else {
        match relation_lines(c, g, rels, (n - 1) as nat, st, fuel) {
            Err(x) => Err(x),
            Ok((text, s1)) => match relation_line(c, g, rels[n - 1] as int, s1, fuel) {
                Err(x) => Err(x),
                Ok((line, s2)) => Ok((text + line, s2)),
            },
        }
    }
}

pub open spec fn root_key(d: GraphDefinition) -> Seq<char> {
    d.sources@[spec_root(d)->0].key@
}

/// The statement text for a plan, with the bindings its placeholders name.
pub open spec fn statement_text(c: RenderContext, g: CompiledGraph, p: SpecPlan, fuel: nat) -> Result<(Seq<char>, Seq<SpecBinding>), SpecSqlError> {
    let d = c.d;
    match render_list(c, projection_expressions(d, p.projections), p.projections.len(), seq![], fuel) {
        Err(x) => Err(x),
        Ok((xs, s1)) => match render_list(c, object_presences(d, p.objects), p.objects.len(), s1, fuel) {
            Err(x) => Err(x),
            Ok((ys, s2)) => match source_text(c, root_key(d)) {
                Err(x) => Err(x),
                Ok(from) => statement_joins(
                    c,
                    g,
                    p,
                    "SELECT\n"@ + joined(aliased_items(c.dl, xs, "c"@) + aliased_items(c.dl, ys, "o"@), ",\n"@)
                        + "\nFROM "@ + from,
                    s2,
                    fuel,
                ),
            },
        },
    }
}

/// The statement after its `FROM` source: joins, then the `WHERE` clause.
pub open spec fn statement_joins(c: RenderContext, g: CompiledGraph, p: SpecPlan, head: Seq<char>, st: Seq<SpecBinding>, fuel: nat) -> Result<(Seq<char>, Seq<SpecBinding>), SpecSqlError> {
    match relation_lines(c, g, p.relations, p.relations.len(), st, fuel) {
        Err(x) => Err(x),
        Ok((joins, s1)) => match clause_text(c, constraint_predicates(c.d, p.before_aggregation), s1, fuel, "\nWHERE\n  "@, "\n  AND "@) {
            Err(x) => Err(x),
            Ok((w, s2)) => statement_grouping(c, p, head + joins + w, s2, fuel),
        },
    }
}

/// The statement after its `WHERE` clause: `GROUP BY` for a summary, then `HAVING`.
pub open spec fn statement_grouping(c: RenderContext, p: SpecPlan, head: Seq<char>, st: Seq<SpecBinding>, fuel: nat) -> Result<(Seq<char>, Seq<SpecBinding>), SpecSqlError> {
    let d = c.d;
    match (if spec_is_summary(d) {
        clause_text(
            c,
            projection_expressions(d, dimension_positions(d, d.projection.fields@.len() as int)),
            st,
            fuel,
            "\nGROUP BY\n  "@,
            ",\n  "@,
        )
    } else {
        Ok((seq![], st))
    }) {
        Err(x) => Err(x),
        Ok((gb, s1)) => match clause_text(c, constraint_predicates(d, p.after_aggregation), s1, fuel, "\nHAVING\n  "@, "\n  AND "@) {
            Err(x) => Err(x),
            Ok((h, s2)) => statement_order(c, p, head + gb + h, s2, fuel),
        },
    }
}

/// The statement after its `HAVING` clause: `ORDER BY`, then the page.
pub open spec fn statement_order(c: RenderContext, p: SpecPlan, head: Seq<char>, st: Seq<SpecBinding>, fuel: nat) -> Result<(Seq<char>, Seq<SpecBinding>), SpecSqlError> {
    let items = ordering_items(c.d, p.ordering);
    match render_orders(c, items, items.len(), st, fuel) {
        Err(x) => Err(x),
        Ok((os, s1)) => {
            let ordered = head + if items.len() == 0 {
                seq![]
            } else {
                "\nORDER BY\n  "@ + joined(os, ",\n  "@)
            };
            if p.offset is Some || p.limit is Some {
                if items.len() == 0 {
                    Err(SpecSqlError::PaginationRequiresOrder(dialect_name(c.dl)))
                } else {
                    match pagination_text(c.dl, p.offset, p.limit) {
                        Err(x) => Err(SpecSqlError::Dialect(x)),
                        Ok(pg) => Ok((ordered + pg, s1)),
                    }
                }
            } else {
                Ok((ordered, s1))
            }
        },
    }
}

/// How deeply relation predicates and orders are entered through `exists`: two steps
/// for each relation and two more.
pub open spec fn compile_fuel(d: GraphDefinition) -> nat {
    if 2 * d.relations@.len() + 2 <= usize::MAX {
        (2 * d.relations@.len() + 2) as nat
    } else {
        usize::MAX as nat
    }
}

pub open spec fn context_of(g: CompiledGraph, m: CompiledRelationalMapping, op: QueryOperation, dl: Dialect) -> RenderContext {
    RenderContext { d: g.graph(), t: g.graph_topology(), m: m.mapping_view(), op, dl }
}

/// The statement an operation compiles to, or why it does not compile.
pub open spec fn sql_outcome(g: CompiledGraph, m: CompiledRelationalMapping, op: QueryOperation, dl: Dialect) -> Result<SpecStatement, SpecSqlError> {
    match plan_outcome(g, op) {
        Err(e) => Err(SpecSqlError::Plan(e)),
        Ok(p) => match statement_text(context_of(g, m, op, dl), g, p, compile_fuel(g.graph())) {
            Err(x) => Err(x),
            Ok((sql, st)) => Ok(
                SpecStatement {
                    sql,
                    bindings: st,
                    columns: columns_of(g, p.projections),
                    objects: objects_of(g.graph(), p.objects),
                    relations: relations_of(g, p.relations),
                },
            ),
        },
    }
}

pub open spec fn column_view(c: SqlColumn) -> SpecColumn {
    SpecColumn {
        name: c.name@,
        path: c.path@,
        scalar_type: c.scalar_type,
        nullable: c.nullable,
        relations: texts_view(c.relations@),
    }
}

pub open spec fn relation_view(r: SqlRelation) -> SpecRelation {
    SpecRelation { name: r.name@, from: r.from@, to: r.to@, cardinality: r.cardinality, required: r.required }
}

pub open spec fn statement_view(s: SqlStatement) -> SpecStatement {
    SpecStatement {
        sql: s.sql@,
        bindings: binding_state(s.bindings@),
        columns: Seq::new(s.columns@.len(), |k: int| column_view(s.columns@[k])),
        objects: Seq::new(s.objects@.len(), |k: int| SpecObject { path: s.objects@[k].path@, presence_column: s.objects@[k].presence_column@ }),
        relations: Seq::new(s.relations@.len(), |k: int| relation_view(s.relations@[k])),
    }
}

fn projection_expression_refs<'a>(d: &'a GraphDefinition, idx: &Vec<usize>) -> (r: Vec<&'a Expression>)
    requires
        forall|k: int| 0 <= k < idx@.len() ==> (#[trigger] idx@[k]) < d.projection.fields@.len(),
    ensures
        derefs(r@) == projection_expressions(*d, idx@),
{
    let mut r: Vec<&Expression> = Vec::new();
    let mut k: usize = 0;
    while k < idx.len()
        invariant
            forall|j: int| 0 <= j < idx@.len() ==> (#[trigger] idx@[j]) < d.projection.fields@.len(),
            k <= idx@.len(),
            derefs(r@) == projection_expressions(*d, idx@.take(k as int)),
        decreases idx.len() - k,
    {
        let ghost prev = r@;
        r.push(&d.projection.fields[idx[k]].expression);
        let ghost x = d.projection.fields@[idx@[k as int] as int].expression;
        assert(derefs(r@) =~= derefs(prev).push(x));
        assert(projection_expressions(*d, idx@.take(k + 1)) =~= projection_expressions(*d, idx@.take(k as int)).push(x));
        k = k + 1;
    }
    assert(idx@.take(idx@.len() as int) =~= idx@);
    r
}

fn constraint_predicate_refs<'a>(d: &'a GraphDefinition, idx: &Vec<usize>) -> (r: Vec<&'a Expression>)
    requires
        forall|k: int| 0 <= k < idx@.len() ==> (#[trigger] idx@[k]) < d.constraints@.len(),
    ensures
        derefs(r@) == constraint_predicates(*d, idx@),
{
    let mut r: Vec<&Expression> = Vec::new();
    let mut k: usize = 0;
    while k < idx.len()
        invariant
            forall|j: int| 0 <= j < idx@.len() ==> (#[trigger] idx@[j]) < d.constraints@.len(),
            k <= idx@.len(),
            derefs(r@) == constraint_predicates(*d, idx@.take(k as int)),
        decreases idx.len() - k,
    {
        let ghost prev = r@;
        r.push(&d.constraints[idx[k]].predicate);
        let ghost x = d.constraints@[idx@[k as int] as int].predicate;
        assert(derefs(r@) =~= derefs(prev).push(x));
        assert(constraint_predicates(*d, idx@.take(k + 1)) =~= constraint_predicates(*d, idx@.take(k as int)).push(x));
        k = k + 1;
    }
    assert(idx@.take(idx@.len() as int) =~= idx@);
    r
}

/// The columns that answer the selected projection fields.
fn column_list(graph: &CompiledGraph, projections: &Vec<usize>) -> (r: Vec<SqlColumn>)
    requires
        forall|k: int| 0 <= k < projections@.len() ==> (#[trigger] projections@[k]) < graph.graph().projection.fields@.len(),
    ensures
        Seq::new(r@.len(), |k: int| column_view(r@[k])) == columns_of(*graph, projections@),
{
    let d = graph.definition();
    let mut r: Vec<SqlColumn> = Vec::new();
    let mut k: usize = 0;
    while k < projections.len()
        invariant
            *d == graph.graph(),
            forall|j: int| 0 <= j < projections@.len() ==> (#[trigger] projections@[j]) < graph.graph().projection.fields@.len(),
            k <= projections@.len(),
            r@.len() == k,
            forall|j: int| 0 <= j < k ==> column_view(#[trigger] r@[j]) == column_of(*graph, j, projections@[j] as int),
        decreases projections.len() - k,
    {
        let pi = projections[k];
        let field = &d.projection.fields[pi];
        let ty = graph.projection_type_at(pi);
        let path = graph.projection_path_at(pi);
        let mut names: Vec<String> = Vec::new();
        let mut j: usize = 0;
        while j < path.len()
            invariant
                *d == graph.graph(),
                forall|i: int| 0 <= i < path@.len() ==> (#[trigger] path@[i]) < d.relations@.len(),
                j <= path@.len(),
                texts_view(names@) == relation_names(*d, path@.take(j as int)),
            decreases path.len() - j,
        {
            let ghost prev = names@;
            names.push(text(d.relations[path[j]].name.as_str()));
            let ghost x = d.relations@[path@[j as int] as int].name@;
            assert(texts_view(names@) =~= texts_view(prev).push(x));
            assert(relation_names(*d, path@.take(j + 1)) =~= relation_names(*d, path@.take(j as int)).push(x));
            j = j + 1;
        }
        assert(path@.take(path@.len() as int) =~= path@);
        let column = SqlColumn {
            name: concat("c", usize_text(k).as_str()),
            path: join(&field.path, "."),
            scalar_type: ty.scalar_type,
            nullable: ty.nullable,
            relations: names,
        };
        assert(texts_view(field.path@) =~= Seq::new(field.path@.len(), |i: int| field.path@[i]@));
        r.push(column);
        k = k + 1;
    }
    assert(Seq::new(r@.len(), |k: int| column_view(r@[k])) =~= columns_of(*graph, projections@));
    r
}

/// The relations a statement joins, in plan order.
fn relation_list(graph: &CompiledGraph, rels: &Vec<usize>) -> (r: Vec<SqlRelation>)
    requires
        forall|k: int| 0 <= k < rels@.len() ==> (#[trigger] rels@[k]) < graph.graph().relations@.len(),
    ensures
        Seq::new(r@.len(), |k: int| relation_view(r@[k])) == relations_of(*graph, rels@),
{
    let d = graph.definition();
    let mut r: Vec<SqlRelation> = Vec::new();
    let mut k: usize = 0;
    while k < rels.len()
        invariant
            *d == graph.graph(),
            forall|j: int| 0 <= j < rels@.len() ==> (#[trigger] rels@[j]) < graph.graph().relations@.len(),
            k <= rels@.len(),
            r@.len() == k,
            forall|j: int| 0 <= j < k ==> relation_view(#[trigger] r@[j]) == relation_of(*graph, rels@[j] as int),
        decreases rels.len() - k,
    {
        let ri = rels[k];
        let rel = &d.relations[ri];
        r.push(SqlRelation {
            name: text(rel.name.as_str()),
            from: text(rel.from.as_str()),
            to: text(rel.to.as_str()),
            cardinality: rel.cardinality,
            required: graph.relation_is_effectively_required(ri),
        });
        k = k + 1;
    }
    assert(Seq::new(r@.len(), |k: int| relation_view(r@[k])) =~= relations_of(*graph, rels@));
    r
}

proof fn lemma_lines_error_stays(c: RenderContext, g: CompiledGraph, rels: Seq<usize>, k: nat, n: nat, st: Seq<SpecBinding>, fuel: nat)
    requires
        k <= n <= rels.len(),
        relation_lines(c, g, rels, k, st, fuel) is Err,
    ensures
        relation_lines(c, g, rels, n, st, fuel) == relation_lines(c, g, rels, k, st, fuel),
    decreases n - k,
{
    if k < n {
        lemma_lines_error_stays(c, g, rels, k, (n - 1) as nat, st, fuel);
    }
}

impl<'a> Renderer<'a> {
    /// Expressions rendered in order.
    fn render_each(&self, es: &Vec<&Expression>, bindings: &mut Vec<ParameterBinding>, fuel: usize) -> (r: Result<Vec<String>, SqlCompileError>)
        requires
            names_in_order(old(bindings)@),
            bindings_fit(self.context(), binding_state(old(bindings)@)),
        ensures
            rendered_list(r, final(bindings)@) == render_list(self.context(), derefs(es@), es@.len(), binding_state(old(bindings)@), fuel as nat),
            names_in_order(final(bindings)@),
            bindings_fit(self.context(), binding_state(final(bindings)@)),
    {
        let ghost c = self.context();
        let ghost st = binding_state(bindings@);
        let ghost all = derefs(es@);
        let mut out: Vec<String> = Vec::new();
        let mut i: usize = 0;
        assert(texts_view(out@) =~= Seq::<Seq<char>>::empty());
        while i < es.len()
            invariant
                c == self.context(),
                st == binding_state(old(bindings)@),
                all == derefs(es@),
                i <= es@.len(),
                names_in_order(bindings@),
                bindings_fit(self.context(), binding_state(bindings@)),
                render_list(c, all, i as nat, st, fuel as nat) == Ok::<(Seq<Seq<char>>, Seq<SpecBinding>), SpecSqlError>(
                    (texts_view(out@), binding_state(bindings@)),
                ),
            decreases es.len() - i,
        {
            let x = match self.render_expression(es[i], bindings, fuel) {
                Ok(x) => x,
                Err(err) => {
                    proof {
                        lemma_list_error_stays(c, all, (i + 1) as nat, es@.len(), st, fuel as nat);
                    }
                    return Err(err);
                },
            };
            let ghost prev = out@;
            out.push(x);
            assert(texts_view(out@) =~= texts_view(prev).push(x@));
            i = i + 1;
        }
        Ok(out)
    }

    /// A clause over a list of expressions.
    fn render_clause(&self, es: &Vec<&Expression>, header: &str, sep: &str, bindings: &mut Vec<ParameterBinding>, fuel: usize) -> (r: Result<String, SqlCompileError>)
        requires
            names_in_order(old(bindings)@),
            bindings_fit(self.context(), binding_state(old(bindings)@)),
        ensures
            rendered(r, final(bindings)@) == clause_text(self.context(), derefs(es@), binding_state(old(bindings)@), fuel as nat, header@, sep@),
            names_in_order(final(bindings)@),
            bindings_fit(self.context(), binding_state(final(bindings)@)),
    {
        let xs = match self.render_each(es, bindings, fuel) {
            Ok(xs) => xs,
            Err(err) => return Err(err),
        };
        if es.len() == 0 {
            Ok(String::new())
        } else {
            Ok(concat(header, join(&xs, sep).as_str()))
        }
    }

    /// The line that applies or joins the relation at position `ri`.
    fn render_relation_line(&self, ri: usize, bindings: &mut Vec<ParameterBinding>, fuel: usize) -> (r: Result<String, SqlCompileError>)
        requires
            names_in_order(old(bindings)@),
            bindings_fit(self.context(), binding_state(old(bindings)@)),
            ri < self.graph.graph().relations@.len(),
        ensures
            rendered(r, final(bindings)@) == relation_line(self.context(), *self.graph, ri as int, binding_state(old(bindings)@), fuel as nat),
            names_in_order(final(bindings)@),
            bindings_fit(self.context(), binding_state(final(bindings)@)),
    {
        let rel = &self.graph.definition().relations[ri];
        let required = self.graph.relation_is_effectively_required(ri);
        match &rel.selection {
            Some(_) => {
                let target = match self.render_selected(rel, bindings, fuel) {
                    Ok(t) => t,
                    Err(err) => return Err(err),
                };
                let kind = if required {
                    "CROSS APPLY"
                } else {
                    "OUTER APPLY"
                };
                let mut r = concat3("\n", kind, " ");
                r.append(target.as_str());
                Ok(r)
            },
            None => {
                let target = match self.render_source(rel.to.as_str()) {
                    Ok(t) => t,
                    Err(err) => return Err(err),
                };
                let condition = match self.render_expression(&rel.on, bindings, fuel) {
                    Ok(x) => x,
                    Err(err) => return Err(err),
                };
                let kind = if required {
                    "INNER JOIN"
                } else {
                    "LEFT JOIN"
                };
                let mut r = concat3("\n", kind, " ");
                r.append(target.as_str());
                r.append("\n  ON ");
                r.append(condition.as_str());
                assert(r@ =~= "\n"@ + kind@ + " "@ + target@ + "\n  ON "@ + condition@);
                Ok(r)
            },
        }
    }

    /// The lines for the planned relations, in plan order.
    fn render_relation_lines(&self, rels: &Vec<usize>, bindings: &mut Vec<ParameterBinding>, fuel: usize) -> (r: Result<String, SqlCompileError>)
        requires
            names_in_order(old(bindings)@),
            bindings_fit(self.context(), binding_state(old(bindings)@)),
            forall|k: int| 0 <= k < rels@.len() ==> (#[trigger] rels@[k]) < self.graph.graph().relations@.len(),
        ensures
            rendered(r, final(bindings)@) == relation_lines(self.context(), *self.graph, rels@, rels@.len(), binding_state(old(bindings)@), fuel as nat),
            names_in_order(final(bindings)@),
            bindings_fit(self.context(), binding_state(final(bindings)@)),
    {
        let ghost c = self.context();
        let ghost st = binding_state(bindings@);
        let mut out = String::new();
        let mut i: usize = 0;
        while i < rels.len()
            invariant
                c == self.context(),
                st == binding_state(old(bindings)@),
                forall|k: int| 0 <= k < rels@.len() ==> (#[trigger] rels@[k]) < self.graph.graph().relations@.len(),
                i <= rels@.len(),
                names_in_order(bindings@),
                bindings_fit(self.context(), binding_state(bindings@)),
                relation_lines(c, *self.graph, rels@, i as nat, st, fuel as nat) == Ok::<(Seq<char>, Seq<SpecBinding>), SpecSqlError>(
                    (out@, binding_state(bindings@)),
                ),
            decreases rels.len() - i,
        {
            let line = match self.render_relation_line(rels[i], bindings, fuel) {
                Ok(l) => l,
                Err(err) => {
                    proof {
                        lemma_lines_error_stays(c, *self.graph, rels@, (i + 1) as nat, rels@.len(), st, fuel as nat);
                    }
                    return Err(err);
                },
            };
            out.append(line.as_str());
            i = i + 1;
        }
        Ok(out)
    }
}

/// Select items: each rendered expression aliased as `prefix` and its position.
fn aliased_item_list(dialect: Dialect, xs: &Vec<String>, prefix: &str, out: &mut Vec<String>)
    ensures
        texts_view(final(out)@) == texts_view(old(out)@) + aliased_items(dialect, texts_view(xs@), prefix@),
{
    let ghost start = texts_view(out@);
    let ghost want = aliased_items(dialect, texts_view(xs@), prefix@);
    let mut k: usize = 0;
    while k < xs.len()
        invariant
            k <= xs@.len(),
            want == aliased_items(dialect, texts_view(xs@), prefix@),
            texts_view(out@) == start + want.take(k as int),
        decreases xs.len() - k,
    {
        let mut item = concat3("  ", xs[k].as_str(), " AS ");
        item.append(dialect.quote_identifier(concat(prefix, usize_text(k).as_str()).as_str()).as_str());
        let ghost prev = out@;
        out.push(item);
        proof {
            assert(want[k as int] =~= item@);
            assert(texts_view(out@) =~= texts_view(prev).push(item@));
            assert(want.take(k + 1) =~= want.take(k as int).push(want[k as int]));
        }
        k = k + 1;
    }
    assert(want.take(xs@.len() as int) =~= want);
}

fn object_presence_refs<'a>(d: &'a GraphDefinition, idx: &Vec<usize>) -> (r: Vec<&'a Expression>)
    requires
        forall|k: int| 0 <= k < idx@.len() ==> (#[trigger] idx@[k]) < d.projection.objects@.len(),
    ensures
        derefs(r@) == object_presences(*d, idx@),
{
    let mut r: Vec<&Expression> = Vec::new();
    let mut k: usize = 0;
    while k < idx.len()
        invariant
            forall|j: int| 0 <= j < idx@.len() ==> (#[trigger] idx@[j]) < d.projection.objects@.len(),
            k <= idx@.len(),
            derefs(r@) == object_presences(*d, idx@.take(k as int)),
        decreases idx.len() - k,
    {
        let ghost prev = r@;
        r.push(&d.projection.objects[idx[k]].presence);
        let ghost x = d.projection.objects@[idx@[k as int] as int].presence;
        assert(derefs(r@) =~= derefs(prev).push(x));
        assert(object_presences(*d, idx@.take(k + 1)) =~= object_presences(*d, idx@.take(k as int)).push(x));
        k = k + 1;
    }
    assert(idx@.take(idx@.len() as int) =~= idx@);
    r
}

/// The projection objects whose presence a statement reports.
fn object_list(d: &GraphDefinition, idx: &Vec<usize>) -> (r: Vec<SqlObject>)
    requires
        forall|k: int| 0 <= k < idx@.len() ==> (#[trigger] idx@[k]) < d.projection.objects@.len(),
    ensures
        Seq::new(r@.len(), |k: int| SpecObject { path: r@[k].path@, presence_column: r@[k].presence_column@ }) == objects_of(*d, idx@),
{
    let mut r: Vec<SqlObject> = Vec::new();
    let mut k: usize = 0;
    while k < idx.len()
        invariant
            forall|j: int| 0 <= j < idx@.len() ==> (#[trigger] idx@[j]) < d.projection.objects@.len(),
            k <= idx@.len(),
            r@.len() == k,
            forall|j: int| 0 <= j < k ==> (#[trigger] r@[j]).path@ == objects_of(*d, idx@)[j].path
                && r@[j].presence_column@ == objects_of(*d, idx@)[j].presence_column,
        decreases idx.len() - k,
    {
        let object = &d.projection.objects[idx[k]];
        assert(texts_view(object.path@) =~= Seq::new(object.path@.len(), |i: int| object.path@[i]@));
        r.push(SqlObject { path: join(&object.path, "."), presence_column: concat("o", usize_text(k).as_str()) });
        k = k + 1;
    }
    assert(Seq::new(r@.len(), |k: int| SpecObject { path: r@[k].path@, presence_column: r@[k].presence_column@ }) =~= objects_of(*d, idx@));
    r
}

impl<'a> Renderer<'a> {
    /// The statement text for a plan.
    fn statement_sql(&self, plan: &QueryPlan, bindings: &mut Vec<ParameterBinding>, fuel: usize) -> (r: Result<String, SqlCompileError>)
        requires
            old(bindings)@.len() == 0,
            plan_in_range(self.graph.graph(), plan_view(*plan)),
        ensures
            rendered(r, final(bindings)@) == statement_text(self.context(), *self.graph, plan_view(*plan), fuel as nat),
            names_in_order(final(bindings)@),
            bindings_fit(self.context(), binding_state(final(bindings)@)),
    {
        let d = self.graph.definition();
        assert(binding_state(bindings@) =~= Seq::<SpecBinding>::empty());
        let select_exprs = projection_expression_refs(d, &plan.projection_indices);
        let xs = match self.render_each(&select_exprs, bindings, fuel) {
            Ok(xs) => xs,
            Err(err) => return Err(err),
        };
        let presences = object_presence_refs(d, &plan.projection_object_indices);
        let ys = match self.render_each(&presences, bindings, fuel) {
            Ok(ys) => ys,
            Err(err) => return Err(err),
        };
        let root = self.graph.root();
        let from = match self.render_source(root.key.as_str()) {
            Ok(f) => f,
            Err(err) => return Err(err),
        };
        let mut items: Vec<String> = Vec::new();
        aliased_item_list(self.dialect, &xs, "c", &mut items);
        aliased_item_list(self.dialect, &ys, "o", &mut items);
        assert(texts_view(items@) =~= aliased_items(self.dialect, texts_view(xs@), "c"@) + aliased_items(self.dialect, texts_view(ys@), "o"@));
        let mut head = text("SELECT\n");
        head.append(join(&items, ",\n").as_str());
        head.append("\nFROM ");
        head.append(from.as_str());
        self.statement_joins(plan, head, bindings, fuel)
    }

    fn statement_joins(&self, plan: &QueryPlan, head: String, bindings: &mut Vec<ParameterBinding>, fuel: usize) -> (r: Result<String, SqlCompileError>)
        requires
            names_in_order(old(bindings)@),
            bindings_fit(self.context(), binding_state(old(bindings)@)),
            plan_in_range(self.graph.graph(), plan_view(*plan)),
        ensures
            rendered(r, final(bindings)@) == statement_joins(self.context(), *self.graph, plan_view(*plan), head@, binding_state(old(bindings)@), fuel as nat),
            names_in_order(final(bindings)@),
            bindings_fit(self.context(), binding_state(final(bindings)@)),
    {
        let d = self.graph.definition();
        let joins = match self.render_relation_lines(&plan.relation_indices, bindings, fuel) {
            Ok(j) => j,
            Err(err) => return Err(err),
        };
        let before = constraint_predicate_refs(d, &plan.pre_aggregation_constraint_indices);
        let w = match self.render_clause(&before, "\nWHERE\n  ", "\n  AND ", bindings, fuel) {
            Ok(w) => w,
            Err(err) => return Err(err),
        };
        let mut next = head;
        next.append(joins.as_str());
        next.append(w.as_str());
        self.statement_grouping(plan, next, bindings, fuel)
    }

    fn statement_grouping(&self, plan: &QueryPlan, head: String, bindings: &mut Vec<ParameterBinding>, fuel: usize) -> (r: Result<String, SqlCompileError>)
        requires
            names_in_order(old(bindings)@),
            bindings_fit(self.context(), binding_state(old(bindings)@)),
            plan_in_range(self.graph.graph(), plan_view(*plan)),
        ensures
            rendered(r, final(bindings)@) == statement_grouping(self.context(), plan_view(*plan), head@, binding_state(old(bindings)@), fuel as nat),
            names_in_order(final(bindings)@),
            bindings_fit(self.context(), binding_state(final(bindings)@)),
    {
        let d = self.graph.definition();
        let gb = if self.graph.is_summary() {
            let dims = projection_expression_refs(d, self.graph.dimension_projection_indices());
            match self.render_clause(&dims, "\nGROUP BY\n  ", ",\n  ", bindings, fuel) {
                Ok(g) => g,
                Err(err) => return Err(err),
            }
        } else {
            String::new()
        };
        let after = constraint_predicate_refs(d, &plan.post_aggregation_constraint_indices);
        let h = match self.render_clause(&after, "\nHAVING\n  ", "\n  AND ", bindings, fuel) {
            Ok(h) => h,
            Err(err) => return Err(err),
        };
        let mut next = head;
        next.append(gb.as_str());
        next.append(h.as_str());
        self.statement_order(plan, next, bindings, fuel)
    }

    fn statement_order(&self, plan: &QueryPlan, head: String, bindings: &mut Vec<ParameterBinding>, fuel: usize) -> (r: Result<String, SqlCompileError>)
        requires
            names_in_order(old(bindings)@),
            bindings_fit(self.context(), binding_state(old(bindings)@)),
            plan_in_range(self.graph.graph(), plan_view(*plan)),
        ensures
            rendered(r, final(bindings)@) == statement_order(self.context(), plan_view(*plan), head@, binding_state(old(bindings)@), fuel as nat),
            names_in_order(final(bindings)@),
            bindings_fit(self.context(), binding_state(final(bindings)@)),
    {
        let d = self.graph.definition();
        let empty: Vec<OrderByDefinition> = Vec::new();
        let items = match plan.ordering_index {
            Some(o) => &d.orderings[o].order_by,
            None => &empty,
        };
        assert(items@ == ordering_items(*d, plan_view(*plan).ordering));
        let os = match self.render_orders(items, bindings, fuel) {
            Ok(os) => os,
            Err(err) => return Err(err),
        };
        let ghost start = head@;
        let mut sql = head;
        if items.len() > 0 {
            sql.append("\nORDER BY\n  ");
            sql.append(join(&os, ",\n  ").as_str());
        }
        assert(sql@ =~= start + if items@.len() == 0 {
            seq![]
        } else {
            "\nORDER BY\n  "@ + joined(texts_view(os@), ",\n  "@)
        });
        if plan.offset.is_some() || plan.limit.is_some() {
            if items.len() == 0 {
                return Err(SqlCompileError::PaginationRequiresOrder { dialect: self.dialect.name() });
            }
            match self.dialect.render_pagination(plan.offset, plan.limit) {
                Ok(pg) => sql.append(pg.as_str()),
                Err(err) => return Err(SqlCompileError::from_dialect(err)),
            }
        }
        Ok(sql)
    }
}

/// Compiles an operation on a mapped graph to one statement in a dialect.
pub fn compile(graph: &CompiledGraph, mapping: &CompiledRelationalMapping, operation: &QueryOperation, dialect: Dialect) -> (r: Result<SqlStatement, SqlCompileError>)
    ensures
        match sql_outcome(*graph, *mapping, *operation, dialect) {
            Ok(s) => r matches Ok(x) && statement_view(x) == s && names_in_order(x.bindings@),
            Err(e) => r matches Err(x) && sql_error_view(x) == e,
        },
        r matches Ok(x) ==> bindings_fit(context_of(*graph, *mapping, *operation, dialect), binding_state(x.bindings@)),
{
    let plan = match build(graph, operation) {
        Ok(p) => p,
        Err(e) => return Err(SqlCompileError::Plan(e)),
    };
    let relation_count = graph.definition().relations.len();
    let fuel: usize = if relation_count <= (usize::MAX - 2) / 2 {
        2 * relation_count + 2
    } else {
        usize::MAX
    };
    assert(fuel as nat == compile_fuel(graph.graph()));
    let renderer = Renderer { graph, mapping, operation, dialect };
    assert(renderer.context() == context_of(*graph, *mapping, *operation, dialect));
    let mut bindings: Vec<ParameterBinding> = Vec::new();
    assert(binding_state(bindings@) =~= Seq::<SpecBinding>::empty());
    let sql = match renderer.statement_sql(&plan, &mut bindings, fuel) {
        Ok(s) => s,
        Err(err) => return Err(err),
    };
    let columns = column_list(graph, &plan.projection_indices);
    let objects = object_list(graph.definition(), &plan.projection_object_indices);
    let relations = relation_list(graph, &plan.relation_indices);
    Ok(SqlStatement { sql, bindings, columns, objects, relations })
}

/// Both dialects describe the same result: when an operation compiles in two dialects,
/// the statements have the same columns, objects and relations.
pub proof fn law_dialects_share_the_result_shape(
    g: CompiledGraph,
    m: CompiledRelationalMapping,
    op: QueryOperation,
    a: Dialect,
    b: Dialect,
)
    requires
        sql_outcome(g, m, op, a) is Ok,
        sql_outcome(g, m, op, b) is Ok,
    ensures
        sql_outcome(g, m, op, a)->Ok_0.columns == sql_outcome(g, m, op, b)->Ok_0.columns,
        sql_outcome(g, m, op, a)->Ok_0.objects == sql_outcome(g, m, op, b)->Ok_0.objects,
        sql_outcome(g, m, op, a)->Ok_0.relations == sql_outcome(g, m, op, b)->Ok_0.relations,
{
}

/// An operation that cannot be planned is refused with the planning error, in every
/// dialect.
pub proof fn law_planning_errors_come_first(g: CompiledGraph, m: CompiledRelationalMapping, op: QueryOperation, dl: Dialect)
    requires
        plan_outcome(g, op) is Err,
    ensures
        sql_outcome(g, m, op, dl) == Err::<SpecStatement, SpecSqlError>(SpecSqlError::Plan(plan_outcome(g, op)->Err_0)),
{
}

/// A page is only taken of an ordered result, in a dialect version that has `OFFSET` and
/// `FETCH`: an operation with an offset or a limit does not compile when its plan has
/// no order items or the dialect version lacks them.
pub proof fn law_pages_need_an_order(g: CompiledGraph, m: CompiledRelationalMapping, op: QueryOperation, dl: Dialect)
    requires
        op.offset is Some || op.limit is Some,
        plan_outcome(g, op) matches Ok(p) ==> ordering_items(g.graph(), p.ordering).len() == 0 || !supports_offset_fetch(dl),
    ensures
        sql_outcome(g, m, op, dl) is Err,
{
    if plan_outcome(g, op) is Ok {
        let p = plan_outcome(g, op)->Ok_0;
        let c = context_of(g, m, op, dl);
        let fuel = compile_fuel(g.graph());
        assert(p.offset == op.offset && p.limit == op.limit);
        assert forall|head: Seq<char>, st: Seq<SpecBinding>| #[trigger] statement_order(c, p, head, st, fuel) is Err by {
        }
        assert forall|head: Seq<char>, st: Seq<SpecBinding>| #[trigger] statement_grouping(c, p, head, st, fuel) is Err by {
        }
        assert forall|head: Seq<char>, st: Seq<SpecBinding>| #[trigger] statement_joins(c, g, p, head, st, fuel) is Err by {
        }
        assert(statement_text(c, g, p, fuel) is Err);
    }
}

proof fn lemma_joined_dots(x: Seq<Seq<char>>)
    ensures
        joined(x, "."@) == crate::path::join_dots(x),
    decreases x.len(),
{
    reveal_strlit(".");
    if x.len() > 1 {
        lemma_joined_dots(x.drop_last());
    }
}

proof fn lemma_selection_resolves(d: GraphDefinition, sel: Seq<Seq<char>>, n: int)
    requires
        0 <= n <= sel.len(),
        d.projection.fields@.len() <= usize::MAX,
        crate::operation::select_section(d, sel, n).len() == 0,
    ensures
        crate::operation::selected_indices(d, sel, n).len() == n,
        forall|k: int|
            0 <= k < n ==> crate::compiled_graph::spec_projection(d, crate::path::split_dots(sel[k])) == Some(
                #[trigger] crate::operation::selected_indices(d, sel, n)[k] as int,
            ),
    decreases n,
{
    if n > 0 {
        let k = n - 1;
        let prev = crate::operation::select_section(d, sel, k);
        assert(crate::operation::select_section(d, sel, n) == prev + if crate::operation::selected_twice(sel, k) {
            crate::operation::issue(
                crate::operation::OperationIssueCode::DuplicateSelection,
                crate::validation::at("select"@, k),
                "projection field "@ + crate::text::debug_text(sel[k]) + " is selected more than once"@,
            )
        } else if crate::compiled_graph::spec_projection(d, crate::path::split_dots(sel[k])) is None {
            crate::operation::issue(
                crate::operation::OperationIssueCode::UnknownSelection,
                crate::validation::at("select"@, k),
                "projection field "@ + crate::text::debug_text(sel[k]) + " is not defined"@,
            )
        } else {
            seq![]
        });
        lemma_selection_resolves(d, sel, k);
        let before = crate::operation::selected_indices(d, sel, k);
        let after = crate::operation::selected_indices(d, sel, n);
        assert forall|j: int| 0 <= j < n implies crate::compiled_graph::spec_projection(d, crate::path::split_dots(sel[j]))
            == Some(#[trigger] after[j] as int) by {
            if j < k {
                assert(after[j] == before[j]);
            } else {
                let pi = crate::compiled_graph::spec_projection(d, crate::path::split_dots(sel[k]))->0;
                lemma_projection_in_range(d, crate::path::split_dots(sel[k]), d.projection.fields@.len() as int);
                assert(0 <= pi < d.projection.fields@.len());
                assert(after[j] == pi as usize);
            }
        }
    }
}

proof fn lemma_projection_in_range(d: GraphDefinition, p: Seq<Seq<char>>, n: int)
    ensures
        crate::compiled_graph::projection_position(d, p, n) matches Some(k) ==> 0 <= k < n && crate::path::path_view(
            d.projection.fields@[k].path@,
        ) == p,
    decreases n,
{
    if n > 0 {
        lemma_projection_in_range(d, p, n - 1);
    }
}

/// The columns of a statement follow the selection: column `i` is named `c` and `i`, and
/// carries the `i`-th selected path (the paths the operation names, or else those selected
/// by default), joined with `.`. (Binding `j` is named `p` and `j`: `names_in_order` in
/// the contract of `compile`.)
pub proof fn law_columns_follow_the_selection(g: CompiledGraph, m: CompiledRelationalMapping, op: QueryOperation, dl: Dialect)
    requires
        sql_outcome(g, m, op, dl) is Ok,
        g.graph().projection.fields@.len() <= usize::MAX,
    ensures
        ({
            let s = sql_outcome(g, m, op, dl)->Ok_0;
            let sel = crate::operation::selection(op, g.graph());
            &&& s.columns.len() == sel.len()
            &&& forall|i: int| 0 <= i < sel.len() ==> (#[trigger] s.columns[i]).name == column_name_text(i) && s.columns[i].path == sel[i]
        }),
{
    let d = g.graph();
    let sel = crate::operation::selection(op, d);
    let p = plan_outcome(g, op)->Ok_0;
    assert(crate::operation::operation_issues(op, d).len() == 0);
    assert(crate::operation::select_section(d, sel, sel.len() as int).len() == 0);
    lemma_selection_resolves(d, sel, sel.len() as int);
    let s = sql_outcome(g, m, op, dl)->Ok_0;
    assert(p.projections == crate::operation::selected_indices(d, sel, sel.len() as int));
    assert forall|i: int| 0 <= i < sel.len() implies (#[trigger] s.columns[i]).name == column_name_text(i) && s.columns[i].path == sel[i] by {
        let pi = p.projections[i] as int;
        lemma_projection_in_range(d, crate::path::split_dots(sel[i]), d.projection.fields@.len() as int);
        let f = d.projection.fields@[pi];
        assert(texts_view(f.path@) =~= crate::path::path_view(f.path@));
        lemma_joined_dots(texts_view(f.path@));
        crate::path::lemma_join_split(sel[i]);
    }
}

} // verus!
