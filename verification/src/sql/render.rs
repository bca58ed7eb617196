//! Rendering the expressions, sources and relations of a mapped graph as SQL text.
use vstd::prelude::*;

use crate::analysis::index::{source_index, spec_parameter, spec_source};
use crate::analysis::topology::GraphTopology;
use crate::compiled_graph::CompiledGraph;
use crate::definition::{GraphDefinition, OrderByDefinition, RelationDefinition, RelationSelection, ScalarType};
use crate::expression::{Expression, LiteralValue};
use crate::mapping::{column_position, source_position, CompiledRelationalMapping, SpecSources};
use crate::operation::{bound, bound_index, ParameterValue, QueryOperation};
use crate::planner::{path_from_to, source_path, PlanError, SpecPlanError};
use crate::sql::dialect::{
    aggregate_text, first_by_text, function_text, join, joined, literal_text, order_text, placeholder, quote,
    single_row_source, table_reference, table_text, texts_view, Dialect,
};
use crate::sql::{sql_error_view, ParameterBinding, SqlCompileError, SpecSqlError};
use crate::text::{chars_of, concat, concat3, debug_quote, debug_text, decimal_text, push_char, str_eq, text, usize_text};

verus! {

/// What rendering reads: the graph, its topology, the mapping, the operation and the dialect.
pub struct RenderContext {
    pub d: GraphDefinition,
    pub t: GraphTopology,
    pub m: SpecSources,
    pub op: QueryOperation,
    pub dl: Dialect,
}

/// A binding as the rules describe it; its name is `p` and its position.
pub struct SpecBinding {
    pub parameter: Seq<char>,
    pub index: Option<usize>,
    pub scalar_type: ScalarType,
}

pub open spec fn binding_name(k: int) -> Seq<char> {
    "p"@ + decimal_text(k as nat)
}

/// The first of the first `n` bindings that takes `parameter` at `index`.
pub open spec fn binding_position(st: Seq<SpecBinding>, parameter: Seq<char>, index: Option<usize>, n: int) -> Option<int>
    decreases n,
{
    if n <= 0 {
        None
    } else {
        match binding_position(st, parameter, index, n - 1) {
            Some(k) => Some(k),
            None => if st[n - 1].parameter == parameter && st[n - 1].index == index {
                Some(n - 1)
            } else {
                None
            },
        }
    }
}

/// The placeholder for `parameter` at `index`: the binding made for it before, or a new one.
pub open spec fn bind(c: RenderContext, parameter: Seq<char>, index: Option<usize>, st: Seq<SpecBinding>) -> Result<(Seq<char>, Seq<SpecBinding>), SpecSqlError> {
    match spec_parameter(c.d, parameter) {
        None => Err(SpecSqlError::MissingParameter(parameter)),
        Some(pi) => match binding_position(st, parameter, index, st.len() as int) {
            Some(k) => Ok((placeholder(c.dl, binding_name(k)), st)),
            None => Ok(
                (
                    placeholder(c.dl, binding_name(st.len() as int)),
                    st.push(SpecBinding { parameter, index, scalar_type: c.d.parameters@[pi].scalar_type }),
                ),
            ),
        },
    }
}

/// Placeholders for the first `n` items of a list parameter.
pub open spec fn bind_range(c: RenderContext, parameter: Seq<char>, n: nat, st: Seq<SpecBinding>) -> Result<(Seq<Seq<char>>, Seq<SpecBinding>), SpecSqlError>
    decreases n,
{
    if n == 0 {
        Ok((seq![], st))
    } else {
        match bind_range(c, parameter, (n - 1) as nat, st) {
            Err(x) => Err(x),
            Ok((xs, s1)) => match bind(c, parameter, Some((n - 1) as usize), s1) {
                Err(x) => Err(x),
                Ok((x, s2)) => Ok((xs.push(x), s2)),
            },
        }
    }
}

/// The table alias of a source: `t` and the source's position.
pub open spec fn alias(c: RenderContext, key: Seq<char>) -> Option<Seq<char>> {
    match spec_source(c.d, key) {
        Some(i) => Some("t"@ + decimal_text(i as nat)),
        None => None,
    }
}

/// A source as a table reference with its alias.
pub open spec fn source_text(c: RenderContext, key: Seq<char>) -> Result<Seq<char>, SpecSqlError> {
    match source_position(c.m, key, c.m.len() as int) {
        None => Err(SpecSqlError::MissingSourceMapping(key)),
        Some(j) => match table_text(c.dl, c.m[j].1) {
            Err(e) => Err(SpecSqlError::Dialect(e)),
            Ok(table) => match alias(c, key) {
                None => Err(SpecSqlError::MissingSourceMapping(key)),
                Some(a) => Ok(table_reference(c.dl, table, a)),
            },
        },
    }
}

/// The physical column of a field: the mapped column, or the field's own name.
pub open spec fn column_name(c: RenderContext, j: int, field: Seq<char>) -> Seq<char> {
    let cols = c.m[j].2;
    match column_position(cols, field, cols.len() as int) {
        Some(k) => cols[k].1,
        None => field,
    }
}

/// A field as an aliased column.
pub open spec fn field_text(c: RenderContext, source: Seq<char>, field: Seq<char>) -> Result<Seq<char>, SpecSqlError> {
    match source_position(c.m, source, c.m.len() as int) {
        None => Err(SpecSqlError::MissingSourceMapping(source)),
        Some(j) => match alias(c, source) {
            None => Err(SpecSqlError::MissingSourceMapping(source)),
            Some(a) => Ok(quote(c.dl, a) + "."@ + quote(c.dl, column_name(c, j, field))),
        },
    }
}

pub open spec fn is_null_literal(e: Expression) -> bool {
    e matches Expression::Literal { value: LiteralValue::Null }
}

/// The number of items bound to a list parameter, when the operation binds a list to it.
pub open spec fn bound_list_count(op: QueryOperation, parameter: Seq<char>) -> Option<nat> {
    match bound(op, parameter) {
        Some(i) => match op.parameters@[i].1 {
            ParameterValue::Array(items) => Some(items@.len()),
            _ => None,
        },
        None => None,
    }
}

pub open spec fn invalid_graph(message: Seq<char>) -> SpecSqlError {
    SpecSqlError::Plan(SpecPlanError::InvalidCompiledGraph(message))
}

/// `WHERE` and `AND` lines of an `EXISTS` subquery.
pub open spec fn where_text(ws: Seq<Seq<char>>) -> Seq<char> {
    if ws.len() == 0 {
        seq![]
    } else {
        "\n    WHERE "@ + joined(ws, "\n      AND "@)
    }
}

/// Every line of `s` after the first indented by four spaces; a carriage return before a
/// line feed is dropped.
pub open spec fn indent_rest(s: Seq<char>) -> Seq<char>
    decreases s.len(),
{
    if s.len() == 0 {
        seq![]
    } else if s[0] == '\r' && s.len() > 1 && s[1] == '\n' {
        indent_rest(s.drop_first())
    } else if s[0] == '\n' {
        "\n    "@ + indent_rest(s.drop_first())
    } else {
        seq![s[0]] + indent_rest(s.drop_first())
    }
}

/// Every line of `s` indented by four spaces.
pub open spec fn indented(s: Seq<char>) -> Seq<char> {
    "    "@ + indent_rest(s)
}

pub open spec fn with_text(r: Result<(Seq<char>, Seq<SpecBinding>), SpecSqlError>, before: Seq<char>, after: Seq<char>) -> Result<(Seq<char>, Seq<SpecBinding>), SpecSqlError> {
    match r {
        Ok((s, st)) => Ok((before + s + after, st)),
        Err(x) => Err(x),
    }
}

/// An expression as SQL, with the bindings after it. `fuel` bounds how deeply the
/// predicates and orders of relations are entered through `exists`.
pub open spec fn render_expr(c: RenderContext, e: Expression, st: Seq<SpecBinding>, fuel: nat) -> Result<(Seq<char>, Seq<SpecBinding>), SpecSqlError>
    decreases fuel, e, 3nat, 0nat,
{
    match e {
        Expression::Field { source, field } => match field_text(c, source@, field@) {
            Ok(s) => Ok((s, st)),
            Err(x) => Err(x),
        },
        Expression::Parameter { name } => if bound(c.op, name@) is None {
            Err(SpecSqlError::MissingParameter(name@))
        } else {
            bind(c, name@, None, st)
        },
        Expression::Literal { value } => Ok((literal_text(c.dl, value), st)),
        Expression::Eq { left, right } => if is_null_literal(*right) {
            with_text(render_expr(c, *left, st, fuel), "("@, " IS NULL)"@)
        } else if is_null_literal(*left) {
            with_text(render_expr(c, *right, st, fuel), "("@, " IS NULL)"@)
        } else {
            match render_expr(c, *left, st, fuel) {
                Err(x) => Err(x),
                Ok((a, s1)) => with_text(render_expr(c, *right, s1, fuel), "("@ + a + " = "@, ")"@),
            }
        },
        Expression::NotEq { left, right } => if is_null_literal(*right) {
            with_text(render_expr(c, *left, st, fuel), "("@, " IS NOT NULL)"@)
        } else if is_null_literal(*left) {
            with_text(render_expr(c, *right, st, fuel), "("@, " IS NOT NULL)"@)
        } else {
            match render_expr(c, *left, st, fuel) {
                Err(x) => Err(x),
                Ok((a, s1)) => with_text(render_expr(c, *right, s1, fuel), "("@ + a + " <> "@, ")"@),
            }
        },
        Expression::LessThan { left, right } => match render_expr(c, *left, st, fuel) {
            Err(x) => Err(x),
            Ok((a, s1)) => with_text(render_expr(c, *right, s1, fuel), "("@ + a + " < "@, ")"@),
        },
        Expression::LessThanOrEqual { left, right } => match render_expr(c, *left, st, fuel) {
            Err(x) => Err(x),
            Ok((a, s1)) => with_text(render_expr(c, *right, s1, fuel), "("@ + a + " <= "@, ")"@),
        },
        Expression::GreaterThan { left, right } => match render_expr(c, *left, st, fuel) {
            Err(x) => Err(x),
            Ok((a, s1)) => with_text(render_expr(c, *right, s1, fuel), "("@ + a + " > "@, ")"@),
        },
        Expression::GreaterThanOrEqual { left, right } => match render_expr(c, *left, st, fuel) {
            Err(x) => Err(x),
            Ok((a, s1)) => with_text(render_expr(c, *right, s1, fuel), "("@ + a + " >= "@, ")"@),
        },
        Expression::Like { expression, pattern } => match render_expr(c, *expression, st, fuel) {
            Err(x) => Err(x),
            Ok((a, s1)) => with_text(render_expr(c, *pattern, s1, fuel), "("@ + a + " LIKE "@, ")"@),
        },
        Expression::In { expression, values } => match render_expr(c, *expression, st, fuel) {
            Err(x) => Err(x),
            Ok((a, s1)) => match render_list(c, values@, values@.len(), s1, fuel) {
                Err(x) => Err(x),
                Ok((vs, s2)) => Ok(("("@ + a + " IN ("@ + joined(vs, ", "@) + "))"@, s2)),
            },
        },
        Expression::InParameter { expression, parameter } => match render_expr(c, *expression, st, fuel) {
            Err(x) => Err(x),
            Ok((a, s1)) => match bound_list_count(c.op, parameter@) {
                None => Err(SpecSqlError::MissingParameter(parameter@)),
                Some(n) => if n == 0 {
                    Ok(("(1 = 0)"@, s1))
                } else {
                    match bind_range(c, parameter@, n, s1) {
                        Err(x) => Err(x),
                        Ok((ps, s2)) => Ok(("("@ + a + " IN ("@ + joined(ps, ", "@) + "))"@, s2)),
                    }
                },
            },
        },
        Expression::And { expressions } => match render_list(c, expressions@, expressions@.len(), st, fuel) {
            Err(x) => Err(x),
            Ok((xs, s1)) => Ok(("("@ + joined(xs, " AND "@) + ")"@, s1)),
        },
        Expression::Or { expressions } => match render_list(c, expressions@, expressions@.len(), st, fuel) {
            Err(x) => Err(x),
            Ok((xs, s1)) => Ok(("("@ + joined(xs, " OR "@) + ")"@, s1)),
        },
        Expression::Not { expression } => with_text(render_expr(c, *expression, st, fuel), "(NOT "@, ")"@),
        Expression::IsNull { expression } => with_text(render_expr(c, *expression, st, fuel), "("@, " IS NULL)"@),
        Expression::IsNotNull { expression } => with_text(
            render_expr(c, *expression, st, fuel),
            "("@,
            " IS NOT NULL)"@,
        ),
        Expression::Exists { .. } => render_exists(c, e, st, fuel),
        Expression::Function { name, arguments } => match render_list(c, arguments@, arguments@.len(), st, fuel) {
            Err(x) => Err(x),
            Ok((xs, s1)) => Ok((function_text(c.dl, name, xs), s1)),
        },
        Expression::Aggregate { function, expression } => match expression {
            Some(x) => match render_expr(c, *x, st, fuel) {
                Err(err) => Err(err),
                Ok((a, s1)) => Ok((aggregate_text(c.dl, function, Some(a)), s1)),
            },
            None => Ok((aggregate_text(c.dl, function, None), st)),
        },
    }
}

/// The first `n` expressions of a list, rendered in order.
pub open spec fn render_list(c: RenderContext, es: Seq<Expression>, n: nat, st: Seq<SpecBinding>, fuel: nat) -> Result<(Seq<Seq<char>>, Seq<SpecBinding>), SpecSqlError>
    decreases fuel, es, n, 0nat,
{
    if n == 0 || n > es.len() {
        Ok((seq![], st))
    } else {
        match render_list(c, es, (n - 1) as nat, st, fuel) {
            Err(x) => Err(x),
            Ok((xs, s1)) => match render_expr(c, es[n - 1], s1, fuel) {
                Err(x) => Err(x),
                Ok((x, s2)) => Ok((xs.push(x), s2)),
            },
        }
    }
}

/// The first `n` order items, rendered in order.
pub open spec fn render_orders(c: RenderContext, items: Seq<OrderByDefinition>, n: nat, st: Seq<SpecBinding>, fuel: nat) -> Result<(Seq<Seq<char>>, Seq<SpecBinding>), SpecSqlError>
    decreases fuel + 1, c, 0nat, n,
{
    if n == 0 || n > items.len() {
        Ok((seq![], st))
    } else {
        match render_orders(c, items, (n - 1) as nat, st, fuel) {
            Err(x) => Err(x),
            Ok((xs, s1)) => match render_expr(c, items[n - 1].expression, s1, fuel) {
                Err(x) => Err(x),
                Ok((x, s2)) => Ok((xs.push(order_text(c.dl, x, items[n - 1].direction, items[n - 1].nulls)), s2)),
            },
        }
    }
}

/// The relation path an `exists` crosses: from the correlation source, or from the root.
pub open spec fn exists_path(c: RenderContext, source: Seq<char>, from: Option<Seq<char>>) -> Option<Seq<usize>> {
    match from {
        None => source_path(c.d, c.t, source),
        Some(f) => path_from_to(c.d, c.t, f, source),
    }
}

pub open spec fn exists_missing_message(source: Seq<char>, from: Option<Seq<char>>) -> Seq<char> {
    match from {
        None => "exists expression refers to missing source "@ + debug_text(source),
        Some(f) => "exists expression source "@ + debug_text(source) + " is not reachable from "@ + debug_text(f),
    }
}

/// An `EXISTS` subquery over the relation path of its source.
pub open spec fn render_exists(c: RenderContext, e: Expression, st: Seq<SpecBinding>, fuel: nat) -> Result<(Seq<char>, Seq<SpecBinding>), SpecSqlError>
    decreases fuel, e, 2nat, 0nat,
{
    match e {
        Expression::Exists { source, from, predicate } => {
            let from_key = match from {
                Some(f) => Some(f@),
                None => None,
            };
            match exists_path(c, source@, from_key) {
                None => Err(invalid_graph(exists_missing_message(source@, from_key))),
                Some(p) => if p.len() == 0 {
                    Err(invalid_graph("exists expression source "@ + debug_text(source@) + " is the graph root"@))
                } else {
                    match exists_steps(c, e, p, p.len(), st, fuel) {
                        Err(x) => Err(x),
                        Ok((body, ws, s1)) => match predicate {
                            None => Ok(("EXISTS (\n    SELECT 1"@ + body + where_text(ws) + "\n  )"@, s1)),
                            Some(q) => match render_expr(c, *q, s1, fuel) {
                                Err(x) => Err(x),
                                Ok((w, s2)) => Ok(
                                    ("EXISTS (\n    SELECT 1"@ + body + where_text(ws.push(w)) + "\n  )"@, s2),
                                ),
                            },
                        },
                    }
                },
            }
        },
        _ => Ok((seq![], st)),
    }
}

pub open spec fn cycle_message(source: Seq<char>) -> Seq<char> {
    "exists expression source "@ + debug_text(source) + " leads back into its own relation predicates"@
}

/// The `FROM` and join lines for the first `n` relations of an `exists` path, with the
/// `WHERE` predicates they add.
pub open spec fn exists_steps(c: RenderContext, e: Expression, p: Seq<usize>, n: nat, st: Seq<SpecBinding>, fuel: nat) -> Result<(Seq<char>, Seq<Seq<char>>, Seq<SpecBinding>), SpecSqlError>
    decreases fuel, e, 1nat, n,
{
    if n == 0 || n > p.len() {
        Ok((seq![], seq![], st))
    } else {
        match exists_steps(c, e, p, (n - 1) as nat, st, fuel) {
            Err(x) => Err(x),
            Ok((body, ws, s1)) => exists_step(c, e, p[n - 1] as int, n == 1, body, ws, s1, fuel),
        }
    }
}

/// One relation of an `exists` path: the first one opens the `FROM` clause, a selected
/// one is applied, any other is joined.
pub open spec fn exists_step(
    c: RenderContext,
    e: Expression,
    ri: int,
    first: bool,
    body: Seq<char>,
    ws: Seq<Seq<char>>,
    st: Seq<SpecBinding>,
    fuel: nat,
) -> Result<(Seq<char>, Seq<Seq<char>>, Seq<SpecBinding>), SpecSqlError>
    decreases fuel, e, 0nat, 0nat,
{
    if fuel == 0 {
        Err(invalid_graph(cycle_message(e->Exists_source@)))
    } else {
        let rel = c.d.relations@[ri];
        match rel.selection {
            Some(_) => match render_selected(c, rel, st, (fuel - 1) as nat) {
                Err(x) => Err(x),
                Ok((target, s2)) => Ok(
                    (
                        body + (if first {
                            "\n    FROM "@ + single_row_source(c.dl, "__qg_seed"@)
                        } else {
                            seq![]
                        }) + "\n    CROSS APPLY "@ + target,
                        ws,
                        s2,
                    ),
                ),
            },
            None => match source_text(c, rel.to@) {
                Err(x) => Err(x),
                Ok(target) => match render_expr(c, rel.on, st, (fuel - 1) as nat) {
                    Err(x) => Err(x),
                    Ok((cond, s2)) => if first {
                        Ok((body + "\n    FROM "@ + target, ws.push(cond), s2))
                    } else {
                        Ok((body + "\n    INNER JOIN "@ + target + "\n      ON "@ + cond, ws, s2))
                    },
                },
            },
        }
    }
}

pub open spec fn relation_cycle_message(name: Seq<char>) -> Seq<char> {
    "relation "@ + debug_text(name) + " leads back into its own predicates"@
}

/// A relation with a `firstBy` selection as a derived table that picks one row; its
/// orders and predicate are rendered with one unit of fuel less.
pub open spec fn render_selected(c: RenderContext, rel: RelationDefinition, st: Seq<SpecBinding>, fuel: nat) -> Result<(Seq<char>, Seq<SpecBinding>), SpecSqlError>
    decreases fuel, c, 4nat, 0nat,
{
    match rel.selection {
        None => Err(invalid_graph("relation "@ + debug_text(rel.name@) + " has no selection strategy"@)),
        Some(RelationSelection::FirstBy { order_by }) => if fuel == 0 {
            Err(invalid_graph(relation_cycle_message(rel.name@)))
        } else {
            match render_orders(c, order_by@, order_by@.len(), st, (fuel - 1) as nat) {
            Err(x) => Err(x),
            Ok((orders, s1)) => if orders.len() == 0 {
                Err(invalid_graph("relation "@ + debug_text(rel.name@) + " has an empty firstBy order"@))
            } else {
                match alias(c, rel.to@) {
                    None => Err(SpecSqlError::MissingSourceMapping(rel.to@)),
                    Some(a) => match source_text(c, rel.to@) {
                        Err(x) => Err(x),
                        Ok(source) => match render_expr(c, rel.on, s1, (fuel - 1) as nat) {
                            Err(x) => Err(x),
                            Ok((predicate, s2)) => match first_by_text(c.dl, quote(c.dl, a) + ".*"@, source, predicate, orders) {
                                Err(x) => Err(SpecSqlError::Dialect(x)),
                                Ok(q) => Ok((table_reference(c.dl, "(\n"@ + indented(q) + "\n  )"@, a), s2)),
                            },
                        },
                    },
                }
            },
            }
        },
    }
}

/// What a renderer reads: the graph, its mapping, the operation and the dialect.
pub struct Renderer<'a> {
    pub graph: &'a CompiledGraph,
    pub mapping: &'a CompiledRelationalMapping,
    pub operation: &'a QueryOperation,
    pub dialect: Dialect,
}

impl<'a> Renderer<'a> {
    pub open spec fn context(&self) -> RenderContext {
        RenderContext {
            d: self.graph.graph(),
            t: self.graph.graph_topology(),
            m: self.mapping.mapping_view(),
            op: *self.operation,
            dl: self.dialect,
        }
    }
}

pub open spec fn binding_state(b: Seq<ParameterBinding>) -> Seq<SpecBinding> {
    Seq::new(
        b.len(),
        |k: int| SpecBinding { parameter: b[k].parameter@, index: b[k].index, scalar_type: b[k].scalar_type },
    )
}

/// A binding fits an operation when it takes a parameter that the graph declares, with
/// the declared type, and that the operation binds; a binding of a list item takes an
/// item that the bound list has.
pub open spec fn binding_fits(c: RenderContext, b: SpecBinding) -> bool {
    &&& spec_parameter(c.d, b.parameter) matches Some(pi) && b.scalar_type == c.d.parameters@[pi].scalar_type
    &&& bound(c.op, b.parameter) is Some
    &&& (b.index matches Some(k) ==> bound_list_count(c.op, b.parameter) matches Some(n) && k < n)
}

/// Every binding fits, and no two take the same parameter at the same position.
pub open spec fn bindings_fit(c: RenderContext, st: Seq<SpecBinding>) -> bool {
    &&& forall|k: int| 0 <= k < st.len() ==> binding_fits(c, #[trigger] st[k])
    &&& forall|j: int, k: int|
        0 <= j < k < st.len() ==> !(st[j].parameter == st[k].parameter && st[j].index == st[k].index)
}

/// Binding `k` is named `p` and `k`.
pub open spec fn names_in_order(b: Seq<ParameterBinding>) -> bool {
    forall|k: int| 0 <= k < b.len() ==> (#[trigger] b[k]).name@ == binding_name(k)
}

pub open spec fn rendered(r: Result<String, SqlCompileError>, b: Seq<ParameterBinding>) -> Result<(Seq<char>, Seq<SpecBinding>), SpecSqlError> {
    match r {
        Ok(s) => Ok((s@, binding_state(b))),
        Err(x) => Err(sql_error_view(x)),
    }
}

pub open spec fn rendered_list(r: Result<Vec<String>, SqlCompileError>, b: Seq<ParameterBinding>) -> Result<(Seq<Seq<char>>, Seq<SpecBinding>), SpecSqlError> {
    match r {
        Ok(v) => Ok((texts_view(v@), binding_state(b))),
        Err(x) => Err(sql_error_view(x)),
    }
}

pub open spec fn text_result(r: Result<String, SqlCompileError>) -> Result<Seq<char>, SpecSqlError> {
    match r {
        Ok(s) => Ok(s@),
        Err(x) => Err(sql_error_view(x)),
    }
}

pub(crate) proof fn lemma_list_error_stays(c: RenderContext, es: Seq<Expression>, k: nat, n: nat, st: Seq<SpecBinding>, fuel: nat)
    requires
        k <= n <= es.len(),
        render_list(c, es, k, st, fuel) is Err,
    ensures
        render_list(c, es, n, st, fuel) == render_list(c, es, k, st, fuel),
    decreases n - k,
{
    if k < n {
        lemma_list_error_stays(c, es, k, (n - 1) as nat, st, fuel);
    }
}

proof fn lemma_orders_error_stays(c: RenderContext, items: Seq<OrderByDefinition>, k: nat, n: nat, st: Seq<SpecBinding>, fuel: nat)
    requires
        k <= n <= items.len(),
        render_orders(c, items, k, st, fuel) is Err,
    ensures
        render_orders(c, items, n, st, fuel) == render_orders(c, items, k, st, fuel),
    decreases n - k,
{
    if k < n {
        lemma_orders_error_stays(c, items, k, (n - 1) as nat, st, fuel);
    }
}

proof fn lemma_range_error_stays(c: RenderContext, parameter: Seq<char>, k: nat, n: nat, st: Seq<SpecBinding>)
    requires
        k <= n,
        bind_range(c, parameter, k, st) is Err,
    ensures
        bind_range(c, parameter, n, st) == bind_range(c, parameter, k, st),
    decreases n - k,
{
    if k < n {
        lemma_range_error_stays(c, parameter, k, (n - 1) as nat, st);
    }
}

proof fn lemma_steps_error_stays(c: RenderContext, e: Expression, p: Seq<usize>, k: nat, n: nat, st: Seq<SpecBinding>, fuel: nat)
    requires
        k <= n <= p.len(),
        exists_steps(c, e, p, k, st, fuel) is Err,
    ensures
        exists_steps(c, e, p, n, st, fuel) == exists_steps(c, e, p, k, st, fuel),
    decreases n - k,
{
    if k < n {
        lemma_steps_error_stays(c, e, p, k, (n - 1) as nat, st, fuel);
    }
}

proof fn lemma_binding_position_stays(st: Seq<SpecBinding>, parameter: Seq<char>, index: Option<usize>, k: int, n: int)
    requires
        k <= n,
        binding_position(st, parameter, index, k) is Some,
    ensures
        binding_position(st, parameter, index, n) == binding_position(st, parameter, index, k),
    decreases n - k,
{
    if k < n {
        lemma_binding_position_stays(st, parameter, index, k, n - 1);
    }
}

/// Every line of `s` indented by four spaces.
pub fn indent(s: &str) -> (r: String)
    ensures
        r@ == indented(s@),
{
    let chars = chars_of(s);
    let n = chars.len();
    let mut r = text("    ");
    let mut i: usize = 0;
    assert(s@.subrange(0, n as int) =~= s@);
    while i < n
        invariant
            n == chars@.len(),
            chars@ == s@,
            i <= n,
            r@ + indent_rest(s@.subrange(i as int, n as int)) == indented(s@),
        decreases n - i,
    {
        let ghost rest = s@.subrange(i as int, n as int);
        assert(rest.drop_first() =~= s@.subrange(i + 1, n as int));
        if chars[i] == '\r' && i + 1 < n && chars[i + 1] == '\n' {
            assert(rest[1] == '\n');
        } else if chars[i] == '\n' {
            r.append("\n    ");
            assert(r@ + indent_rest(s@.subrange(i + 1, n as int)) =~= indented(s@));
        } else {
            push_char(&mut r, chars[i]);
            assert(r@ + indent_rest(s@.subrange(i + 1, n as int)) =~= indented(s@));
        }
        i = i + 1;
    }
    assert(s@.subrange(n as int, n as int) =~= Seq::<char>::empty());
    r
}

fn same_index(a: Option<usize>, b: Option<usize>) -> (r: bool)
    ensures
        r == (a == b),
{
    match (a, b) {
        (None, None) => true,
        (Some(x), Some(y)) => x == y,
        _ => false,
    }
}

impl<'a> Renderer<'a> {
    /// The alias of a source.
    pub fn source_alias(&self, key: &str) -> (r: Result<String, SqlCompileError>)
        ensures
            match alias(self.context(), key@) {
                Some(a) => r matches Ok(x) && x@ == a,
                None => r matches Err(x) && sql_error_view(x) == SpecSqlError::MissingSourceMapping(key@),
            },
    {
        match source_index(self.graph.definition(), key) {
            Some(i) => Ok(concat("t", usize_text(i).as_str())),
            None => Err(SqlCompileError::MissingSourceMapping(text(key))),
        }
    }

    /// A source as a table reference with its alias.
    pub fn render_source(&self, key: &str) -> (r: Result<String, SqlCompileError>)
        ensures
            text_result(r) == source_text(self.context(), key@),
    {
        let source_mapping = match self.mapping.source(key) {
            Some(m) => m,
            None => return Err(SqlCompileError::MissingSourceMapping(text(key))),
        };
        let table = match self.dialect.render_table_name(&source_mapping.table) {
            Ok(t) => t,
            Err(e) => return Err(SqlCompileError::from_dialect(e)),
        };
        let a = match self.source_alias(key) {
            Ok(a) => a,
            Err(x) => return Err(x),
        };
        Ok(self.dialect.render_table_reference(table.as_str(), a.as_str()))
    }

    /// A field as an aliased column.
    pub fn render_field(&self, source: &str, field: &str) -> (r: Result<String, SqlCompileError>)
        ensures
            text_result(r) == field_text(self.context(), source@, field@),
    {
        let column = match self.mapping.column(source, field) {
            Some(c) => c,
            None => return Err(SqlCompileError::MissingSourceMapping(text(source))),
        };
        let a = match self.source_alias(source) {
            Ok(a) => a,
            Err(x) => return Err(x),
        };
        Ok(concat3(self.dialect.quote_identifier(a.as_str()).as_str(), ".", self.dialect.quote_identifier(column).as_str()))
    }

    /// The placeholder for `parameter` at `index`, binding it on first use.
    pub fn bind_parameter(&self, parameter: &str, index: Option<usize>, bindings: &mut Vec<ParameterBinding>) -> (r: Result<String, SqlCompileError>)
        requires
            names_in_order(old(bindings)@),
            bindings_fit(self.context(), binding_state(old(bindings)@)),
            bound(*self.operation, parameter@) is Some,
            index matches Some(k) ==> bound_list_count(*self.operation, parameter@) matches Some(n) && k < n,
        ensures
            rendered(r, final(bindings)@) == bind(self.context(), parameter@, index, binding_state(old(bindings)@)),
            names_in_order(final(bindings)@),
            bindings_fit(self.context(), binding_state(final(bindings)@)),
    {
        let ghost st = binding_state(bindings@);
        let definition = match self.graph.parameter(parameter) {
            Some(p) => p,
            None => return Err(SqlCompileError::MissingParameter(text(parameter))),
        };
        let mut k: usize = 0;
        while k < bindings.len()
            invariant
                st == binding_state(bindings@),
                names_in_order(bindings@),
                bindings_fit(self.context(), binding_state(bindings@)),
                spec_parameter(self.context().d, parameter@) is Some,
                k <= bindings@.len(),
                binding_position(st, parameter@, index, k as int) is None,
                forall|j: int| 0 <= j < k ==> !(#[trigger] st[j].parameter == parameter@ && st[j].index == index),
            decreases bindings.len() - k,
        {
            if str_eq(bindings[k].parameter.as_str(), parameter) && same_index(bindings[k].index, index) {
                assert(st[k as int].parameter == parameter@ && st[k as int].index == index);
                assert(binding_position(st, parameter@, index, k + 1) == Some(k as int));
                proof {
                    lemma_binding_position_stays(st, parameter@, index, (k + 1) as int, st.len() as int);
                }
                assert(bindings@[k as int].name@ == binding_name(k as int));
                return Ok(self.dialect.render_placeholder(bindings[k].name.as_str()));
            }
            k = k + 1;
        }
        let name = concat("p", usize_text(bindings.len()).as_str());
        let placeholder_text = self.dialect.render_placeholder(name.as_str());
        bindings.push(ParameterBinding { name, parameter: text(parameter), scalar_type: definition.scalar_type, index });
        proof {
            let pi = spec_parameter(self.context().d, parameter@)->0;
            assert(binding_state(bindings@) =~= st.push(
                SpecBinding { parameter: parameter@, index, scalar_type: self.context().d.parameters@[pi].scalar_type },
            ));
        }
        Ok(placeholder_text)
    }
}

fn is_null_literal_exec(e: &Expression) -> (r: bool)
    ensures
        r == is_null_literal(*e),
{
    match e {
        Expression::Literal { value: LiteralValue::Null } => true,
        _ => false,
    }
}

impl<'a> Renderer<'a> {
    /// An expression as SQL; the bindings it needs are added in order.
    pub fn render_expression(&self, e: &Expression, bindings: &mut Vec<ParameterBinding>, fuel: usize) -> (r: Result<String, SqlCompileError>)
        requires
            names_in_order(old(bindings)@),
            bindings_fit(self.context(), binding_state(old(bindings)@)),
        ensures
            rendered(r, final(bindings)@) == render_expr(self.context(), *e, binding_state(old(bindings)@), fuel as nat),
            names_in_order(final(bindings)@),
            bindings_fit(self.context(), binding_state(final(bindings)@)),
        decreases fuel, *e, 3nat, 0nat,
    {
        match e {
            Expression::Field { source, field } => match self.render_field(source.as_str(), field.as_str()) {
                Ok(s) => Ok(s),
                Err(x) => Err(x),
            },
            Expression::Parameter { name } => {
                if bound_index(self.operation, name.as_str()).is_none() {
                    return Err(SqlCompileError::MissingParameter(text(name.as_str())));
                }
                self.bind_parameter(name.as_str(), None, bindings)
            },
            Expression::Literal { value } => Ok(self.dialect.render_literal(value)),
            Expression::Eq { left, right } => self.render_comparison(e, left, right, " = ", " IS NULL)", bindings, fuel),
            Expression::NotEq { left, right } => self.render_comparison(e, left, right, " <> ", " IS NOT NULL)", bindings, fuel),
            Expression::LessThan { left, right } => self.render_pair(e, left, right, " < ", bindings, fuel),
            Expression::LessThanOrEqual { left, right } => self.render_pair(e, left, right, " <= ", bindings, fuel),
            Expression::GreaterThan { left, right } => self.render_pair(e, left, right, " > ", bindings, fuel),
            Expression::GreaterThanOrEqual { left, right } => self.render_pair(e, left, right, " >= ", bindings, fuel),
            Expression::Like { expression, pattern } => self.render_pair(e, expression, pattern, " LIKE ", bindings, fuel),
            Expression::In { .. } => self.render_in(e, bindings, fuel),
            Expression::InParameter { .. } => self.render_in_parameter(e, bindings, fuel),
            Expression::And { .. } | Expression::Or { .. } => self.render_group(e, bindings, fuel),
            Expression::Not { expression } => self.render_wrapped(e, expression, "(NOT ", ")", bindings, fuel),
            Expression::IsNull { expression } => self.render_wrapped(e, expression, "(", " IS NULL)", bindings, fuel),
            Expression::IsNotNull { expression } => self.render_wrapped(e, expression, "(", " IS NOT NULL)", bindings, fuel),
            Expression::Exists { .. } => self.render_exists(e, bindings, fuel),
            Expression::Function { .. } => self.render_function_call(e, bindings, fuel),
            Expression::Aggregate { function, expression } => match expression {
                Some(x) => {
                    let a = match self.render_expression(x, bindings, fuel) {
                        Ok(a) => a,
                        Err(err) => return Err(err),
                    };
                    Ok(self.dialect.render_aggregate(*function, Some(a.as_str())))
                },
                None => Ok(self.dialect.render_aggregate(*function, None)),
            },
        }
    }

    fn render_wrapped(
        &self,
        e: &Expression,
        child: &Expression,
        before: &str,
        after: &str,
        bindings: &mut Vec<ParameterBinding>,
        fuel: usize,
    ) -> (r: Result<String, SqlCompileError>)
        requires
            names_in_order(old(bindings)@),
            bindings_fit(self.context(), binding_state(old(bindings)@)),
            decreases_to!(*e => *child),
        ensures
            rendered(r, final(bindings)@) == with_text(
                render_expr(self.context(), *child, binding_state(old(bindings)@), fuel as nat),
                before@,
                after@,
            ),
            names_in_order(final(bindings)@),
            bindings_fit(self.context(), binding_state(final(bindings)@)),
        decreases fuel, *e, 2nat, 0nat,
    {
        let x = match self.render_expression(child, bindings, fuel) {
            Ok(x) => x,
            Err(err) => return Err(err),
        };
        Ok(concat3(before, x.as_str(), after))
    }

    fn render_pair(
        &self,
        e: &Expression,
        left: &Expression,
        right: &Expression,
        infix: &str,
        bindings: &mut Vec<ParameterBinding>,
        fuel: usize,
    ) -> (r: Result<String, SqlCompileError>)
        requires
            names_in_order(old(bindings)@),
            bindings_fit(self.context(), binding_state(old(bindings)@)),
            decreases_to!(*e => *left),
            decreases_to!(*e => *right),
        ensures
            rendered(r, final(bindings)@) == (match render_expr(self.context(), *left, binding_state(old(bindings)@), fuel as nat) {
                Err(x) => Err(x),
                Ok((a, s1)) => with_text(render_expr(self.context(), *right, s1, fuel as nat), "("@ + a + infix@, ")"@),
            }),
            names_in_order(final(bindings)@),
            bindings_fit(self.context(), binding_state(final(bindings)@)),
        decreases fuel, *e, 2nat, 0nat,
    {
        let a = match self.render_expression(left, bindings, fuel) {
            Ok(a) => a,
            Err(err) => return Err(err),
        };
        let b = match self.render_expression(right, bindings, fuel) {
            Ok(b) => b,
            Err(err) => return Err(err),
        };
        let mut r = concat3("(", a.as_str(), infix);
        r.append(b.as_str());
        r.append(")");
        assert(r@ =~= ("("@ + a@ + infix@) + b@ + ")"@);
        Ok(r)
    }

    fn render_comparison(
        &self,
        e: &Expression,
        left: &Expression,
        right: &Expression,
        infix: &str,
        null_test: &str,
        bindings: &mut Vec<ParameterBinding>,
        fuel: usize,
    ) -> (r: Result<String, SqlCompileError>)
        requires
            names_in_order(old(bindings)@),
            bindings_fit(self.context(), binding_state(old(bindings)@)),
            decreases_to!(*e => *left),
            decreases_to!(*e => *right),
        ensures
            rendered(r, final(bindings)@) == (if is_null_literal(*right) {
                with_text(render_expr(self.context(), *left, binding_state(old(bindings)@), fuel as nat), "("@, null_test@)
            } else if is_null_literal(*left) {
                with_text(render_expr(self.context(), *right, binding_state(old(bindings)@), fuel as nat), "("@, null_test@)
            } else {
                match render_expr(self.context(), *left, binding_state(old(bindings)@), fuel as nat) {
                    Err(x) => Err(x),
                    Ok((a, s1)) => with_text(render_expr(self.context(), *right, s1, fuel as nat), "("@ + a + infix@, ")"@),
                }
            }),
            names_in_order(final(bindings)@),
            bindings_fit(self.context(), binding_state(final(bindings)@)),
        decreases fuel, *e, 2nat, 1nat,
    {
        if is_null_literal_exec(right) {
            self.render_wrapped(e, left, "(", null_test, bindings, fuel)
        } else if is_null_literal_exec(left) {
            self.render_wrapped(e, right, "(", null_test, bindings, fuel)
        } else {
            self.render_pair(e, left, right, infix, bindings, fuel)
        }
    }

    /// The expressions of a list, rendered in order.
    fn render_list(&self, parent: &Expression, es: &Vec<Expression>, bindings: &mut Vec<ParameterBinding>, fuel: usize) -> (r: Result<Vec<String>, SqlCompileError>)
        requires
            names_in_order(old(bindings)@),
            bindings_fit(self.context(), binding_state(old(bindings)@)),
            forall|i: int| 0 <= i < es@.len() ==> decreases_to!(*parent => #[trigger] es@[i]),
        ensures
            rendered_list(r, final(bindings)@) == render_list(self.context(), es@, es@.len(), binding_state(old(bindings)@), fuel as nat),
            names_in_order(final(bindings)@),
            bindings_fit(self.context(), binding_state(final(bindings)@)),
        decreases fuel, *parent, 1nat, 0nat,
    {
        let ghost c = self.context();
        let ghost st = binding_state(bindings@);
        let mut out: Vec<String> = Vec::new();
        let mut i: usize = 0;
        assert(texts_view(out@) =~= Seq::<Seq<char>>::empty());
        while i < es.len()
            invariant
                c == self.context(),
                st == binding_state(old(bindings)@),
                forall|j: int| 0 <= j < es@.len() ==> decreases_to!(*parent => #[trigger] es@[j]),
                i <= es@.len(),
                names_in_order(bindings@),
                bindings_fit(self.context(), binding_state(bindings@)),
                render_list(c, es@, i as nat, st, fuel as nat) == Ok::<(Seq<Seq<char>>, Seq<SpecBinding>), SpecSqlError>(
                    (texts_view(out@), binding_state(bindings@)),
                ),
            decreases es.len() - i,
        {
            assert(decreases_to!(*parent => es@[i as int]));
            let x = match self.render_expression(&es[i], bindings, fuel) {
                Ok(x) => x,
                Err(err) => {
                    proof {
                        lemma_list_error_stays(c, es@, (i + 1) as nat, es@.len(), st, fuel as nat);
                    }
                    return Err(err);
                },
            };
            let ghost prev = out@;
            out.push(x);
            assert(texts_view(out@) =~= texts_view(prev).push(x@));
            i = i + 1;
        }
        Ok(out)
    }
}

impl<'a> Renderer<'a> {
    fn render_in(&self, e: &Expression, bindings: &mut Vec<ParameterBinding>, fuel: usize) -> (r: Result<String, SqlCompileError>)
        requires
            names_in_order(old(bindings)@),
            bindings_fit(self.context(), binding_state(old(bindings)@)),
            e is In,
        ensures
            rendered(r, final(bindings)@) == render_expr(self.context(), *e, binding_state(old(bindings)@), fuel as nat),
            names_in_order(final(bindings)@),
            bindings_fit(self.context(), binding_state(final(bindings)@)),
        decreases fuel, *e, 2nat, 0nat,
    {
        match e {
            Expression::In { expression, values } => {
                let a = match self.render_expression(expression, bindings, fuel) {
                    Ok(a) => a,
                    Err(err) => return Err(err),
                };
                proof {
                    assert forall|i: int| 0 <= i < values@.len() implies decreases_to!(*e => #[trigger] values@[i]) by {
                        assert(decreases_to!(*values => values@));
                    }
                }
                let vs = match self.render_list(e, values, bindings, fuel) {
                    Ok(vs) => vs,
                    Err(err) => return Err(err),
                };
                let list = join(&vs, ", ");
                assert(list@ == joined(texts_view(vs@), ", "@));
                let mut r = concat3("(", a.as_str(), " IN (");
                r.append(list.as_str());
                r.append("))");
                assert(r@ =~= "("@ + a@ + " IN ("@ + list@ + "))"@);
                Ok(r)
            },
            _ => {
                proof {
                    assert(false);
                }
                Ok(String::new())
            },
        }
    }

    fn render_in_parameter(&self, e: &Expression, bindings: &mut Vec<ParameterBinding>, fuel: usize) -> (r: Result<String, SqlCompileError>)
        requires
            names_in_order(old(bindings)@),
            bindings_fit(self.context(), binding_state(old(bindings)@)),
            e is InParameter,
        ensures
            rendered(r, final(bindings)@) == render_expr(self.context(), *e, binding_state(old(bindings)@), fuel as nat),
            names_in_order(final(bindings)@),
            bindings_fit(self.context(), binding_state(final(bindings)@)),
        decreases fuel, *e, 2nat, 0nat,
    {
        let ghost c = self.context();
        match e {
            Expression::InParameter { expression, parameter } => {
                let a = match self.render_expression(expression, bindings, fuel) {
                    Ok(a) => a,
                    Err(err) => return Err(err),
                };
                let ghost s1 = binding_state(bindings@);
                let count = match bound_index(self.operation, parameter.as_str()) {
                    Some(i) => match &self.operation.parameters[i].1 {
                        ParameterValue::Array(items) => Some(items.len()),
                        _ => None,
                    },
                    None => None,
                };
                assert(count matches Some(n) ==> bound_list_count(c.op, parameter@) == Some(n as nat));
                assert(count is None ==> bound_list_count(c.op, parameter@) is None);
                let n = match count {
                    Some(n) => n,
                    None => return Err(SqlCompileError::MissingParameter(text(parameter.as_str()))),
                };
                if n == 0 {
                    return Ok(text("(1 = 0)"));
                }
                let placeholders = match self.bind_list(parameter.as_str(), n, bindings) {
                    Ok(p) => p,
                    Err(err) => return Err(err),
                };
                let list = join(&placeholders, ", ");
                assert(list@ == joined(texts_view(placeholders@), ", "@));
                let mut r = concat3("(", a.as_str(), " IN (");
                r.append(list.as_str());
                r.append("))");
                assert(r@ =~= "("@ + a@ + " IN ("@ + list@ + "))"@);
                Ok(r)
            },
            _ => {
                proof {
                    assert(false);
                }
                Ok(String::new())
            },
        }
    }

    /// Placeholders for the first `n` items of a list parameter.
    fn bind_list(&self, parameter: &str, n: usize, bindings: &mut Vec<ParameterBinding>) -> (r: Result<Vec<String>, SqlCompileError>)
        requires
            names_in_order(old(bindings)@),
            bindings_fit(self.context(), binding_state(old(bindings)@)),
            bound_list_count(*self.operation, parameter@) == Some(n as nat),
        ensures
            rendered_list(r, final(bindings)@) == bind_range(self.context(), parameter@, n as nat, binding_state(old(bindings)@)),
            names_in_order(final(bindings)@),
            bindings_fit(self.context(), binding_state(final(bindings)@)),
    {
        let ghost c = self.context();
        let ghost st = binding_state(bindings@);
        let mut placeholders: Vec<String> = Vec::new();
        let mut k: usize = 0;
        assert(texts_view(placeholders@) =~= Seq::<Seq<char>>::empty());
        while k < n
            invariant
                c == self.context(),
                st == binding_state(old(bindings)@),
                bound_list_count(*self.operation, parameter@) == Some(n as nat),
                k <= n,
                names_in_order(bindings@),
                bindings_fit(self.context(), binding_state(bindings@)),
                bind_range(c, parameter@, k as nat, st) == Ok::<(Seq<Seq<char>>, Seq<SpecBinding>), SpecSqlError>(
                    (texts_view(placeholders@), binding_state(bindings@)),
                ),
            decreases n - k,
        {
            let x = match self.bind_parameter(parameter, Some(k), bindings) {
                Ok(x) => x,
                Err(err) => {
                    proof {
                        lemma_range_error_stays(c, parameter@, (k + 1) as nat, n as nat, st);
                    }
                    return Err(err);
                },
            };
            let ghost prev = placeholders@;
            placeholders.push(x);
            assert(texts_view(placeholders@) =~= texts_view(prev).push(x@));
            k = k + 1;
        }
        Ok(placeholders)
    }

    fn render_group(&self, e: &Expression, bindings: &mut Vec<ParameterBinding>, fuel: usize) -> (r: Result<String, SqlCompileError>)
        requires
            names_in_order(old(bindings)@),
            bindings_fit(self.context(), binding_state(old(bindings)@)),
            e is And || e is Or,
        ensures
            rendered(r, final(bindings)@) == render_expr(self.context(), *e, binding_state(old(bindings)@), fuel as nat),
            names_in_order(final(bindings)@),
            bindings_fit(self.context(), binding_state(final(bindings)@)),
        decreases fuel, *e, 2nat, 0nat,
    {
        let (expressions, separator) = match e {
            Expression::And { expressions } => (expressions, " AND "),
            Expression::Or { expressions } => (expressions, " OR "),
            _ => {
                proof {
                    assert(false);
                }
                return Ok(String::new());
            },
        };
        proof {
            assert forall|i: int| 0 <= i < expressions@.len() implies decreases_to!(*e => #[trigger] expressions@[i]) by {
                assert(decreases_to!(*expressions => expressions@));
            }
        }
        let xs = match self.render_list(e, expressions, bindings, fuel) {
            Ok(xs) => xs,
            Err(err) => return Err(err),
        };
        let list = join(&xs, separator);
        assert(list@ == joined(texts_view(xs@), separator@));
        Ok(concat3("(", list.as_str(), ")"))
    }

    fn render_function_call(&self, e: &Expression, bindings: &mut Vec<ParameterBinding>, fuel: usize) -> (r: Result<String, SqlCompileError>)
        requires
            names_in_order(old(bindings)@),
            bindings_fit(self.context(), binding_state(old(bindings)@)),
            e is Function,
        ensures
            rendered(r, final(bindings)@) == render_expr(self.context(), *e, binding_state(old(bindings)@), fuel as nat),
            names_in_order(final(bindings)@),
            bindings_fit(self.context(), binding_state(final(bindings)@)),
        decreases fuel, *e, 2nat, 0nat,
    {
        match e {
            Expression::Function { name, arguments } => {
                proof {
                    assert forall|i: int| 0 <= i < arguments@.len() implies decreases_to!(*e => #[trigger] arguments@[i]) by {
                        assert(decreases_to!(*arguments => arguments@));
                    }
                }
                let xs = match self.render_list(e, arguments, bindings, fuel) {
                    Ok(xs) => xs,
                    Err(err) => return Err(err),
                };
                Ok(self.dialect.render_function(*name, &xs))
            },
            _ => {
                proof {
                    assert(false);
                }
                Ok(String::new())
            },
        }
    }
}

fn copy_indices(v: &Vec<usize>) -> (r: Vec<usize>)
    ensures
        r@ == v@,
{
    let mut r: Vec<usize> = Vec::new();
    let mut i: usize = 0;
    while i < v.len()
        invariant
            i <= v@.len(),
            r@ == v@.take(i as int),
        decreases v.len() - i,
    {
        r.push(v[i]);
        assert(r@ =~= v@.take(i + 1));
        i = i + 1;
    }
    assert(v@.take(v@.len() as int) =~= v@);
    r
}

fn invalid_graph_error(message: String) -> (r: SqlCompileError)
    ensures
        sql_error_view(r) == invalid_graph(message@),
{
    SqlCompileError::Plan(PlanError::InvalidCompiledGraph { message })
}

impl<'a> Renderer<'a> {
    /// An `EXISTS` subquery over the relation path of its source.
    fn render_exists(&self, e: &Expression, bindings: &mut Vec<ParameterBinding>, fuel: usize) -> (r: Result<String, SqlCompileError>)
        requires
            names_in_order(old(bindings)@),
            bindings_fit(self.context(), binding_state(old(bindings)@)),
            e is Exists,
        ensures
            rendered(r, final(bindings)@) == render_expr(self.context(), *e, binding_state(old(bindings)@), fuel as nat),
            names_in_order(final(bindings)@),
            bindings_fit(self.context(), binding_state(final(bindings)@)),
        decreases fuel, *e, 2nat, 0nat,
    {
        let ghost c = self.context();
        let ghost st = binding_state(bindings@);
        let (source, from, predicate) = match e {
            Expression::Exists { source, from, predicate } => (source, from, predicate),
            _ => {
                proof {
                    assert(false);
                }
                return Ok(String::new());
            },
        };
        let ghost from_key = match from {
            Some(f) => Some(f@),
            None => None,
        };
        let found = match from {
            None => match self.graph.relation_path_indices(source.as_str()) {
                Some(p) => Some(copy_indices(p)),
                None => None,
            },
            Some(f) => self.graph.relation_path_indices_between(f.as_str(), source.as_str()),
        };
        assert(match exists_path(c, source@, from_key) {
            Some(p) => found matches Some(v) && v@ == p,
            None => found is None,
        });
        assert(render_expr(c, *e, st, fuel as nat) == render_exists(c, *e, st, fuel as nat));
        let path = match found {
            Some(p) => p,
            None => {
                assert(render_exists(c, *e, st, fuel as nat) == Err::<(Seq<char>, Seq<SpecBinding>), SpecSqlError>(invalid_graph(exists_missing_message(source@, from_key))));
                let message = match from {
                    None => concat("exists expression refers to missing source ", debug_quote(source.as_str()).as_str()),
                    Some(f) => {
                        let mut m = concat3("exists expression source ", debug_quote(source.as_str()).as_str(), " is not reachable from ");
                        m.append(debug_quote(f.as_str()).as_str());
                        m
                    },
                };
                return Err(invalid_graph_error(message));
            },
        };
        if path.len() == 0 {
            return Err(invalid_graph_error(concat3("exists expression source ", debug_quote(source.as_str()).as_str(), " is the graph root")));
        }
        let (body, mut wheres) = match self.exists_body(e, &path, bindings, fuel) {
            Ok(x) => x,
            Err(err) => return Err(err),
        };
        match predicate {
            None => {},
            Some(q) => {
                let w = match self.render_expression(q, bindings, fuel) {
                    Ok(w) => w,
                    Err(err) => return Err(err),
                };
                let ghost prev_wheres = texts_view(wheres@);
                wheres.push(w);
                assert(texts_view(wheres@) =~= prev_wheres.push(w@));
            },
        }
        let mut r = text("EXISTS (\n    SELECT 1");
        r.append(body.as_str());
        if wheres.len() > 0 {
            r.append("\n    WHERE ");
            r.append(join(&wheres, "\n      AND ").as_str());
        }
        r.append("\n  )");
        assert(r@ =~= "EXISTS (\n    SELECT 1"@ + body@ + where_text(texts_view(wheres@)) + "\n  )"@);
        Ok(r)
    }

    /// The `FROM` and join lines of an `exists` path, with the `WHERE` predicates they add.
    fn exists_body(&self, e: &Expression, path: &Vec<usize>, bindings: &mut Vec<ParameterBinding>, fuel: usize) -> (r: Result<(String, Vec<String>), SqlCompileError>)
        requires
            names_in_order(old(bindings)@),
            bindings_fit(self.context(), binding_state(old(bindings)@)),
            e is Exists,
            forall|k: int| 0 <= k < path@.len() ==> (#[trigger] path@[k]) < self.graph.graph().relations@.len(),
        ensures
            names_in_order(final(bindings)@),
            bindings_fit(self.context(), binding_state(final(bindings)@)),
            match r {
                Ok((body, wheres)) => exists_steps(self.context(), *e, path@, path@.len(), binding_state(old(bindings)@), fuel as nat)
                    == Ok::<(Seq<char>, Seq<Seq<char>>, Seq<SpecBinding>), SpecSqlError>(
                    (body@, texts_view(wheres@), binding_state(final(bindings)@)),
                ),
                Err(x) => exists_steps(self.context(), *e, path@, path@.len(), binding_state(old(bindings)@), fuel as nat)
                    == Err::<(Seq<char>, Seq<Seq<char>>, Seq<SpecBinding>), SpecSqlError>(sql_error_view(x)),
            },
        decreases fuel, *e, 1nat, 1nat,
    {
        let ghost c = self.context();
        let ghost st = binding_state(bindings@);
        let mut body = String::new();
        let mut wheres: Vec<String> = Vec::new();
        let mut i: usize = 0;
        assert(texts_view(wheres@) =~= Seq::<Seq<char>>::empty());
        while i < path.len()
            invariant
                c == self.context(),
                st == binding_state(old(bindings)@),
                e is Exists,
                i <= path@.len(),
                forall|k: int| 0 <= k < path@.len() ==> (#[trigger] path@[k]) < self.graph.graph().relations@.len(),
                names_in_order(bindings@),
                bindings_fit(self.context(), binding_state(bindings@)),
                exists_steps(c, *e, path@, i as nat, st, fuel as nat) == Ok::<(Seq<char>, Seq<Seq<char>>, Seq<SpecBinding>), SpecSqlError>(
                    (body@, texts_view(wheres@), binding_state(bindings@)),
                ),
            decreases path.len() - i,
        {
            match self.exists_step(e, path[i], i == 0, &mut body, &mut wheres, bindings, fuel) {
                Ok(()) => {},
                Err(err) => {
                    proof {
                        lemma_steps_error_stays(c, *e, path@, (i + 1) as nat, path@.len(), st, fuel as nat);
                    }
                    return Err(err);
                },
            }
            i = i + 1;
        }
        Ok((body, wheres))
    }

    /// One relation of an `exists` path: its `FROM`, `CROSS APPLY` or join line, and the
    /// `WHERE` predicate the first one adds.
    fn exists_step(
        &self,
        e: &Expression,
        ri: usize,
        first: bool,
        body: &mut String,
        wheres: &mut Vec<String>,
        bindings: &mut Vec<ParameterBinding>,
        fuel: usize,
    ) -> (r: Result<(), SqlCompileError>)
        requires
            names_in_order(old(bindings)@),
            bindings_fit(self.context(), binding_state(old(bindings)@)),
            e is Exists,
            ri < self.graph.graph().relations@.len(),
        ensures
            names_in_order(final(bindings)@),
            bindings_fit(self.context(), binding_state(final(bindings)@)),
            match exists_step(self.context(), *e, ri as int, first, old(body)@, texts_view(old(wheres)@), binding_state(old(bindings)@), fuel as nat) {
                Ok((b, ws, s2)) => r is Ok && final(body)@ == b && texts_view(final(wheres)@) == ws && binding_state(final(bindings)@) == s2,
                Err(x) => r matches Err(y) && sql_error_view(y) == x,
            },
        decreases fuel, *e, 0nat, 0nat,
    {
        let ghost c = self.context();
        let ghost prev_body = body@;
        let ghost prev_wheres = texts_view(wheres@);
        if fuel == 0 {
            let source = match e {
                Expression::Exists { source, .. } => source.as_str(),
                _ => "",
            };
            return Err(invalid_graph_error(concat3("exists expression source ", debug_quote(source).as_str(), " leads back into its own relation predicates")));
        }
        let d = self.graph.definition();
        let rel = &d.relations[ri];
        match &rel.selection {
            Some(_) => {
                let target = match self.render_selected(rel, bindings, fuel - 1) {
                    Ok(t) => t,
                    Err(err) => return Err(err),
                };
                if first {
                    body.append("\n    FROM ");
                    body.append(self.dialect.render_single_row_source("__qg_seed").as_str());
                }
                body.append("\n    CROSS APPLY ");
                body.append(target.as_str());
                proof {
                    if first {
                        assert(body@ =~= prev_body + ("\n    FROM "@ + single_row_source(c.dl, "__qg_seed"@)) + "\n    CROSS APPLY "@ + target@);
                    } else {
                        assert(body@ =~= prev_body + seq![] + "\n    CROSS APPLY "@ + target@);
                    }
                }
                Ok(())
            },
            None => {
                let target = match self.render_source(rel.to.as_str()) {
                    Ok(t) => t,
                    Err(err) => return Err(err),
                };
                let condition = match self.render_expression(&rel.on, bindings, fuel - 1) {
                    Ok(x) => x,
                    Err(err) => return Err(err),
                };
                if first {
                    body.append("\n    FROM ");
                    body.append(target.as_str());
                    wheres.push(condition);
                    assert(texts_view(wheres@) =~= prev_wheres.push(condition@));
                } else {
                    body.append("\n    INNER JOIN ");
                    body.append(target.as_str());
                    body.append("\n      ON ");
                    body.append(condition.as_str());
                    assert(body@ =~= prev_body + "\n    INNER JOIN "@ + target@ + "\n      ON "@ + condition@);
                }
                Ok(())
            },
        }
    }

    /// A relation with a `firstBy` selection as a derived table that picks one row.
    pub fn render_selected(&self, rel: &RelationDefinition, bindings: &mut Vec<ParameterBinding>, fuel: usize) -> (r: Result<String, SqlCompileError>)
        requires
            names_in_order(old(bindings)@),
            bindings_fit(self.context(), binding_state(old(bindings)@)),
        ensures
            rendered(r, final(bindings)@) == render_selected(self.context(), *rel, binding_state(old(bindings)@), fuel as nat),
            names_in_order(final(bindings)@),
            bindings_fit(self.context(), binding_state(final(bindings)@)),
        decreases fuel, *self, 4nat, 0nat,
    {
        let order_by = match &rel.selection {
            None => return Err(invalid_graph_error(concat3("relation ", debug_quote(rel.name.as_str()).as_str(), " has no selection strategy"))),
            Some(selection) => selection.order_by(),
        };
        if fuel == 0 {
            return Err(invalid_graph_error(concat3("relation ", debug_quote(rel.name.as_str()).as_str(), " leads back into its own predicates")));
        }
        let orders = match self.render_orders(order_by, bindings, fuel - 1) {
            Ok(o) => o,
            Err(err) => return Err(err),
        };
        if orders.len() == 0 {
            return Err(invalid_graph_error(concat3("relation ", debug_quote(rel.name.as_str()).as_str(), " has an empty firstBy order")));
        }
        let a = match self.source_alias(rel.to.as_str()) {
            Ok(a) => a,
            Err(err) => return Err(err),
        };
        let source = match self.render_source(rel.to.as_str()) {
            Ok(s) => s,
            Err(err) => return Err(err),
        };
        let predicate = match self.render_expression(&rel.on, bindings, fuel - 1) {
            Ok(p) => p,
            Err(err) => return Err(err),
        };
        let projection = concat(self.dialect.quote_identifier(a.as_str()).as_str(), ".*");
        let query = match self.dialect.render_first_by_query(projection.as_str(), source.as_str(), predicate.as_str(), &orders) {
            Ok(q) => q,
            Err(err) => return Err(SqlCompileError::from_dialect(err)),
        };
        let derived = concat3("(\n", indent(query.as_str()).as_str(), "\n  )");
        Ok(self.dialect.render_table_reference(derived.as_str(), a.as_str()))
    }

    /// Order items rendered in order.
    pub fn render_orders(&self, items: &Vec<OrderByDefinition>, bindings: &mut Vec<ParameterBinding>, fuel: usize) -> (r: Result<Vec<String>, SqlCompileError>)
        requires
            names_in_order(old(bindings)@),
            bindings_fit(self.context(), binding_state(old(bindings)@)),
        ensures
            rendered_list(r, final(bindings)@) == render_orders(self.context(), items@, items@.len(), binding_state(old(bindings)@), fuel as nat),
            names_in_order(final(bindings)@),
            bindings_fit(self.context(), binding_state(final(bindings)@)),
        decreases fuel + 1, *self, 0nat, 0nat,
    {
        let ghost c = self.context();
        let ghost st = binding_state(bindings@);
        let mut out: Vec<String> = Vec::new();
        let mut i: usize = 0;
        assert(texts_view(out@) =~= Seq::<Seq<char>>::empty());
        while i < items.len()
            invariant
                c == self.context(),
                st == binding_state(old(bindings)@),
                i <= items@.len(),
                names_in_order(bindings@),
                bindings_fit(self.context(), binding_state(bindings@)),
                render_orders(c, items@, i as nat, st, fuel as nat) == Ok::<(Seq<Seq<char>>, Seq<SpecBinding>), SpecSqlError>(
                    (texts_view(out@), binding_state(bindings@)),
                ),
            decreases items.len() - i,
        {
            let item = &items[i];
            let x = match self.render_expression(&item.expression, bindings, fuel) {
                Ok(x) => x,
                Err(err) => {
                    proof {
                        lemma_orders_error_stays(c, items@, (i + 1) as nat, items@.len(), st, fuel as nat);
                    }
                    return Err(err);
                },
            };
            let ghost prev = out@;
            out.push(self.dialect.render_order(x.as_str(), item.direction, item.nulls));
            assert(texts_view(out@) =~= texts_view(prev).push(order_text(c.dl, x@, item.direction, item.nulls)));
            i = i + 1;
        }
        Ok(out)
    }
}

/// A comparison renders as its two operands, rendered in order (the bindings of the left
/// one first), joined by the SQL operator of the comparison, in parentheses: `<` for
/// `LessThan` (strict), `<=` for `LessThanOrEqual`, `>` for `GreaterThan` (strict), `>=`
/// for `GreaterThanOrEqual`, `LIKE` for `Like`, `=` and `<>` for `Eq` and `NotEq` between
/// non-`NULL` operands; an equality with a `NULL` literal on the right becomes `IS NULL`
/// (`IS NOT NULL` for `NotEq`). A failing operand fails the comparison with its error.
pub proof fn law_comparisons_render_their_operator(c: RenderContext, l: Expression, r: Expression, st: Seq<SpecBinding>, fuel: nat)
    ensures
        match render_expr(c, l, st, fuel) {
            Err(x) => {
                &&& render_expr(c, (Expression::LessThan { left: Box::new(l), right: Box::new(r) }), st, fuel) == Err::<(Seq<char>, Seq<SpecBinding>), SpecSqlError>(x)
                &&& render_expr(c, (Expression::LessThanOrEqual { left: Box::new(l), right: Box::new(r) }), st, fuel) == Err::<(Seq<char>, Seq<SpecBinding>), SpecSqlError>(x)
                &&& render_expr(c, (Expression::GreaterThan { left: Box::new(l), right: Box::new(r) }), st, fuel) == Err::<(Seq<char>, Seq<SpecBinding>), SpecSqlError>(x)
                &&& render_expr(c, (Expression::GreaterThanOrEqual { left: Box::new(l), right: Box::new(r) }), st, fuel) == Err::<(Seq<char>, Seq<SpecBinding>), SpecSqlError>(x)
                &&& render_expr(c, (Expression::Like { expression: Box::new(l), pattern: Box::new(r) }), st, fuel) == Err::<(Seq<char>, Seq<SpecBinding>), SpecSqlError>(x)
            },
            Ok((a, s1)) => {
                &&& is_null_literal(r) ==> render_expr(c, (Expression::Eq { left: Box::new(l), right: Box::new(r) }), st, fuel)
                    == Ok::<(Seq<char>, Seq<SpecBinding>), SpecSqlError>(("("@ + a + " IS NULL)"@, s1))
                &&& is_null_literal(r) ==> render_expr(c, (Expression::NotEq { left: Box::new(l), right: Box::new(r) }), st, fuel)
                    == Ok::<(Seq<char>, Seq<SpecBinding>), SpecSqlError>(("("@ + a + " IS NOT NULL)"@, s1))
                &&& match render_expr(c, r, s1, fuel) {
                    Err(x) => {
                        &&& render_expr(c, (Expression::LessThan { left: Box::new(l), right: Box::new(r) }), st, fuel) == Err::<(Seq<char>, Seq<SpecBinding>), SpecSqlError>(x)
                        &&& render_expr(c, (Expression::LessThanOrEqual { left: Box::new(l), right: Box::new(r) }), st, fuel) == Err::<(Seq<char>, Seq<SpecBinding>), SpecSqlError>(x)
                        &&& render_expr(c, (Expression::GreaterThan { left: Box::new(l), right: Box::new(r) }), st, fuel) == Err::<(Seq<char>, Seq<SpecBinding>), SpecSqlError>(x)
                        &&& render_expr(c, (Expression::GreaterThanOrEqual { left: Box::new(l), right: Box::new(r) }), st, fuel) == Err::<(Seq<char>, Seq<SpecBinding>), SpecSqlError>(x)
                        &&& render_expr(c, (Expression::Like { expression: Box::new(l), pattern: Box::new(r) }), st, fuel) == Err::<(Seq<char>, Seq<SpecBinding>), SpecSqlError>(x)
                    },
                    Ok((b, s2)) => {
                        &&& render_expr(c, (Expression::LessThan { left: Box::new(l), right: Box::new(r) }), st, fuel)
                            == Ok::<(Seq<char>, Seq<SpecBinding>), SpecSqlError>(("("@ + a + " < "@ + b + ")"@, s2))
                        &&& render_expr(c, (Expression::LessThanOrEqual { left: Box::new(l), right: Box::new(r) }), st, fuel)
                            == Ok::<(Seq<char>, Seq<SpecBinding>), SpecSqlError>(("("@ + a + " <= "@ + b + ")"@, s2))
                        &&& render_expr(c, (Expression::GreaterThan { left: Box::new(l), right: Box::new(r) }), st, fuel)
                            == Ok::<(Seq<char>, Seq<SpecBinding>), SpecSqlError>(("("@ + a + " > "@ + b + ")"@, s2))
                        &&& render_expr(c, (Expression::GreaterThanOrEqual { left: Box::new(l), right: Box::new(r) }), st, fuel)
                            == Ok::<(Seq<char>, Seq<SpecBinding>), SpecSqlError>(("("@ + a + " >= "@ + b + ")"@, s2))
                        &&& render_expr(c, (Expression::Like { expression: Box::new(l), pattern: Box::new(r) }), st, fuel)
                            == Ok::<(Seq<char>, Seq<SpecBinding>), SpecSqlError>(("("@ + a + " LIKE "@ + b + ")"@, s2))
                        &&& !is_null_literal(l) && !is_null_literal(r) ==> render_expr(c, (Expression::Eq { left: Box::new(l), right: Box::new(r) }), st, fuel)
                            == Ok::<(Seq<char>, Seq<SpecBinding>), SpecSqlError>(("("@ + a + " = "@ + b + ")"@, s2))
                        &&& !is_null_literal(l) && !is_null_literal(r) ==> render_expr(c, (Expression::NotEq { left: Box::new(l), right: Box::new(r) }), st, fuel)
                            == Ok::<(Seq<char>, Seq<SpecBinding>), SpecSqlError>(("("@ + a + " <> "@ + b + ")"@, s2))
                    },
                }
            },
        },
{
    let lt = Expression::LessThan { left: Box::new(l), right: Box::new(r) };
    let le = Expression::LessThanOrEqual { left: Box::new(l), right: Box::new(r) };
    let gt = Expression::GreaterThan { left: Box::new(l), right: Box::new(r) };
    let ge = Expression::GreaterThanOrEqual { left: Box::new(l), right: Box::new(r) };
    let lk = Expression::Like { expression: Box::new(l), pattern: Box::new(r) };
    let eq = Expression::Eq { left: Box::new(l), right: Box::new(r) };
    let ne = Expression::NotEq { left: Box::new(l), right: Box::new(r) };
    reveal_with_fuel(render_expr, 2);
    if let Ok((a, s1)) = render_expr(c, l, st, fuel) {
        if let Ok((b, s2)) = render_expr(c, r, s1, fuel) {
            assert(("("@ + a + " < "@) + b + ")"@ =~= "("@ + a + " < "@ + b + ")"@);
            assert(("("@ + a + " <= "@) + b + ")"@ =~= "("@ + a + " <= "@ + b + ")"@);
            assert(("("@ + a + " > "@) + b + ")"@ =~= "("@ + a + " > "@ + b + ")"@);
            assert(("("@ + a + " >= "@) + b + ")"@ =~= "("@ + a + " >= "@ + b + ")"@);
            assert(("("@ + a + " LIKE "@) + b + ")"@ =~= "("@ + a + " LIKE "@ + b + ")"@);
            assert(("("@ + a + " = "@) + b + ")"@ =~= "("@ + a + " = "@ + b + ")"@);
            assert(("("@ + a + " <> "@) + b + ")"@ =~= "("@ + a + " <> "@ + b + ")"@);
        }
    }
    assert(render_expr(c, lt, st, fuel) == render_expr(c, lt, st, fuel));
}

/// `NOT`, `IS NULL` and `IS NOT NULL` wrap their operand; `AND` and `OR` join their
/// operands, rendered in order, with ` AND ` and ` OR ` in parentheses. A failing operand
/// fails the whole with its error.
pub proof fn law_connectives_render_their_keyword(c: RenderContext, e: Expression, es: Vec<Expression>, st: Seq<SpecBinding>, fuel: nat)
    ensures
        match render_expr(c, e, st, fuel) {
            Err(x) => {
                &&& render_expr(c, (Expression::Not { expression: Box::new(e) }), st, fuel) == Err::<(Seq<char>, Seq<SpecBinding>), SpecSqlError>(x)
                &&& render_expr(c, (Expression::IsNull { expression: Box::new(e) }), st, fuel) == Err::<(Seq<char>, Seq<SpecBinding>), SpecSqlError>(x)
                &&& render_expr(c, (Expression::IsNotNull { expression: Box::new(e) }), st, fuel) == Err::<(Seq<char>, Seq<SpecBinding>), SpecSqlError>(x)
            },
            Ok((a, s1)) => {
                &&& render_expr(c, (Expression::Not { expression: Box::new(e) }), st, fuel)
                    == Ok::<(Seq<char>, Seq<SpecBinding>), SpecSqlError>(("(NOT "@ + a + ")"@, s1))
                &&& render_expr(c, (Expression::IsNull { expression: Box::new(e) }), st, fuel)
                    == Ok::<(Seq<char>, Seq<SpecBinding>), SpecSqlError>(("("@ + a + " IS NULL)"@, s1))
                &&& render_expr(c, (Expression::IsNotNull { expression: Box::new(e) }), st, fuel)
                    == Ok::<(Seq<char>, Seq<SpecBinding>), SpecSqlError>(("("@ + a + " IS NOT NULL)"@, s1))
            },
        },
        match render_list(c, es@, es@.len(), st, fuel) {
            Err(x) => {
                &&& render_expr(c, (Expression::And { expressions: es }), st, fuel) == Err::<(Seq<char>, Seq<SpecBinding>), SpecSqlError>(x)
                &&& render_expr(c, (Expression::Or { expressions: es }), st, fuel) == Err::<(Seq<char>, Seq<SpecBinding>), SpecSqlError>(x)
            },
            Ok((xs, s1)) => {
                &&& render_expr(c, (Expression::And { expressions: es }), st, fuel)
                    == Ok::<(Seq<char>, Seq<SpecBinding>), SpecSqlError>(("("@ + joined(xs, " AND "@) + ")"@, s1))
                &&& render_expr(c, (Expression::Or { expressions: es }), st, fuel)
                    == Ok::<(Seq<char>, Seq<SpecBinding>), SpecSqlError>(("("@ + joined(xs, " OR "@) + ")"@, s1))
            },
        },
{
    reveal_with_fuel(render_expr, 2);
}

} // verus!
