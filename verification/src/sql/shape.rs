//! What rendering reads of an operation: which parameters it binds, and how many items
//! each bound list holds; never the values.
use vstd::prelude::*;

use crate::compiled_graph::CompiledGraph;
use crate::definition::{OrderByDefinition, RelationDefinition, RelationSelection};
use crate::expression::Expression;
use crate::mapping::CompiledRelationalMapping;
use crate::definition::GraphDefinition;
use crate::mapping::optional_view;
use crate::operation::{bound, operation_issues, selection, texts, QueryOperation};
use crate::planner::{active_constraints, constraint_active, missing_names, plan_outcome, SpecPlan};
use crate::sql::compile::{
    clause_text, context_of, relation_line, relation_lines, sql_outcome, statement_grouping, statement_joins,
    statement_order, statement_text, compile_fuel,
};
use crate::sql::dialect::Dialect;
use crate::sql::render::{
    bind, bind_range, bound_list_count, exists_step, exists_steps, render_exists, render_expr, render_list,
    render_orders, render_selected, RenderContext, SpecBinding,
};

verus! {

/// Two operations bind the same parameter names, with lists of the same lengths.
pub open spec fn same_binding_shape(a: QueryOperation, b: QueryOperation) -> bool {
    &&& forall|p: Seq<char>| (#[trigger] bound(a, p) is None) == (bound(b, p) is None)
    &&& forall|p: Seq<char>| #[trigger] bound_list_count(a, p) == bound_list_count(b, p)
}

/// Two rendering contexts that differ at most in the values their operations bind.
pub open spec fn same_shape(a: RenderContext, b: RenderContext) -> bool {
    &&& a.d == b.d
    &&& a.t == b.t
    &&& a.m == b.m
    &&& a.dl == b.dl
    &&& same_binding_shape(a.op, b.op)
}

proof fn lemma_range_shape(a: RenderContext, b: RenderContext, p: Seq<char>, n: nat, st: Seq<SpecBinding>)
    requires
        same_shape(a, b),
    ensures
        bind_range(a, p, n, st) == bind_range(b, p, n, st),
    decreases n,
{
    if n > 0 {
        lemma_range_shape(a, b, p, (n - 1) as nat, st);
        match bind_range(a, p, (n - 1) as nat, st) {
            Ok((xs, s1)) => {
                assert(bind(a, p, Some((n - 1) as usize), s1) == bind(b, p, Some((n - 1) as usize), s1));
            },
            Err(_) => {},
        }
    }
}

proof fn lemma_expr_shape(a: RenderContext, b: RenderContext, e: Expression, st: Seq<SpecBinding>, fuel: nat)
    requires
        same_shape(a, b),
    ensures
        render_expr(a, e, st, fuel) == render_expr(b, e, st, fuel),
    decreases fuel, e, 3nat, 0nat,
{
    match e {
        Expression::Field { .. } => {},
        Expression::Parameter { name } => {
            assert(bound(a.op, name@) is None == bound(b.op, name@) is None);
            assert(bind(a, name@, None, st) == bind(b, name@, None, st));
        },
        Expression::Literal { .. } => {},
        Expression::Eq { left, right } | Expression::NotEq { left, right } | Expression::LessThan { left, right }
        | Expression::LessThanOrEqual { left, right } | Expression::GreaterThan { left, right }
        | Expression::GreaterThanOrEqual { left, right } => {
            lemma_expr_shape(a, b, *left, st, fuel);
            lemma_expr_shape(a, b, *right, st, fuel);
            if let Ok((_, s1)) = render_expr(a, *left, st, fuel) {
                lemma_expr_shape(a, b, *right, s1, fuel);
            }
        },
        Expression::Like { expression, pattern } => {
            lemma_expr_shape(a, b, *expression, st, fuel);
            if let Ok((_, s1)) = render_expr(a, *expression, st, fuel) {
                lemma_expr_shape(a, b, *pattern, s1, fuel);
            }
        },
        Expression::In { expression, values } => {
            lemma_expr_shape(a, b, *expression, st, fuel);
            if let Ok((_, s1)) = render_expr(a, *expression, st, fuel) {
                lemma_list_shape(a, b, values@, values@.len(), s1, fuel);
            }
        },
        Expression::InParameter { expression, parameter } => {
            lemma_expr_shape(a, b, *expression, st, fuel);
            assert(bound_list_count(a.op, parameter@) == bound_list_count(b.op, parameter@));
            if let Ok((_, s1)) = render_expr(a, *expression, st, fuel) {
                if let Some(n) = bound_list_count(a.op, parameter@) {
                    lemma_range_shape(a, b, parameter@, n, s1);
                }
            }
        },
        Expression::And { expressions } | Expression::Or { expressions } => {
            lemma_list_shape(a, b, expressions@, expressions@.len(), st, fuel);
        },
        Expression::Not { expression } | Expression::IsNull { expression } | Expression::IsNotNull { expression } => {
            lemma_expr_shape(a, b, *expression, st, fuel);
        },
        Expression::Exists { .. } => {
            lemma_exists_shape(a, b, e, st, fuel);
        },
        Expression::Function { arguments, .. } => {
            lemma_list_shape(a, b, arguments@, arguments@.len(), st, fuel);
        },
        Expression::Aggregate { expression, .. } => {
            if let Some(x) = expression {
                lemma_expr_shape(a, b, *x, st, fuel);
            }
        },
    }
}

proof fn lemma_list_shape(a: RenderContext, b: RenderContext, es: Seq<Expression>, n: nat, st: Seq<SpecBinding>, fuel: nat)
    requires
        same_shape(a, b),
    ensures
        render_list(a, es, n, st, fuel) == render_list(b, es, n, st, fuel),
    decreases fuel, es, n, 0nat,
{
    if n > 0 && n <= es.len() {
        lemma_list_shape(a, b, es, (n - 1) as nat, st, fuel);
        if let Ok((_, s1)) = render_list(a, es, (n - 1) as nat, st, fuel) {
            lemma_expr_shape(a, b, es[n - 1], s1, fuel);
        }
    }
}

proof fn lemma_orders_shape(a: RenderContext, b: RenderContext, items: Seq<OrderByDefinition>, n: nat, st: Seq<SpecBinding>, fuel: nat)
    requires
        same_shape(a, b),
    ensures
        render_orders(a, items, n, st, fuel) == render_orders(b, items, n, st, fuel),
    decreases fuel + 1, a, 0nat, n,
{
    if n > 0 && n <= items.len() {
        lemma_orders_shape(a, b, items, (n - 1) as nat, st, fuel);
        if let Ok((_, s1)) = render_orders(a, items, (n - 1) as nat, st, fuel) {
            lemma_expr_shape(a, b, items[n - 1].expression, s1, fuel);
        }
    }
}

proof fn lemma_exists_shape(a: RenderContext, b: RenderContext, e: Expression, st: Seq<SpecBinding>, fuel: nat)
    requires
        same_shape(a, b),
    ensures
        render_exists(a, e, st, fuel) == render_exists(b, e, st, fuel),
    decreases fuel, e, 2nat, 0nat,
{
    if let Expression::Exists { source, from, predicate } = e {
        let from_key = match from {
            Some(f) => Some(f@),
            None => None,
        };
        if let Some(p) = crate::sql::render::exists_path(a, source@, from_key) {
            lemma_steps_shape(a, b, e, p, p.len(), st, fuel);
            if let Ok((_, _, s1)) = exists_steps(a, e, p, p.len(), st, fuel) {
                if let Some(q) = predicate {
                    lemma_expr_shape(a, b, *q, s1, fuel);
                }
            }
        }
    }
}

proof fn lemma_steps_shape(a: RenderContext, b: RenderContext, e: Expression, p: Seq<usize>, n: nat, st: Seq<SpecBinding>, fuel: nat)
    requires
        same_shape(a, b),
    ensures
        exists_steps(a, e, p, n, st, fuel) == exists_steps(b, e, p, n, st, fuel),
    decreases fuel, e, 1nat, n,
{
    if n > 0 && n <= p.len() {
        lemma_steps_shape(a, b, e, p, (n - 1) as nat, st, fuel);
        if let Ok((body, ws, s1)) = exists_steps(a, e, p, (n - 1) as nat, st, fuel) {
            lemma_step_shape(a, b, e, p[n - 1] as int, n == 1, body, ws, s1, fuel);
        }
    }
}

proof fn lemma_step_shape(
    a: RenderContext,
    b: RenderContext,
    e: Expression,
    ri: int,
    first: bool,
    body: Seq<char>,
    ws: Seq<Seq<char>>,
    st: Seq<SpecBinding>,
    fuel: nat,
)
    requires
        same_shape(a, b),
    ensures
        exists_step(a, e, ri, first, body, ws, st, fuel) == exists_step(b, e, ri, first, body, ws, st, fuel),
    decreases fuel, e, 0nat, 0nat,
{
    if fuel > 0 {
        let rel = a.d.relations@[ri];
        lemma_selected_shape(a, b, rel, st, (fuel - 1) as nat);
        lemma_expr_shape(a, b, rel.on, st, (fuel - 1) as nat);
    }
}

proof fn lemma_selected_shape(a: RenderContext, b: RenderContext, rel: RelationDefinition, st: Seq<SpecBinding>, fuel: nat)
    requires
        same_shape(a, b),
    ensures
        render_selected(a, rel, st, fuel) == render_selected(b, rel, st, fuel),
    decreases fuel, a, 4nat, 0nat,
{
    if let Some(RelationSelection::FirstBy { order_by }) = rel.selection {
        if fuel > 0 {
            lemma_orders_shape(a, b, order_by@, order_by@.len(), st, (fuel - 1) as nat);
            if let Ok((_, s1)) = render_orders(a, order_by@, order_by@.len(), st, (fuel - 1) as nat) {
                lemma_expr_shape(a, b, rel.on, s1, (fuel - 1) as nat);
            }
        }
    }
}

proof fn lemma_clause_shape(a: RenderContext, b: RenderContext, es: Seq<Expression>, st: Seq<SpecBinding>, fuel: nat, header: Seq<char>, sep: Seq<char>)
    requires
        same_shape(a, b),
    ensures
        clause_text(a, es, st, fuel, header, sep) == clause_text(b, es, st, fuel, header, sep),
{
    lemma_list_shape(a, b, es, es.len(), st, fuel);
}

proof fn lemma_lines_shape(a: RenderContext, b: RenderContext, g: CompiledGraph, rels: Seq<usize>, n: nat, st: Seq<SpecBinding>, fuel: nat)
    requires
        same_shape(a, b),
    ensures
        relation_lines(a, g, rels, n, st, fuel) == relation_lines(b, g, rels, n, st, fuel),
    decreases n,
{
    if n > 0 && n <= rels.len() {
        lemma_lines_shape(a, b, g, rels, (n - 1) as nat, st, fuel);
        if let Ok((_, s1)) = relation_lines(a, g, rels, (n - 1) as nat, st, fuel) {
            let rel = a.d.relations@[rels[n - 1] as int];
            lemma_selected_shape(a, b, rel, s1, fuel);
            lemma_expr_shape(a, b, rel.on, s1, fuel);
            assert(relation_line(a, g, rels[n - 1] as int, s1, fuel) == relation_line(b, g, rels[n - 1] as int, s1, fuel));
        }
    }
}

proof fn lemma_statement_shape(a: RenderContext, b: RenderContext, g: CompiledGraph, p: SpecPlan, fuel: nat)
    requires
        same_shape(a, b),
    ensures
        statement_text(a, g, p, fuel) == statement_text(b, g, p, fuel),
{
    let d = a.d;
    let items = crate::planner::ordering_items(d, p.ordering);
    assert forall|head: Seq<char>, st: Seq<SpecBinding>| #[trigger] statement_order(a, p, head, st, fuel) == statement_order(b, p, head, st, fuel) by {
        lemma_orders_shape(a, b, items, items.len(), st, fuel);
    }
    assert forall|head: Seq<char>, st: Seq<SpecBinding>| #[trigger] statement_grouping(a, p, head, st, fuel) == statement_grouping(b, p, head, st, fuel) by {
        let dims = crate::sql::compile::projection_expressions(d, crate::compiled_graph::dimension_positions(d, d.projection.fields@.len() as int));
        lemma_clause_shape(a, b, dims, st, fuel, "\nGROUP BY\n  "@, ",\n  "@);
        let after = crate::sql::compile::constraint_predicates(d, p.after_aggregation);
        let grouped = if crate::definition::spec_is_summary(d) {
            clause_text(a, dims, st, fuel, "\nGROUP BY\n  "@, ",\n  "@)
        } else {
            Ok((seq![], st))
        };
        if let Ok((_, s1)) = grouped {
            lemma_clause_shape(a, b, after, s1, fuel, "\nHAVING\n  "@, "\n  AND "@);
        }
    }
    assert forall|head: Seq<char>, st: Seq<SpecBinding>| #[trigger] statement_joins(a, g, p, head, st, fuel) == statement_joins(b, g, p, head, st, fuel) by {
        lemma_lines_shape(a, b, g, p.relations, p.relations.len(), st, fuel);
        if let Ok((_, s1)) = relation_lines(a, g, p.relations, p.relations.len(), st, fuel) {
            lemma_clause_shape(a, b, crate::sql::compile::constraint_predicates(d, p.before_aggregation), s1, fuel, "\nWHERE\n  "@, "\n  AND "@);
        }
    }
    let fields = crate::sql::compile::projection_expressions(d, p.projections);
    lemma_list_shape(a, b, fields, p.projections.len(), seq![], fuel);
    if let Ok((_, s1)) = render_list(a, fields, p.projections.len(), seq![], fuel) {
        lemma_list_shape(a, b, crate::sql::compile::object_presences(d, p.objects), p.objects.len(), s1, fuel);
    }
}

/// Two operations that are planned alike and bind the same parameter names, with lists of
/// the same lengths, compile to the same statement in every dialect.
proof fn lemma_one_plan_one_statement(
    g: CompiledGraph,
    m: CompiledRelationalMapping,
    a: QueryOperation,
    b: QueryOperation,
    dl: Dialect,
)
    requires
        plan_outcome(g, a) is Ok,
        plan_outcome(g, a) == plan_outcome(g, b),
        same_binding_shape(a, b),
    ensures
        sql_outcome(g, m, a, dl) == sql_outcome(g, m, b, dl),
{
    let p = plan_outcome(g, a)->Ok_0;
    lemma_statement_shape(context_of(g, m, a, dl), context_of(g, m, b, dl), g, p, compile_fuel(g.graph()));
}

/// Two operations that ask the same of a graph: the same selection, ordering and page,
/// and the same parameter names bound, with lists of the same lengths. They may differ
/// in the values they bind.
pub open spec fn same_request(a: QueryOperation, b: QueryOperation) -> bool {
    &&& match (a.select, b.select) {
        (Some(x), Some(y)) => texts(x@) == texts(y@),
        (None, None) => true,
        _ => false,
    }
    &&& optional_view(a.ordering) == optional_view(b.ordering)
    &&& a.offset == b.offset
    &&& a.limit == b.limit
    &&& same_binding_shape(a, b)
}

proof fn lemma_actives_alike(a: QueryOperation, b: QueryOperation, d: GraphDefinition, n: int)
    requires
        same_binding_shape(a, b),
    ensures
        active_constraints(a, d, n) == active_constraints(b, d, n),
    decreases n,
{
    if n > 0 {
        lemma_actives_alike(a, b, d, n - 1);
        if let crate::definition::ConstraintCondition::ParameterPresent { parameter } = d.constraints@[n - 1].when {
            assert((bound(a, parameter@) is None) == (bound(b, parameter@) is None));
        }
        assert(constraint_active(a, d, n - 1) == constraint_active(b, d, n - 1));
    }
}

proof fn lemma_missing_alike(a: QueryOperation, b: QueryOperation, names: Seq<Seq<char>>, n: int)
    requires
        same_binding_shape(a, b),
    ensures
        missing_names(a, names, n) == missing_names(b, names, n),
    decreases n,
{
    if n > 0 {
        lemma_missing_alike(a, b, names, n - 1);
        assert((bound(a, names[n - 1]) is None) == (bound(b, names[n - 1]) is None));
    }
}

/// Two operations that ask the same of a graph and both pass its checks get the same
/// plan.
proof fn lemma_plans_alike(g: CompiledGraph, a: QueryOperation, b: QueryOperation)
    requires
        same_request(a, b),
        operation_issues(a, g.graph()).len() == 0,
        operation_issues(b, g.graph()).len() == 0,
    ensures
        plan_outcome(g, a) == plan_outcome(g, b),
{
    let d = g.graph();
    assert(selection(a, d) =~= selection(b, d));
    lemma_actives_alike(a, b, d, d.constraints@.len() as int);
    assert forall|names: Seq<Seq<char>>, n: int| #[trigger] missing_names(a, names, n) == missing_names(b, names, n) by {
        lemma_missing_alike(a, b, names, n);
    }
}

/// Parameter values never reach the SQL text, only placeholders do: two operations that
/// ask the same of a graph (the same selection, ordering and page, the same parameter
/// names, lists of the same lengths) and differ only in the values they bind compile to
/// the same statement in every dialect, whenever both compile.
pub proof fn law_values_never_reach_the_sql(
    g: CompiledGraph,
    m: CompiledRelationalMapping,
    a: QueryOperation,
    b: QueryOperation,
    dl: Dialect,
)
    requires
        same_request(a, b),
        sql_outcome(g, m, a, dl) is Ok,
        sql_outcome(g, m, b, dl) is Ok,
    ensures
        sql_outcome(g, m, a, dl) == sql_outcome(g, m, b, dl),
{
    assert(operation_issues(a, g.graph()).len() == 0);
    assert(operation_issues(b, g.graph()).len() == 0);
    lemma_plans_alike(g, a, b);
    lemma_one_plan_one_statement(g, m, a, b, dl);
}

} // verus!
