//! Query plans: which projection fields, relations and constraints a query needs.
use vstd::prelude::*;

use crate::analysis::index::{spec_relation, spec_source};
use crate::analysis::topology::{edges_from, GraphTopology};
use crate::text::{concat3, debug_quote, debug_text, decimal_text, push_usize, text};
use crate::analysis::index::{lemma_first_key_range, relation_index, relation_names};
use crate::validation::expression::path_between;
use crate::compiled_graph::{constraint_phase_of, derefs, dimension_positions, projection_position, selected_objects, CompiledGraph, ConstraintPhase};
use crate::analysis::index::{default_ordering_in, ordering_names};
use crate::path::split_dots;
use crate::analysis::projection::{expression_path, is_path_prefix};
use crate::operation::{operation_issues, ordering_choice, selected_indices, selection};
use crate::definition::spec_is_summary;
use crate::definition::{ConstraintCondition, GraphDefinition, OrderByDefinition, RelationCardinality, RelationSelection};
use crate::expression::{walk, Expression};
use crate::mapping::optional_view;
use crate::operation::{bound, bound_index, operation_issues_view, OperationIssue, OperationIssueCode, OperationIssues, QueryOperation, SpecOperationIssue};
use crate::text::{chars_of, concat, str_eq};
use crate::analysis::index::source_keys;

verus! {

/// What each node of a walk contributes, in walk order.
pub open spec fn gather<T>(w: Seq<Expression>, f: spec_fn(Expression) -> Seq<T>, k: int) -> Seq<T>
    decreases k,
{
    if k <= 0 {
        seq![]
    } else {
        gather(w, f, k - 1) + f(w[k - 1])
    }
}

pub open spec fn node_outer_source(n: Expression) -> Seq<Seq<char>> {
    match n {
        Expression::Field { source, .. } => seq![source@],
        Expression::Exists { from: Some(f), .. } => seq![f@],
        _ => seq![],
    }
}

pub open spec fn node_parameter(n: Expression) -> Seq<Seq<char>> {
    match n {
        Expression::Parameter { name } => seq![name@],
        Expression::InParameter { parameter, .. } => seq![parameter@],
        _ => seq![],
    }
}

pub open spec fn node_exists(n: Expression) -> Seq<(Seq<char>, Option<Seq<char>>)> {
    match n {
        Expression::Exists { source, from, .. } => seq![(source@, optional_view(from))],
        _ => seq![],
    }
}

/// The sources an expression reads outside of its `exists` predicates, and the
/// correlation sources of its `exists` nodes, in walk order.
pub open spec fn outer_sources(e: Expression) -> Seq<Seq<char>> {
    gather(walk(e, true), |n: Expression| node_outer_source(n), walk(e, true).len() as int)
}

/// The parameters an expression names, in walk order.
pub open spec fn expression_parameters(e: Expression) -> Seq<Seq<char>> {
    gather(walk(e, false), |n: Expression| node_parameter(n), walk(e, false).len() as int)
}

/// The source and correlation source of each `exists` node of an expression.
pub open spec fn exists_nodes(e: Expression) -> Seq<(Seq<char>, Option<Seq<char>>)> {
    gather(walk(e, false), |n: Expression| node_exists(n), walk(e, false).len() as int)
}

pub open spec fn texts_of(v: Seq<&String>) -> Seq<Seq<char>> {
    Seq::new(v.len(), |i: int| v[i]@)
}

fn collect_outer_sources(e: &Expression) -> (r: Vec<&String>)
    ensures
        texts_of(r@) == outer_sources(*e),
{
    let nodes = e.nodes(true);
    let ghost w = walk(*e, true);
    let ghost f = |n: Expression| node_outer_source(n);
    let mut r: Vec<&String> = Vec::new();
    let mut i: usize = 0;
    while i < nodes.len()
        invariant
            nodes@.len() == w.len(),
            w == walk(*e, true),
            f == (|n: Expression| node_outer_source(n)),
            forall|j: int| 0 <= j < nodes@.len() ==> *(#[trigger] nodes@[j]) == w[j],
            i <= nodes@.len(),
            texts_of(r@) == gather(w, f, i as int),
        decreases nodes.len() - i,
    {
        let node = nodes[i];
        assert(*node == w[i as int]);
        let ghost before = r@;
        match node {
            Expression::Field { source, .. } => r.push(source),
            Expression::Exists { from: Some(from), .. } => r.push(from),
            _ => {},
        }
        assert(texts_of(r@) =~= gather(w, f, (i + 1) as int));
        i = i + 1;
    }
    r
}

fn collect_parameters(e: &Expression) -> (r: Vec<&String>)
    ensures
        texts_of(r@) == expression_parameters(*e),
{
    let nodes = e.nodes(false);
    let ghost w = walk(*e, false);
    let ghost f = |n: Expression| node_parameter(n);
    let mut r: Vec<&String> = Vec::new();
    let mut i: usize = 0;
    while i < nodes.len()
        invariant
            nodes@.len() == w.len(),
            w == walk(*e, false),
            f == (|n: Expression| node_parameter(n)),
            forall|j: int| 0 <= j < nodes@.len() ==> *(#[trigger] nodes@[j]) == w[j],
            i <= nodes@.len(),
            texts_of(r@) == gather(w, f, i as int),
        decreases nodes.len() - i,
    {
        let node = nodes[i];
        assert(*node == w[i as int]);
        match node {
            Expression::Parameter { name } => r.push(name),
            Expression::InParameter { parameter, .. } => r.push(parameter),
            _ => {},
        }
        assert(texts_of(r@) =~= gather(w, f, (i + 1) as int));
        i = i + 1;
    }
    r
}

pub open spec fn exists_view(v: Seq<(&String, Option<&String>)>) -> Seq<(Seq<char>, Option<Seq<char>>)> {
    Seq::new(
        v.len(),
        |i: int|
            (
                v[i].0@,
                match v[i].1 {
                    Some(f) => Some(f@),
                    None => None,
                },
            ),
    )
}

fn collect_exists(e: &Expression) -> (r: Vec<(&String, Option<&String>)>)
    ensures
        exists_view(r@) == exists_nodes(*e),
{
    let nodes = e.nodes(false);
    let ghost w = walk(*e, false);
    let ghost f = |n: Expression| node_exists(n);
    let mut r: Vec<(&String, Option<&String>)> = Vec::new();
    let mut i: usize = 0;
    while i < nodes.len()
        invariant
            nodes@.len() == w.len(),
            w == walk(*e, false),
            f == (|n: Expression| node_exists(n)),
            forall|j: int| 0 <= j < nodes@.len() ==> *(#[trigger] nodes@[j]) == w[j],
            i <= nodes@.len(),
            exists_view(r@) == gather(w, f, i as int),
        decreases nodes.len() - i,
    {
        let node = nodes[i];
        assert(*node == w[i as int]);
        match node {
            Expression::Exists { source, from, .. } => {
                let f_ref = match from {
                    Some(x) => Some(x),
                    None => None,
                };
                r.push((source, f_ref));
            },
            _ => {},
        }
        assert(exists_view(r@) =~= gather(w, f, (i + 1) as int));
        i = i + 1;
    }
    r
}


/// Why no plan could be made, as the rules describe it.
pub enum SpecPlanError {
    Operation(Seq<SpecOperationIssue>),
    InvalidCompiledGraph(Seq<char>),
    PaginationThroughManyRelation(Seq<char>),
    AggregationAcrossManyBranches(Seq<char>, Seq<char>),
}

/// Whether constraint `i` applies to the operation: always, or when its parameter is bound.
pub open spec fn constraint_active(op: QueryOperation, d: GraphDefinition, i: int) -> bool {
    match d.constraints@[i].when {
        ConstraintCondition::Always => true,
        ConstraintCondition::ParameterPresent { parameter } => bound(op, parameter@) is Some,
    }
}

/// The active constraints among the first `n`, in order.
pub open spec fn active_constraints(op: QueryOperation, d: GraphDefinition, n: int) -> Seq<usize>
    decreases n,
{
    if n <= 0 {
        seq![]
    } else {
        active_constraints(op, d, n - 1) + if constraint_active(op, d, n - 1) {
            seq![(n - 1) as usize]
        } else {
            seq![]
        }
    }
}

/// The order items of the chosen ordering, if any.
pub open spec fn ordering_items(d: GraphDefinition, ordering: Option<int>) -> Seq<OrderByDefinition> {
    match ordering {
        Some(o) => d.orderings@[o].order_by@,
        None => seq![],
    }
}

/// The expressions whose sources the plan must reach: the active constraints, then the
/// order items.
pub open spec fn demand_expressions(d: GraphDefinition, actives: Seq<usize>, orders: Seq<OrderByDefinition>) -> Seq<Expression> {
    Seq::new(actives.len(), |k: int| d.constraints@[actives[k] as int].predicate) + Seq::new(
        orders.len(),
        |k: int| orders[k].expression,
    )
}

pub open spec fn outer_source_list(es: Seq<Expression>, n: int) -> Seq<Seq<char>>
    decreases n,
{
    if n <= 0 {
        seq![]
    } else {
        outer_source_list(es, n - 1) + outer_sources(es[n - 1])
    }
}

/// The relation path of the source named `key`.
pub open spec fn source_path(d: GraphDefinition, t: GraphTopology, key: Seq<char>) -> Option<Seq<usize>> {
    match spec_source(d, key) {
        Some(si) => t.spec_path(si),
        None => None,
    }
}

/// The first of the first `n` sources that has no relation path.
pub open spec fn first_pathless(d: GraphDefinition, t: GraphTopology, keys: Seq<Seq<char>>, n: int) -> Option<Seq<char>>
    decreases n,
{
    if n <= 0 {
        None
    } else {
        match first_pathless(d, t, keys, n - 1) {
            Some(k) => Some(k),
            None => if source_path(d, t, keys[n - 1]) is None {
                Some(keys[n - 1])
            } else {
                None
            },
        }
    }
}

/// The paths whose relations a plan must join.
pub open spec fn demand_paths(d: GraphDefinition, t: GraphTopology, sel: Seq<usize>, objs: Seq<usize>, dims: Seq<usize>, outer: Seq<Seq<char>>) -> Seq<Seq<usize>> {
    Seq::new(sel.len(), |k: int| crate::analysis::projection::expression_path(d, t, d.projection.fields@[sel[k] as int].expression))
        + Seq::new(objs.len(), |k: int| crate::analysis::projection::expression_path(d, t, d.projection.objects@[objs[k] as int].presence))
        + Seq::new(dims.len(), |k: int| crate::analysis::projection::expression_path(d, t, d.projection.fields@[dims[k] as int].expression))
        + Seq::new(outer.len(), |k: int| source_path(d, t, outer[k]).unwrap_or(seq![]))
}

pub open spec fn on_some_path(paths: Seq<Seq<usize>>, r: int) -> bool {
    exists|i: int, k: int| 0 <= i < paths.len() && 0 <= k < paths[i].len() && paths[i][k] == r
}

/// One flag per relation: whether some demanded path crosses it.
pub open spec fn demanded(paths: Seq<Seq<usize>>, m: int) -> Seq<bool> {
    Seq::new(m as nat, |r: int| on_some_path(paths, r))
}

/// The state of the breadth-first walk that orders the demanded relations.
pub struct WalkState {
    pub ordered: Seq<usize>,
    pub pending: Seq<bool>,
    pub queue: Seq<Seq<char>>,
    pub error: Option<Seq<char>>,
}

/// The walk after looking at the first `n` relations that leave the current source.
pub open spec fn scan_edges(d: GraphDefinition, edges: Seq<usize>, n: int, s: WalkState) -> WalkState
    decreases n,
{
    if n <= 0 {
        s
    } else {
        let s1 = scan_edges(d, edges, n - 1, s);
        if s1.error is Some {
            s1
        } else {
            let r = edges[n - 1] as int;
            let name = d.relations@[r].name@;
            match spec_relation(d, name) {
                None => WalkState {
                    error: Some("relation "@ + debug_text(name) + " is not indexed"@),
                    ..s1
                },
                Some(i) => if 0 <= i < s1.pending.len() && s1.pending[i] {
                    WalkState {
                        ordered: s1.ordered.push(i as usize),
                        pending: s1.pending.update(i, false),
                        queue: s1.queue.push(d.relations@[r].to@),
                        error: None,
                    }
                } else {
                    s1
                },
            }
        }
    }
}

/// One step of the walk: take the next source from the queue and scan its relations.
pub open spec fn walk_step(d: GraphDefinition, s: WalkState) -> WalkState {
    if s.error is Some || s.queue.len() == 0 {
        s
    } else {
        let rest = WalkState { queue: s.queue.drop_first(), ..s };
        match spec_source(d, s.queue[0]) {
            None => rest,
            Some(si) => {
                let edges = edges_from(d, si, d.relations@.len() as int);
                scan_edges(d, edges, edges.len() as int, rest)
            },
        }
    }
}

pub open spec fn walk_steps(d: GraphDefinition, s: WalkState, n: int) -> WalkState
    decreases n,
{
    if n <= 0 {
        s
    } else {
        walk_step(d, walk_steps(d, s, n - 1))
    }
}

/// The walk from the root, run until its queue is empty.
pub open spec fn relation_walk(d: GraphDefinition, pending: Seq<bool>) -> WalkState {
    walk_steps(
        d,
        WalkState { ordered: seq![], pending, queue: seq![d.root@], error: None },
        d.relations@.len() + 1int,
    )
}

/// The positions of the flags still set among the first `n`, ascending.
pub open spec fn set_positions(flags: Seq<bool>, n: int) -> Seq<usize>
    decreases n,
{
    if n <= 0 {
        seq![]
    } else {
        set_positions(flags, n - 1) + if flags[n - 1] {
            seq![(n - 1) as usize]
        } else {
            seq![]
        }
    }
}

/// `{a, b, c}`: the numbers in braces, separated by `, `.
pub open spec fn braced_numbers(v: Seq<usize>) -> Seq<char> {
    "{"@ + number_items(v) + "}"@
}

pub open spec fn number_items(v: Seq<usize>) -> Seq<char>
    decreases v.len(),
{
    if v.len() == 0 {
        seq![]
    } else if v.len() == 1 {
        decimal_text(v[0] as nat)
    } else {
        number_items(v.drop_last()) + ", "@ + decimal_text(v.last() as nat)
    }
}

/// The demanded relations in the order the walk from the root meets them, or why they
/// cannot be ordered.
pub open spec fn ordered_relations(d: GraphDefinition, pending: Seq<bool>) -> Result<Seq<usize>, Seq<char>> {
    let w = relation_walk(d, pending);
    match w.error {
        Some(m) => Err(m),
        None => if set_positions(w.pending, w.pending.len() as int).len() > 0 {
            Err(
                "relations "@ + braced_numbers(set_positions(w.pending, w.pending.len() as int))
                    + " cannot be ordered from the root"@,
            )
        } else {
            Ok(w.ordered)
        },
    }
}


#[derive(Debug)]
pub enum PlanError {
    Operation(OperationIssues),
    InvalidCompiledGraph { message: String },
    PaginationThroughManyRelation { relation: String },
    AggregationAcrossManyBranches { left_relation: String, right_relation: String },
}

/// The text that reports a planning error.
pub open spec fn plan_error_text(e: SpecPlanError) -> Seq<char> {
    match e {
        SpecPlanError::Operation(issues) => crate::operation::operation_issues_text(issues),
        SpecPlanError::InvalidCompiledGraph(message) => "invalid compiled graph: "@ + message,
        SpecPlanError::PaginationThroughManyRelation(relation) => "pagination through many relation "@
            + debug_text(relation) + " requires a split query plan"@,
        SpecPlanError::AggregationAcrossManyBranches(left, right) => "aggregation across independent many relations "@
            + debug_text(left) + " and "@ + debug_text(right) + " requires an aggregate subquery plan"@,
    }
}

impl PlanError {
    /// The error as text.
    pub fn message(&self) -> (r: String)
        ensures
            r@ == plan_error_text(plan_error_view(*self)),
    {
        match self {
            PlanError::Operation(issues) => issues.message(),
            PlanError::InvalidCompiledGraph { message } => concat("invalid compiled graph: ", message.as_str()),
            PlanError::PaginationThroughManyRelation { relation } => concat3(
                "pagination through many relation ",
                debug_quote(relation.as_str()).as_str(),
                " requires a split query plan",
            ),
            PlanError::AggregationAcrossManyBranches { left_relation, right_relation } => {
                let mut r = concat3(
                    "aggregation across independent many relations ",
                    debug_quote(left_relation.as_str()).as_str(),
                    " and ",
                );
                r.append(debug_quote(right_relation.as_str()).as_str());
                r.append(" requires an aggregate subquery plan");
                r
            },
        }
    }
}

pub open spec fn plan_error_view(e: PlanError) -> SpecPlanError {
    match e {
        PlanError::Operation(issues) => SpecPlanError::Operation(
            crate::operation::operation_issues_view(issues.0@),
        ),
        PlanError::InvalidCompiledGraph { message } => SpecPlanError::InvalidCompiledGraph(message@),
        PlanError::PaginationThroughManyRelation { relation } => SpecPlanError::PaginationThroughManyRelation(
            relation@,
        ),
        PlanError::AggregationAcrossManyBranches { left_relation, right_relation } => SpecPlanError::AggregationAcrossManyBranches(
            left_relation@,
            right_relation@,
        ),
    }
}

fn mark_path(flags: &mut Vec<bool>, path: &Vec<usize>)
    requires
        forall|k: int| 0 <= k < path@.len() ==> (#[trigger] path@[k]) < old(flags)@.len(),
    ensures
        final(flags)@.len() == old(flags)@.len(),
        forall|r: int| 0 <= r < final(flags)@.len() ==> (#[trigger] final(flags)@[r]) == (old(flags)@[r]
            || exists|k: int| 0 <= k < path@.len() && path@[k] == r),
{
    let mut k: usize = 0;
    while k < path.len()
        invariant
            flags@.len() == old(flags)@.len(),
            forall|j: int| 0 <= j < path@.len() ==> (#[trigger] path@[j]) < flags@.len(),
            k <= path@.len(),
            forall|r: int| 0 <= r < flags@.len() ==> (#[trigger] flags@[r]) == (old(flags)@[r]
                || exists|j: int| 0 <= j < k && path@[j] == r),
        decreases path.len() - k,
    {
        flags.set(path[k], true);
        proof {
            assert forall|r: int| 0 <= r < flags@.len() implies (#[trigger] flags@[r]) == (old(flags)@[r]
                || exists|j: int| 0 <= j < k + 1 && path@[j] == r) by {
                if r == path@[k as int] {
                    assert(path@[k as int] == r);
                }
            }
        }
        k = k + 1;
    }
}

proof fn lemma_demanded_push(paths: Seq<Seq<usize>>, p: Seq<usize>, old_flags: Seq<bool>, new_flags: Seq<bool>, m: int)
    requires
        0 <= m,
        old_flags == demanded(paths, m),
        new_flags.len() == old_flags.len(),
        forall|r: int| 0 <= r < new_flags.len() ==> (#[trigger] new_flags[r]) == (old_flags[r]
            || exists|k: int| 0 <= k < p.len() && p[k] == r),
    ensures
        new_flags == demanded(paths.push(p), m),
{
    let q = paths.push(p);
    assert forall|r: int| 0 <= r < m implies new_flags[r] == on_some_path(q, r) by {
        if new_flags[r] {
            if old_flags[r] {
                let (i, k) = choose|i: int, k: int| 0 <= i < paths.len() && 0 <= k < paths[i].len() && paths[i][k] == r;
                assert(q[i] == paths[i]);
            } else {
                let k = choose|k: int| 0 <= k < p.len() && p[k] == r;
                assert(q[paths.len() as int] == p);
            }
        }
        if on_some_path(q, r) {
            let (i, k) = choose|i: int, k: int| 0 <= i < q.len() && 0 <= k < q[i].len() && q[i][k] == r;
            if i < paths.len() {
                assert(paths[i][k] == r);
            }
        }
    }
    assert(new_flags =~= demanded(q, m));
}

pub open spec fn queue_view(q: Seq<String>) -> Seq<Seq<char>> {
    Seq::new(q.len(), |i: int| q[i]@)
}

proof fn lemma_scan_error_stays(d: GraphDefinition, edges: Seq<usize>, k: int, n: int, s: WalkState)
    requires
        0 <= k <= n,
        scan_edges(d, edges, k, s).error is Some,
    ensures
        scan_edges(d, edges, n, s) == scan_edges(d, edges, k, s),
    decreases n - k,
{
    if k < n {
        lemma_scan_error_stays(d, edges, k, n - 1, s);
    }
}

proof fn lemma_steps_stable(d: GraphDefinition, s: WalkState, a: int, b: int)
    requires
        0 <= a <= b,
        walk_steps(d, s, a).error is Some || walk_steps(d, s, a).queue.len() == 0,
    ensures
        walk_steps(d, s, b) == walk_steps(d, s, a),
    decreases b - a,
{
    if a < b {
        lemma_steps_stable(d, s, a, b - 1);
    }
}

fn numbers_text(v: &Vec<usize>) -> (r: String)
    ensures
        r@ == braced_numbers(v@),
{
    let mut r = text("{");
    let mut i: usize = 0;
    while i < v.len()
        invariant
            i <= v@.len(),
            r@ == "{"@ + number_items(v@.take(i as int)),
        decreases v.len() - i,
    {
        assert(v@.take(i + 1).drop_last() =~= v@.take(i as int));
        if i > 0 {
            r.append(", ");
        }
        push_usize(&mut r, v[i]);
        proof {
            if i == 0 {
                assert(r@ =~= "{"@ + number_items(v@.take(1)));
            } else {
                assert(r@ =~= "{"@ + number_items(v@.take(i + 1)));
            }
        }
        i = i + 1;
    }
    assert(v@.take(v@.len() as int) =~= v@);
    r.append("}");
    r
}

fn positions_set(flags: &Vec<bool>) -> (r: Vec<usize>)
    ensures
        r@ == set_positions(flags@, flags@.len() as int),
{
    let mut r: Vec<usize> = Vec::new();
    let mut i: usize = 0;
    while i < flags.len()
        invariant
            i <= flags@.len(),
            r@ == set_positions(flags@, i as int),
        decreases flags.len() - i,
    {
        if flags[i] {
            r.push(i);
        }
        assert(r@ =~= set_positions(flags@, (i + 1) as int));
        i = i + 1;
    }
    r
}

/// Orders the demanded relations as a breadth-first walk from the root meets them.
fn order_relations(g: &CompiledGraph, required: &Vec<bool>) -> (r: Result<Vec<usize>, PlanError>)
    requires
        required@.len() == g.graph().relations@.len(),
    ensures
        match ordered_relations(g.graph(), required@) {
            Ok(v) => r matches Ok(x) && x@ == v,
            Err(m) => r matches Err(e) && plan_error_view(e) == SpecPlanError::InvalidCompiledGraph(m),
        },
        r matches Ok(x) ==> forall|k: int| 0 <= k < x@.len() ==> (#[trigger] x@[k]) < g.graph().relations@.len(),
{
    let d = g.definition();
    let m = d.relations.len();
    let ghost init = WalkState { ordered: seq![], pending: required@, queue: seq![d.root@], error: None };
    let mut pending = required.clone();
    assert(pending@ =~= required@);
    let mut ordered: Vec<usize> = Vec::new();
    let mut queue: Vec<String> = Vec::new();
    queue.push(text(d.root.as_str()));
    let mut head: usize = 0;
    assert(queue_view(queue@).skip(0) =~= seq![d.root@]);
    while head < queue.len()
        invariant
            *d == g.graph(),
            init == (WalkState { ordered: seq![], pending: required@, queue: seq![d.root@], error: None }),
            m == d.relations@.len(),
            pending@.len() == m,
            head <= queue@.len(),
            queue@.len() == 1 + ordered@.len(),
            ordered@.no_duplicates(),
            forall|k: int| 0 <= k < ordered@.len() ==> (#[trigger] ordered@[k]) < m && !pending@[ordered@[k] as int],
            walk_steps(*d, init, head as int) == (WalkState {
                ordered: ordered@,
                pending: pending@,
                queue: queue_view(queue@).skip(head as int),
                error: None,
            }),
        decreases m + 1 - head,
    {
        proof {
            crate::analysis::topology::lemma_distinct_bounded(ordered@, m as int);
        }
        let key = text(queue[head].as_str());
        let ghost before = WalkState {
            ordered: ordered@,
            pending: pending@,
            queue: queue_view(queue@).skip(head as int),
            error: None,
        };
        head = head + 1;
        let ghost rest = WalkState { queue: before.queue.drop_first(), ..before };
        assert(queue_view(queue@).skip(head as int) =~= before.queue.drop_first());
        assert(walk_steps(*d, init, head as int) == walk_step(*d, before));
        assert(before.queue[0] == key@);
        match g.outgoing_relation_indices(key.as_str()) {
            None => {
                assert(walk_steps(*d, init, head as int) == rest);
            },
            Some(edges) => {
                assert(walk_steps(*d, init, head as int) == scan_edges(*d, edges@, edges@.len() as int, rest));
                let mut k: usize = 0;
                while k < edges.len()
                    invariant
                        *d == g.graph(),
                        init == (WalkState { ordered: seq![], pending: required@, queue: seq![d.root@], error: None }),
                        m == d.relations@.len(),
                        forall|j: int| 0 <= j < edges@.len() ==> (#[trigger] edges@[j]) < m,
                        pending@.len() == m,
                        head <= queue@.len(),
                        queue@.len() == 1 + ordered@.len(),
                        ordered@.no_duplicates(),
                        forall|j: int| 0 <= j < ordered@.len() ==> (#[trigger] ordered@[j]) < m && !pending@[ordered@[j] as int],
                        k <= edges@.len(),
                        walk_steps(*d, init, head as int) == scan_edges(*d, edges@, edges@.len() as int, rest),
                        scan_edges(*d, edges@, k as int, rest) == (WalkState {
                            ordered: ordered@,
                            pending: pending@,
                            queue: queue_view(queue@).skip(head as int),
                            error: None,
                        }),
                    decreases edges.len() - k,
                {
                    let r = edges[k];
                    let name = &d.relations[r].name;
                    match relation_index(d, name.as_str()) {
                        None => {
                            let message = concat3("relation ", debug_quote(name.as_str()).as_str(), " is not indexed");
                            proof {
                                crate::analysis::topology::lemma_distinct_bounded(ordered@, m as int);
                                lemma_scan_error_stays(*d, edges@, k + 1, edges@.len() as int, rest);
                                lemma_steps_stable(*d, init, head as int, m + 1);
                                assert(edges@[k as int] == r);
                                assert(scan_edges(*d, edges@, k + 1, rest).error == Some(message@));
                                assert(relation_walk(*d, init.pending) == walk_steps(*d, init, head as int));
                                assert(relation_walk(*d, init.pending).error == Some(message@));
                            }
                            return Err(PlanError::InvalidCompiledGraph { message });
                        },
                        Some(i) => {
                            proof {
                                lemma_first_key_range(relation_names(*d), name@);
                            }
                            if pending[i] {
                                let ghost q0 = queue_view(queue@).skip(head as int);
                                pending.set(i, false);
                                ordered.push(i);
                                queue.push(text(d.relations[r].to.as_str()));
                                assert(queue_view(queue@).skip(head as int) =~= q0.push(d.relations@[r as int].to@));
                            }
                        },
                    }
                    k = k + 1;
                }
            },
        }
    }
    proof {
        crate::analysis::topology::lemma_distinct_bounded(ordered@, m as int);
        assert(queue_view(queue@).skip(head as int).len() == 0);
        lemma_steps_stable(*d, init, head as int, m + 1);
    }
    let leftover = positions_set(&pending);
    if leftover.len() > 0 {
        let mut message = text("relations ");
        message.append(numbers_text(&leftover).as_str());
        message.append(" cannot be ordered from the root");
        return Err(PlanError::InvalidCompiledGraph { message });
    }
    Ok(ordered)
}


pub open spec fn selection_items(d: GraphDefinition, r: int) -> Seq<OrderByDefinition> {
    match d.relations@[r].selection {
        Some(RelationSelection::FirstBy { order_by }) => order_by@,
        None => seq![],
    }
}

/// The expressions of a relation: its join predicate, then its selection order items.
pub open spec fn relation_expressions(d: GraphDefinition, r: int) -> Seq<Expression> {
    seq![d.relations@[r].on] + Seq::new(selection_items(d, r).len(), |k: int| selection_items(d, r)[k].expression)
}

pub open spec fn parameter_list(es: Seq<Expression>, n: int) -> Seq<Seq<char>>
    decreases n,
{
    if n <= 0 {
        seq![]
    } else {
        parameter_list(es, n - 1) + expression_parameters(es[n - 1])
    }
}

/// The parameters named by the expressions of the relations on a path.
pub open spec fn path_parameters(d: GraphDefinition, p: Seq<usize>, n: int) -> Seq<Seq<char>>
    decreases n,
{
    if n <= 0 {
        seq![]
    } else {
        path_parameters(d, p, n - 1) + parameter_list(
            relation_expressions(d, p[n - 1] as int),
            relation_expressions(d, p[n - 1] as int).len() as int,
        )
    }
}

pub open spec fn path_from_to(d: GraphDefinition, t: GraphTopology, from: Seq<char>, to: Seq<char>) -> Option<Seq<usize>> {
    match (spec_source(d, from), spec_source(d, to)) {
        (Some(a), Some(b)) => path_between(t, a, b),
        _ => None,
    }
}

/// The parameters that the relation paths of the first `n` `exists` nodes need.
pub open spec fn exists_parameters(d: GraphDefinition, t: GraphTopology, nodes: Seq<(Seq<char>, Option<Seq<char>>)>, n: int) -> Result<Seq<Seq<char>>, Seq<char>>
    decreases n,
{
    if n <= 0 {
        Ok(seq![])
    } else {
        match exists_parameters(d, t, nodes, n - 1) {
            Err(m) => Err(m),
            Ok(ps) => {
                let source = nodes[n - 1].0;
                let from = nodes[n - 1].1.unwrap_or(d.root@);
                match path_from_to(d, t, from, source) {
                    None => Err(
                        "exists expression source "@ + debug_text(source) + " is not reachable from "@
                            + debug_text(from),
                    ),
                    Some(p) => Ok(ps + path_parameters(d, p, p.len() as int)),
                }
            },
        }
    }
}

/// The parameters an expression needs: those it names, and those of the relations its
/// `exists` nodes cross.
pub open spec fn expression_demand(d: GraphDefinition, t: GraphTopology, e: Expression) -> Result<Seq<Seq<char>>, Seq<char>> {
    match exists_parameters(d, t, exists_nodes(e), exists_nodes(e).len() as int) {
        Err(m) => Err(m),
        Ok(ps) => Ok(expression_parameters(e) + ps),
    }
}

pub open spec fn demand_list(d: GraphDefinition, t: GraphTopology, es: Seq<Expression>, n: int) -> Result<Seq<Seq<char>>, Seq<char>>
    decreases n,
{
    if n <= 0 {
        Ok(seq![])
    } else {
        match demand_list(d, t, es, n - 1) {
            Err(m) => Err(m),
            Ok(ps) => match expression_demand(d, t, es[n - 1]) {
                Err(m) => Err(m),
                Ok(qs) => Ok(ps + qs),
            },
        }
    }
}

fn copy_path_parameters(d: &GraphDefinition, p: &Vec<usize>, out: &mut Vec<String>)
    requires
        forall|k: int| 0 <= k < p@.len() ==> (#[trigger] p@[k]) < d.relations@.len(),
    ensures
        crate::operation::texts(final(out)@) == crate::operation::texts(old(out)@) + path_parameters(*d, p@, p@.len() as int),
{
    let ghost start = crate::operation::texts(out@);
    let mut k: usize = 0;
    while k < p.len()
        invariant
            forall|j: int| 0 <= j < p@.len() ==> (#[trigger] p@[j]) < d.relations@.len(),
            k <= p@.len(),
            crate::operation::texts(out@) == start + path_parameters(*d, p@, k as int),
        decreases p.len() - k,
    {
        let relation = &d.relations[p[k]];
        let ghost es = relation_expressions(*d, p@[k as int] as int);
        let ghost before = crate::operation::texts(out@);
        let names = collect_parameters(&relation.on);
        push_names(&names, out);
        assert(crate::operation::texts(out@) == before + parameter_list(es, 1)) by {
            assert(es[0] == relation.on);
            assert(parameter_list(es, 0) =~= seq![]);
        }
        let mut j: usize = 0;
        match &relation.selection {
            Some(selection) => {
                let orders = selection.order_by();
                assert(orders@ == selection_items(*d, p@[k as int] as int));
                while j < orders.len()
                    invariant
                        orders@ == selection_items(*d, p@[k as int] as int),
                        es == relation_expressions(*d, p@[k as int] as int),
                        j <= orders@.len(),
                        crate::operation::texts(out@) == before + parameter_list(es, (j + 1) as int),
                    decreases orders.len() - j,
                {
                    let names = collect_parameters(&orders[j].expression);
                    push_names(&names, out);
                    assert(es[(j + 1) as int] == orders@[j as int].expression);
                    assert(crate::operation::texts(out@) =~= before + parameter_list(es, (j + 2) as int));
                    j = j + 1;
                }
            },
            None => {},
        }
        assert(crate::operation::texts(out@) =~= start + path_parameters(*d, p@, (k + 1) as int));
        k = k + 1;
    }
}

fn push_names(names: &Vec<&String>, out: &mut Vec<String>)
    ensures
        crate::operation::texts(final(out)@) == crate::operation::texts(old(out)@) + texts_of(names@),
{
    let ghost start = out@;
    let mut i: usize = 0;
    while i < names.len()
        invariant
            i <= names@.len(),
            out@.len() == start.len() + i,
            forall|j: int| 0 <= j < start.len() ==> (#[trigger] out@[j]) == start[j],
            forall|j: int| 0 <= j < i ==> (#[trigger] out@[start.len() + j])@ == names@[j]@,
        decreases names.len() - i,
    {
        out.push(text(names[i].as_str()));
        i = i + 1;
    }
    assert forall|j: int| 0 <= j < out@.len() implies crate::operation::texts(out@)[j] == (crate::operation::texts(start) + texts_of(names@))[j] by {
        if j >= start.len() {
            assert(out@[start.len() + (j - start.len())] == out@[j]);
        }
    }
    assert(crate::operation::texts(out@) =~= crate::operation::texts(start) + texts_of(names@));
}

/// Appends the parameters an expression needs to `out`, or tells which `exists` source
/// cannot be reached.
fn add_expression_parameters(g: &CompiledGraph, e: &Expression, out: &mut Vec<String>) -> (r: Result<(), PlanError>)
    ensures
        match expression_demand(g.graph(), g.graph_topology(), *e) {
            Ok(ps) => r is Ok && crate::operation::texts(final(out)@) == crate::operation::texts(old(out)@) + ps,
            Err(m) => r matches Err(x) && plan_error_view(x) == SpecPlanError::InvalidCompiledGraph(m),
        },
{
    let d = g.definition();
    let ghost start = crate::operation::texts(out@);
    let names = collect_parameters(e);
    push_names(&names, out);
    let ghost mid = crate::operation::texts(out@);
    let nodes = collect_exists(e);
    let ghost ns = exists_nodes(*e);
    let mut i: usize = 0;
    while i < nodes.len()
        invariant
            *d == g.graph(),
            exists_view(nodes@) == ns,
            ns == exists_nodes(*e),
            i <= nodes@.len(),
            mid == start + expression_parameters(*e),
            exists_parameters(*d, g.graph_topology(), ns, i as int) matches Ok(ps) && crate::operation::texts(out@) == mid + ps,
        decreases nodes.len() - i,
    {
        let (source, from) = nodes[i];
        let from_key: &str = match from {
            Some(f) => f.as_str(),
            None => d.root.as_str(),
        };
        assert(ns[i as int].0 == source@);
        assert(ns[i as int].1.unwrap_or(d.root@) == from_key@);
        match g.relation_path_indices_between(from_key, source.as_str()) {
            None => {
                let mut message = concat3("exists expression source ", debug_quote(source.as_str()).as_str(), " is not reachable from ");
                message.append(debug_quote(from_key).as_str());
                proof {
                    lemma_exists_error_stays(*d, g.graph_topology(), ns, i + 1, ns.len() as int);
                }
                return Err(PlanError::InvalidCompiledGraph { message });
            },
            Some(p) => {
                copy_path_parameters(d, &p, out);
                assert(crate::operation::texts(out@) =~= mid + exists_parameters(*d, g.graph_topology(), ns, (i + 1) as int)->Ok_0);
            },
        }
        i = i + 1;
    }
    assert(crate::operation::texts(out@) =~= start + expression_demand(*d, g.graph_topology(), *e)->Ok_0);
    Ok(())
}

proof fn lemma_exists_error_stays(d: GraphDefinition, t: GraphTopology, nodes: Seq<(Seq<char>, Option<Seq<char>>)>, k: int, n: int)
    requires
        0 <= k <= n,
        exists_parameters(d, t, nodes, k) is Err,
    ensures
        exists_parameters(d, t, nodes, n) == exists_parameters(d, t, nodes, k),
    decreases n - k,
{
    if k < n {
        lemma_exists_error_stays(d, t, nodes, k, n - 1);
    }
}


/// `a` comes before `b` in the order of their characters.
pub open spec fn text_less(a: Seq<char>, b: Seq<char>) -> bool
    decreases a.len(),
{
    if a.len() == 0 {
        b.len() > 0
    } else if b.len() == 0 {
        false
    } else if a[0] != b[0] {
        (a[0] as u32) < (b[0] as u32)
    } else {
        text_less(a.drop_first(), b.drop_first())
    }
}

/// `x` inserted into an ascending list of distinct texts, unless it is there already.
pub open spec fn sorted_insert(s: Seq<Seq<char>>, x: Seq<char>) -> Seq<Seq<char>>
    decreases s.len(),
{
    if s.len() == 0 {
        seq![x]
    } else if s[0] == x {
        s
    } else if text_less(x, s[0]) {
        seq![x] + s
    } else {
        seq![s[0]] + sorted_insert(s.drop_first(), x)
    }
}

/// The names among the first `n` that the operation binds no value to, ascending, each once.
pub open spec fn missing_names(op: QueryOperation, names: Seq<Seq<char>>, n: int) -> Seq<Seq<char>>
    decreases n,
{
    if n <= 0 {
        seq![]
    } else {
        let m = missing_names(op, names, n - 1);
        if bound(op, names[n - 1]) is None {
            sorted_insert(m, names[n - 1])
        } else {
            m
        }
    }
}

pub open spec fn missing_issues(names: Seq<Seq<char>>) -> Seq<SpecOperationIssue> {
    Seq::new(
        names.len(),
        |i: int|
            (
                OperationIssueCode::MissingParameter,
                "parameters."@ + names[i],
                "parameter "@ + debug_text(names[i]) + " is required by the selected query plan"@,
            ),
    )
}

fn text_before(a: &str, b: &str) -> (r: bool)
    ensures
        r == text_less(a@, b@),
{
    let ca = chars_of(a);
    let cb = chars_of(b);
    let mut i: usize = 0;
    assert(a@.skip(0) =~= a@);
    assert(b@.skip(0) =~= b@);
    while i < ca.len() && i < cb.len() && ca[i] == cb[i]
        invariant
            ca@ == a@,
            cb@ == b@,
            i <= ca@.len(),
            i <= cb@.len(),
            text_less(a@, b@) == text_less(a@.skip(i as int), b@.skip(i as int)),
        decreases ca.len() - i,
    {
        assert(a@.skip(i as int).drop_first() =~= a@.skip(i + 1));
        assert(b@.skip(i as int).drop_first() =~= b@.skip(i + 1));
        i = i + 1;
    }
    if i == ca.len() {
        i < cb.len()
    } else if i == cb.len() {
        false
    } else {
        (ca[i] as u32) < (cb[i] as u32)
    }
}

proof fn lemma_insert_skip(s: Seq<Seq<char>>, x: Seq<char>, i: int)
    requires
        0 <= i <= s.len(),
        forall|j: int| 0 <= j < i ==> s[j] != x && !text_less(x, #[trigger] s[j]),
    ensures
        sorted_insert(s, x) == s.take(i) + sorted_insert(s.skip(i), x),
    decreases i,
{
    if i > 0 {
        let t = s.drop_first();
        lemma_insert_skip(t, x, i - 1);
        assert(t.take(i - 1) =~= s.take(i).drop_first());
        assert(t.skip(i - 1) =~= s.skip(i));
        assert(s.take(i) =~= seq![s[0]] + t.take(i - 1));
        assert(sorted_insert(s, x) == seq![s[0]] + sorted_insert(t, x));
    } else {
        assert(s.skip(0) =~= s);
        assert(s.take(0) =~= seq![]);
    }
}

fn insert_sorted(list: &mut Vec<String>, x: &str)
    ensures
        crate::operation::texts(final(list)@) == sorted_insert(crate::operation::texts(old(list)@), x@),
{
    let ghost s = crate::operation::texts(list@);
    let mut i: usize = 0;
    while i < list.len() && !str_eq(list[i].as_str(), x) && !text_before(x, list[i].as_str())
        invariant
            s == crate::operation::texts(list@),
            i <= list@.len(),
            forall|j: int| 0 <= j < i ==> s[j] != x@ && !text_less(x@, #[trigger] s[j]),
        decreases list.len() - i,
    {
        i = i + 1;
    }
    proof {
        lemma_insert_skip(s, x@, i as int);
    }
    if i < list.len() && str_eq(list[i].as_str(), x) {
        assert(s.skip(i as int)[0] == x@);
        assert(s.take(i as int) + s.skip(i as int) =~= s);
        return;
    }
    let ghost before = list@;
    list.insert(i, text(x));
    proof {
        if i < before.len() {
            assert(text_less(x@, s.skip(i as int)[0]));
        }
        assert(crate::operation::texts(list@) =~= s.take(i as int) + sorted_insert(s.skip(i as int), x@));
    }
}

impl QueryOperation {
    /// Checks that the operation binds every parameter a plan needs; reports each missing
    /// one once, in ascending order.
    pub fn validate_plan_parameters(&self, parameters: &Vec<String>) -> (r: Result<(), OperationIssues>)
        ensures
            ({
                let missing = missing_names(*self, crate::operation::texts(parameters@), parameters@.len() as int);
                match r {
                    Ok(()) => missing.len() == 0,
                    Err(e) => missing.len() > 0 && operation_issues_view(e.0@) == missing_issues(missing),
                }
            }),
    {
        let ghost names = crate::operation::texts(parameters@);
        let mut missing: Vec<String> = Vec::new();
        let mut i: usize = 0;
        while i < parameters.len()
            invariant
                names == crate::operation::texts(parameters@),
                i <= parameters@.len(),
                crate::operation::texts(missing@) == missing_names(*self, names, i as int),
            decreases parameters.len() - i,
        {
            assert(names[i as int] == parameters@[i as int]@);
            if bound_index(self, parameters[i].as_str()).is_none() {
                insert_sorted(&mut missing, parameters[i].as_str());
            }
            i = i + 1;
        }
        if missing.len() == 0 {
            return Ok(());
        }
        let ghost ms = crate::operation::texts(missing@);
        let mut issues: Vec<OperationIssue> = Vec::new();
        let mut k: usize = 0;
        while k < missing.len()
            invariant
                ms == crate::operation::texts(missing@),
                k <= missing@.len(),
                issues@.len() == k,
                forall|j: int| 0 <= j < k ==> crate::operation::operation_issue_view(#[trigger] issues@[j]) == missing_issues(ms)[j],
            decreases missing.len() - k,
        {
            let name = missing[k].as_str();
            let ghost before = issues@;
            issues.push(OperationIssue {
                code: OperationIssueCode::MissingParameter,
                location: concat("parameters.", name),
                message: concat3("parameter ", debug_quote(name).as_str(), " is required by the selected query plan"),
            });
            k = k + 1;
        }
        assert(operation_issues_view(issues@) =~= missing_issues(ms));
        Err(OperationIssues(issues))
    }
}


/// The relations of cardinality many among the first `n` of `rels`, in order.
pub open spec fn many_relations(d: GraphDefinition, rels: Seq<usize>, n: int) -> Seq<usize>
    decreases n,
{
    if n <= 0 {
        seq![]
    } else {
        many_relations(d, rels, n - 1) + if d.relations@[rels[n - 1] as int].cardinality
            == RelationCardinality::Many {
            seq![rels[n - 1]]
        } else {
            seq![]
        }
    }
}

pub open spec fn target_path(d: GraphDefinition, t: GraphTopology, r: int) -> Option<Seq<usize>> {
    source_path(d, t, d.relations@[r].to@)
}

pub open spec fn no_target_path(d: GraphDefinition, r: int) -> SpecPlanError {
    SpecPlanError::InvalidCompiledGraph(
        "relation target "@ + debug_text(d.relations@[r].to@) + " has no path from the root"@,
    )
}

/// The many relation `many[i]`, whose target has path `lp`, against those after `j`.
pub open spec fn shape_from(d: GraphDefinition, t: GraphTopology, many: Seq<usize>, i: int, lp: Seq<usize>, j: int) -> Result<(), SpecPlanError>
    decreases many.len() - j,
{
    if j >= many.len() {
        Ok(())
    } else {
        let right = many[j] as int;
        match target_path(d, t, right) {
            None => Err(no_target_path(d, right)),
            Some(rp) => if !is_path_prefix(rp, lp) && !is_path_prefix(lp, rp) {
                Err(
                    SpecPlanError::AggregationAcrossManyBranches(
                        d.relations@[many[i] as int].name@,
                        d.relations@[right].name@,
                    ),
                )
            } else {
                shape_from(d, t, many, i, lp, j + 1)
            },
        }
    }
}

/// Every two many relations of a summary plan lie on one branch: the path of one target
/// extends the path of the other.
pub open spec fn shape_check(d: GraphDefinition, t: GraphTopology, many: Seq<usize>, i: int) -> Result<(), SpecPlanError>
    decreases many.len() - i,
{
    if i >= many.len() || i < 0 {
        Ok(())
    } else {
        match target_path(d, t, many[i] as int) {
            None => Err(no_target_path(d, many[i] as int)),
            Some(lp) => match shape_from(d, t, many, i, lp, i + 1) {
                Err(e) => Err(e),
                Ok(_) => shape_check(d, t, many, i + 1),
            },
        }
    }
}

/// The first relation of cardinality many among the first `n` of `rels`.
pub open spec fn first_many(d: GraphDefinition, rels: Seq<usize>, n: int) -> Option<int>
    decreases n,
{
    if n <= 0 {
        None
    } else {
        match first_many(d, rels, n - 1) {
            Some(r) => Some(r),
            None => if d.relations@[rels[n - 1] as int].cardinality == RelationCardinality::Many {
                Some(rels[n - 1] as int)
            } else {
                None
            },
        }
    }
}

/// The constraints among `actives` whose phase is `phase`, in order.
pub open spec fn constraints_in_phase(d: GraphDefinition, actives: Seq<usize>, phase: ConstraintPhase, n: int) -> Seq<usize>
    decreases n,
{
    if n <= 0 {
        seq![]
    } else {
        constraints_in_phase(d, actives, phase, n - 1) + if constraint_phase_of(
            d.constraints@[actives[n - 1] as int].predicate,
        ) == phase {
            seq![actives[n - 1]]
        } else {
            seq![]
        }
    }
}

/// The expressions whose parameters a plan binds: the selected fields, the selected
/// objects, the dimensions, the active constraints, the order items, then the relations
/// of the plan.
pub open spec fn parameter_expressions(
    d: GraphDefinition,
    sel: Seq<usize>,
    objs: Seq<usize>,
    dims: Seq<usize>,
    actives: Seq<usize>,
    orders: Seq<OrderByDefinition>,
    rels: Seq<usize>,
) -> Seq<Expression> {
    Seq::new(sel.len(), |k: int| d.projection.fields@[sel[k] as int].expression) + Seq::new(
        objs.len(),
        |k: int| d.projection.objects@[objs[k] as int].presence,
    ) + Seq::new(dims.len(), |k: int| d.projection.fields@[dims[k] as int].expression)
        + demand_expressions(d, actives, orders) + relation_expression_list(d, rels, rels.len() as int)
}

pub open spec fn relation_expression_list(d: GraphDefinition, rels: Seq<usize>, n: int) -> Seq<Expression>
    decreases n,
{
    if n <= 0 {
        seq![]
    } else {
        relation_expression_list(d, rels, n - 1) + relation_expressions(d, rels[n - 1] as int)
    }
}

/// A plan as the rules describe it.
pub struct SpecPlan {
    pub projections: Seq<usize>,
    pub objects: Seq<usize>,
    pub relations: Seq<usize>,
    pub before_aggregation: Seq<usize>,
    pub after_aggregation: Seq<usize>,
    pub ordering: Option<int>,
    pub offset: Option<u64>,
    pub limit: Option<u64>,
}

/// Every position that a plan holds names an item of the definition.
pub open spec fn plan_in_range(d: GraphDefinition, p: SpecPlan) -> bool {
    &&& forall|k: int| 0 <= k < p.projections.len() ==> (#[trigger] p.projections[k]) < d.projection.fields@.len()
    &&& forall|k: int| 0 <= k < p.objects.len() ==> (#[trigger] p.objects[k]) < d.projection.objects@.len()
    &&& forall|k: int| 0 <= k < p.relations.len() ==> (#[trigger] p.relations[k]) < d.relations@.len()
    &&& forall|k: int| 0 <= k < p.before_aggregation.len() ==> (#[trigger] p.before_aggregation[k]) < d.constraints@.len()
    &&& forall|k: int| 0 <= k < p.after_aggregation.len() ==> (#[trigger] p.after_aggregation[k]) < d.constraints@.len()
    &&& p.ordering matches Some(o) ==> 0 <= o < d.orderings@.len()
}

/// The plan for an operation on a graph, or why there is none.
pub open spec fn plan_outcome(g: CompiledGraph, op: QueryOperation) -> Result<SpecPlan, SpecPlanError> {
    let d = g.graph();
    let t = g.graph_topology();
    let m = d.relations@.len() as int;
    if operation_issues(op, d).len() > 0 {
        Err(SpecPlanError::Operation(operation_issues(op, d)))
    } else {
        let sel = selected_indices(d, selection(op, d), selection(op, d).len() as int);
        let ordering = ordering_choice(op, d);
        let objs = selected_objects(d, sel);
        let actives = active_constraints(op, d, d.constraints@.len() as int);
        let orders = ordering_items(d, ordering);
        let demand = demand_expressions(d, actives, orders);
        let outer = outer_source_list(demand, demand.len() as int);
        match first_pathless(d, t, outer, outer.len() as int) {
            Some(key) => Err(
                SpecPlanError::InvalidCompiledGraph(
                    "expression refers to missing source "@ + debug_text(key),
                ),
            ),
            None => {
                let dims = dimension_positions(d, d.projection.fields@.len() as int);
                match ordered_relations(d, demanded(demand_paths(d, t, sel, objs, dims, outer), m)) {
                    Err(message) => Err(SpecPlanError::InvalidCompiledGraph(message)),
                    Ok(rels) => {
                        let es = parameter_expressions(d, sel, objs, dims, actives, orders, rels);
                        match demand_list(d, t, es, es.len() as int) {
                            Err(message) => Err(SpecPlanError::InvalidCompiledGraph(message)),
                            Ok(ps) => {
                                let missing = missing_names(op, ps, ps.len() as int);
                                let many = many_relations(d, rels, rels.len() as int);
                                if missing.len() > 0 {
                                    Err(SpecPlanError::Operation(missing_issues(missing)))
                                } else if spec_is_summary(d) && shape_check(d, t, many, 0) is Err {
                                    Err(shape_check(d, t, many, 0)->Err_0)
                                } else if !spec_is_summary(d) && (op.offset is Some || op.limit is Some)
                                    && first_many(d, rels, rels.len() as int) is Some {
                                    Err(
                                        SpecPlanError::PaginationThroughManyRelation(
                                            d.relations@[first_many(d, rels, rels.len() as int)->0].name@,
                                        ),
                                    )
                                } else {
                                    Ok(
                                        SpecPlan {
                                            projections: sel,
                                            objects: objs,
                                            relations: rels,
                                            before_aggregation: constraints_in_phase(
                                                d,
                                                actives,
                                                ConstraintPhase::BeforeAggregation,
                                                actives.len() as int,
                                            ),
                                            after_aggregation: constraints_in_phase(
                                                d,
                                                actives,
                                                ConstraintPhase::AfterAggregation,
                                                actives.len() as int,
                                            ),
                                            ordering,
                                            offset: op.offset,
                                            limit: op.limit,
                                        },
                                    )
                                }
                            },
                        }
                    },
                }
            },
        }
    }
}


fn active_constraint_list(d: &GraphDefinition, op: &QueryOperation) -> (r: Vec<usize>)
    ensures
        r@ == active_constraints(*op, *d, d.constraints@.len() as int),
        forall|k: int| 0 <= k < r@.len() ==> (#[trigger] r@[k]) < d.constraints@.len(),
{
    let mut r: Vec<usize> = Vec::new();
    let mut i: usize = 0;
    while i < d.constraints.len()
        invariant
            i <= d.constraints@.len(),
            r@ == active_constraints(*op, *d, i as int),
            forall|k: int| 0 <= k < r@.len() ==> (#[trigger] r@[k]) < i,
        decreases d.constraints.len() - i,
    {
        let active = match &d.constraints[i].when {
            ConstraintCondition::Always => true,
            ConstraintCondition::ParameterPresent { parameter } => bound_index(op, parameter.as_str()).is_some(),
        };
        if active {
            r.push(i);
        }
        assert(r@ =~= active_constraints(*op, *d, (i + 1) as int));
        i = i + 1;
    }
    r
}

fn demand_expression_list<'a>(d: &'a GraphDefinition, actives: &Vec<usize>, ordering: Option<usize>) -> (r: Vec<&'a Expression>)
    requires
        forall|k: int| 0 <= k < actives@.len() ==> (#[trigger] actives@[k]) < d.constraints@.len(),
        ordering matches Some(o) ==> o < d.orderings@.len(),
    ensures
        derefs(r@) == demand_expressions(*d, actives@, ordering_items(*d, match ordering {
            Some(o) => Some(o as int),
            None => None,
        })),
{
    let ghost orders = ordering_items(*d, match ordering {
        Some(o) => Some(o as int),
        None => None,
    });
    let ghost target = demand_expressions(*d, actives@, orders);
    let mut r: Vec<&Expression> = Vec::new();
    let mut k: usize = 0;
    while k < actives.len()
        invariant
            forall|j: int| 0 <= j < actives@.len() ==> (#[trigger] actives@[j]) < d.constraints@.len(),
            target == demand_expressions(*d, actives@, orders),
            k <= actives@.len(),
            r@.len() == k,
            forall|j: int| 0 <= j < k ==> *(#[trigger] r@[j]) == target[j],
        decreases actives.len() - k,
    {
        r.push(&d.constraints[actives[k]].predicate);
        k = k + 1;
    }
    match ordering {
        Some(o) => {
            let items = &d.orderings[o].order_by;
            let mut j: usize = 0;
            while j < items.len()
                invariant
                    o < d.orderings@.len(),
                    *items == d.orderings@[o as int].order_by,
                    orders == items@,
                    target == demand_expressions(*d, actives@, orders),
                    j <= items@.len(),
                    r@.len() == actives@.len() + j,
                    forall|x: int| 0 <= x < r@.len() ==> *(#[trigger] r@[x]) == target[x],
                decreases items.len() - j,
            {
                r.push(&items[j].expression);
                j = j + 1;
            }
        },
        None => {},
    }
    assert(derefs(r@) =~= target);
    r
}

fn outer_source_texts<'a>(es: &Vec<&'a Expression>) -> (r: Vec<&'a String>)
    ensures
        texts_of(r@) == outer_source_list(derefs(es@), es@.len() as int),
{
    let ghost ds = derefs(es@);
    let mut r: Vec<&String> = Vec::new();
    let mut i: usize = 0;
    while i < es.len()
        invariant
            ds == derefs(es@),
            i <= es@.len(),
            texts_of(r@) == outer_source_list(ds, i as int),
        decreases es.len() - i,
    {
        let found = collect_outer_sources(es[i]);
        let mut k: usize = 0;
        let ghost before = r@;
        while k < found.len()
            invariant
                k <= found@.len(),
                r@.len() == before.len() + k,
                forall|x: int| 0 <= x < before.len() ==> (#[trigger] r@[x]) == before[x],
                forall|x: int| 0 <= x < k ==> (#[trigger] r@[before.len() + x]) == found@[x],
            decreases found.len() - k,
        {
            r.push(found[k]);
            k = k + 1;
        }
        assert forall|x: int| 0 <= x < r@.len() implies texts_of(r@)[x] == (texts_of(before) + texts_of(found@))[x] by {
            if x >= before.len() {
                assert(r@[before.len() + (x - before.len())] == r@[x]);
            }
        }
        assert(texts_of(r@) =~= outer_source_list(ds, (i + 1) as int));
        i = i + 1;
    }
    r
}

/// Marks the relations on every demanded path; fails on the first outer source without a path.
fn demanded_relations(
    g: &CompiledGraph,
    sel: &Vec<usize>,
    objs: &Vec<usize>,
    dims: &Vec<usize>,
    outer: &Vec<&String>,
) -> (r: Result<Vec<bool>, PlanError>)
    requires
        forall|k: int| 0 <= k < sel@.len() ==> (#[trigger] sel@[k]) < g.graph().projection.fields@.len(),
        forall|k: int| 0 <= k < objs@.len() ==> (#[trigger] objs@[k]) < g.graph().projection.objects@.len(),
        forall|k: int| 0 <= k < dims@.len() ==> (#[trigger] dims@[k]) < g.graph().projection.fields@.len(),
    ensures
        match first_pathless(g.graph(), g.graph_topology(), texts_of(outer@), outer@.len() as int) {
            Some(key) => r matches Err(e) && plan_error_view(e) == SpecPlanError::InvalidCompiledGraph(
                "expression refers to missing source "@ + debug_text(key),
            ),
            None => r matches Ok(flags) && flags@ == demanded(
                demand_paths(g.graph(), g.graph_topology(), sel@, objs@, dims@, texts_of(outer@)),
                g.graph().relations@.len() as int,
            ),
        },
{
    let d = g.definition();
    let m = d.relations.len();
    let ghost target = demand_paths(*d, g.graph_topology(), sel@, objs@, dims@, texts_of(outer@));
    let mut flags: Vec<bool> = Vec::new();
    let mut i: usize = 0;
    while i < m
        invariant
            i <= m,
            flags@.len() == i,
            forall|r: int| 0 <= r < i ==> !(#[trigger] flags@[r]),
        decreases m - i,
    {
        flags.push(false);
        i = i + 1;
    }
    let ghost mut done: Seq<Seq<usize>> = seq![];
    assert(flags@ =~= demanded(done, m as int));
    let mut k: usize = 0;
    while k < sel.len()
        invariant
            *d == g.graph(),
            m == d.relations@.len(),
            forall|x: int| 0 <= x < sel@.len() ==> (#[trigger] sel@[x]) < d.projection.fields@.len(),
            k <= sel@.len(),
            flags@ == demanded(done, m as int),
            done == target.take(k as int),
            target == demand_paths(*d, g.graph_topology(), sel@, objs@, dims@, texts_of(outer@)),
        decreases sel.len() - k,
    {
        let path = g.projection_path_at(sel[k]);
        let ghost old_flags = flags@;
        mark_path(&mut flags, path);
        proof {
            lemma_demanded_push(done, path@, old_flags, flags@, m as int);
            done = done.push(path@);
            assert(done =~= target.take((k + 1) as int));
        }
        k = k + 1;
    }
    let mut k: usize = 0;
    while k < objs.len()
        invariant
            *d == g.graph(),
            m == d.relations@.len(),
            forall|x: int| 0 <= x < objs@.len() ==> (#[trigger] objs@[x]) < d.projection.objects@.len(),
            k <= objs@.len(),
            flags@ == demanded(done, m as int),
            done == target.take(sel@.len() + k),
            target == demand_paths(*d, g.graph_topology(), sel@, objs@, dims@, texts_of(outer@)),
        decreases objs.len() - k,
    {
        let path = g.object_path_at(objs[k]);
        let ghost old_flags = flags@;
        mark_path(&mut flags, path);
        proof {
            lemma_demanded_push(done, path@, old_flags, flags@, m as int);
            done = done.push(path@);
            assert(done =~= target.take(sel@.len() + k + 1));
        }
        k = k + 1;
    }
    let mut k: usize = 0;
    while k < dims.len()
        invariant
            *d == g.graph(),
            m == d.relations@.len(),
            forall|x: int| 0 <= x < dims@.len() ==> (#[trigger] dims@[x]) < d.projection.fields@.len(),
            k <= dims@.len(),
            flags@ == demanded(done, m as int),
            done == target.take(sel@.len() + objs@.len() + k),
            target == demand_paths(*d, g.graph_topology(), sel@, objs@, dims@, texts_of(outer@)),
        decreases dims.len() - k,
    {
        let path = g.projection_path_at(dims[k]);
        let ghost old_flags = flags@;
        mark_path(&mut flags, path);
        proof {
            lemma_demanded_push(done, path@, old_flags, flags@, m as int);
            done = done.push(path@);
            assert(done =~= target.take(sel@.len() + objs@.len() + k + 1));
        }
        k = k + 1;
    }
    let mut k: usize = 0;
    while k < outer.len()
        invariant
            *d == g.graph(),
            m == d.relations@.len(),
            k <= outer@.len(),
            flags@ == demanded(done, m as int),
            done == target.take(sel@.len() + objs@.len() + dims@.len() + k),
            target == demand_paths(*d, g.graph_topology(), sel@, objs@, dims@, texts_of(outer@)),
            first_pathless(*d, g.graph_topology(), texts_of(outer@), k as int) is None,
        decreases outer.len() - k,
    {
        assert(texts_of(outer@)[k as int] == outer@[k as int]@);
        match g.relation_path_indices(outer[k].as_str()) {
            None => {
                proof {
                    lemma_pathless_stays(*d, g.graph_topology(), texts_of(outer@), k + 1, outer@.len() as int);
                }
                return Err(PlanError::InvalidCompiledGraph {
                    message: concat("expression refers to missing source ", debug_quote(outer[k].as_str()).as_str()),
                });
            },
            Some(path) => {
                let ghost old_flags = flags@;
                mark_path(&mut flags, path);
                proof {
                    lemma_demanded_push(done, path@, old_flags, flags@, m as int);
                    done = done.push(path@);
                    assert(done =~= target.take(sel@.len() + objs@.len() + dims@.len() + k + 1));
                }
            },
        }
        k = k + 1;
    }
    assert(done =~= target);
    Ok(flags)
}

proof fn lemma_pathless_stays(d: GraphDefinition, t: GraphTopology, keys: Seq<Seq<char>>, k: int, n: int)
    requires
        0 <= k <= n,
        first_pathless(d, t, keys, k) is Some,
    ensures
        first_pathless(d, t, keys, n) == first_pathless(d, t, keys, k),
    decreases n - k,
{
    if k < n {
        lemma_pathless_stays(d, t, keys, k, n - 1);
    }
}


fn parameter_expression_list<'a>(
    d: &'a GraphDefinition,
    sel: &Vec<usize>,
    objs: &Vec<usize>,
    dims: &Vec<usize>,
    demand: &Vec<&'a Expression>,
    rels: &Vec<usize>,
) -> (r: Vec<&'a Expression>)
    requires
        forall|k: int| 0 <= k < sel@.len() ==> (#[trigger] sel@[k]) < d.projection.fields@.len(),
        forall|k: int| 0 <= k < objs@.len() ==> (#[trigger] objs@[k]) < d.projection.objects@.len(),
        forall|k: int| 0 <= k < dims@.len() ==> (#[trigger] dims@[k]) < d.projection.fields@.len(),
        forall|k: int| 0 <= k < rels@.len() ==> (#[trigger] rels@[k]) < d.relations@.len(),
    ensures
        derefs(r@) == Seq::new(sel@.len(), |k: int| d.projection.fields@[sel@[k] as int].expression)
            + Seq::new(objs@.len(), |k: int| d.projection.objects@[objs@[k] as int].presence)
            + Seq::new(dims@.len(), |k: int| d.projection.fields@[dims@[k] as int].expression)
            + derefs(demand@) + relation_expression_list(*d, rels@, rels@.len() as int),
{
    let ghost target = Seq::new(sel@.len(), |k: int| d.projection.fields@[sel@[k] as int].expression)
        + Seq::new(objs@.len(), |k: int| d.projection.objects@[objs@[k] as int].presence)
        + Seq::new(dims@.len(), |k: int| d.projection.fields@[dims@[k] as int].expression)
        + derefs(demand@);
    let mut r: Vec<&Expression> = Vec::new();
    let mut k: usize = 0;
    while k < sel.len()
        invariant
            forall|x: int| 0 <= x < sel@.len() ==> (#[trigger] sel@[x]) < d.projection.fields@.len(),
            k <= sel@.len(),
            r@.len() == k,
            forall|x: int| 0 <= x < k ==> *(#[trigger] r@[x]) == d.projection.fields@[sel@[x] as int].expression,
        decreases sel.len() - k,
    {
        r.push(&d.projection.fields[sel[k]].expression);
        k = k + 1;
    }
    let mut k: usize = 0;
    while k < objs.len()
        invariant
            forall|x: int| 0 <= x < objs@.len() ==> (#[trigger] objs@[x]) < d.projection.objects@.len(),
            k <= objs@.len(),
            r@.len() == sel@.len() + k,
            forall|x: int| 0 <= x < sel@.len() ==> *(#[trigger] r@[x]) == d.projection.fields@[sel@[x] as int].expression,
            forall|x: int| 0 <= x < k ==> *(#[trigger] r@[sel@.len() + x]) == d.projection.objects@[objs@[x] as int].presence,
        decreases objs.len() - k,
    {
        r.push(&d.projection.objects[objs[k]].presence);
        k = k + 1;
    }
    let mut k: usize = 0;
    while k < dims.len()
        invariant
            forall|x: int| 0 <= x < dims@.len() ==> (#[trigger] dims@[x]) < d.projection.fields@.len(),
            k <= dims@.len(),
            r@.len() == sel@.len() + objs@.len() + k,
            forall|x: int| 0 <= x < sel@.len() ==> *(#[trigger] r@[x]) == d.projection.fields@[sel@[x] as int].expression,
            forall|x: int| 0 <= x < objs@.len() ==> *(#[trigger] r@[sel@.len() + x]) == d.projection.objects@[objs@[x] as int].presence,
            forall|x: int| 0 <= x < k ==> *(#[trigger] r@[sel@.len() + objs@.len() + x]) == d.projection.fields@[dims@[x] as int].expression,
        decreases dims.len() - k,
    {
        r.push(&d.projection.fields[dims[k]].expression);
        k = k + 1;
    }
    let mut k: usize = 0;
    while k < demand.len()
        invariant
            k <= demand@.len(),
            r@.len() == sel@.len() + objs@.len() + dims@.len() + k,
            forall|x: int| 0 <= x < sel@.len() ==> *(#[trigger] r@[x]) == d.projection.fields@[sel@[x] as int].expression,
            forall|x: int| 0 <= x < objs@.len() ==> *(#[trigger] r@[sel@.len() + x]) == d.projection.objects@[objs@[x] as int].presence,
            forall|x: int| 0 <= x < dims@.len() ==> *(#[trigger] r@[sel@.len() + objs@.len() + x]) == d.projection.fields@[dims@[x] as int].expression,
            forall|x: int| 0 <= x < k ==> *(#[trigger] r@[sel@.len() + objs@.len() + dims@.len() + x]) == *demand@[x],
        decreases demand.len() - k,
    {
        r.push(demand[k]);
        k = k + 1;
    }
    proof {
        assert forall|x: int| 0 <= x < r@.len() implies *(#[trigger] r@[x]) == target[x] by {
            if x >= sel@.len() + objs@.len() + dims@.len() {
                assert(r@[sel@.len() + objs@.len() + dims@.len() + (x - sel@.len() - objs@.len() - dims@.len())] == r@[x]);
            } else if x >= sel@.len() + objs@.len() {
                assert(r@[sel@.len() + objs@.len() + (x - sel@.len() - objs@.len())] == r@[x]);
            } else if x >= sel@.len() {
                assert(r@[sel@.len() + (x - sel@.len())] == r@[x]);
            }
        }
        assert(derefs(r@) =~= target);
    }
    let mut k: usize = 0;
    while k < rels.len()
        invariant
            forall|x: int| 0 <= x < rels@.len() ==> (#[trigger] rels@[x]) < d.relations@.len(),
            k <= rels@.len(),
            derefs(r@) == target + relation_expression_list(*d, rels@, k as int),
        decreases rels.len() - k,
    {
        let relation = &d.relations[rels[k]];
        let ghost es = relation_expressions(*d, rels@[k as int] as int);
        let ghost before = derefs(r@);
        r.push(&relation.on);
        assert(derefs(r@) =~= before + es.take(1));
        match &relation.selection {
            Some(selection) => {
                let orders = selection.order_by();
                assert(orders@ == selection_items(*d, rels@[k as int] as int));
                let mut j: usize = 0;
                while j < orders.len()
                    invariant
                        orders@ == selection_items(*d, rels@[k as int] as int),
                        es == relation_expressions(*d, rels@[k as int] as int),
                        j <= orders@.len(),
                        derefs(r@) == before + es.take(j + 1),
                    decreases orders.len() - j,
                {
                    let ghost prev = r@;
                    r.push(&orders[j].expression);
                    assert(es[j + 1] == orders@[j as int].expression);
                    assert(derefs(r@) =~= derefs(prev).push(orders@[j as int].expression));
                    assert(es.take(j + 2) =~= es.take(j + 1).push(es[j + 1]));
                    assert(derefs(r@) =~= before + es.take(j + 2));
                    j = j + 1;
                }
                assert(es.take(orders@.len() + 1int) =~= es);
            },
            None => {
                assert(es.take(1) =~= es);
            },
        }
        assert(derefs(r@) =~= target + relation_expression_list(*d, rels@, (k + 1) as int));
        k = k + 1;
    }
    r
}

fn demand_parameters(g: &CompiledGraph, es: &Vec<&Expression>) -> (r: Result<Vec<String>, PlanError>)
    ensures
        match demand_list(g.graph(), g.graph_topology(), derefs(es@), es@.len() as int) {
            Ok(ps) => r matches Ok(v) && crate::operation::texts(v@) == ps,
            Err(m) => r matches Err(e) && plan_error_view(e) == SpecPlanError::InvalidCompiledGraph(m),
        },
{
    let ghost ds = derefs(es@);
    let mut out: Vec<String> = Vec::new();
    let mut i: usize = 0;
    assert(crate::operation::texts(out@) =~= seq![]);
    while i < es.len()
        invariant
            ds == derefs(es@),
            i <= es@.len(),
            demand_list(g.graph(), g.graph_topology(), ds, i as int) matches Ok(ps) && crate::operation::texts(out@) == ps,
        decreases es.len() - i,
    {
        match add_expression_parameters(g, es[i], &mut out) {
            Err(e) => {
                proof {
                    lemma_demand_error_stays(g.graph(), g.graph_topology(), ds, i + 1, ds.len() as int);
                }
                return Err(e);
            },
            Ok(()) => {},
        }
        i = i + 1;
    }
    Ok(out)
}

proof fn lemma_demand_error_stays(d: GraphDefinition, t: GraphTopology, es: Seq<Expression>, k: int, n: int)
    requires
        0 <= k <= n,
        demand_list(d, t, es, k) is Err,
    ensures
        demand_list(d, t, es, n) == demand_list(d, t, es, k),
    decreases n - k,
{
    if k < n {
        lemma_demand_error_stays(d, t, es, k, n - 1);
    }
}

fn many_relation_list(d: &GraphDefinition, rels: &Vec<usize>) -> (r: Vec<usize>)
    requires
        forall|k: int| 0 <= k < rels@.len() ==> (#[trigger] rels@[k]) < d.relations@.len(),
    ensures
        r@ == many_relations(*d, rels@, rels@.len() as int),
        forall|k: int| 0 <= k < r@.len() ==> (#[trigger] r@[k]) < d.relations@.len(),
{
    let mut r: Vec<usize> = Vec::new();
    let mut i: usize = 0;
    while i < rels.len()
        invariant
            forall|k: int| 0 <= k < rels@.len() ==> (#[trigger] rels@[k]) < d.relations@.len(),
            i <= rels@.len(),
            r@ == many_relations(*d, rels@, i as int),
            forall|k: int| 0 <= k < r@.len() ==> (#[trigger] r@[k]) < d.relations@.len(),
        decreases rels.len() - i,
    {
        if d.relations[rels[i]].cardinality == RelationCardinality::Many {
            r.push(rels[i]);
        }
        assert(r@ =~= many_relations(*d, rels@, (i + 1) as int));
        i = i + 1;
    }
    r
}

fn path_prefix_of(prefix: &Vec<usize>, path: &Vec<usize>) -> (r: bool)
    ensures
        r == is_path_prefix(prefix@, path@),
{
    if prefix.len() > path.len() {
        return false;
    }
    let mut i: usize = 0;
    while i < prefix.len()
        invariant
            prefix@.len() <= path@.len(),
            i <= prefix@.len(),
            forall|j: int| 0 <= j < i ==> prefix@[j] == path@[j],
        decreases prefix.len() - i,
    {
        if prefix[i] != path[i] {
            assert(path@.take(prefix@.len() as int)[i as int] != prefix@[i as int]);
            return false;
        }
        i = i + 1;
    }
    assert(path@.take(prefix@.len() as int) =~= prefix@);
    true
}

fn no_target_path_error(d: &GraphDefinition, r: usize) -> (e: PlanError)
    requires
        r < d.relations@.len(),
    ensures
        plan_error_view(e) == no_target_path(*d, r as int),
{
    PlanError::InvalidCompiledGraph {
        message: concat3("relation target ", debug_quote(d.relations[r].to.as_str()).as_str(), " has no path from the root"),
    }
}

/// Checks that the many relations of a summary plan lie on one branch.
fn validate_summary_relation_shape(g: &CompiledGraph, many: &Vec<usize>) -> (r: Result<(), PlanError>)
    requires
        forall|k: int| 0 <= k < many@.len() ==> (#[trigger] many@[k]) < g.graph().relations@.len(),
    ensures
        match shape_check(g.graph(), g.graph_topology(), many@, 0) {
            Ok(_) => r is Ok,
            Err(e) => r matches Err(x) && plan_error_view(x) == e,
        },
{
    let d = g.definition();
    let mut i: usize = 0;
    while i < many.len()
        invariant
            *d == g.graph(),
            forall|k: int| 0 <= k < many@.len() ==> (#[trigger] many@[k]) < d.relations@.len(),
            i <= many@.len(),
            shape_check(*d, g.graph_topology(), many@, 0) == shape_check(*d, g.graph_topology(), many@, i as int),
        decreases many.len() - i,
    {
        let left = many[i];
        let left_path = match g.relation_path_indices(d.relations[left].to.as_str()) {
            Some(p) => p,
            None => {
                return Err(no_target_path_error(d, left));
            },
        };
        let mut j: usize = i + 1;
        while j < many.len()
            invariant
                *d == g.graph(),
                forall|k: int| 0 <= k < many@.len() ==> (#[trigger] many@[k]) < d.relations@.len(),
                i < many@.len(),
                left == many@[i as int],
                target_path(*d, g.graph_topology(), left as int) == Some(left_path@),
                i + 1 <= j <= many@.len(),
                shape_check(*d, g.graph_topology(), many@, 0) == shape_check(*d, g.graph_topology(), many@, i as int),
                shape_from(*d, g.graph_topology(), many@, i as int, left_path@, (i + 1) as int)
                    == shape_from(*d, g.graph_topology(), many@, i as int, left_path@, j as int),
            decreases many.len() - j,
        {
            let right = many[j];
            let right_path = match g.relation_path_indices(d.relations[right].to.as_str()) {
                Some(p) => p,
                None => {
                    return Err(no_target_path_error(d, right));
                },
            };
            if !path_prefix_of(right_path, left_path) && !path_prefix_of(left_path, right_path) {
                return Err(PlanError::AggregationAcrossManyBranches {
                    left_relation: text(d.relations[left].name.as_str()),
                    right_relation: text(d.relations[right].name.as_str()),
                });
            }
            j = j + 1;
        }
        i = i + 1;
    }
    Ok(())
}

fn first_many_relation(d: &GraphDefinition, rels: &Vec<usize>) -> (r: Option<usize>)
    requires
        forall|k: int| 0 <= k < rels@.len() ==> (#[trigger] rels@[k]) < d.relations@.len(),
    ensures
        match first_many(*d, rels@, rels@.len() as int) {
            Some(x) => 0 <= x < d.relations@.len() && r == Some(x as usize),
            None => r is None,
        },
{
    let mut i: usize = 0;
    while i < rels.len()
        invariant
            forall|k: int| 0 <= k < rels@.len() ==> (#[trigger] rels@[k]) < d.relations@.len(),
            i <= rels@.len(),
            first_many(*d, rels@, i as int) is None,
        decreases rels.len() - i,
    {
        if d.relations[rels[i]].cardinality == RelationCardinality::Many {
            proof {
                lemma_first_many_stays(*d, rels@, i + 1, rels@.len() as int);
            }
            return Some(rels[i]);
        }
        i = i + 1;
    }
    None
}

proof fn lemma_first_many_stays(d: GraphDefinition, rels: Seq<usize>, k: int, n: int)
    requires
        0 <= k <= n,
        first_many(d, rels, k) is Some,
    ensures
        first_many(d, rels, n) == first_many(d, rels, k),
    decreases n - k,
{
    if k < n {
        lemma_first_many_stays(d, rels, k, n - 1);
    }
}

fn constraints_of_phase(g: &CompiledGraph, actives: &Vec<usize>, phase: ConstraintPhase) -> (r: Vec<usize>)
    requires
        forall|k: int| 0 <= k < actives@.len() ==> (#[trigger] actives@[k]) < g.graph().constraints@.len(),
    ensures
        r@ == constraints_in_phase(g.graph(), actives@, phase, actives@.len() as int),
        forall|k: int| 0 <= k < r@.len() ==> (#[trigger] r@[k]) < g.graph().constraints@.len(),
{
    let mut r: Vec<usize> = Vec::new();
    let mut i: usize = 0;
    while i < actives.len()
        invariant
            forall|k: int| 0 <= k < actives@.len() ==> (#[trigger] actives@[k]) < g.graph().constraints@.len(),
            i <= actives@.len(),
            r@ == constraints_in_phase(g.graph(), actives@, phase, i as int),
            forall|k: int| 0 <= k < r@.len() ==> (#[trigger] r@[k]) < g.graph().constraints@.len(),
        decreases actives.len() - i,
    {
        if g.constraint_phase(actives[i]) == phase {
            r.push(actives[i]);
        }
        assert(r@ =~= constraints_in_phase(g.graph(), actives@, phase, (i + 1) as int));
        i = i + 1;
    }
    r
}


/// The projection fields, objects, relations and constraints that answer an operation.
#[derive(Debug, Clone, PartialEq, Eq)]
pub struct QueryPlan {
    pub projection_indices: Vec<usize>,
    pub projection_object_indices: Vec<usize>,
    pub relation_indices: Vec<usize>,
    pub pre_aggregation_constraint_indices: Vec<usize>,
    pub post_aggregation_constraint_indices: Vec<usize>,
    pub ordering_index: Option<usize>,
    pub offset: Option<u64>,
    pub limit: Option<u64>,
}

pub open spec fn plan_view(p: QueryPlan) -> SpecPlan {
    SpecPlan {
        projections: p.projection_indices@,
        objects: p.projection_object_indices@,
        relations: p.relation_indices@,
        before_aggregation: p.pre_aggregation_constraint_indices@,
        after_aggregation: p.post_aggregation_constraint_indices@,
        ordering: match p.ordering_index {
            Some(o) => Some(o as int),
            None => None,
        },
        offset: p.offset,
        limit: p.limit,
    }
}

impl QueryPlan {
    pub fn offset(&self) -> (r: Option<u64>)
        ensures
            r == self.offset,
    {
        self.offset
    }

    pub fn limit(&self) -> (r: Option<u64>)
        ensures
            r == self.limit,
    {
        self.limit
    }
}

proof fn lemma_projection_position_range(d: GraphDefinition, p: Seq<Seq<char>>, n: int)
    ensures
        projection_position(d, p, n) matches Some(i) ==> 0 <= i < n,
    decreases n,
{
    if n > 0 {
        lemma_projection_position_range(d, p, n - 1);
    }
}

proof fn lemma_selected_in_range(d: GraphDefinition, sel: Seq<Seq<char>>, n: int)
    requires
        d.projection.fields@.len() <= usize::MAX,
    ensures
        forall|k: int| 0 <= k < selected_indices(d, sel, n).len() ==> (#[trigger] selected_indices(d, sel, n)[k]) < d.projection.fields@.len(),
    decreases n,
{
    if n > 0 {
        lemma_selected_in_range(d, sel, n - 1);
        let prev = selected_indices(d, sel, n - 1);
        let cur = selected_indices(d, sel, n);
        lemma_projection_position_range(d, split_dots(sel[n - 1]), d.projection.fields@.len() as int);
        assert forall|k: int| 0 <= k < cur.len() implies (#[trigger] cur[k]) < d.projection.fields@.len() by {
            if k < prev.len() {
                assert(cur[k] == prev[k]);
            }
        }
    }
}

proof fn lemma_default_ordering_range(d: GraphDefinition, n: int)
    ensures
        default_ordering_in(d, n) matches Some(i) ==> 0 <= i < n,
    decreases n,
{
    if n > 0 {
        lemma_default_ordering_range(d, n - 1);
    }
}

/// Plans an operation on a compiled graph.
#[verifier::rlimit(40)]
pub fn build(graph: &CompiledGraph, operation: &QueryOperation) -> (r: Result<QueryPlan, PlanError>)
    ensures
        match plan_outcome(*graph, *operation) {
            Ok(p) => r matches Ok(x) && plan_view(x) == p,
            Err(e) => r matches Err(x) && plan_error_view(x) == e,
        },
        r matches Ok(p) ==> plan_in_range(graph.graph(), plan_view(p)),
{
    let d = graph.definition();
    let ghost t = graph.graph_topology();
    let validated = match operation.validate(graph) {
        Err(issues) => return Err(PlanError::Operation(issues)),
        Ok(v) => v,
    };
    let field_count = d.projection.fields.len();
    let ordering_count = d.orderings.len();
    let relation_count = d.relations.len();
    let ghost sel_s = selected_indices(*d, selection(*operation, *d), selection(*operation, *d).len() as int);
    let ghost ordering_s = ordering_choice(*operation, *d);
    proof {
        let sel = selection(*operation, *d);
        lemma_selected_in_range(*d, sel, sel.len() as int);
        lemma_default_ordering_range(*d, d.orderings@.len() as int);
        if operation.ordering is Some {
            crate::analysis::index::lemma_first_key_range(ordering_names(*d), operation.ordering->0@);
        }
        if ordering_s is Some {
            let i = ordering_s->0;
            assert(0 <= i < ordering_count);
            assert(validated.ordering_index == Some(i as usize));
        }
        assert(match validated.ordering_index {
            Some(o) => Some(o as int),
            None => None,
        } == ordering_s);
    }
    let sel = &validated.projection_indices;
    let objects = graph.selected_projection_object_indices(sel);
    let actives = active_constraint_list(d, operation);
    let demand = demand_expression_list(d, &actives, validated.ordering_index);
    let ghost demand_s = demand_expressions(*d, actives@, ordering_items(*d, ordering_s));
    assert(derefs(demand@) == demand_s);
    let outer = outer_source_texts(&demand);
    let ghost outer_s = outer_source_list(demand_s, demand_s.len() as int);
    assert(texts_of(outer@) == outer_s);
    let dims = graph.dimension_projection_indices();
    let flags = match demanded_relations(graph, sel, &objects, dims, &outer) {
        Err(e) => {
            assert(plan_outcome(*graph, *operation) == Err::<SpecPlan, SpecPlanError>(plan_error_view(e)));
            return Err(e);
        },
        Ok(f) => f,
    };
    let ghost pending_s = demanded(demand_paths(*d, t, sel_s, objects@, dims@, outer_s), d.relations@.len() as int);
    assert(flags@ == pending_s);
    let relations = match order_relations(graph, &flags) {
        Err(e) => {
            assert(plan_outcome(*graph, *operation) == Err::<SpecPlan, SpecPlanError>(plan_error_view(e)));
            return Err(e);
        },
        Ok(r) => r,
    };
    let expressions = parameter_expression_list(d, sel, &objects, dims, &demand, &relations);
    let ghost es_s = parameter_expressions(*d, sel_s, objects@, dims@, actives@, ordering_items(*d, ordering_s), relations@);
    assert(derefs(expressions@) =~= es_s);
    let parameters = match demand_parameters(graph, &expressions) {
        Err(e) => {
            assert(plan_outcome(*graph, *operation) == Err::<SpecPlan, SpecPlanError>(plan_error_view(e)));
            return Err(e);
        },
        Ok(p) => p,
    };
    match operation.validate_plan_parameters(&parameters) {
        Err(issues) => {
            let e = PlanError::Operation(issues);
            assert(plan_outcome(*graph, *operation) == Err::<SpecPlan, SpecPlanError>(plan_error_view(e)));
            return Err(e);
        },
        Ok(()) => {},
    }
    let many = many_relation_list(d, &relations);
    let summary = graph.is_summary();
    if summary {
        match validate_summary_relation_shape(graph, &many) {
            Err(e) => {
                assert(plan_outcome(*graph, *operation) == Err::<SpecPlan, SpecPlanError>(plan_error_view(e)));
                return Err(e);
            },
            Ok(()) => {},
        }
    }
    if !summary && (operation.offset.is_some() || operation.limit.is_some()) {
        match first_many_relation(d, &relations) {
            Some(r) => {
                let e = PlanError::PaginationThroughManyRelation { relation: text(d.relations[r].name.as_str()) };
                assert(first_many(*d, relations@, relations@.len() as int) == Some(r as int));
                assert(!spec_is_summary(*d));
                assert(operation.offset is Some || operation.limit is Some);
                assert(missing_names(*operation, crate::operation::texts(parameters@), parameters@.len() as int).len() == 0);
                assert(plan_error_view(e) == SpecPlanError::PaginationThroughManyRelation(d.relations@[r as int].name@));
                assert(plan_outcome(*graph, *operation) == Err::<SpecPlan, SpecPlanError>(plan_error_view(e)));
                return Err(e);
            },
            None => {},
        }
    }
    let before = constraints_of_phase(graph, &actives, ConstraintPhase::BeforeAggregation);
    let after = constraints_of_phase(graph, &actives, ConstraintPhase::AfterAggregation);
    let plan = QueryPlan {
        projection_indices: validated.projection_indices,
        projection_object_indices: objects,
        relation_indices: relations,
        pre_aggregation_constraint_indices: before,
        post_aggregation_constraint_indices: after,
        ordering_index: validated.ordering_index,
        offset: operation.offset,
        limit: operation.limit,
    };
    assert(plan_outcome(*graph, *operation) == Ok::<SpecPlan, SpecPlanError>(plan_view(plan)));
    Ok(plan)
}

/// What the walk keeps: it orders each relation once, only relations that were pending,
/// and every relation it no longer holds pending is ordered.
pub open spec fn walk_keeps(orig: Seq<bool>, s: WalkState) -> bool {
    &&& orig.len() <= usize::MAX
    &&& s.pending.len() == orig.len()
    &&& forall|k: int| 0 <= k < s.ordered.len() ==> (#[trigger] s.ordered[k]) < orig.len() && orig[s.ordered[k] as int]
        && !s.pending[s.ordered[k] as int]
    &&& forall|j: int, k: int| 0 <= j < k < s.ordered.len() ==> s.ordered[j] != s.ordered[k]
    &&& forall|i: int| 0 <= i < orig.len() ==> (#[trigger] s.pending[i] ==> orig[i])
    &&& forall|i: int| 0 <= i < orig.len() && orig[i] && !s.pending[i] ==> #[trigger] s.ordered.contains(i as usize)
}

proof fn lemma_scan_keeps(d: GraphDefinition, edges: Seq<usize>, n: int, s: WalkState, orig: Seq<bool>)
    requires
        walk_keeps(orig, s),
    ensures
        walk_keeps(orig, scan_edges(d, edges, n, s)),
    decreases n,
{
    if n > 0 {
        lemma_scan_keeps(d, edges, n - 1, s, orig);
        let s1 = scan_edges(d, edges, n - 1, s);
        if s1.error is None {
            let r = edges[n - 1] as int;
            match spec_relation(d, d.relations@[r].name@) {
                None => {},
                Some(i) => {
                    if 0 <= i < s1.pending.len() && s1.pending[i] {
                        let s2 = scan_edges(d, edges, n, s);
                        assert(s2.ordered == s1.ordered.push(i as usize));
                        assert(s2.pending == s1.pending.update(i, false));
                        assert forall|k: int| 0 <= k < s1.ordered.len() implies s1.ordered[k] != i as usize by {
                            assert(!s1.pending[s1.ordered[k] as int]);
                        }
                        assert forall|x: int| 0 <= x < orig.len() && orig[x] && !s2.pending[x] implies #[trigger] s2.ordered.contains(x as usize) by {
                            if x == i {
                                assert(s2.ordered[s1.ordered.len() as int] == i as usize);
                            } else {
                                assert(!s1.pending[x]);
                                assert(s1.ordered.contains(x as usize));
                                let k = choose|k: int| 0 <= k < s1.ordered.len() && s1.ordered[k] == x as usize;
                                assert(s2.ordered[k] == x as usize);
                            }
                        }
                        assert forall|k: int| 0 <= k < s2.ordered.len() implies (#[trigger] s2.ordered[k]) < orig.len() && orig[s2.ordered[k] as int]
                            && !s2.pending[s2.ordered[k] as int] by {
                            if k < s1.ordered.len() {
                                assert(s2.ordered[k] == s1.ordered[k]);
                            }
                        }
                    }
                },
            }
        }
    }
}

proof fn lemma_steps_keep(d: GraphDefinition, s: WalkState, n: int, orig: Seq<bool>)
    requires
        walk_keeps(orig, s),
    ensures
        walk_keeps(orig, walk_steps(d, s, n)),
    decreases n,
{
    if n > 0 {
        lemma_steps_keep(d, s, n - 1, orig);
        let s1 = walk_steps(d, s, n - 1);
        if !(s1.error is Some || s1.queue.len() == 0) {
            let rest = WalkState { queue: s1.queue.drop_first(), ..s1 };
            match spec_source(d, s1.queue[0]) {
                None => {},
                Some(si) => {
                    let edges = edges_from(d, si, d.relations@.len() as int);
                    lemma_scan_keeps(d, edges, edges.len() as int, rest, orig);
                },
            }
        }
    }
}

proof fn lemma_no_set_position(flags: Seq<bool>, n: int)
    requires
        0 <= n <= flags.len(),
        set_positions(flags, n).len() == 0,
    ensures
        forall|i: int| 0 <= i < n ==> !#[trigger] flags[i],
    decreases n,
{
    if n > 0 {
        lemma_no_set_position(flags, n - 1);
    }
}

/// One flag per relation: whether the plan for an operation must reach it, because a
/// selected field or object, a dimension, an active constraint or the ordering needs it.
pub open spec fn relation_demand(g: CompiledGraph, op: QueryOperation) -> Seq<bool> {
    demanded(demanded_paths(g, op), g.graph().relations@.len() as int)
}

/// The relation paths an operation needs: those of the selected fields, of the presence
/// expressions of the selected objects, of the dimension fields, and the root paths of
/// the sources that active constraints and the chosen ordering read outside `exists`.
pub open spec fn demanded_paths(g: CompiledGraph, op: QueryOperation) -> Seq<Seq<usize>> {
    let d = g.graph();
    let t = g.graph_topology();
    let sel = selected_indices(d, selection(op, d), selection(op, d).len() as int);
    let objs = selected_objects(d, sel);
    let actives = active_constraints(op, d, d.constraints@.len() as int);
    let demand = demand_expressions(d, actives, ordering_items(d, ordering_choice(op, d)));
    let outer = outer_source_list(demand, demand.len() as int);
    let dims = dimension_positions(d, d.projection.fields@.len() as int);
    demand_paths(d, t, sel, objs, dims, outer)
}

/// A plan joins exactly the relations that the operation needs, each once: the planned
/// relations are the union of the demanded relation paths (`demanded_paths`).
pub proof fn law_planned_relations_are_the_demanded_ones(g: CompiledGraph, op: QueryOperation)
    requires
        plan_outcome(g, op) is Ok,
    ensures
        forall|r: int| 0 <= r < g.graph().relations@.len() ==> (on_some_path(demanded_paths(g, op), r)
            <==> plan_outcome(g, op)->Ok_0.relations.contains(r as usize)),
        forall|j: int, k: int| 0 <= j < k < plan_outcome(g, op)->Ok_0.relations.len()
            ==> plan_outcome(g, op)->Ok_0.relations[j] != plan_outcome(g, op)->Ok_0.relations[k],
{
    let d = g.graph();
    let orig = relation_demand(g, op);
    let init = WalkState { ordered: seq![], pending: orig, queue: seq![d.root@], error: None };
    assert(d.relations@.len() == d.relations.len());
    lemma_steps_keep(d, init, d.relations@.len() + 1int, orig);
    let w = relation_walk(d, orig);
    assert(ordered_relations(d, orig) is Ok);
    lemma_no_set_position(w.pending, w.pending.len() as int);
    let rels = plan_outcome(g, op)->Ok_0.relations;
    assert(rels == w.ordered);
    assert forall|r: int| 0 <= r < d.relations@.len() implies (orig[r] <==> rels.contains(r as usize)) by {
        if rels.contains(r as usize) {
            let k = choose|k: int| 0 <= k < rels.len() && rels[k] == r as usize;
            assert(orig[rels[k] as int]);
        }
        if orig[r] {
            assert(!w.pending[r]);
            assert(w.ordered.contains(r as usize));
        }
    }
}

impl From<OperationIssues> for PlanError {
    fn from(issues: OperationIssues) -> (r: Self) {
        PlanError::Operation(issues)
    }
}

impl vstd::std_specs::convert::FromSpecImpl<OperationIssues> for PlanError {
    open spec fn obeys_from_spec() -> bool {
        true
    }

    open spec fn from_spec(issues: OperationIssues) -> Self {
        PlanError::Operation(issues)
    }
}

/// `key` is the root key, or the target key of one of the first `n` relations of `ordered`.
pub open spec fn led_to(d: GraphDefinition, ordered: Seq<usize>, n: int, key: Seq<char>) -> bool {
    key == d.root@ || exists|j: int| 0 <= j < n && #[trigger] d.relations@[ordered[j] as int].to@ == key
}

/// Every relation of `ordered` leaves the root or a source that an earlier one enters.
pub open spec fn parents_first(d: GraphDefinition, ordered: Seq<usize>) -> bool {
    forall|k: int| 0 <= k < ordered.len() ==> led_to(d, ordered, k, #[trigger] d.relations@[ordered[k] as int].from@)
}

pub open spec fn queue_led(d: GraphDefinition, s: WalkState) -> bool {
    forall|x: int| 0 <= x < s.queue.len() ==> led_to(d, s.ordered, s.ordered.len() as int, #[trigger] s.queue[x])
}

pub open spec fn distinct_relation_names(d: GraphDefinition) -> bool {
    forall|a: int, b: int|
        0 <= a < b < d.relations@.len() ==> #[trigger] d.relations@[a].name@ != #[trigger] d.relations@[b].name@
}

proof fn lemma_led_grows(d: GraphDefinition, ordered: Seq<usize>, n: int, x: usize, m: int, key: Seq<char>)
    requires
        led_to(d, ordered, n, key),
        0 <= n <= m <= ordered.len() + 1,
        n <= ordered.len(),
    ensures
        led_to(d, ordered.push(x), m, key),
{
    if key != d.root@ {
        let j = choose|j: int| 0 <= j < n && #[trigger] d.relations@[ordered[j] as int].to@ == key;
        assert(ordered.push(x)[j] == ordered[j]);
    }
}

proof fn lemma_edges_leave(d: GraphDefinition, si: int, m: int, k: int)
    requires
        0 <= k < edges_from(d, si, m).len(),
        m <= d.relations@.len() <= usize::MAX,
    ensures
        crate::analysis::topology::from_of(d, edges_from(d, si, m)[k] as int) == Some(si),
        0 <= edges_from(d, si, m)[k] < d.relations@.len(),
    decreases m,
{
    if m > 0 {
        let prev = edges_from(d, si, m - 1);
        if k < prev.len() {
            lemma_edges_leave(d, si, m - 1, k);
            assert(edges_from(d, si, m)[k] == prev[k]);
        }
    }
}

proof fn lemma_scan_parents_first(d: GraphDefinition, si: int, edges: Seq<usize>, n: int, s: WalkState, q0: Seq<char>)
    requires
        distinct_relation_names(d),
        d.relations@.len() <= usize::MAX,
        edges == edges_from(d, si, d.relations@.len() as int),
        0 <= n <= edges.len(),
        spec_source(d, q0) == Some(si),
        parents_first(d, s.ordered),
        queue_led(d, s),
        led_to(d, s.ordered, s.ordered.len() as int, q0),
    ensures
        ({
            let r = scan_edges(d, edges, n, s);
            parents_first(d, r.ordered) && queue_led(d, r) && led_to(d, r.ordered, r.ordered.len() as int, q0)
        }),
    decreases n,
{
    if n > 0 {
        lemma_scan_parents_first(d, si, edges, n - 1, s, q0);
        let s1 = scan_edges(d, edges, n - 1, s);
        if s1.error is None {
            let r = edges[n - 1] as int;
            let name = d.relations@[r].name@;
            lemma_edges_leave(d, si, d.relations@.len() as int, n - 1);
            if let Some(i) = spec_relation(d, name) {
                if 0 <= i < s1.pending.len() && s1.pending[i] {
                    lemma_first_key_range(relation_names(d), name);
                    assert(relation_names(d)[i] == d.relations@[i].name@);
                    if i != r {
                        if i < r {
                            assert(d.relations@[i].name@ != d.relations@[r].name@);
                        } else {
                            assert(d.relations@[r].name@ != d.relations@[i].name@);
                        }
                    }
                    crate::analysis::index::lemma_first_key_range(source_keys(d), q0);
                    crate::analysis::index::lemma_first_key_range(source_keys(d), d.relations@[r].from@);
                    assert(source_keys(d)[si] == q0);
                    assert(d.relations@[r].from@ == q0);
                    let o = s1.ordered;
                    let o2 = o.push(i as usize);
                    let t = d.relations@[r].to@;
                    let next = scan_edges(d, edges, n, s);
                    assert(next.ordered == o2);
                    assert forall|k: int| 0 <= k < o2.len() implies led_to(d, o2, k, #[trigger] d.relations@[o2[k] as int].from@) by {
                        if k < o.len() {
                            assert(o2[k] == o[k]);
                            lemma_led_grows(d, o, k, i as usize, k, d.relations@[o[k] as int].from@);
                        } else {
                            assert(o2[k] == i as usize);
                            lemma_led_grows(d, o, o.len() as int, i as usize, k, q0);
                        }
                    }
                    assert forall|x: int| 0 <= x < next.queue.len() implies led_to(d, o2, o2.len() as int, #[trigger] next.queue[x]) by {
                        if x < s1.queue.len() {
                            assert(next.queue[x] == s1.queue[x]);
                            lemma_led_grows(d, o, o.len() as int, i as usize, o2.len() as int, s1.queue[x]);
                        } else {
                            assert(next.queue[x] == t);
                            assert(d.relations@[o2[o.len() as int] as int].to@ == t);
                        }
                    }
                    lemma_led_grows(d, o, o.len() as int, i as usize, o2.len() as int, q0);
                }
            }
        }
    }
}

proof fn lemma_steps_parents_first(d: GraphDefinition, s: WalkState, n: int)
    requires
        distinct_relation_names(d),
        d.relations@.len() <= usize::MAX,
        parents_first(d, s.ordered),
        queue_led(d, s),
    ensures
        parents_first(d, walk_steps(d, s, n).ordered),
        queue_led(d, walk_steps(d, s, n)),
    decreases n,
{
    if n > 0 {
        lemma_steps_parents_first(d, s, n - 1);
        let s1 = walk_steps(d, s, n - 1);
        if !(s1.error is Some || s1.queue.len() == 0) {
            let rest = WalkState { queue: s1.queue.drop_first(), ..s1 };
            let q0 = s1.queue[0];
            assert(led_to(d, s1.ordered, s1.ordered.len() as int, q0));
            assert forall|x: int| 0 <= x < rest.queue.len() implies led_to(d, rest.ordered, rest.ordered.len() as int, #[trigger] rest.queue[x]) by {
                assert(rest.queue[x] == s1.queue[x + 1]);
            }
            match spec_source(d, q0) {
                None => {},
                Some(si) => {
                    let edges = edges_from(d, si, d.relations@.len() as int);
                    lemma_scan_parents_first(d, si, edges, edges.len() as int, rest, q0);
                },
            }
        }
    }
}

/// When relation names are distinct (as in every compiled graph), the relations of a plan
/// come parents first: each leaves the root or a source that an earlier one enters.
pub proof fn law_planned_relations_come_parents_first(g: CompiledGraph, op: QueryOperation)
    requires
        plan_outcome(g, op) is Ok,
        distinct_relation_names(g.graph()),
    ensures
        parents_first(g.graph(), plan_outcome(g, op)->Ok_0.relations),
{
    let d = g.graph();
    let orig = relation_demand(g, op);
    let init = WalkState { ordered: seq![], pending: orig, queue: seq![d.root@], error: None };
    assert(queue_led(d, init));
    assert(d.relations@.len() == d.relations.len());
    lemma_steps_parents_first(d, init, d.relations@.len() + 1int);
    assert(ordered_relations(d, orig) is Ok);
}

proof fn lemma_actives_listed(op: QueryOperation, d: GraphDefinition, n: int)
    requires
        0 <= n <= d.constraints@.len(),
        d.constraints@.len() <= usize::MAX,
    ensures
        forall|i: int|
            0 <= i < d.constraints@.len() ==> (active_constraints(op, d, n).contains(i as usize) <==> (i < n
                && match (#[trigger] d.constraints@[i]).when {
                ConstraintCondition::Always => true,
                ConstraintCondition::ParameterPresent { parameter } => bound(op, parameter@) is Some,
            })),
        forall|k: int| 0 <= k < active_constraints(op, d, n).len() ==> (#[trigger] active_constraints(op, d, n)[k]) < n,
    decreases n,
{
    if n > 0 {
        lemma_actives_listed(op, d, n - 1);
        let prev = active_constraints(op, d, n - 1);
        let cur = active_constraints(op, d, n);
        assert forall|i: int|
            0 <= i < d.constraints@.len() implies (cur.contains(i as usize) <==> (i < n && match (#[trigger] d.constraints@[i]).when {
                ConstraintCondition::Always => true,
                ConstraintCondition::ParameterPresent { parameter } => bound(op, parameter@) is Some,
            })) by {
            if cur.contains(i as usize) {
                let k = choose|k: int| 0 <= k < cur.len() && cur[k] == i as usize;
                if k < prev.len() {
                    assert(prev[k] == i as usize);
                    assert(prev.contains(i as usize));
                }
            }
            if i < n - 1 && prev.contains(i as usize) {
                let k = choose|k: int| 0 <= k < prev.len() && prev[k] == i as usize;
                assert(cur[k] == i as usize);
            }
            if i == n - 1 && constraint_active(op, d, i) {
                assert(cur[prev.len() as int] == i as usize);
            }
            if i == n - 1 && prev.contains(i as usize) {
                let k = choose|k: int| 0 <= k < prev.len() && prev[k] == i as usize;
                assert(prev[k] < n - 1);
            }
        }
        assert forall|k: int| 0 <= k < cur.len() implies (#[trigger] cur[k]) < n by {
            if k < prev.len() {
                assert(cur[k] == prev[k]);
            }
        }
    }
}

proof fn lemma_phases_cover(d: GraphDefinition, actives: Seq<usize>, n: int)
    requires
        0 <= n <= actives.len(),
    ensures
        forall|k: int|
            0 <= k < n ==> constraints_in_phase(d, actives, ConstraintPhase::BeforeAggregation, n).contains(#[trigger] actives[k])
                || constraints_in_phase(d, actives, ConstraintPhase::AfterAggregation, n).contains(actives[k]),
    decreases n,
{
    if n > 0 {
        lemma_phases_cover(d, actives, n - 1);
        let b0 = constraints_in_phase(d, actives, ConstraintPhase::BeforeAggregation, n - 1);
        let a0 = constraints_in_phase(d, actives, ConstraintPhase::AfterAggregation, n - 1);
        let b1 = constraints_in_phase(d, actives, ConstraintPhase::BeforeAggregation, n);
        let a1 = constraints_in_phase(d, actives, ConstraintPhase::AfterAggregation, n);
        assert forall|k: int| 0 <= k < n implies b1.contains(#[trigger] actives[k]) || a1.contains(actives[k]) by {
            if k < n - 1 {
                if b0.contains(actives[k]) {
                    let j = choose|j: int| 0 <= j < b0.len() && b0[j] == actives[k];
                    assert(b1[j] == actives[k]);
                } else {
                    let j = choose|j: int| 0 <= j < a0.len() && a0[j] == actives[k];
                    assert(a1[j] == actives[k]);
                }
            } else {
                if constraint_phase_of(d.constraints@[actives[k] as int].predicate) == ConstraintPhase::BeforeAggregation {
                    assert(b1[b0.len() as int] == actives[k]);
                } else {
                    assert(a1[a0.len() as int] == actives[k]);
                }
            }
        }
    }
}

/// A constraint applies exactly when its condition holds: always for `Always`, and for
/// `ParameterPresent { p }` exactly when the operation binds `p`. Every constraint that
/// applies is in the plan, before or after aggregation, so its predicate is rendered.
pub proof fn law_constraints_apply_when_their_parameter_is_bound(g: CompiledGraph, op: QueryOperation, i: int)
    requires
        0 <= i < g.graph().constraints@.len(),
    ensures
        ({
            let d = g.graph();
            let applies = match d.constraints@[i].when {
                ConstraintCondition::Always => true,
                ConstraintCondition::ParameterPresent { parameter } => bound(op, parameter@) is Some,
            };
            &&& active_constraints(op, d, d.constraints@.len() as int).contains(i as usize) == applies
            &&& plan_outcome(g, op) matches Ok(p) ==> ((p.before_aggregation.contains(i as usize)
                || p.after_aggregation.contains(i as usize)) <== applies)
        }),
{
    let d = g.graph();
    assert(d.constraints@.len() == d.constraints.len());
    lemma_actives_listed(op, d, d.constraints@.len() as int);
    let actives = active_constraints(op, d, d.constraints@.len() as int);
    lemma_phases_cover(d, actives, actives.len() as int);
    if actives.contains(i as usize) {
        let k = choose|k: int| 0 <= k < actives.len() && actives[k] == i as usize;
        assert(constraints_in_phase(d, actives, ConstraintPhase::BeforeAggregation, actives.len() as int).contains(actives[k])
            || constraints_in_phase(d, actives, ConstraintPhase::AfterAggregation, actives.len() as int).contains(actives[k]));
    }
}

} // verus!
