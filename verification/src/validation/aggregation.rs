//! Where aggregates may stand, and what a summary graph groups by.
use vstd::prelude::*;

use crate::definition::{GraphDefinition, ProjectionFieldRole, RelationSelection, spec_is_summary};
use crate::expression::{children, lemma_children_decrease, spec_contains_aggregate, Expression, LiteralValue};
use crate::text::{concat, debug_text, indexed, str_eq, text};
use crate::validation::expression::{concat3q, one};
use crate::validation::{at, issues_view, push_issue, DefinitionIssue, DefinitionIssueCode, SpecIssue};

verus! {

pub open spec fn same_literal(a: LiteralValue, b: LiteralValue) -> bool {
    match (a, b) {
        (LiteralValue::Null, LiteralValue::Null) => true,
        (LiteralValue::Boolean(x), LiteralValue::Boolean(y)) => x == y,
        (LiteralValue::Integer(x), LiteralValue::Integer(y)) => x == y,
        (LiteralValue::Decimal(x), LiteralValue::Decimal(y)) => x@ == y@,
        (LiteralValue::String(x), LiteralValue::String(y)) => x@ == y@,
        _ => false,
    }
}

pub open spec fn same_optional_text(a: Option<String>, b: Option<String>) -> bool {
    match (a, b) {
        (Some(x), Some(y)) => x@ == y@,
        (None, None) => true,
        _ => false,
    }
}

/// Two nodes agree in kind and in everything they hold besides their children.
pub open spec fn same_head(a: Expression, b: Expression) -> bool {
    match (a, b) {
        (Expression::Field { source: s1, field: f1 }, Expression::Field { source: s2, field: f2 }) => s1@
            == s2@ && f1@ == f2@,
        (Expression::Parameter { name: n1 }, Expression::Parameter { name: n2 }) => n1@ == n2@,
        (Expression::Literal { value: v1 }, Expression::Literal { value: v2 }) => same_literal(v1, v2),
        (Expression::Eq { .. }, Expression::Eq { .. }) => true,
        (Expression::NotEq { .. }, Expression::NotEq { .. }) => true,
        (Expression::LessThan { .. }, Expression::LessThan { .. }) => true,
        (Expression::LessThanOrEqual { .. }, Expression::LessThanOrEqual { .. }) => true,
        (Expression::GreaterThan { .. }, Expression::GreaterThan { .. }) => true,
        (Expression::GreaterThanOrEqual { .. }, Expression::GreaterThanOrEqual { .. }) => true,
        (Expression::Like { .. }, Expression::Like { .. }) => true,
        (Expression::In { .. }, Expression::In { .. }) => true,
        (
            Expression::InParameter { parameter: p1, .. },
            Expression::InParameter { parameter: p2, .. },
        ) => p1@ == p2@,
        (Expression::And { .. }, Expression::And { .. }) => true,
        (Expression::Or { .. }, Expression::Or { .. }) => true,
        (Expression::Not { .. }, Expression::Not { .. }) => true,
        (Expression::IsNull { .. }, Expression::IsNull { .. }) => true,
        (Expression::IsNotNull { .. }, Expression::IsNotNull { .. }) => true,
        (
            Expression::Exists { source: s1, from: f1, .. },
            Expression::Exists { source: s2, from: f2, .. },
        ) => s1@ == s2@ && same_optional_text(f1, f2),
        (Expression::Function { name: n1, .. }, Expression::Function { name: n2, .. }) => n1 == n2,
        (Expression::Aggregate { function: g1, .. }, Expression::Aggregate { function: g2, .. }) => g1
            == g2,
        _ => false,
    }
}

/// Structural equality of two expressions, texts compared by their characters.
pub open spec fn same_expr(a: Expression, b: Expression) -> bool
    decreases a, children(a).len() + 1,
{
    same_head(a, b) && children(a).len() == children(b).len() && same_children(
        a,
        b,
        children(a).len(),
    )
}

/// The first `n` children of `a` and `b` are pairwise the same.
pub open spec fn same_children(a: Expression, b: Expression, n: nat) -> bool
    decreases a, n,
{
    if n == 0 || n > children(a).len() {
        true
    } else {
        proof {
            lemma_children_decrease(a);
            assert(decreases_to!(a => children(a)[n - 1]));
        }
        same_children(a, b, (n - 1) as nat) && same_expr(children(a)[n - 1], children(b)[n - 1])
    }
}

fn same_optional(a: &Option<String>, b: &Option<String>) -> (r: bool)
    ensures
        r == same_optional_text(*a, *b),
{
    match (a, b) {
        (Some(x), Some(y)) => str_eq(x.as_str(), y.as_str()),
        (None, None) => true,
        _ => false,
    }
}

fn literals_equal(a: &LiteralValue, b: &LiteralValue) -> (r: bool)
    ensures
        r == same_literal(*a, *b),
{
    match (a, b) {
        (LiteralValue::Null, LiteralValue::Null) => true,
        (LiteralValue::Boolean(x), LiteralValue::Boolean(y)) => *x == *y,
        (LiteralValue::Integer(x), LiteralValue::Integer(y)) => *x == *y,
        (LiteralValue::Decimal(x), LiteralValue::Decimal(y)) => str_eq(x.as_str(), y.as_str()),
        (LiteralValue::String(x), LiteralValue::String(y)) => str_eq(x.as_str(), y.as_str()),
        _ => false,
    }
}

fn heads_equal(a: &Expression, b: &Expression) -> (r: bool)
    ensures
        r == same_head(*a, *b),
{
    match (a, b) {
        (Expression::Field { source: s1, field: f1 }, Expression::Field { source: s2, field: f2 }) => {
            str_eq(s1.as_str(), s2.as_str()) && str_eq(f1.as_str(), f2.as_str())
        },
        (Expression::Parameter { name: n1 }, Expression::Parameter { name: n2 }) => str_eq(
            n1.as_str(),
            n2.as_str(),
        ),
        (Expression::Literal { value: v1 }, Expression::Literal { value: v2 }) => literals_equal(v1, v2),
        (Expression::Eq { .. }, Expression::Eq { .. }) => true,
        (Expression::NotEq { .. }, Expression::NotEq { .. }) => true,
        (Expression::LessThan { .. }, Expression::LessThan { .. }) => true,
        (Expression::LessThanOrEqual { .. }, Expression::LessThanOrEqual { .. }) => true,
        (Expression::GreaterThan { .. }, Expression::GreaterThan { .. }) => true,
        (Expression::GreaterThanOrEqual { .. }, Expression::GreaterThanOrEqual { .. }) => true,
        (Expression::Like { .. }, Expression::Like { .. }) => true,
        (Expression::In { .. }, Expression::In { .. }) => true,
        (
            Expression::InParameter { parameter: p1, .. },
            Expression::InParameter { parameter: p2, .. },
        ) => str_eq(p1.as_str(), p2.as_str()),
        (Expression::And { .. }, Expression::And { .. }) => true,
        (Expression::Or { .. }, Expression::Or { .. }) => true,
        (Expression::Not { .. }, Expression::Not { .. }) => true,
        (Expression::IsNull { .. }, Expression::IsNull { .. }) => true,
        (Expression::IsNotNull { .. }, Expression::IsNotNull { .. }) => true,
        (
            Expression::Exists { source: s1, from: f1, .. },
            Expression::Exists { source: s2, from: f2, .. },
        ) => str_eq(s1.as_str(), s2.as_str()) && same_optional(f1, f2),
        (Expression::Function { name: n1, .. }, Expression::Function { name: n2, .. }) => *n1 == *n2,
        (Expression::Aggregate { function: g1, .. }, Expression::Aggregate { function: g2, .. }) => *g1
            == *g2,
        _ => false,
    }
}

/// Structural equality of two expressions.
pub fn expressions_equal(a: &Expression, b: &Expression) -> (r: bool)
    ensures
        r == same_expr(*a, *b),
    decreases *a,
{
    if !heads_equal(a, b) {
        return false;
    }
    let ka = a.child_nodes();
    let kb = b.child_nodes();
    if ka.len() != kb.len() {
        return false;
    }
    proof {
        lemma_children_decrease(*a);
    }
    let mut i: usize = 0;
    while i < ka.len()
        invariant
            ka@.len() == children(*a).len(),
            kb@.len() == children(*b).len(),
            ka@.len() == kb@.len(),
            forall|j: int| 0 <= j < ka@.len() ==> *(#[trigger] ka@[j]) == children(*a)[j],
            forall|j: int| 0 <= j < kb@.len() ==> *(#[trigger] kb@[j]) == children(*b)[j],
            forall|j: int|
                0 <= j < children(*a).len() ==> decreases_to!(*a => #[trigger] children(*a)[j]),
            i <= ka.len(),
            same_children(*a, *b, i as nat),
        decreases ka.len() - i,
    {
        assert(decreases_to!(*a => children(*a)[i as int]));
        if !expressions_equal(ka[i], kb[i]) {
            assert(!same_children(*a, *b, (i + 1) as nat));
            proof {
                if same_children(*a, *b, children(*a).len()) {
                    lemma_same_children_prefix(*a, *b, (i + 1) as nat, children(*a).len());
                }
            }
            return false;
        }
        i = i + 1;
    }
    true
}

proof fn lemma_same_children_prefix(a: Expression, b: Expression, k: nat, n: nat)
    requires
        0 < k <= n <= children(a).len(),
        same_children(a, b, n),
    ensures
        same_children(a, b, k),
    decreases n - k,
{
    if k < n {
        lemma_same_children_prefix(a, b, k, (n - 1) as nat);
    }
}

/// The location of the `k`-th child of `parent`, below the parent's location.
pub open spec fn child_location(parent: Expression, loc: Seq<char>, k: int) -> Seq<char> {
    match parent {
        Expression::Eq { .. } => if k == 0 { loc + ".left"@ } else { loc + ".right"@ },
        Expression::NotEq { .. } => if k == 0 { loc + ".left"@ } else { loc + ".right"@ },
        Expression::LessThan { .. } => if k == 0 { loc + ".left"@ } else { loc + ".right"@ },
        Expression::LessThanOrEqual { .. } => if k == 0 { loc + ".left"@ } else { loc + ".right"@ },
        Expression::GreaterThan { .. } => if k == 0 { loc + ".left"@ } else { loc + ".right"@ },
        Expression::GreaterThanOrEqual { .. } => if k == 0 {
            loc + ".left"@
        } else {
            loc + ".right"@
        },
        Expression::Like { .. } => if k == 0 { loc + ".expression"@ } else { loc + ".pattern"@ },
        Expression::In { .. } => if k == 0 {
            loc + ".expression"@
        } else {
            at(loc + ".values"@, k - 1)
        },
        Expression::And { .. } => at(loc + ".expressions"@, k),
        Expression::Or { .. } => at(loc + ".expressions"@, k),
        Expression::Function { .. } => at(loc + ".arguments"@, k),
        Expression::Exists { .. } => loc + ".predicate"@,
        _ => loc + ".expression"@,
    }
}

fn child_location_text(parent: &Expression, loc: &str, k: usize) -> (r: String)
    ensures
        r@ == child_location(*parent, loc@, k as int),
{
    match parent {
        Expression::Eq { .. } | Expression::NotEq { .. } | Expression::LessThan { .. }
        | Expression::LessThanOrEqual { .. } | Expression::GreaterThan { .. }
        | Expression::GreaterThanOrEqual { .. } => if k == 0 {
            concat(loc, ".left")
        } else {
            concat(loc, ".right")
        },
        Expression::Like { .. } => if k == 0 {
            concat(loc, ".expression")
        } else {
            concat(loc, ".pattern")
        },
        Expression::In { .. } => if k == 0 {
            concat(loc, ".expression")
        } else {
            let prefix = concat(loc, ".values");
            indexed(prefix.as_str(), k - 1)
        },
        Expression::And { .. } | Expression::Or { .. } => {
            let prefix = concat(loc, ".expressions");
            indexed(prefix.as_str(), k)
        },
        Expression::Function { .. } => {
            let prefix = concat(loc, ".arguments");
            indexed(prefix.as_str(), k)
        },
        Expression::Exists { .. } => concat(loc, ".predicate"),
        _ => concat(loc, ".expression"),
    }
}

pub open spec fn is_predicate(e: Expression) -> bool {
    ||| e is Eq
    ||| e is NotEq
    ||| e is LessThan
    ||| e is LessThanOrEqual
    ||| e is GreaterThan
    ||| e is GreaterThanOrEqual
    ||| e is Like
    ||| e is In
    ||| e is InParameter
    ||| e is And
    ||| e is Or
    ||| e is Not
    ||| e is IsNull
    ||| e is IsNotNull
    ||| e is Exists
}

/// Aggregates nested in aggregates, and predicates used as aggregate arguments.
pub open spec fn nested_issues(e: Expression, loc: Seq<char>, inside: bool) -> Seq<SpecIssue>
    decreases e, children(e).len() + 1,
{
    (if inside && is_predicate(e) {
        one(
            DefinitionIssueCode::InvalidAggregateContext,
            loc,
            "predicate expressions cannot be aggregate arguments"@,
        )
    } else {
        seq![]
    }) + (if inside && e is Aggregate {
        one(DefinitionIssueCode::NestedAggregate, loc, "aggregate expressions cannot be nested"@)
    } else {
        seq![]
    }) + nested_children(e, loc, inside || e is Aggregate, children(e).len())
}

pub open spec fn nested_children(parent: Expression, loc: Seq<char>, inside: bool, n: nat) -> Seq<
    SpecIssue,
>
    decreases parent, n,
{
    if n == 0 || n > children(parent).len() {
        seq![]
    } else {
        proof {
            lemma_children_decrease(parent);
            assert(decreases_to!(parent => children(parent)[n - 1]));
        }
        nested_children(parent, loc, inside, (n - 1) as nat) + nested_issues(
            children(parent)[n - 1],
            child_location(parent, loc, n - 1),
            inside,
        )
    }
}

/// Parts of a grouped expression that are neither dimensions nor aggregates.
pub open spec fn grouped_issues(e: Expression, loc: Seq<char>, dims: Seq<Expression>) -> Seq<SpecIssue>
    decreases e, children(e).len() + 1,
{
    if exists|j: int| 0 <= j < dims.len() && same_expr(#[trigger] dims[j], e) {
        seq![]
    } else {
        match e {
            Expression::Field { source, field } => one(
                DefinitionIssueCode::UngroupedExpression,
                loc,
                "field "@ + debug_text(source@) + "."@ + debug_text(field@)
                    + " is not a declared dimension"@,
            ),
            Expression::Exists { .. } => one(
                DefinitionIssueCode::UngroupedExpression,
                loc,
                "exists cannot be combined with aggregates in one grouped expression"@,
            ),
            Expression::Parameter { .. } => seq![],
            Expression::Literal { .. } => seq![],
            Expression::Aggregate { .. } => seq![],
            _ => grouped_children(e, loc, dims, children(e).len()),
        }
    }
}

pub open spec fn grouped_children(parent: Expression, loc: Seq<char>, dims: Seq<Expression>, n: nat) -> Seq<
    SpecIssue,
>
    decreases parent, n,
{
    if n == 0 || n > children(parent).len() {
        seq![]
    } else {
        proof {
            lemma_children_decrease(parent);
            assert(decreases_to!(parent => children(parent)[n - 1]));
        }
        grouped_children(parent, loc, dims, (n - 1) as nat) + grouped_issues(
            children(parent)[n - 1],
            child_location(parent, loc, n - 1),
            dims,
        )
    }
}

fn validate_nested_aggregates(e: &Expression, loc: &str, inside: bool, issues: &mut Vec<DefinitionIssue>)
    ensures
        issues_view(final(issues)@) == issues_view(old(issues)@) + nested_issues(*e, loc@, inside),
    decreases *e,
{
    let ghost start = issues_view(issues@);
    let is_aggregate = matches!(e, Expression::Aggregate { .. });
    let predicate = match e {
        Expression::Eq { .. } | Expression::NotEq { .. } | Expression::LessThan { .. }
        | Expression::LessThanOrEqual { .. } | Expression::GreaterThan { .. }
        | Expression::GreaterThanOrEqual { .. } | Expression::Like { .. } | Expression::In { .. }
        | Expression::InParameter { .. } | Expression::And { .. } | Expression::Or { .. }
        | Expression::Not { .. } | Expression::IsNull { .. } | Expression::IsNotNull { .. }
        | Expression::Exists { .. } => true,
        _ => false,
    };
    if inside && predicate {
        push_issue(
            issues,
            DefinitionIssueCode::InvalidAggregateContext,
            text(loc),
            text("predicate expressions cannot be aggregate arguments"),
        );
    }
    if inside && is_aggregate {
        push_issue(
            issues,
            DefinitionIssueCode::NestedAggregate,
            text(loc),
            text("aggregate expressions cannot be nested"),
        );
    }
    let inner = inside || is_aggregate;
    let ghost head = issues_view(issues@);
    let kids = e.child_nodes();
    proof {
        lemma_children_decrease(*e);
    }
    let mut i: usize = 0;
    while i < kids.len()
        invariant
            kids@.len() == children(*e).len(),
            forall|j: int| 0 <= j < kids@.len() ==> *(#[trigger] kids@[j]) == children(*e)[j],
            forall|j: int|
                0 <= j < children(*e).len() ==> decreases_to!(*e => #[trigger] children(*e)[j]),
            i <= kids.len(),
            issues_view(issues@) == head + nested_children(*e, loc@, inner, i as nat),
        decreases kids.len() - i,
    {
        assert(decreases_to!(*e => children(*e)[i as int]));
        let child_loc = child_location_text(e, loc, i);
        validate_nested_aggregates(kids[i], child_loc.as_str(), inner, issues);
        assert(issues_view(issues@) =~= head + nested_children(*e, loc@, inner, (i + 1) as nat));
        i = i + 1;
    }
    assert(issues_view(issues@) =~= start + nested_issues(*e, loc@, inside));
}

fn is_dimension(e: &Expression, dims: &Vec<&Expression>) -> (r: bool)
    ensures
        r == exists|j: int| 0 <= j < dims@.len() && same_expr(*#[trigger] dims@[j], *e),
{
    let mut j: usize = 0;
    while j < dims.len()
        invariant
            j <= dims@.len(),
            forall|k: int| 0 <= k < j ==> !same_expr(*#[trigger] dims@[k], *e),
        decreases dims.len() - j,
    {
        if expressions_equal(dims[j], e) {
            return true;
        }
        j = j + 1;
    }
    false
}

pub open spec fn deref_all(dims: Seq<&Expression>) -> Seq<Expression> {
    Seq::new(dims.len(), |i: int| *dims[i])
}

fn validate_grouped_expression(
    e: &Expression,
    loc: &str,
    dims: &Vec<&Expression>,
    issues: &mut Vec<DefinitionIssue>,
)
    ensures
        issues_view(final(issues)@) == issues_view(old(issues)@) + grouped_issues(
            *e,
            loc@,
            deref_all(dims@),
        ),
    decreases *e,
{
    let ghost start = issues_view(issues@);
    let ghost ds = deref_all(dims@);
    if is_dimension(e, dims) {
        proof {
            let j = choose|j: int| 0 <= j < dims@.len() && same_expr(*#[trigger] dims@[j], *e);
            assert(ds[j] == *dims@[j]);
        }
        return;
    }
    assert(!exists|j: int| 0 <= j < ds.len() && same_expr(#[trigger] ds[j], *e)) by {
        if exists|j: int| 0 <= j < ds.len() && same_expr(#[trigger] ds[j], *e) {
            let j = choose|j: int| 0 <= j < ds.len() && same_expr(#[trigger] ds[j], *e);
            assert(same_expr(*dims@[j], *e));
        }
    }
    match e {
        Expression::Field { source, field } => {
            let mut m = concat3q("field ", source.as_str(), ".");
            m.append(crate::text::debug_quote(field.as_str()).as_str());
            m.append(" is not a declared dimension");
            push_issue(issues, DefinitionIssueCode::UngroupedExpression, text(loc), m);
            return;
        },
        Expression::Exists { .. } => {
            push_issue(
                issues,
                DefinitionIssueCode::UngroupedExpression,
                text(loc),
                text("exists cannot be combined with aggregates in one grouped expression"),
            );
            return;
        },
        Expression::Parameter { .. } | Expression::Literal { .. } | Expression::Aggregate { .. } => {
            return;
        },
        _ => {},
    }
    let kids = e.child_nodes();
    proof {
        lemma_children_decrease(*e);
    }
    let mut i: usize = 0;
    while i < kids.len()
        invariant
            kids@.len() == children(*e).len(),
            forall|j: int| 0 <= j < kids@.len() ==> *(#[trigger] kids@[j]) == children(*e)[j],
            forall|j: int|
                0 <= j < children(*e).len() ==> decreases_to!(*e => #[trigger] children(*e)[j]),
            i <= kids.len(),
            ds == deref_all(dims@),
            issues_view(issues@) == start + grouped_children(*e, loc@, ds, i as nat),
        decreases kids.len() - i,
    {
        assert(decreases_to!(*e => children(*e)[i as int]));
        let child_loc = child_location_text(e, loc, i);
        validate_grouped_expression(kids[i], child_loc.as_str(), dims, issues);
        assert(issues_view(issues@) =~= start + grouped_children(*e, loc@, ds, (i + 1) as nat));
        i = i + 1;
    }
}


pub open spec fn reject_issues(e: Expression, loc: Seq<char>, message: Seq<char>) -> Seq<SpecIssue> {
    if spec_contains_aggregate(e) {
        one(DefinitionIssueCode::InvalidAggregateContext, loc, message)
    } else {
        seq![]
    }
}

pub open spec fn selection_orders(d: GraphDefinition, i: int) -> Seq<crate::definition::OrderByDefinition> {
    match d.relations@[i].selection {
        Some(RelationSelection::FirstBy { order_by }) => order_by@,
        None => seq![],
    }
}

pub open spec fn selection_reject_section(d: GraphDefinition, i: int, n: int) -> Seq<SpecIssue>
    decreases n,
{
    if n <= 0 {
        seq![]
    } else {
        selection_reject_section(d, i, n - 1) + reject_issues(
            selection_orders(d, i)[n - 1].expression,
            at(at("relations"@, i) + ".selection.orderBy"@, n - 1) + ".expression"@,
            "relation selection ordering cannot contain aggregates"@,
        )
    }
}

pub open spec fn relation_reject_section(d: GraphDefinition, n: int) -> Seq<SpecIssue>
    decreases n,
{
    if n <= 0 {
        seq![]
    } else {
        relation_reject_section(d, n - 1) + reject_issues(
            d.relations@[n - 1].on,
            at("relations"@, n - 1) + ".on"@,
            "relation predicates cannot contain aggregates"@,
        ) + selection_reject_section(d, n - 1, selection_orders(d, n - 1).len() as int)
    }
}

pub open spec fn field_reject_section(d: GraphDefinition, n: int) -> Seq<SpecIssue>
    decreases n,
{
    if n <= 0 {
        seq![]
    } else {
        field_reject_section(d, n - 1) + reject_issues(
            d.projection.fields@[n - 1].expression,
            at("projection.fields"@, n - 1) + ".expression"@,
            "aggregate expressions require a summary graph"@,
        )
    }
}

pub open spec fn constraint_reject_section(d: GraphDefinition, n: int) -> Seq<SpecIssue>
    decreases n,
{
    if n <= 0 {
        seq![]
    } else {
        constraint_reject_section(d, n - 1) + reject_issues(
            d.constraints@[n - 1].predicate,
            at("constraints"@, n - 1) + ".predicate"@,
            "aggregate constraints require a summary graph"@,
        )
    }
}

pub open spec fn order_location(o: int, k: int) -> Seq<char> {
    at(at("orderings"@, o) + ".orderBy"@, k) + ".expression"@
}

pub open spec fn order_reject_section(d: GraphDefinition, o: int, n: int) -> Seq<SpecIssue>
    decreases n,
{
    if n <= 0 {
        seq![]
    } else {
        order_reject_section(d, o, n - 1) + reject_issues(
            d.orderings@[o].order_by@[n - 1].expression,
            order_location(o, n - 1),
            "aggregate ordering requires a summary graph"@,
        )
    }
}

pub open spec fn ordering_reject_section(d: GraphDefinition, n: int) -> Seq<SpecIssue>
    decreases n,
{
    if n <= 0 {
        seq![]
    } else {
        ordering_reject_section(d, n - 1) + order_reject_section(
            d,
            n - 1,
            d.orderings@[n - 1].order_by@.len() as int,
        )
    }
}

/// A graph without dimensions or measures holds no aggregate.
pub open spec fn record_issues(d: GraphDefinition) -> Seq<SpecIssue> {
    field_reject_section(d, d.projection.fields@.len() as int) + constraint_reject_section(
        d,
        d.constraints@.len() as int,
    ) + ordering_reject_section(d, d.orderings@.len() as int)
}

/// The expressions of the first `n` dimension fields, in order.
pub open spec fn dimension_section(d: GraphDefinition, n: int) -> Seq<Expression>
    decreases n,
{
    if n <= 0 {
        seq![]
    } else {
        dimension_section(d, n - 1) + if d.projection.fields@[n - 1].role
            == ProjectionFieldRole::Dimension {
            seq![d.projection.fields@[n - 1].expression]
        } else {
            seq![]
        }
    }
}

pub open spec fn dimensions(d: GraphDefinition) -> Seq<Expression> {
    dimension_section(d, d.projection.fields@.len() as int)
}

pub open spec fn summary_field_issue(d: GraphDefinition, i: int) -> Seq<SpecIssue> {
    let f = d.projection.fields@[i];
    let loc = at("projection.fields"@, i);
    (match f.role {
        ProjectionFieldRole::Value => one(
            DefinitionIssueCode::MixedProjectionRoles,
            loc + ".role"@,
            "summary graph projection cannot contain regular value fields"@,
        ),
        ProjectionFieldRole::Dimension => if spec_contains_aggregate(f.expression) {
            one(
                DefinitionIssueCode::InvalidDimensionExpression,
                loc + ".expression"@,
                "dimension expression cannot contain an aggregate"@,
            )
        } else {
            seq![]
        },
        ProjectionFieldRole::Measure => if !spec_contains_aggregate(f.expression) {
            one(
                DefinitionIssueCode::InvalidMeasureExpression,
                loc + ".expression"@,
                "measure expression must contain an aggregate"@,
            )
        } else {
            grouped_issues(f.expression, loc + ".expression"@, dimensions(d))
        },
    }) + nested_issues(f.expression, loc + ".expression"@, false)
}

pub open spec fn summary_field_section(d: GraphDefinition, n: int) -> Seq<SpecIssue>
    decreases n,
{
    if n <= 0 {
        seq![]
    } else {
        summary_field_section(d, n - 1) + summary_field_issue(d, n - 1)
    }
}

pub open spec fn summary_constraint_section(d: GraphDefinition, n: int) -> Seq<SpecIssue>
    decreases n,
{
    if n <= 0 {
        seq![]
    } else {
        let p = d.constraints@[n - 1].predicate;
        let loc = at("constraints"@, n - 1) + ".predicate"@;
        summary_constraint_section(d, n - 1) + nested_issues(p, loc, false) + if spec_contains_aggregate(p) {
            grouped_issues(p, loc, dimensions(d))
        } else {
            seq![]
        }
    }
}

pub open spec fn summary_order_section(d: GraphDefinition, o: int, n: int) -> Seq<SpecIssue>
    decreases n,
{
    if n <= 0 {
        seq![]
    } else {
        let e = d.orderings@[o].order_by@[n - 1].expression;
        summary_order_section(d, o, n - 1) + nested_issues(e, order_location(o, n - 1), false)
            + grouped_issues(e, order_location(o, n - 1), dimensions(d))
    }
}

pub open spec fn summary_ordering_section(d: GraphDefinition, n: int) -> Seq<SpecIssue>
    decreases n,
{
    if n <= 0 {
        seq![]
    } else {
        summary_ordering_section(d, n - 1) + summary_order_section(
            d,
            n - 1,
            d.orderings@[n - 1].order_by@.len() as int,
        )
    }
}

/// Roles, nesting and grouping in a graph with dimensions or measures.
pub open spec fn summary_issues(d: GraphDefinition) -> Seq<SpecIssue> {
    summary_field_section(d, d.projection.fields@.len() as int) + summary_constraint_section(
        d,
        d.constraints@.len() as int,
    ) + summary_ordering_section(d, d.orderings@.len() as int)
}

/// The aggregate rules of a definition, in the order they are reported.
pub open spec fn aggregation_issues(d: GraphDefinition) -> Seq<SpecIssue> {
    relation_reject_section(d, d.relations@.len() as int) + if spec_is_summary(d) {
        summary_issues(d)
    } else {
        record_issues(d)
    }
}

fn reject_aggregate(e: &Expression, loc: String, message: &str, issues: &mut Vec<DefinitionIssue>)
    ensures
        issues_view(final(issues)@) == issues_view(old(issues)@) + reject_issues(*e, loc@, message@),
{
    let ghost start = issues_view(issues@);
    if e.contains_aggregate() {
        push_issue(issues, DefinitionIssueCode::InvalidAggregateContext, loc, text(message));
    }
    assert(issues_view(issues@) =~= start + reject_issues(*e, loc@, message@));
}

fn validate_relation_expressions(d: &GraphDefinition, issues: &mut Vec<DefinitionIssue>)
    ensures
        issues_view(final(issues)@) == issues_view(old(issues)@) + relation_reject_section(
            *d,
            d.relations@.len() as int,
        ),
{
    let ghost start = issues_view(issues@);
    let mut i: usize = 0;
    while i < d.relations.len()
        invariant
            i <= d.relations@.len(),
            issues_view(issues@) == start + relation_reject_section(*d, i as int),
        decreases d.relations.len() - i,
    {
        let relation = &d.relations[i];
        let loc = indexed("relations", i);
        reject_aggregate(
            &relation.on,
            concat(loc.as_str(), ".on"),
            "relation predicates cannot contain aggregates",
            issues,
        );
        let ghost mid = issues_view(issues@);
        if let Some(selection) = &relation.selection {
            let orders = selection.order_by();
            assert(orders@ == selection_orders(*d, i as int));
            let prefix = concat(loc.as_str(), ".selection.orderBy");
            let mut k: usize = 0;
            while k < orders.len()
                invariant
                    orders@ == selection_orders(*d, i as int),
                    prefix@ == at("relations"@, i as int) + ".selection.orderBy"@,
                    k <= orders@.len(),
                    issues_view(issues@) == mid + selection_reject_section(*d, i as int, k as int),
                decreases orders.len() - k,
            {
                let order_loc = indexed(prefix.as_str(), k);
                reject_aggregate(
                    &orders[k].expression,
                    concat(order_loc.as_str(), ".expression"),
                    "relation selection ordering cannot contain aggregates",
                    issues,
                );
                assert(issues_view(issues@) =~= mid + selection_reject_section(*d, i as int, (k + 1) as int));
                k = k + 1;
            }
        }
        assert(issues_view(issues@) =~= start + relation_reject_section(*d, (i + 1) as int));
        i = i + 1;
    }
}

fn validate_record_graph(d: &GraphDefinition, issues: &mut Vec<DefinitionIssue>)
    ensures
        issues_view(final(issues)@) == issues_view(old(issues)@) + record_issues(*d),
{
    let ghost start = issues_view(issues@);
    let fields = &d.projection.fields;
    let mut i: usize = 0;
    while i < fields.len()
        invariant
            *fields == d.projection.fields,
            i <= fields@.len(),
            issues_view(issues@) == start + field_reject_section(*d, i as int),
        decreases fields.len() - i,
    {
        let loc = indexed("projection.fields", i);
        reject_aggregate(
            &fields[i].expression,
            concat(loc.as_str(), ".expression"),
            "aggregate expressions require a summary graph",
            issues,
        );
        assert(issues_view(issues@) =~= start + field_reject_section(*d, (i + 1) as int));
        i = i + 1;
    }
    let ghost after_fields = issues_view(issues@);
    let mut i: usize = 0;
    while i < d.constraints.len()
        invariant
            i <= d.constraints@.len(),
            issues_view(issues@) == after_fields + constraint_reject_section(*d, i as int),
        decreases d.constraints.len() - i,
    {
        let loc = indexed("constraints", i);
        reject_aggregate(
            &d.constraints[i].predicate,
            concat(loc.as_str(), ".predicate"),
            "aggregate constraints require a summary graph",
            issues,
        );
        assert(issues_view(issues@) =~= after_fields + constraint_reject_section(*d, (i + 1) as int));
        i = i + 1;
    }
    let ghost after_constraints = issues_view(issues@);
    let mut o: usize = 0;
    while o < d.orderings.len()
        invariant
            o <= d.orderings@.len(),
            issues_view(issues@) == after_constraints + ordering_reject_section(*d, o as int),
        decreases d.orderings.len() - o,
    {
        let ghost before = issues_view(issues@);
        let orders = &d.orderings[o].order_by;
        let prefix = indexed("orderings", o);
        let prefix = concat(prefix.as_str(), ".orderBy");
        let mut k: usize = 0;
        while k < orders.len()
            invariant
                *orders == d.orderings@[o as int].order_by,
                o < d.orderings@.len(),
                prefix@ == at("orderings"@, o as int) + ".orderBy"@,
                k <= orders@.len(),
                issues_view(issues@) == before + order_reject_section(*d, o as int, k as int),
            decreases orders.len() - k,
        {
            let order_loc = indexed(prefix.as_str(), k);
            reject_aggregate(
                &orders[k].expression,
                concat(order_loc.as_str(), ".expression"),
                "aggregate ordering requires a summary graph",
                issues,
            );
            assert(issues_view(issues@) =~= before + order_reject_section(*d, o as int, (k + 1) as int));
            k = k + 1;
        }
        assert(issues_view(issues@) =~= after_constraints + ordering_reject_section(*d, (o + 1) as int));
        o = o + 1;
    }
    assert(issues_view(issues@) =~= start + record_issues(*d));
}

fn collect_dimensions(d: &GraphDefinition) -> (r: Vec<&Expression>)
    ensures
        deref_all(r@) == dimensions(*d),
{
    let fields = &d.projection.fields;
    let mut r: Vec<&Expression> = Vec::new();
    let mut i: usize = 0;
    while i < fields.len()
        invariant
            *fields == d.projection.fields,
            i <= fields@.len(),
            deref_all(r@) == dimension_section(*d, i as int),
        decreases fields.len() - i,
    {
        if fields[i].role == ProjectionFieldRole::Dimension {
            r.push(&fields[i].expression);
        }
        assert(deref_all(r@) =~= dimension_section(*d, (i + 1) as int));
        i = i + 1;
    }
    r
}

fn validate_summary_field(d: &GraphDefinition, i: usize, dims: &Vec<&Expression>, issues: &mut Vec<DefinitionIssue>)
    requires
        i < d.projection.fields@.len(),
        deref_all(dims@) == dimensions(*d),
    ensures
        issues_view(final(issues)@) == issues_view(old(issues)@) + summary_field_issue(*d, i as int),
{
    let ghost start = issues_view(issues@);
    let field = &d.projection.fields[i];
    let loc = indexed("projection.fields", i);
    let expression_loc = concat(loc.as_str(), ".expression");
    match field.role {
        ProjectionFieldRole::Value => {
            push_issue(
                issues,
                DefinitionIssueCode::MixedProjectionRoles,
                concat(loc.as_str(), ".role"),
                text("summary graph projection cannot contain regular value fields"),
            );
        },
        ProjectionFieldRole::Dimension => {
            if field.expression.contains_aggregate() {
                push_issue(
                    issues,
                    DefinitionIssueCode::InvalidDimensionExpression,
                    text(expression_loc.as_str()),
                    text("dimension expression cannot contain an aggregate"),
                );
            }
        },
        ProjectionFieldRole::Measure => {
            if !field.expression.contains_aggregate() {
                push_issue(
                    issues,
                    DefinitionIssueCode::InvalidMeasureExpression,
                    text(expression_loc.as_str()),
                    text("measure expression must contain an aggregate"),
                );
            } else {
                validate_grouped_expression(&field.expression, expression_loc.as_str(), dims, issues);
            }
        },
    }
    validate_nested_aggregates(&field.expression, expression_loc.as_str(), false, issues);
    assert(issues_view(issues@) =~= start + summary_field_issue(*d, i as int));
}

fn validate_summary_graph(d: &GraphDefinition, issues: &mut Vec<DefinitionIssue>)
    ensures
        issues_view(final(issues)@) == issues_view(old(issues)@) + summary_issues(*d),
{
    let ghost start = issues_view(issues@);
    let dims = collect_dimensions(d);
    let mut i: usize = 0;
    while i < d.projection.fields.len()
        invariant
            deref_all(dims@) == dimensions(*d),
            i <= d.projection.fields@.len(),
            issues_view(issues@) == start + summary_field_section(*d, i as int),
        decreases d.projection.fields.len() - i,
    {
        validate_summary_field(d, i, &dims, issues);
        assert(issues_view(issues@) =~= start + summary_field_section(*d, (i + 1) as int));
        i = i + 1;
    }
    let ghost after_fields = issues_view(issues@);
    let mut i: usize = 0;
    while i < d.constraints.len()
        invariant
            deref_all(dims@) == dimensions(*d),
            i <= d.constraints@.len(),
            issues_view(issues@) == after_fields + summary_constraint_section(*d, i as int),
        decreases d.constraints.len() - i,
    {
        let ghost before = issues_view(issues@);
        let predicate = &d.constraints[i].predicate;
        let loc = indexed("constraints", i);
        let loc = concat(loc.as_str(), ".predicate");
        validate_nested_aggregates(predicate, loc.as_str(), false, issues);
        if predicate.contains_aggregate() {
            validate_grouped_expression(predicate, loc.as_str(), &dims, issues);
        }
        assert(issues_view(issues@) =~= after_fields + summary_constraint_section(*d, (i + 1) as int));
        i = i + 1;
    }
    let ghost after_constraints = issues_view(issues@);
    let mut o: usize = 0;
    while o < d.orderings.len()
        invariant
            deref_all(dims@) == dimensions(*d),
            o <= d.orderings@.len(),
            issues_view(issues@) == after_constraints + summary_ordering_section(*d, o as int),
        decreases d.orderings.len() - o,
    {
        let ghost before = issues_view(issues@);
        let orders = &d.orderings[o].order_by;
        let prefix = indexed("orderings", o);
        let prefix = concat(prefix.as_str(), ".orderBy");
        let mut k: usize = 0;
        while k < orders.len()
            invariant
                deref_all(dims@) == dimensions(*d),
                *orders == d.orderings@[o as int].order_by,
                o < d.orderings@.len(),
                prefix@ == at("orderings"@, o as int) + ".orderBy"@,
                k <= orders@.len(),
                issues_view(issues@) == before + summary_order_section(*d, o as int, k as int),
            decreases orders.len() - k,
        {
            let order_loc = indexed(prefix.as_str(), k);
            let order_loc = concat(order_loc.as_str(), ".expression");
            validate_nested_aggregates(&orders[k].expression, order_loc.as_str(), false, issues);
            validate_grouped_expression(&orders[k].expression, order_loc.as_str(), &dims, issues);
            assert(issues_view(issues@) =~= before + summary_order_section(*d, o as int, (k + 1) as int));
            k = k + 1;
        }
        assert(issues_view(issues@) =~= after_constraints + summary_ordering_section(*d, (o + 1) as int));
        o = o + 1;
    }
    assert(issues_view(issues@) =~= start + summary_issues(*d));
}

/// Reports every aggregate that stands where the rules do not allow one.
pub fn validate_aggregation(d: &GraphDefinition, issues: &mut Vec<DefinitionIssue>)
    ensures
        issues_view(final(issues)@) == issues_view(old(issues)@) + aggregation_issues(*d),
{
    let ghost start = issues_view(issues@);
    validate_relation_expressions(d, issues);
    if !d.is_summary() {
        validate_record_graph(d, issues);
    } else {
        validate_summary_graph(d, issues);
    }
    assert(issues_view(issues@) =~= start + aggregation_issues(*d));
}

} // verus!
