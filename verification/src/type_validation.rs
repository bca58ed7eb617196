//! Type checking of the expressions of a definition.
use vstd::prelude::*;

use crate::analysis::index::{field_index, field_names, lemma_first_key_range, lemma_last_key_range, parameter_index, parameter_names, source_index, source_keys, spec_field, spec_parameter, spec_source};
use crate::analysis::topology::GraphTopology;
use crate::definition::{GraphDefinition, ParameterShape, ProjectionFieldRole, ScalarType};
use crate::expression::Expression;
use crate::text::{concat, indexed, text};
use crate::type_system::{
    boolean_type, infer_aggregate, infer_equality, infer_function, infer_in, infer_like,
    infer_logical, infer_not, infer_ordering_comparison, require_groupable, require_orderable,
    require_predicate, resolve_expression_type, result_view, scalar, spec_infer_aggregate,
    spec_infer_equality, spec_infer_function, spec_infer_in, spec_infer_like, spec_infer_logical,
    spec_infer_not, spec_infer_ordering_comparison, spec_literal_type, spec_require_groupable,
    spec_require_orderable, spec_require_predicate, spec_resolve_expression_type, ExpressionType,
    InferredType, SpecTypeError, TypeSystemError, TypeSystemErrorKind,
};
use crate::validation::aggregation::{order_location, selection_orders};
use crate::validation::expression::one;
use crate::validation::{at, issues_view, push_issue, DefinitionIssue, DefinitionIssueCode, SpecIssue};

verus! {

pub open spec fn issue_code(kind: TypeSystemErrorKind) -> DefinitionIssueCode {
    match kind {
        TypeSystemErrorKind::IncompatibleTypes => DefinitionIssueCode::IncompatibleExpressionTypes,
        TypeSystemErrorKind::InvalidType => DefinitionIssueCode::InvalidExpressionType,
        TypeSystemErrorKind::InvalidFunctionArity => DefinitionIssueCode::InvalidFunctionArity,
        TypeSystemErrorKind::UnresolvedType => DefinitionIssueCode::UnresolvedExpressionType,
    }
}

/// The value of a type rule, or the issue that reports its error at `loc`.
pub open spec fn report<T>(r: Result<T, SpecTypeError>, loc: Seq<char>) -> (Option<T>, Seq<SpecIssue>) {
    match r {
        Ok(v) => (Some(v), seq![]),
        Err(e) => (None, one(issue_code(e.0), loc, e.1)),
    }
}

/// The type of a field reference: its declared type, nullable when the field or
/// the path to its source is.
pub open spec fn spec_field_type(d: GraphDefinition, t: GraphTopology, source: Seq<char>, field: Seq<char>) -> Option<InferredType> {
    match spec_source(d, source) {
        Some(si) => match spec_field(d, si, field) {
            Some(fi) => {
                let f = d.sources@[si].fields@[fi];
                Some(scalar(f.scalar_type, f.nullable || t.source_nullable@[si]))
            },
            None => None,
        },
        None => None,
    }
}

/// The type of a parameter reference of the given shape.
pub open spec fn spec_parameter_type(d: GraphDefinition, name: Seq<char>, shape: ParameterShape) -> Option<InferredType> {
    match spec_parameter(d, name) {
        Some(pi) => if d.parameters@[pi].shape == shape {
            Some(scalar(d.parameters@[pi].scalar_type, false))
        } else {
            None
        },
        None => None,
    }
}

/// A binary rule applied to two inferred operands.
pub open spec fn combine(
    l: (Option<InferredType>, Seq<SpecIssue>),
    r: (Option<InferredType>, Seq<SpecIssue>),
    rule: spec_fn(InferredType, InferredType) -> Result<InferredType, SpecTypeError>,
    loc: Seq<char>,
) -> (Option<InferredType>, Seq<SpecIssue>) {
    match (l.0, r.0) {
        (Some(a), Some(b)) => {
            let v = report(rule(a, b), loc);
            (v.0, l.1 + r.1 + v.1)
        },
        _ => (None, l.1 + r.1),
    }
}

/// A rule applied to one inferred operand.
pub open spec fn apply(
    x: (Option<InferredType>, Seq<SpecIssue>),
    rule: spec_fn(InferredType) -> Result<InferredType, SpecTypeError>,
    loc: Seq<char>,
) -> (Option<InferredType>, Seq<SpecIssue>) {
    match x.0 {
        Some(a) => {
            let v = report(rule(a), loc);
            (v.0, x.1 + v.1)
        },
        None => (None, x.1),
    }
}

/// A rule applied to a list of inferred operands.
pub open spec fn apply_list(
    x: (Option<Seq<InferredType>>, Seq<SpecIssue>),
    rule: spec_fn(Seq<InferredType>) -> Result<InferredType, SpecTypeError>,
    loc: Seq<char>,
) -> (Option<InferredType>, Seq<SpecIssue>) {
    match x.0 {
        Some(a) => {
            let v = report(rule(a), loc);
            (v.0, x.1 + v.1)
        },
        None => (None, x.1),
    }
}

/// The issue of a predicate whose type is not boolean.
pub open spec fn predicate_issues(ty: Option<InferredType>, loc: Seq<char>) -> Seq<SpecIssue> {
    match ty {
        Some(t) => match spec_require_predicate(t) {
            Ok(_) => seq![],
            Err(e) => one(DefinitionIssueCode::InvalidPredicateType, loc, e.1),
        },
        None => seq![],
    }
}

/// The inferred type of an expression and the issues found on the way, in order.
pub open spec fn infer(d: GraphDefinition, t: GraphTopology, e: Expression, loc: Seq<char>) -> (Option<InferredType>, Seq<SpecIssue>)
    decreases e, 0nat,
{
    match e {
        Expression::Field { source, field } => (spec_field_type(d, t, source@, field@), seq![]),
        Expression::Parameter { name } => (spec_parameter_type(d, name@, ParameterShape::Scalar), seq![]),
        Expression::Literal { value } => (Some(spec_literal_type(value)), seq![]),
        Expression::Eq { left, right } => combine(
            infer(d, t, *left, loc + ".left"@),
            infer(d, t, *right, loc + ".right"@),
            |a: InferredType, b: InferredType| spec_infer_equality(a, b),
            loc,
        ),
        Expression::NotEq { left, right } => combine(
            infer(d, t, *left, loc + ".left"@),
            infer(d, t, *right, loc + ".right"@),
            |a: InferredType, b: InferredType| spec_infer_equality(a, b),
            loc,
        ),
        Expression::LessThan { left, right } => combine(
            infer(d, t, *left, loc + ".left"@),
            infer(d, t, *right, loc + ".right"@),
            |a: InferredType, b: InferredType| spec_infer_ordering_comparison(a, b),
            loc,
        ),
        Expression::LessThanOrEqual { left, right } => combine(
            infer(d, t, *left, loc + ".left"@),
            infer(d, t, *right, loc + ".right"@),
            |a: InferredType, b: InferredType| spec_infer_ordering_comparison(a, b),
            loc,
        ),
        Expression::GreaterThan { left, right } => combine(
            infer(d, t, *left, loc + ".left"@),
            infer(d, t, *right, loc + ".right"@),
            |a: InferredType, b: InferredType| spec_infer_ordering_comparison(a, b),
            loc,
        ),
        Expression::GreaterThanOrEqual { left, right } => combine(
            infer(d, t, *left, loc + ".left"@),
            infer(d, t, *right, loc + ".right"@),
            |a: InferredType, b: InferredType| spec_infer_ordering_comparison(a, b),
            loc,
        ),
        Expression::Like { expression, pattern } => combine(
            infer(d, t, *expression, loc + ".expression"@),
            infer(d, t, *pattern, loc + ".pattern"@),
            |a: InferredType, b: InferredType| spec_infer_like(a, b),
            loc,
        ),
        Expression::In { expression, values } => {
            let x = infer(d, t, *expression, loc + ".expression"@);
            let vs = infer_list(d, t, values@, loc + ".values"@, values@.len());
            match (x.0, vs.0) {
                (Some(a), Some(b)) => {
                    let v = report(spec_infer_in(a, b), loc);
                    (v.0, x.1 + vs.1 + v.1)
                },
                _ => (None, x.1 + vs.1),
            }
        },
        Expression::InParameter { expression, parameter } => {
            let x = infer(d, t, *expression, loc + ".expression"@);
            match (x.0, spec_parameter_type(d, parameter@, ParameterShape::List)) {
                (Some(a), Some(p)) => {
                    let v = report(spec_infer_in(a, seq![p]), loc);
                    (v.0, x.1 + v.1)
                },
                _ => (None, x.1),
            }
        },
        Expression::And { expressions } => apply_list(
            infer_list(d, t, expressions@, loc + ".expressions"@, expressions@.len()),
            |ts: Seq<InferredType>| spec_infer_logical(ts),
            loc,
        ),
        Expression::Or { expressions } => apply_list(
            infer_list(d, t, expressions@, loc + ".expressions"@, expressions@.len()),
            |ts: Seq<InferredType>| spec_infer_logical(ts),
            loc,
        ),
        Expression::Not { expression } => apply(
            infer(d, t, *expression, loc + ".expression"@),
            |a: InferredType| spec_infer_not(a),
            loc,
        ),
        Expression::IsNull { expression } => {
            let x = infer(d, t, *expression, loc + ".expression"@);
            (if x.0 is Some { Some(boolean_type(false)) } else { None }, x.1)
        },
        Expression::IsNotNull { expression } => {
            let x = infer(d, t, *expression, loc + ".expression"@);
            (if x.0 is Some { Some(boolean_type(false)) } else { None }, x.1)
        },
        Expression::Exists { predicate, .. } => match predicate {
            Some(p) => {
                let x = infer(d, t, *p, loc + ".predicate"@);
                (Some(boolean_type(false)), x.1 + predicate_issues(x.0, loc + ".predicate"@))
            },
            None => (Some(boolean_type(false)), seq![]),
        },
        Expression::Function { name, arguments } => apply_list(
            infer_list(d, t, arguments@, loc + ".arguments"@, arguments@.len()),
            |ts: Seq<InferredType>| spec_infer_function(name, ts),
            loc,
        ),
        Expression::Aggregate { function, expression } => match expression {
            Some(x) => {
                let a = infer(d, t, *x, loc + ".expression"@);
                match a.0 {
                    Some(at) => {
                        let v = report(spec_infer_aggregate(function, Some(at)), loc);
                        (v.0, a.1 + v.1)
                    },
                    None => (None, a.1),
                }
            },
            None => report(spec_infer_aggregate(function, None), loc),
        },
    }
}

/// The types of the first `n` expressions of a list, when all of them have one.
pub open spec fn infer_list(d: GraphDefinition, t: GraphTopology, es: Seq<Expression>, loc: Seq<char>, n: nat) -> (Option<Seq<InferredType>>, Seq<SpecIssue>)
    decreases es, n,
{
    if n == 0 || n > es.len() {
        (Some(seq![]), seq![])
    } else {
        let prev = infer_list(d, t, es, loc, (n - 1) as nat);
        let x = infer(d, t, es[n - 1], at(loc, n - 1));
        (
            match (prev.0, x.0) {
                (Some(p), Some(v)) => Some(p.push(v)),
                _ => None,
            },
            prev.1 + x.1,
        )
    }
}


pub open spec fn opt_seq<T>(v: Option<Vec<T>>) -> Option<Seq<T>> {
    match v {
        Some(x) => Some(x@),
        None => None,
    }
}

fn kind_code(kind: TypeSystemErrorKind) -> (r: DefinitionIssueCode)
    ensures
        r == issue_code(kind),
{
    match kind {
        TypeSystemErrorKind::IncompatibleTypes => DefinitionIssueCode::IncompatibleExpressionTypes,
        TypeSystemErrorKind::InvalidType => DefinitionIssueCode::InvalidExpressionType,
        TypeSystemErrorKind::InvalidFunctionArity => DefinitionIssueCode::InvalidFunctionArity,
        TypeSystemErrorKind::UnresolvedType => DefinitionIssueCode::UnresolvedExpressionType,
    }
}

fn report_type_result(r: Result<InferredType, TypeSystemError>, loc: &str, issues: &mut Vec<DefinitionIssue>) -> (v: Option<InferredType>)
    ensures
        v == report(result_view(r), loc@).0,
        issues_view(final(issues)@) == issues_view(old(issues)@) + report(result_view(r), loc@).1,
{
    let ghost start = issues_view(issues@);
    match r {
        Ok(t) => {
            assert(issues_view(issues@) =~= start + seq![]);
            Some(t)
        },
        Err(e) => {
            push_issue(issues, kind_code(e.kind), text(loc), e.message);
            None
        },
    }
}

fn report_resolved(r: Result<ExpressionType, TypeSystemError>, loc: &str, issues: &mut Vec<DefinitionIssue>) -> (v: Option<ExpressionType>)
    ensures
        v == report(result_view(r), loc@).0,
        issues_view(final(issues)@) == issues_view(old(issues)@) + report(result_view(r), loc@).1,
{
    let ghost start = issues_view(issues@);
    match r {
        Ok(t) => {
            assert(issues_view(issues@) =~= start + seq![]);
            Some(t)
        },
        Err(e) => {
            push_issue(issues, kind_code(e.kind), text(loc), e.message);
            None
        },
    }
}

fn field_type(d: &GraphDefinition, t: &GraphTopology, source: &str, field: &str) -> (r: Option<InferredType>)
    requires
        t.wf(*d),
    ensures
        r == spec_field_type(*d, *t, source@, field@),
{
    match source_index(d, source) {
        Some(si) => {
            proof {
                lemma_first_key_range(source_keys(*d), source@);
            }
            match field_index(d, si, field) {
                Some(fi) => {
                    proof {
                        lemma_first_key_range(field_names(*d, si as int), field@);
                    }
                    let f = &d.sources[si].fields[fi];
                    Some(InferredType::scalar(f.scalar_type, f.nullable || t.source_is_nullable(si)))
                },
                None => None,
            }
        },
        None => None,
    }
}

fn parameter_type(d: &GraphDefinition, name: &str, shape: ParameterShape) -> (r: Option<InferredType>)
    ensures
        r == spec_parameter_type(*d, name@, shape),
{
    match parameter_index(d, name) {
        Some(pi) => {
            proof {
                lemma_last_key_range(parameter_names(*d), name@);
            }
            let p = &d.parameters[pi];
            if p.shape == shape {
                Some(InferredType::parameter(p.scalar_type))
            } else {
                None
            }
        },
        None => None,
    }
}

fn validate_predicate(ty: Option<InferredType>, loc: &str, issues: &mut Vec<DefinitionIssue>)
    ensures
        issues_view(final(issues)@) == issues_view(old(issues)@) + predicate_issues(ty, loc@),
{
    let ghost start = issues_view(issues@);
    if let Some(t) = ty {
        if let Err(error) = require_predicate(t) {
            push_issue(issues, DefinitionIssueCode::InvalidPredicateType, text(loc), error.message);
        }
    }
    assert(issues_view(issues@) =~= start + predicate_issues(ty, loc@));
}

fn infer_child(
    d: &GraphDefinition,
    t: &GraphTopology,
    parent: &Expression,
    child: &Expression,
    location: &str,
    role: &str,
    issues: &mut Vec<DefinitionIssue>,
) -> (r: Option<InferredType>)
    requires
        t.wf(*d),
        decreases_to!(*parent => *child),
    ensures
        r == infer(*d, *t, *child, location@ + role@).0,
        issues_view(final(issues)@) == issues_view(old(issues)@) + infer(*d, *t, *child, location@ + role@).1,
    decreases *parent, 0nat,
{
    let loc = concat(location, role);
    infer_expression(d, t, child, loc.as_str(), issues)
}

fn infer_expressions(
    d: &GraphDefinition,
    t: &GraphTopology,
    parent: &Expression,
    es: &Vec<Expression>,
    location: &str,
    issues: &mut Vec<DefinitionIssue>,
) -> (r: Option<Vec<InferredType>>)
    requires
        t.wf(*d),
        forall|i: int| 0 <= i < es@.len() ==> decreases_to!(*parent => #[trigger] es@[i]),
    ensures
        opt_seq(r) == infer_list(*d, *t, es@, location@, es@.len()).0,
        issues_view(final(issues)@) == issues_view(old(issues)@) + infer_list(*d, *t, es@, location@, es@.len()).1,
    decreases *parent, 0nat,
{
    let ghost start = issues_view(issues@);
    let mut all_valid = true;
    let mut types: Vec<InferredType> = Vec::new();
    let mut i: usize = 0;
    while i < es.len()
        invariant
            t.wf(*d),
            forall|j: int| 0 <= j < es@.len() ==> decreases_to!(*parent => #[trigger] es@[j]),
            i <= es@.len(),
            all_valid == infer_list(*d, *t, es@, location@, i as nat).0 is Some,
            all_valid ==> infer_list(*d, *t, es@, location@, i as nat).0 == Some(types@),
            issues_view(issues@) == start + infer_list(*d, *t, es@, location@, i as nat).1,
        decreases es.len() - i,
    {
        let loc = indexed(location, i);
        assert(decreases_to!(*parent => es@[i as int]));
        let ty = infer_expression(d, t, &es[i], loc.as_str(), issues);
        match ty {
            Some(v) => types.push(v),
            None => all_valid = false,
        }
        assert(issues_view(issues@) =~= start + infer_list(*d, *t, es@, location@, (i + 1) as nat).1);
        i = i + 1;
    }
    if all_valid {
        Some(types)
    } else {
        None
    }
}

fn in_values(parent: &Expression, values: &Vec<Expression>) -> (r: bool)
    requires
        parent matches Expression::In { values: v, .. } && v == *values,
    ensures
        r,
        forall|i: int| 0 <= i < values@.len() ==> decreases_to!(*parent => #[trigger] values@[i]),
{
    proof {
        assert forall|i: int| 0 <= i < values@.len() implies decreases_to!(*parent => #[trigger] values@[i]) by {
            assert(decreases_to!(*values => values@));
        }
    }
    true
}

#[verifier::rlimit(60)]
fn infer_comparison(
    d: &GraphDefinition,
    t: &GraphTopology,
    e: &Expression,
    location: &str,
    issues: &mut Vec<DefinitionIssue>,
) -> (r: Option<InferredType>)
    requires
        t.wf(*d),
        e is Eq || e is NotEq || e is LessThan || e is LessThanOrEqual || e is GreaterThan || e is GreaterThanOrEqual || e is Like,
    ensures
        r == infer(*d, *t, *e, location@).0,
        issues_view(final(issues)@) == issues_view(old(issues)@) + infer(*d, *t, *e, location@).1,
    decreases *e, 1nat,
{
    let ghost start = issues_view(issues@);
    match e {
        Expression::Eq { left, right } | Expression::NotEq { left, right } => {
            let l = infer_child(d, t, e, left, location, ".left", issues);
            let r = infer_child(d, t, e, right, location, ".right", issues);
            let v = match (l, r) {
                (Some(a), Some(b)) => report_type_result(infer_equality(a, b), location, issues),
                _ => None,
            };
            assert(issues_view(issues@) =~= start + infer(*d, *t, *e, location@).1);
            v
        },
        Expression::LessThan { left, right }
        | Expression::LessThanOrEqual { left, right }
        | Expression::GreaterThan { left, right }
        | Expression::GreaterThanOrEqual { left, right } => {
            let l = infer_child(d, t, e, left, location, ".left", issues);
            let r = infer_child(d, t, e, right, location, ".right", issues);
            let v = match (l, r) {
                (Some(a), Some(b)) => report_type_result(
                    infer_ordering_comparison(a, b),
                    location,
                    issues,
                ),
                _ => None,
            };
            assert(issues_view(issues@) =~= start + infer(*d, *t, *e, location@).1);
            v
        },
        Expression::Like { expression, pattern } => {
            let l = infer_child(d, t, e, expression, location, ".expression", issues);
            let r = infer_child(d, t, e, pattern, location, ".pattern", issues);
            let v = match (l, r) {
                (Some(a), Some(b)) => report_type_result(infer_like(a, b), location, issues),
                _ => None,
            };
            assert(issues_view(issues@) =~= start + infer(*d, *t, *e, location@).1);
            v
        },
        _ => {
            proof {
                assert(false);
            }
            None
        },
    }
}

fn infer_group(
    d: &GraphDefinition,
    t: &GraphTopology,
    e: &Expression,
    location: &str,
    issues: &mut Vec<DefinitionIssue>,
) -> (r: Option<InferredType>)
    requires
        t.wf(*d),
        e is In || e is InParameter || e is And || e is Or || e is Function,
    ensures
        r == infer(*d, *t, *e, location@).0,
        issues_view(final(issues)@) == issues_view(old(issues)@) + infer(*d, *t, *e, location@).1,
    decreases *e, 1nat,
{
    let ghost start = issues_view(issues@);
    match e {
        Expression::In { expression, values } => {
            let x = infer_child(d, t, e, expression, location, ".expression", issues);
            let list_location = concat(location, ".values");
            in_values(e, values);
            let vs = infer_expressions(d, t, e, values, list_location.as_str(), issues);
            let v = match (x, vs) {
                (Some(a), Some(b)) => report_type_result(infer_in(a, b.as_slice()), location, issues),
                _ => None,
            };
            assert(issues_view(issues@) =~= start + infer(*d, *t, *e, location@).1);
            v
        },
        Expression::InParameter { expression, parameter } => {
            let x = infer_child(d, t, e, expression, location, ".expression", issues);
            let p = parameter_type(d, parameter.as_str(), ParameterShape::List);
            let v = match (x, p) {
                (Some(a), Some(b)) => {
                    let one_value = vec![b];
                    assert(one_value@ =~= seq![b]);
                    report_type_result(infer_in(a, one_value.as_slice()), location, issues)
                },
                _ => None,
            };
            assert(issues_view(issues@) =~= start + infer(*d, *t, *e, location@).1);
            v
        },
        Expression::And { expressions } | Expression::Or { expressions } => {
            let list_location = concat(location, ".expressions");
            proof {
                assert forall|i: int| 0 <= i < expressions@.len() implies decreases_to!(*e => #[trigger] expressions@[i]) by {
                    assert(decreases_to!(*expressions => expressions@));
                }
            }
            let vs = infer_expressions(d, t, e, expressions, list_location.as_str(), issues);
            let v = match vs {
                Some(b) => report_type_result(infer_logical(b.as_slice()), location, issues),
                None => None,
            };
            assert(issues_view(issues@) =~= start + infer(*d, *t, *e, location@).1);
            v
        },
        Expression::Function { name, arguments } => {
            let list_location = concat(location, ".arguments");
            proof {
                assert forall|i: int| 0 <= i < arguments@.len() implies decreases_to!(*e => #[trigger] arguments@[i]) by {
                    assert(decreases_to!(*arguments => arguments@));
                }
            }
            let vs = infer_expressions(d, t, e, arguments, list_location.as_str(), issues);
            let v = match vs {
                Some(b) => report_type_result(infer_function(*name, b.as_slice()), location, issues),
                None => None,
            };
            assert(issues_view(issues@) =~= start + infer(*d, *t, *e, location@).1);
            v
        },
        _ => {
            proof {
                assert(false);
            }
            None
        },
    }
}

fn infer_unary(
    d: &GraphDefinition,
    t: &GraphTopology,
    e: &Expression,
    location: &str,
    issues: &mut Vec<DefinitionIssue>,
) -> (r: Option<InferredType>)
    requires
        t.wf(*d),
        e is Not || e is IsNull || e is IsNotNull || e is Exists || e is Aggregate,
    ensures
        r == infer(*d, *t, *e, location@).0,
        issues_view(final(issues)@) == issues_view(old(issues)@) + infer(*d, *t, *e, location@).1,
    decreases *e, 1nat,
{
    let ghost start = issues_view(issues@);
    match e {
        Expression::Not { expression } => {
            let x = infer_child(d, t, e, expression, location, ".expression", issues);
            let v = match x {
                Some(a) => report_type_result(infer_not(a), location, issues),
                None => None,
            };
            assert(issues_view(issues@) =~= start + infer(*d, *t, *e, location@).1);
            v
        },
        Expression::IsNull { expression } | Expression::IsNotNull { expression } => {
            let x = infer_child(d, t, e, expression, location, ".expression", issues);
            match x {
                Some(_) => Some(InferredType::scalar(ScalarType::Boolean, false)),
                None => None,
            }
        },
        Expression::Exists { predicate, .. } => {
            match predicate {
                Some(p) => {
                    let predicate_location = concat(location, ".predicate");
                    let x = infer_child(d, t, e, p, location, ".predicate", issues);
                    validate_predicate(x, predicate_location.as_str(), issues);
                    assert(issues_view(issues@) =~= start + infer(*d, *t, *e, location@).1);
                },
                None => {
                    assert(issues_view(issues@) =~= start + seq![]);
                },
            }
            Some(InferredType::scalar(ScalarType::Boolean, false))
        },
        Expression::Aggregate { function, expression } => {
            match expression {
                Some(x) => {
                    let a = infer_child(d, t, e, x, location, ".expression", issues);
                    match a {
                        Some(at) => {
                            let v = report_type_result(infer_aggregate(*function, Some(at)), location, issues);
                            assert(issues_view(issues@) =~= start + infer(*d, *t, *e, location@).1);
                            v
                        },
                        None => None,
                    }
                },
                None => report_type_result(infer_aggregate(*function, None), location, issues),
            }
        },
        _ => {
            proof {
                assert(false);
            }
            None
        },
    }
}

/// Infers the type of an expression, recording each type error at its location.
pub fn infer_expression(
    d: &GraphDefinition,
    t: &GraphTopology,
    e: &Expression,
    location: &str,
    issues: &mut Vec<DefinitionIssue>,
) -> (r: Option<InferredType>)
    requires
        t.wf(*d),
    ensures
        r == infer(*d, *t, *e, location@).0,
        issues_view(final(issues)@) == issues_view(old(issues)@) + infer(*d, *t, *e, location@).1,
    decreases *e, 2nat,
{
    let ghost start = issues_view(issues@);
    match e {
        Expression::Field { source, field } => {
            assert(issues_view(issues@) =~= start + seq![]);
            field_type(d, t, source.as_str(), field.as_str())
        },
        Expression::Parameter { name } => {
            assert(issues_view(issues@) =~= start + seq![]);
            parameter_type(d, name.as_str(), ParameterShape::Scalar)
        },
        Expression::Literal { value } => {
            assert(issues_view(issues@) =~= start + seq![]);
            Some(InferredType::literal(value))
        },
        Expression::Eq { .. } | Expression::NotEq { .. } | Expression::LessThan { .. }
        | Expression::LessThanOrEqual { .. } | Expression::GreaterThan { .. }
        | Expression::GreaterThanOrEqual { .. } | Expression::Like { .. } => infer_comparison(
            d,
            t,
            e,
            location,
            issues,
        ),
        Expression::In { .. } | Expression::InParameter { .. } | Expression::And { .. }
        | Expression::Or { .. } | Expression::Function { .. } => infer_group(d, t, e, location, issues),
        _ => infer_unary(d, t, e, location, issues),
    }
}


/// The issue of an ordering expression whose type has no order.
pub open spec fn orderable_issues(ty: Option<InferredType>, loc: Seq<char>) -> Seq<SpecIssue> {
    match ty {
        Some(t) => match spec_require_orderable(t) {
            Ok(_) => seq![],
            Err(e) => one(DefinitionIssueCode::InvalidOrderExpression, loc, e.1),
        },
        None => seq![],
    }
}

pub open spec fn relation_on_type_section(d: GraphDefinition, t: GraphTopology, n: int) -> Seq<SpecIssue>
    decreases n,
{
    if n <= 0 {
        seq![]
    } else {
        let loc = at("relations"@, n - 1) + ".on"@;
        let x = infer(d, t, d.relations@[n - 1].on, loc);
        relation_on_type_section(d, t, n - 1) + x.1 + predicate_issues(x.0, loc)
    }
}

pub open spec fn selection_type_section(d: GraphDefinition, t: GraphTopology, i: int, n: int) -> Seq<SpecIssue>
    decreases n,
{
    if n <= 0 {
        seq![]
    } else {
        let loc = at(at("relations"@, i) + ".selection.orderBy"@, n - 1) + ".expression"@;
        let x = infer(d, t, selection_orders(d, i)[n - 1].expression, loc);
        selection_type_section(d, t, i, n - 1) + x.1 + orderable_issues(x.0, loc)
    }
}

pub open spec fn relation_selection_type_section(d: GraphDefinition, t: GraphTopology, n: int) -> Seq<SpecIssue>
    decreases n,
{
    if n <= 0 {
        seq![]
    } else {
        relation_selection_type_section(d, t, n - 1) + selection_type_section(
            d,
            t,
            n - 1,
            selection_orders(d, n - 1).len() as int,
        )
    }
}

pub open spec fn constraint_type_section(d: GraphDefinition, t: GraphTopology, n: int) -> Seq<SpecIssue>
    decreases n,
{
    if n <= 0 {
        seq![]
    } else {
        let loc = at("constraints"@, n - 1) + ".predicate"@;
        let x = infer(d, t, d.constraints@[n - 1].predicate, loc);
        constraint_type_section(d, t, n - 1) + x.1 + predicate_issues(x.0, loc)
    }
}

/// The resolved type of projection field `i`, and the issues of its expression.
pub open spec fn field_type_check(d: GraphDefinition, t: GraphTopology, i: int) -> (Option<ExpressionType>, Seq<SpecIssue>) {
    let f = d.projection.fields@[i];
    let loc = at("projection.fields"@, i) + ".expression"@;
    let x = infer(d, t, f.expression, loc);
    let dimension = match x.0 {
        Some(ty) => if f.role == ProjectionFieldRole::Dimension {
            match spec_require_groupable(ty) {
                Ok(_) => seq![],
                Err(e) => one(DefinitionIssueCode::InvalidDimensionExpression, loc, e.1),
            }
        } else {
            seq![]
        },
        None => seq![],
    };
    let resolved = match x.0 {
        Some(ty) => report(spec_resolve_expression_type(ty), loc),
        None => (None, seq![]),
    };
    (resolved.0, x.1 + dimension + resolved.1)
}

pub open spec fn field_type_section(d: GraphDefinition, t: GraphTopology, n: int) -> Seq<SpecIssue>
    decreases n,
{
    if n <= 0 {
        seq![]
    } else {
        field_type_section(d, t, n - 1) + field_type_check(d, t, n - 1).1
    }
}

/// The resolved types of the projection fields, in order.
pub open spec fn projection_types(d: GraphDefinition, t: GraphTopology) -> Seq<Option<ExpressionType>> {
    Seq::new(d.projection.fields@.len(), |i: int| field_type_check(d, t, i).0)
}

pub open spec fn object_type_section(d: GraphDefinition, t: GraphTopology, n: int) -> Seq<SpecIssue>
    decreases n,
{
    if n <= 0 {
        seq![]
    } else {
        let loc = at("projection.objects"@, n - 1) + ".presence"@;
        let x = infer(d, t, d.projection.objects@[n - 1].presence, loc);
        object_type_section(d, t, n - 1) + x.1 + match x.0 {
            Some(ty) => report(spec_resolve_expression_type(ty), loc).1,
            None => seq![],
        }
    }
}

pub open spec fn order_type_section(d: GraphDefinition, t: GraphTopology, o: int, n: int) -> Seq<SpecIssue>
    decreases n,
{
    if n <= 0 {
        seq![]
    } else {
        let loc = order_location(o, n - 1);
        let x = infer(d, t, d.orderings@[o].order_by@[n - 1].expression, loc);
        order_type_section(d, t, o, n - 1) + x.1 + orderable_issues(x.0, loc)
    }
}

pub open spec fn ordering_type_section(d: GraphDefinition, t: GraphTopology, n: int) -> Seq<SpecIssue>
    decreases n,
{
    if n <= 0 {
        seq![]
    } else {
        ordering_type_section(d, t, n - 1) + order_type_section(
            d,
            t,
            n - 1,
            d.orderings@[n - 1].order_by@.len() as int,
        )
    }
}

/// The type issues of a definition, in the order they are reported.
pub open spec fn type_issues(d: GraphDefinition, t: GraphTopology) -> Seq<SpecIssue> {
    relation_on_type_section(d, t, d.relations@.len() as int) + relation_selection_type_section(
        d,
        t,
        d.relations@.len() as int,
    ) + constraint_type_section(d, t, d.constraints@.len() as int) + field_type_section(
        d,
        t,
        d.projection.fields@.len() as int,
    ) + object_type_section(d, t, d.projection.objects@.len() as int) + ordering_type_section(
        d,
        t,
        d.orderings@.len() as int,
    )
}

fn validate_orderable(ty: Option<InferredType>, loc: &str, issues: &mut Vec<DefinitionIssue>)
    ensures
        issues_view(final(issues)@) == issues_view(old(issues)@) + orderable_issues(ty, loc@),
{
    let ghost start = issues_view(issues@);
    if let Some(t) = ty {
        if let Err(error) = require_orderable(t) {
            push_issue(issues, DefinitionIssueCode::InvalidOrderExpression, text(loc), error.message);
        }
    }
    assert(issues_view(issues@) =~= start + orderable_issues(ty, loc@));
}

fn check_selection_types(d: &GraphDefinition, t: &GraphTopology, i: usize, issues: &mut Vec<DefinitionIssue>)
    requires
        t.wf(*d),
        i < d.relations@.len(),
    ensures
        issues_view(final(issues)@) == issues_view(old(issues)@) + selection_type_section(
            *d,
            *t,
            i as int,
            selection_orders(*d, i as int).len() as int,
        ),
{
    let ghost before = issues_view(issues@);
    if let Some(selection) = &d.relations[i].selection {
        let orders = selection.order_by();
        assert(orders@ == selection_orders(*d, i as int));
        let prefix = indexed("relations", i);
        let prefix = concat(prefix.as_str(), ".selection.orderBy");
        let mut k: usize = 0;
        while k < orders.len()
            invariant
                t.wf(*d),
                i < d.relations@.len(),
                orders@ == selection_orders(*d, i as int),
                prefix@ == at("relations"@, i as int) + ".selection.orderBy"@,
                k <= orders@.len(),
                issues_view(issues@) == before + selection_type_section(*d, *t, i as int, k as int),
            decreases orders.len() - k,
        {
            let loc = indexed(prefix.as_str(), k);
            let loc = concat(loc.as_str(), ".expression");
            let ty = infer_expression(d, t, &orders[k].expression, loc.as_str(), issues);
            validate_orderable(ty, loc.as_str(), issues);
            assert(issues_view(issues@) =~= before + selection_type_section(*d, *t, i as int, (k + 1) as int));
            k = k + 1;
        }
    }
    assert(issues_view(issues@) =~= before + selection_type_section(*d, *t, i as int, selection_orders(*d, i as int).len() as int));
}

fn check_relation_types(d: &GraphDefinition, t: &GraphTopology, issues: &mut Vec<DefinitionIssue>)
    requires
        t.wf(*d),
    ensures
        issues_view(final(issues)@) == issues_view(old(issues)@) + relation_on_type_section(
            *d,
            *t,
            d.relations@.len() as int,
        ) + relation_selection_type_section(*d, *t, d.relations@.len() as int),
{
    let ghost start = issues_view(issues@);
    let mut i: usize = 0;
    while i < d.relations.len()
        invariant
            t.wf(*d),
            i <= d.relations@.len(),
            issues_view(issues@) == start + relation_on_type_section(*d, *t, i as int),
        decreases d.relations.len() - i,
    {
        let loc = indexed("relations", i);
        let loc = concat(loc.as_str(), ".on");
        let ty = infer_expression(d, t, &d.relations[i].on, loc.as_str(), issues);
        validate_predicate(ty, loc.as_str(), issues);
        assert(issues_view(issues@) =~= start + relation_on_type_section(*d, *t, (i + 1) as int));
        i = i + 1;
    }
    let ghost mid = issues_view(issues@);
    let mut i: usize = 0;
    while i < d.relations.len()
        invariant
            t.wf(*d),
            i <= d.relations@.len(),
            issues_view(issues@) == mid + relation_selection_type_section(*d, *t, i as int),
        decreases d.relations.len() - i,
    {
        check_selection_types(d, t, i, issues);
        assert(issues_view(issues@) =~= mid + relation_selection_type_section(*d, *t, (i + 1) as int));
        i = i + 1;
    }
    assert(issues_view(issues@) =~= start + relation_on_type_section(*d, *t, d.relations@.len() as int)
        + relation_selection_type_section(*d, *t, d.relations@.len() as int));
}

fn check_constraint_types(d: &GraphDefinition, t: &GraphTopology, issues: &mut Vec<DefinitionIssue>)
    requires
        t.wf(*d),
    ensures
        issues_view(final(issues)@) == issues_view(old(issues)@) + constraint_type_section(
            *d,
            *t,
            d.constraints@.len() as int,
        ),
{
    let ghost start = issues_view(issues@);
    let mut i: usize = 0;
    while i < d.constraints.len()
        invariant
            t.wf(*d),
            i <= d.constraints@.len(),
            issues_view(issues@) == start + constraint_type_section(*d, *t, i as int),
        decreases d.constraints.len() - i,
    {
        let loc = indexed("constraints", i);
        let loc = concat(loc.as_str(), ".predicate");
        let ty = infer_expression(d, t, &d.constraints[i].predicate, loc.as_str(), issues);
        validate_predicate(ty, loc.as_str(), issues);
        assert(issues_view(issues@) =~= start + constraint_type_section(*d, *t, (i + 1) as int));
        i = i + 1;
    }
}

fn check_field_type(d: &GraphDefinition, t: &GraphTopology, i: usize, issues: &mut Vec<DefinitionIssue>) -> (r: Option<ExpressionType>)
    requires
        t.wf(*d),
        i < d.projection.fields@.len(),
    ensures
        r == field_type_check(*d, *t, i as int).0,
        issues_view(final(issues)@) == issues_view(old(issues)@) + field_type_check(*d, *t, i as int).1,
{
    let ghost start = issues_view(issues@);
    let field = &d.projection.fields[i];
    let loc = indexed("projection.fields", i);
    let loc = concat(loc.as_str(), ".expression");
    let ty = infer_expression(d, t, &field.expression, loc.as_str(), issues);
    let ghost after_infer = issues_view(issues@);
    if field.role == ProjectionFieldRole::Dimension {
        if let Some(x) = ty {
            if let Err(error) = require_groupable(x) {
                push_issue(issues, DefinitionIssueCode::InvalidDimensionExpression, text(loc.as_str()), error.message);
            }
        }
    }
    let r = match ty {
        Some(x) => report_resolved(resolve_expression_type(x), loc.as_str(), issues),
        None => None,
    };
    assert(issues_view(issues@) =~= start + field_type_check(*d, *t, i as int).1);
    r
}

fn check_object_types(d: &GraphDefinition, t: &GraphTopology, issues: &mut Vec<DefinitionIssue>)
    requires
        t.wf(*d),
    ensures
        issues_view(final(issues)@) == issues_view(old(issues)@) + object_type_section(
            *d,
            *t,
            d.projection.objects@.len() as int,
        ),
{
    let ghost start = issues_view(issues@);
    let objects = &d.projection.objects;
    let mut i: usize = 0;
    while i < objects.len()
        invariant
            t.wf(*d),
            *objects == d.projection.objects,
            i <= objects@.len(),
            issues_view(issues@) == start + object_type_section(*d, *t, i as int),
        decreases objects.len() - i,
    {
        let ghost before = issues_view(issues@);
        let loc = indexed("projection.objects", i);
        let loc = concat(loc.as_str(), ".presence");
        let ty = infer_expression(d, t, &objects[i].presence, loc.as_str(), issues);
        let ghost after_infer = issues_view(issues@);
        if let Some(x) = ty {
            let _ = report_resolved(resolve_expression_type(x), loc.as_str(), issues);
        }
        assert(issues_view(issues@) =~= start + object_type_section(*d, *t, (i + 1) as int));
        i = i + 1;
    }
}

fn check_ordering_types(d: &GraphDefinition, t: &GraphTopology, issues: &mut Vec<DefinitionIssue>)
    requires
        t.wf(*d),
    ensures
        issues_view(final(issues)@) == issues_view(old(issues)@) + ordering_type_section(
            *d,
            *t,
            d.orderings@.len() as int,
        ),
{
    let ghost start = issues_view(issues@);
    let mut o: usize = 0;
    while o < d.orderings.len()
        invariant
            t.wf(*d),
            o <= d.orderings@.len(),
            issues_view(issues@) == start + ordering_type_section(*d, *t, o as int),
        decreases d.orderings.len() - o,
    {
        let ghost before = issues_view(issues@);
        let orders = &d.orderings[o].order_by;
        let prefix = indexed("orderings", o);
        let prefix = concat(prefix.as_str(), ".orderBy");
        let mut k: usize = 0;
        while k < orders.len()
            invariant
                t.wf(*d),
                *orders == d.orderings@[o as int].order_by,
                o < d.orderings@.len(),
                prefix@ == at("orderings"@, o as int) + ".orderBy"@,
                k <= orders@.len(),
                issues_view(issues@) == before + order_type_section(*d, *t, o as int, k as int),
            decreases orders.len() - k,
        {
            let loc = indexed(prefix.as_str(), k);
            let loc = concat(loc.as_str(), ".expression");
            let ty = infer_expression(d, t, &orders[k].expression, loc.as_str(), issues);
            validate_orderable(ty, loc.as_str(), issues);
            assert(issues_view(issues@) =~= before + order_type_section(*d, *t, o as int, (k + 1) as int));
            k = k + 1;
        }
        assert(issues_view(issues@) =~= start + ordering_type_section(*d, *t, (o + 1) as int));
        o = o + 1;
    }
}

/// Type-checks every expression of a definition; returns the resolved type of each
/// projection field (`None` where its expression has a type issue).
pub fn check_types(d: &GraphDefinition, t: &GraphTopology, issues: &mut Vec<DefinitionIssue>) -> (types: Vec<Option<ExpressionType>>)
    requires
        t.wf(*d),
    ensures
        types@ == projection_types(*d, *t),
        issues_view(final(issues)@) == issues_view(old(issues)@) + type_issues(*d, *t),
{
    let ghost start = issues_view(issues@);
    check_relation_types(d, t, issues);
    check_constraint_types(d, t, issues);
    let ghost before_fields = issues_view(issues@);
    let mut types: Vec<Option<ExpressionType>> = Vec::new();
    let mut i: usize = 0;
    while i < d.projection.fields.len()
        invariant
            t.wf(*d),
            i <= d.projection.fields@.len(),
            types@.len() == i,
            forall|j: int| 0 <= j < i ==> types@[j] == #[trigger] field_type_check(*d, *t, j).0,
            issues_view(issues@) == before_fields + field_type_section(*d, *t, i as int),
        decreases d.projection.fields.len() - i,
    {
        let ty = check_field_type(d, t, i, issues);
        types.push(ty);
        assert(issues_view(issues@) =~= before_fields + field_type_section(*d, *t, (i + 1) as int));
        i = i + 1;
    }
    assert(types@ =~= projection_types(*d, *t));
    check_object_types(d, t, issues);
    check_ordering_types(d, t, issues);
    assert(issues_view(issues@) =~= start + type_issues(*d, *t));
    types
}


} // verus!
