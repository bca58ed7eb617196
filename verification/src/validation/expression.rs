//! Validation of the references and scope of one expression.
use vstd::prelude::*;

use crate::analysis::index::{field_index, parameter_index, source_index, spec_field, spec_parameter, spec_source, lemma_first_key_range, lemma_last_key_range, source_keys, parameter_names};
use crate::analysis::topology::GraphTopology;
use crate::definition::{parameter_shape_name, GraphDefinition, ParameterShape};
use crate::expression::{Expression, LiteralValue};
use crate::scalar::{is_decimal_text, spec_is_decimal_text};
use crate::text::{concat, debug_quote, debug_text, indexed, str_eq, text};
use crate::validation::{at, issues_view, push_issue, DefinitionIssue, DefinitionIssueCode, SpecIssue};

verus! {

#[derive(Debug, Clone, Copy, PartialEq, Eq, Structural)]
pub enum ExistsPolicy {
    Deny,
    AllowImplicitCorrelation,
    RequireExplicitCorrelation,
}

pub enum AllowedSources {
    Explicit(Vec<String>),
    PathTo(usize),
}

pub struct ExpressionScope {
    pub allowed: AllowedSources,
    pub issue_code: DefinitionIssueCode,
}

/// Where an expression stands: which sources it may read and whether it may hold `exists`.
pub struct ExpressionContext {
    pub scope: Option<ExpressionScope>,
    pub exists_policy: ExistsPolicy,
}

/// The allowed sources of a scope as the rules describe them.
pub enum SpecAllowed {
    Explicit(Seq<Seq<char>>),
    PathTo(int),
}

/// An expression context as the rules describe it.
pub struct SpecContext {
    pub scope: Option<(SpecAllowed, DefinitionIssueCode)>,
    pub exists_policy: ExistsPolicy,
}

pub open spec fn names_view(names: Seq<String>) -> Seq<Seq<char>> {
    Seq::new(names.len(), |i: int| names[i]@)
}

impl View for ExpressionContext {
    type V = SpecContext;

    open spec fn view(&self) -> SpecContext {
        SpecContext {
            scope: match self.scope {
                Some(scope) => Some(
                    (
                        match scope.allowed {
                            AllowedSources::Explicit(names) => SpecAllowed::Explicit(
                                names_view(names@),
                            ),
                            AllowedSources::PathTo(target) => SpecAllowed::PathTo(target as int),
                        },
                        scope.issue_code,
                    ),
                ),
                None => None,
            },
            exists_policy: self.exists_policy,
        }
    }
}

impl ExpressionContext {
    /// Any source, no `exists`: projections and orderings.
    pub fn unrestricted() -> (r: Self)
        ensures
            r.scope is None,
            r.exists_policy == ExistsPolicy::Deny,
    {
        ExpressionContext { scope: None, exists_policy: ExistsPolicy::Deny }
    }

    /// Any source; `exists` may correlate with the root implicitly: graph constraints.
    pub fn constraint() -> (r: Self)
        ensures
            r.scope is None,
            r.exists_policy == ExistsPolicy::AllowImplicitCorrelation,
    {
        ExpressionContext { scope: None, exists_policy: ExistsPolicy::AllowImplicitCorrelation }
    }

    /// Only the named sources, no `exists`.
    pub fn scoped(allowed: Vec<String>, issue_code: DefinitionIssueCode) -> (r: Self)
        ensures
            r.scope matches Some(s) && s.allowed == AllowedSources::Explicit(allowed)
                && s.issue_code == issue_code,
            r.exists_policy == ExistsPolicy::Deny,
    {
        ExpressionContext {
            scope: Some(ExpressionScope { allowed: AllowedSources::Explicit(allowed), issue_code }),
            exists_policy: ExistsPolicy::Deny,
        }
    }

    /// The two ends of a relation; `exists` must name its correlation source.
    pub fn relation_predicate(allowed: Vec<String>) -> (r: Self)
        ensures
            r.scope matches Some(s) && s.allowed == AllowedSources::Explicit(allowed)
                && s.issue_code == DefinitionIssueCode::RelationExpressionScope,
            r.exists_policy == ExistsPolicy::RequireExplicitCorrelation,
    {
        ExpressionContext {
            scope: Some(
                ExpressionScope {
                    allowed: AllowedSources::Explicit(allowed),
                    issue_code: DefinitionIssueCode::RelationExpressionScope,
                },
            ),
            exists_policy: ExistsPolicy::RequireExplicitCorrelation,
        }
    }

    /// The sources on the relation path to `source`: an `exists` predicate.
    pub fn within_exists(&self, source: usize) -> (r: Self)
        ensures
            r@ == spec_within_exists(self@, source as int),
    {
        ExpressionContext {
            scope: Some(
                ExpressionScope {
                    allowed: AllowedSources::PathTo(source),
                    issue_code: DefinitionIssueCode::ExistsExpressionScope,
                },
            ),
            exists_policy: self.exists_policy,
        }
    }
}

pub open spec fn spec_within_exists(ctx: SpecContext, source: int) -> SpecContext {
    SpecContext {
        scope: Some((SpecAllowed::PathTo(source), DefinitionIssueCode::ExistsExpressionScope)),
        exists_policy: ctx.exists_policy,
    }
}

/// The relations that lead from `from` to `to`, when the path of `to` extends that of `from`.
pub open spec fn path_between(t: GraphTopology, from: int, to: int) -> Option<Seq<usize>> {
    match (t.spec_path(from), t.spec_path(to)) {
        (Some(f), Some(p)) => if f.len() <= p.len() && p.take(f.len() as int) == f {
            Some(p.skip(f.len() as int))
        } else {
            None
        },
        _ => None,
    }
}

pub open spec fn names_contain(names: Seq<String>, source: Seq<char>) -> bool {
    exists|i: int| 0 <= i < names.len() && (#[trigger] names[i])@ == source
}

pub open spec fn spec_source_is_allowed(d: GraphDefinition, t: GraphTopology, ctx: SpecContext, source: Seq<char>) -> bool {
    match ctx.scope {
        None => true,
        Some(scope) => match scope.0 {
            SpecAllowed::Explicit(names) => names.contains(source),
            SpecAllowed::PathTo(target) => match spec_source(d, source) {
                Some(c) => path_between(t, c, target) is Some,
                None => false,
            },
        },
    }
}

pub open spec fn one(code: DefinitionIssueCode, location: Seq<char>, message: Seq<char>) -> Seq<SpecIssue> {
    seq![(code, location, message)]
}

pub open spec fn field_issues(d: GraphDefinition, t: GraphTopology, ctx: SpecContext, source: Seq<char>, field: Seq<char>, loc: Seq<char>) -> Seq<SpecIssue> {
    match spec_source(d, source) {
        None => one(
            DefinitionIssueCode::UnknownFieldSource,
            loc,
            "source "@ + debug_text(source) + " is not defined"@,
        ),
        Some(si) => (if spec_field(d, si, field) is None {
            one(
                DefinitionIssueCode::UnknownField,
                loc,
                "field "@ + debug_text(source) + "."@ + debug_text(field) + " is not defined"@,
            )
        } else {
            seq![]
        }) + match ctx.scope {
            Some(scope) => if !spec_source_is_allowed(d, t, ctx, source) {
                one(
                    scope.1,
                    loc,
                    "source "@ + debug_text(source) + " is outside the expression scope"@,
                )
            } else {
                seq![]
            },
            None => seq![],
        },
    }
}

pub open spec fn parameter_issues(d: GraphDefinition, name: Seq<char>, shape: ParameterShape, loc: Seq<char>) -> Seq<SpecIssue> {
    match spec_parameter(d, name) {
        None => one(
            DefinitionIssueCode::UnknownParameter,
            loc,
            "parameter "@ + debug_text(name) + " is not defined"@,
        ),
        Some(pi) => if d.parameters@[pi].shape != shape {
            one(
                DefinitionIssueCode::InvalidParameterShape,
                loc,
                "parameter "@ + debug_text(name) + " has shape "@ + parameter_shape_name(
                    d.parameters@[pi].shape,
                ) + ", expected "@ + parameter_shape_name(shape),
            )
        } else {
            seq![]
        },
    }
}

pub open spec fn non_empty_issues(n: nat, loc: Seq<char>, message: Seq<char>) -> Seq<SpecIssue> {
    if n == 0 {
        one(DefinitionIssueCode::EmptyExpressionGroup, loc, message)
    } else {
        seq![]
    }
}

pub open spec fn policy_issues(ctx: SpecContext, has_from: bool, loc: Seq<char>) -> Seq<SpecIssue> {
    match ctx.exists_policy {
        ExistsPolicy::Deny => one(
            DefinitionIssueCode::InvalidExistsContext,
            loc,
            "exists expressions are not allowed in this expression context"@,
        ),
        ExistsPolicy::RequireExplicitCorrelation => if !has_from {
            one(
                DefinitionIssueCode::InvalidExistsSource,
                loc + ".from"@,
                "exists in a relation predicate must declare an explicit correlation source"@,
            )
        } else {
            seq![]
        },
        ExistsPolicy::AllowImplicitCorrelation => seq![],
    }
}

pub open spec fn correlation_issues(d: GraphDefinition, t: GraphTopology, ctx: SpecContext, source: Seq<char>, si: int, from: Option<String>, loc: Seq<char>) -> Seq<SpecIssue> {
    match from {
        None => seq![],
        Some(f) => match spec_source(d, f@) {
            None => one(
                DefinitionIssueCode::UnknownExistsSource,
                loc + ".from"@,
                "exists correlation source "@ + debug_text(f@) + " is not defined"@,
            ),
            Some(fi) => if f@ == source || path_between(t, fi, si) is None {
                one(
                    DefinitionIssueCode::InvalidExistsSource,
                    loc + ".from"@,
                    "exists source "@ + debug_text(source)
                        + " is not a descendant of correlation source "@ + debug_text(f@),
                )
            } else {
                match ctx.scope {
                    Some(scope) => if !spec_source_is_allowed(d, t, ctx, f@) {
                        one(
                            scope.1,
                            loc + ".from"@,
                            "exists correlation source "@ + debug_text(f@)
                                + " is outside the current expression scope"@,
                        )
                    } else {
                        seq![]
                    },
                    None => seq![],
                }
            },
        },
    }
}

/// The issues of one expression, in the order validation reports them.
pub open spec fn expr_issues(d: GraphDefinition, t: GraphTopology, e: Expression, loc: Seq<char>, ctx: SpecContext) -> Seq<SpecIssue>
    decreases e, 0nat,
{
    match e {
        Expression::Field { source, field } => field_issues(d, t, ctx, source@, field@, loc),
        Expression::Parameter { name } => parameter_issues(
            d,
            name@,
            ParameterShape::Scalar,
            loc,
        ),
        Expression::Literal { value } => match value {
            LiteralValue::Decimal(v) => if !spec_is_decimal_text(v@) {
                one(
                    DefinitionIssueCode::InvalidLiteral,
                    loc + ".value"@,
                    "decimal literal "@ + debug_text(v@) + " is invalid"@,
                )
            } else {
                seq![]
            },
            _ => seq![],
        },
        Expression::Eq { left, right } => expr_issues(d, t, *left, loc + ".left"@, ctx)
            + expr_issues(d, t, *right, loc + ".right"@, ctx),
        Expression::NotEq { left, right } => expr_issues(d, t, *left, loc + ".left"@, ctx)
            + expr_issues(d, t, *right, loc + ".right"@, ctx),
        Expression::LessThan { left, right } => expr_issues(d, t, *left, loc + ".left"@, ctx)
            + expr_issues(d, t, *right, loc + ".right"@, ctx),
        Expression::LessThanOrEqual { left, right } => expr_issues(
            d,
            t,
            *left,
            loc + ".left"@,
            ctx,
        ) + expr_issues(d, t, *right, loc + ".right"@, ctx),
        Expression::GreaterThan { left, right } => expr_issues(d, t, *left, loc + ".left"@, ctx)
            + expr_issues(d, t, *right, loc + ".right"@, ctx),
        Expression::GreaterThanOrEqual { left, right } => expr_issues(
            d,
            t,
            *left,
            loc + ".left"@,
            ctx,
        ) + expr_issues(d, t, *right, loc + ".right"@, ctx),
        Expression::Like { expression, pattern } => expr_issues(
            d,
            t,
            *expression,
            loc + ".expression"@,
            ctx,
        ) + expr_issues(d, t, *pattern, loc + ".pattern"@, ctx),
        Expression::In { expression, values } => expr_issues(
            d,
            t,
            *expression,
            loc + ".expression"@,
            ctx,
        ) + non_empty_issues(
            values@.len(),
            loc + ".values"@,
            "in expression must contain at least one value"@,
        ) + list_issues(d, t, values@, loc + ".values"@, ctx, values@.len()),
        Expression::InParameter { expression, parameter } => expr_issues(
            d,
            t,
            *expression,
            loc + ".expression"@,
            ctx,
        ) + parameter_issues(d, parameter@, ParameterShape::List, loc + ".parameter"@),
        Expression::And { expressions } => non_empty_issues(
            expressions@.len(),
            loc + ".expressions"@,
            "logical expression must contain at least one item"@,
        ) + list_issues(d, t, expressions@, loc + ".expressions"@, ctx, expressions@.len()),
        Expression::Or { expressions } => non_empty_issues(
            expressions@.len(),
            loc + ".expressions"@,
            "logical expression must contain at least one item"@,
        ) + list_issues(d, t, expressions@, loc + ".expressions"@, ctx, expressions@.len()),
        Expression::Not { expression } => expr_issues(d, t, *expression, loc + ".expression"@, ctx),
        Expression::IsNull { expression } => expr_issues(
            d,
            t,
            *expression,
            loc + ".expression"@,
            ctx,
        ),
        Expression::IsNotNull { expression } => expr_issues(
            d,
            t,
            *expression,
            loc + ".expression"@,
            ctx,
        ),
        Expression::Function { arguments, .. } => list_issues(
            d,
            t,
            arguments@,
            loc + ".arguments"@,
            ctx,
            arguments@.len(),
        ),
        Expression::Aggregate { expression, .. } => match expression {
            Some(x) => expr_issues(d, t, *x, loc + ".expression"@, ctx),
            None => seq![],
        },
        Expression::Exists { source, from, predicate } => {
            let policy = policy_issues(ctx, from is Some, loc);
            let predicate_in = |c: SpecContext|
                match predicate {
                    Some(p) => expr_issues(d, t, *p, loc + ".predicate"@, c),
                    None => seq![],
                };
            match spec_source(d, source@) {
                None => policy + one(
                    DefinitionIssueCode::UnknownExistsSource,
                    loc + ".source"@,
                    "exists source "@ + debug_text(source@) + " is not defined"@,
                ) + predicate_in(ctx),
                Some(si) => match t.spec_path(si) {
                    None => policy + one(
                        DefinitionIssueCode::InvalidExistsSource,
                        loc + ".source"@,
                        "exists source "@ + debug_text(source@)
                            + " is not reachable from the graph root"@,
                    ) + predicate_in(ctx),
                    Some(sp) => policy + correlation_issues(d, t, ctx, source@, si, from, loc) + (
                    if sp.len() == 0 {
                        one(
                            DefinitionIssueCode::InvalidExistsSource,
                            loc + ".source"@,
                            "exists source must be a descendant of the graph root"@,
                        )
                    } else {
                        seq![]
                    }) + predicate_in(spec_within_exists(ctx, si)),
                },
            }
        },
    }
}

/// The issues of the first `n` expressions of a list, each located at its index.
pub open spec fn list_issues(d: GraphDefinition, t: GraphTopology, es: Seq<Expression>, loc: Seq<char>, ctx: SpecContext, n: nat) -> Seq<SpecIssue>
    decreases es, n,
{
    if n == 0 || n > es.len() {
        seq![]
    } else {
        list_issues(d, t, es, loc, ctx, (n - 1) as nat) + expr_issues(
            d,
            t,
            es[n - 1],
            at(loc, n - 1),
            ctx,
        )
    }
}

} // verus!

verus! {

/// Every `PathTo` scope names a defined source.
pub open spec fn context_ok(d: GraphDefinition, ctx: SpecContext) -> bool {
    ctx.scope matches Some(scope) ==> (scope.0 matches SpecAllowed::PathTo(target)
        ==> 0 <= target < d.sources@.len())
}

fn names_include(names: &Vec<String>, source: &str) -> (r: bool)
    ensures
        r == names_view(names@).contains(source@),
{
    let mut i: usize = 0;
    while i < names.len()
        invariant
            i <= names@.len(),
            forall|j: int| 0 <= j < i ==> (#[trigger] names@[j])@ != source@,
        decreases names.len() - i,
    {
        if str_eq(names[i].as_str(), source) {
            assert(names_view(names@)[i as int] == source@);
            return true;
        }
        i = i + 1;
    }
    assert forall|j: int| 0 <= j < names_view(names@).len() implies names_view(names@)[j] != source@ by {
        assert(names_view(names@)[j] == names@[j]@);
    }
    false
}

pub fn source_is_allowed(d: &GraphDefinition, t: &GraphTopology, ctx: &ExpressionContext, source: &str) -> (r: bool)
    requires
        t.wf(*d),
        context_ok(*d, ctx@),
    ensures
        r == spec_source_is_allowed(*d, *t, ctx@, source@),
{
    match &ctx.scope {
        None => true,
        Some(scope) => match &scope.allowed {
            AllowedSources::Explicit(names) => names_include(names, source),
            AllowedSources::PathTo(target) => match source_index(d, source) {
                Some(c) => {
                    proof {
                        lemma_first_key_range(source_keys(*d), source@);
                    }
                    t.relation_path_between(c, *target).is_some()
                },
                None => false,
            },
        },
    }
}

fn validate_field(
    d: &GraphDefinition,
    t: &GraphTopology,
    source: &str,
    field: &str,
    location: &str,
    ctx: &ExpressionContext,
    issues: &mut Vec<DefinitionIssue>,
)
    requires
        t.wf(*d),
        context_ok(*d, ctx@),
    ensures
        issues_view(final(issues)@) == issues_view(old(issues)@) + field_issues(
            *d,
            *t,
            ctx@,
            source@,
            field@,
            location@,
        ),
{
    let ghost start = issues_view(issues@);
    let si = match source_index(d, source) {
        Some(si) => si,
        None => {
            let m = concat3q("source ", source, " is not defined");
            push_issue(issues, DefinitionIssueCode::UnknownFieldSource, text(location), m);
            assert(issues_view(issues@) =~= start + field_issues(*d, *t, ctx@, source@, field@, location@));
            return;
        },
    };
    proof {
        lemma_first_key_range(source_keys(*d), source@);
    }
    let ghost part1 = if spec_field(*d, si as int, field@) is None {
        one(
            DefinitionIssueCode::UnknownField,
            location@,
            "field "@ + debug_text(source@) + "."@ + debug_text(field@) + " is not defined"@,
        )
    } else {
        seq![]
    };
    if field_index(d, si, field).is_none() {
        let mut m = text("field ");
        m.append(debug_quote(source).as_str());
        m.append(".");
        m.append(debug_quote(field).as_str());
        m.append(" is not defined");
        push_issue(issues, DefinitionIssueCode::UnknownField, text(location), m);
    }
    assert(issues_view(issues@) =~= start + part1);
    match &ctx.scope {
        Some(scope) => {
            if !source_is_allowed(d, t, ctx, source) {
                let m = concat3q("source ", source, " is outside the expression scope");
                push_issue(issues, scope.issue_code, text(location), m);
            }
        },
        None => {},
    }
    assert(issues_view(issues@) =~= start + field_issues(*d, *t, ctx@, source@, field@, location@));
}

/// `prefix`, the quoted `value`, then `suffix`.
pub fn concat3q(prefix: &str, value: &str, suffix: &str) -> (r: String)
    ensures
        r@ == prefix@ + debug_text(value@) + suffix@,
{
    let mut m = text(prefix);
    m.append(debug_quote(value).as_str());
    m.append(suffix);
    m
}

fn validate_parameter(
    d: &GraphDefinition,
    name: &str,
    shape: ParameterShape,
    location: &str,
    issues: &mut Vec<DefinitionIssue>,
)
    ensures
        issues_view(final(issues)@) == issues_view(old(issues)@) + parameter_issues(
            *d,
            name@,
            shape,
            location@,
        ),
{
    let ghost start = issues_view(issues@);
    match parameter_index(d, name) {
        None => {
            let m = concat3q("parameter ", name, " is not defined");
            push_issue(issues, DefinitionIssueCode::UnknownParameter, text(location), m);
        },
        Some(pi) => {
            proof {
                lemma_last_key_range(parameter_names(*d), name@);
            }
            let actual = d.parameters[pi].shape;
            if actual != shape {
                let mut m = concat3q("parameter ", name, " has shape ");
                m.append(actual.as_str());
                m.append(", expected ");
                m.append(shape.as_str());
                push_issue(issues, DefinitionIssueCode::InvalidParameterShape, text(location), m);
            }
        },
    }
    assert(issues_view(issues@) =~= start + parameter_issues(*d, name@, shape, location@));
}

fn validate_list(
    d: &GraphDefinition,
    t: &GraphTopology,
    parent: &Expression,
    es: &Vec<Expression>,
    location: &str,
    ctx: &ExpressionContext,
    issues: &mut Vec<DefinitionIssue>,
)
    requires
        t.wf(*d),
        context_ok(*d, ctx@),
        forall|i: int| 0 <= i < es@.len() ==> decreases_to!(*parent => #[trigger] es@[i]),
    ensures
        issues_view(final(issues)@) == issues_view(old(issues)@) + list_issues(
            *d,
            *t,
            es@,
            location@,
            ctx@,
            es@.len(),
        ),
    decreases *parent, 0nat,
{
    let ghost start = issues_view(issues@);
    let mut i: usize = 0;
    while i < es.len()
        invariant
            t.wf(*d),
            context_ok(*d, ctx@),
            forall|j: int| 0 <= j < es@.len() ==> decreases_to!(*parent => #[trigger] es@[j]),
            i <= es@.len(),
            issues_view(issues@) == start + list_issues(*d, *t, es@, location@, ctx@, i as nat),
        decreases es.len() - i,
    {
        let loc = indexed(location, i);
        assert(decreases_to!(*parent => es@[i as int]));
        validate_expression(d, t, &es[i], loc.as_str(), ctx, issues);
        assert(loc@ == at(location@, i as int));
        assert(issues_view(issues@) =~= start + list_issues(*d, *t, es@, location@, ctx@, (i + 1) as nat));
        i = i + 1;
    }
}

fn validate_child(
    d: &GraphDefinition,
    t: &GraphTopology,
    parent: &Expression,
    child: &Expression,
    location: &str,
    role: &str,
    ctx: &ExpressionContext,
    issues: &mut Vec<DefinitionIssue>,
)
    requires
        t.wf(*d),
        context_ok(*d, ctx@),
        decreases_to!(*parent => *child),
    ensures
        issues_view(final(issues)@) == issues_view(old(issues)@) + expr_issues(
            *d,
            *t,
            *child,
            location@ + role@,
            ctx@,
        ),
    decreases *parent, 0nat,
{
    let loc = concat(location, role);
    validate_expression(d, t, child, loc.as_str(), ctx, issues);
}

/// Records the issues of one expression, in order.
pub fn validate_expression(
    d: &GraphDefinition,
    t: &GraphTopology,
    e: &Expression,
    location: &str,
    ctx: &ExpressionContext,
    issues: &mut Vec<DefinitionIssue>,
)
    requires
        t.wf(*d),
        context_ok(*d, ctx@),
    ensures
        issues_view(final(issues)@) == issues_view(old(issues)@) + expr_issues(
            *d,
            *t,
            *e,
            location@,
            ctx@,
        ),
    decreases *e, 1nat,
{
    let ghost start = issues_view(issues@);
    match e {
        Expression::Field { source, field } => {
            validate_field(d, t, source.as_str(), field.as_str(), location, ctx, issues);
        },
        Expression::Parameter { name } => {
            validate_parameter(d, name.as_str(), ParameterShape::Scalar, location, issues);
        },
        Expression::Literal { value } => {
            match value {
                LiteralValue::Decimal(v) => {
                    if !is_decimal_text(v.as_str()) {
                        let m = concat3q("decimal literal ", v.as_str(), " is invalid");
                        push_issue(
                            issues,
                            DefinitionIssueCode::InvalidLiteral,
                            concat(location, ".value"),
                            m,
                        );
                    }
                },
                _ => {},
            }
            assert(issues_view(issues@) =~= start + expr_issues(*d, *t, *e, location@, ctx@));
        },
        Expression::Eq { left, right }
        | Expression::NotEq { left, right }
        | Expression::LessThan { left, right }
        | Expression::LessThanOrEqual { left, right }
        | Expression::GreaterThan { left, right }
        | Expression::GreaterThanOrEqual { left, right } => {
            validate_child(d, t, e, left, location, ".left", ctx, issues);
            validate_child(d, t, e, right, location, ".right", ctx, issues);
            assert(issues_view(issues@) =~= start + expr_issues(*d, *t, *e, location@, ctx@));
        },
        Expression::Like { expression, pattern } => {
            validate_child(d, t, e, expression, location, ".expression", ctx, issues);
            validate_child(d, t, e, pattern, location, ".pattern", ctx, issues);
            assert(issues_view(issues@) =~= start + expr_issues(*d, *t, *e, location@, ctx@));
        },
        Expression::In { expression, values } => {
            validate_child(d, t, e, expression, location, ".expression", ctx, issues);
            let list_location = concat(location, ".values");
            if values.len() == 0 {
                push_issue(
                    issues,
                    DefinitionIssueCode::EmptyExpressionGroup,
                    concat(location, ".values"),
                    text("in expression must contain at least one value"),
                );
            }
            proof {
                assert forall|i: int| 0 <= i < values@.len() implies decreases_to!(*e => #[trigger] values@[i]) by {
                    assert(decreases_to!(*values => values@));
                }
            }
            validate_list(d, t, e, values, list_location.as_str(), ctx, issues);
            assert(issues_view(issues@) =~= start + expr_issues(*d, *t, *e, location@, ctx@));
        },
        Expression::InParameter { expression, parameter } => {
            validate_child(d, t, e, expression, location, ".expression", ctx, issues);
            let loc = concat(location, ".parameter");
            validate_parameter(d, parameter.as_str(), ParameterShape::List, loc.as_str(), issues);
            assert(issues_view(issues@) =~= start + expr_issues(*d, *t, *e, location@, ctx@));
        },
        Expression::And { expressions } | Expression::Or { expressions } => {
            let list_location = concat(location, ".expressions");
            if expressions.len() == 0 {
                push_issue(
                    issues,
                    DefinitionIssueCode::EmptyExpressionGroup,
                    concat(location, ".expressions"),
                    text("logical expression must contain at least one item"),
                );
            }
            proof {
                assert forall|i: int| 0 <= i < expressions@.len() implies decreases_to!(*e => #[trigger] expressions@[i]) by {
                    assert(decreases_to!(*expressions => expressions@));
                }
            }
            validate_list(d, t, e, expressions, list_location.as_str(), ctx, issues);
            assert(issues_view(issues@) =~= start + expr_issues(*d, *t, *e, location@, ctx@));
        },
        Expression::Not { expression }
        | Expression::IsNull { expression }
        | Expression::IsNotNull { expression } => {
            validate_child(d, t, e, expression, location, ".expression", ctx, issues);
        },
        Expression::Function { arguments, .. } => {
            let list_location = concat(location, ".arguments");
            proof {
                assert forall|i: int| 0 <= i < arguments@.len() implies decreases_to!(*e => #[trigger] arguments@[i]) by {
                    assert(decreases_to!(*arguments => arguments@));
                }
            }
            validate_list(d, t, e, arguments, list_location.as_str(), ctx, issues);
        },
        Expression::Aggregate { expression, .. } => {
            match expression {
                Some(x) => {
                    validate_child(d, t, e, x, location, ".expression", ctx, issues);
                },
                None => {},
            }
            assert(issues_view(issues@) =~= start + expr_issues(*d, *t, *e, location@, ctx@));
        },
        Expression::Exists { source, from, predicate } => {
            validate_exists(d, t, e, source.as_str(), from, predicate, location, ctx, issues);
        },
    }
}

#[verifier::rlimit(50)]
fn validate_exists(
    d: &GraphDefinition,
    t: &GraphTopology,
    e: &Expression,
    source: &str,
    from: &Option<String>,
    predicate: &Option<Box<Expression>>,
    location: &str,
    ctx: &ExpressionContext,
    issues: &mut Vec<DefinitionIssue>,
)
    requires
        t.wf(*d),
        context_ok(*d, ctx@),
        e matches Expression::Exists { source: s, from: f, predicate: p } && s@ == source@ && f
            == *from && p == *predicate,
    ensures
        issues_view(final(issues)@) == issues_view(old(issues)@) + expr_issues(
            *d,
            *t,
            *e,
            location@,
            ctx@,
        ),
    decreases *e, 0nat,
{
    let ghost start = issues_view(issues@);
    match ctx.exists_policy {
        ExistsPolicy::Deny => {
            push_issue(
                issues,
                DefinitionIssueCode::InvalidExistsContext,
                text(location),
                text("exists expressions are not allowed in this expression context"),
            );
        },
        ExistsPolicy::RequireExplicitCorrelation => {
            if from.is_none() {
                push_issue(
                    issues,
                    DefinitionIssueCode::InvalidExistsSource,
                    concat(location, ".from"),
                    text("exists in a relation predicate must declare an explicit correlation source"),
                );
            }
        },
        ExistsPolicy::AllowImplicitCorrelation => {},
    }
    let ghost policy = policy_issues(ctx@, from is Some, location@);
    assert(issues_view(issues@) =~= start + policy);
    let predicate_location = concat(location, ".predicate");
    let si = match source_index(d, source) {
        Some(si) => si,
        None => {
            let m = concat3q("exists source ", source, " is not defined");
            push_issue(issues, DefinitionIssueCode::UnknownExistsSource, concat(location, ".source"), m);
            match predicate {
                Some(p) => {
                    validate_expression(d, t, p, predicate_location.as_str(), ctx, issues);
                },
                None => {},
            }
            assert(issues_view(issues@) =~= start + expr_issues(*d, *t, *e, location@, ctx@));
            return;
        },
    };
    proof {
        lemma_first_key_range(source_keys(*d), source@);
    }
    let source_path_len: usize = match t.relation_path(si) {
        Some(sp) => sp.len(),
        None => {
            let m = concat3q("exists source ", source, " is not reachable from the graph root");
            push_issue(issues, DefinitionIssueCode::InvalidExistsSource, concat(location, ".source"), m);
            match predicate {
                Some(p) => {
                    validate_expression(d, t, p, predicate_location.as_str(), ctx, issues);
                },
                None => {},
            }
            assert(issues_view(issues@) =~= start + expr_issues(*d, *t, *e, location@, ctx@));
            return;
        },
    };
    validate_correlation(d, t, ctx, source, si, from, location, issues);
    if source_path_len == 0 {
        push_issue(
            issues,
            DefinitionIssueCode::InvalidExistsSource,
            concat(location, ".source"),
            text("exists source must be a descendant of the graph root"),
        );
    }
    let inner = ctx.within_exists(si);
    match predicate {
        Some(p) => {
            validate_expression(d, t, p, predicate_location.as_str(), &inner, issues);
        },
        None => {},
    }
    assert(issues_view(issues@) =~= start + expr_issues(*d, *t, *e, location@, ctx@));
}

fn validate_correlation(
    d: &GraphDefinition,
    t: &GraphTopology,
    ctx: &ExpressionContext,
    source: &str,
    si: usize,
    from: &Option<String>,
    location: &str,
    issues: &mut Vec<DefinitionIssue>,
)
    requires
        t.wf(*d),
        context_ok(*d, ctx@),
        si < d.sources@.len(),
    ensures
        issues_view(final(issues)@) == issues_view(old(issues)@) + correlation_issues(*d, *t, ctx@, source@, si as int, *from, location@),
{
    let ghost start = issues_view(issues@);
    match from {
        Some(f) => {
            match source_index(d, f.as_str()) {
                Some(fi) => {
                    proof {
                        lemma_first_key_range(source_keys(*d), f@);
                    }
                    if str_eq(f.as_str(), source) || t.relation_path_between(fi, si).is_none() {
                        let mut m = concat3q("exists source ", source, " is not a descendant of correlation source ");
                        m.append(debug_quote(f.as_str()).as_str());
                        push_issue(issues, DefinitionIssueCode::InvalidExistsSource, concat(location, ".from"), m);
                    } else {
                        match &ctx.scope {
                            Some(scope) => {
                                if !source_is_allowed(d, t, ctx, f.as_str()) {
                                    let m = concat3q(
                                        "exists correlation source ",
                                        f.as_str(),
                                        " is outside the current expression scope",
                                    );
                                    push_issue(issues, scope.issue_code, concat(location, ".from"), m);
                                }
                            },
                            None => {},
                        }
                    }
                },
                None => {
                    let m = concat3q("exists correlation source ", f.as_str(), " is not defined");
                    push_issue(issues, DefinitionIssueCode::UnknownExistsSource, concat(location, ".from"), m);
                },
            }
        },
        None => {},
    }
    assert(issues_view(issues@) =~= start + correlation_issues(*d, *t, ctx@, source@, si as int, *from, location@));
}

} // verus!
