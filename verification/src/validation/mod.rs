//! Structural validation of graph definitions and the issues it reports.
use vstd::prelude::*;

pub mod aggregation;
pub mod expression;
pub mod projection;
pub mod structure;
pub mod topology;

use crate::analysis::topology::GraphTopology;
use crate::definition::GraphDefinition;
use crate::validation::aggregation::{aggregation_issues, validate_aggregation};
use crate::validation::structure::{structure_issues, validate_structure};
use crate::validation::topology::{topology_issues, validate_topology};

verus! {

#[derive(Debug, Clone, Copy, PartialEq, Eq, Structural)]
pub enum DefinitionIssueCode {
    UnsupportedVersion,
    EmptyName,
    EmptySourceKey,
    DuplicateSource,
    UnknownRoot,
    EmptyFieldName,
    DuplicateField,
    EmptyParameterName,
    DuplicateParameter,
    EmptyRelationName,
    DuplicateRelation,
    UnknownRelationSource,
    UnknownRelationTarget,
    RelationExpressionScope,
    InvalidRelationSelection,
    EmptyRelationSelectionOrder,
    RelationSelectionExpressionScope,
    InvalidExistsContext,
    UnknownExistsSource,
    InvalidExistsSource,
    ExistsExpressionScope,
    InvalidParameterShape,
    UnknownFieldSource,
    UnknownField,
    UnknownParameter,
    EmptyExpressionGroup,
    InvalidLiteral,
    IncompatibleExpressionTypes,
    InvalidExpressionType,
    InvalidFunctionArity,
    UnresolvedExpressionType,
    InvalidPredicateType,
    InvalidOrderExpression,
    EmptyOrderingName,
    DuplicateOrdering,
    EmptyOrdering,
    MultipleDefaultOrderings,
    MixedProjectionRoles,
    InvalidAggregateContext,
    InvalidDimensionExpression,
    InvalidMeasureExpression,
    NestedAggregate,
    UngroupedExpression,
    EmptyProjectionPath,
    EmptyProjectionPathSegment,
    InvalidProjectionPathSegment,
    DuplicateProjectionPath,
    ConflictingProjectionPath,
    DuplicateProjectionObjectPath,
    ProjectionObjectWithoutFields,
    ProjectionObjectInSummary,
    HiddenProjectionField,
    ProjectionExpressionScope,
    RootHasIncomingRelation,
    AmbiguousSourcePath,
    UnreachableSource,
}

#[derive(Debug, Clone, PartialEq, Eq)]
pub struct DefinitionIssue {
    pub code: DefinitionIssueCode,
    pub location: String,
    pub message: String,
}

/// An issue as the rules describe it: its code, location and message.
pub type SpecIssue = (DefinitionIssueCode, Seq<char>, Seq<char>);

pub open spec fn issue_view(i: DefinitionIssue) -> SpecIssue {
    (i.code, i.location@, i.message@)
}

pub open spec fn issues_view(v: Seq<DefinitionIssue>) -> Seq<SpecIssue> {
    v.map_values(|i: DefinitionIssue| issue_view(i))
}

pub open spec fn at(location: Seq<char>, index: int) -> Seq<char> {
    location + seq!['['] + crate::text::decimal_text(index as nat) + seq![']']
}

impl DefinitionIssue {
    pub fn new(code: DefinitionIssueCode, location: String, message: String) -> (r: Self)
        ensures
            issue_view(r) == (code, location@, message@),
    {
        DefinitionIssue { code, location, message }
    }
}

/// Appends one issue.
pub fn push_issue(
    issues: &mut Vec<DefinitionIssue>,
    code: DefinitionIssueCode,
    location: String,
    message: String,
)
    ensures
        issues_view(final(issues)@) == issues_view(old(issues)@).push((code, location@, message@)),
{
    let ghost before = issues@;
    issues.push(DefinitionIssue { code, location, message });
    assert(issues_view(issues@) =~= issues_view(before).push((code, location@, message@)));
}

/// The issues of a definition that could not be compiled.
#[derive(Debug, Clone, PartialEq, Eq)]
pub struct DefinitionIssues(pub Vec<DefinitionIssue>);

impl DefinitionIssues {
    pub fn from_vec(issues: Vec<DefinitionIssue>) -> (r: Self)
        ensures
            r.0 == issues,
    {
        DefinitionIssues(issues)
    }

    pub fn as_slice(&self) -> (r: &[DefinitionIssue])
        ensures
            r@ == self.0@,
    {
        self.0.as_slice()
    }

    pub fn into_vec(self) -> (r: Vec<DefinitionIssue>)
        ensures
            r == self.0,
    {
        self.0
    }
}


/// Every rule a definition must meet, each broken one as an issue, in report order.
pub open spec fn definition_issues(d: GraphDefinition, t: GraphTopology) -> Seq<SpecIssue> {
    structure_issues(d, t) + aggregation_issues(d) + topology_issues(d, t)
}

/// Checks a definition against its rules: `Ok` exactly when it breaks none.
pub fn validate(d: &GraphDefinition, t: &GraphTopology) -> (r: Result<(), DefinitionIssues>)
    requires
        t.wf(*d),
    ensures
        r is Ok <==> definition_issues(*d, *t).len() == 0,
        r matches Err(e) ==> issues_view(e.0@) == definition_issues(*d, *t),
{
    let mut issues: Vec<DefinitionIssue> = Vec::new();
    assert(issues_view(issues@) =~= seq![]);
    validate_structure(d, t, &mut issues);
    validate_aggregation(d, &mut issues);
    validate_topology(d, t, &mut issues);
    assert(issues_view(issues@) =~= definition_issues(*d, *t));
    if issues.len() == 0 {
        Ok(())
    } else {
        Err(DefinitionIssues::from_vec(issues))
    }
}

} // verus!
