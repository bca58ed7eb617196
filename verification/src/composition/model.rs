//! The data of composed graphs: batch relations, their issues, and what a plan reports
//! of each batch.
use vstd::prelude::*;

use crate::definition::RelationCardinality;
use crate::operation::{OperationIssues, ParameterValue};
use crate::relational_graph::MappedQueryGraph;
use crate::sql::SqlCompileError;
use crate::text::{concat3, debug_quote, debug_text, decimal_text, usize_text};

verus! {

/// A relation to a second graph that is loaded in a batch after the root: the root
/// projection field `from` gives the keys, which the child graph receives through its list
/// parameter `parameter` and matches against its projection field `to`.
#[derive(Debug, PartialEq)]
pub struct BatchRelationDefinition {
    pub name: String,
    pub from: String,
    pub to: String,
    pub parameter: String,
    pub cardinality: RelationCardinality,
    /// The static parameters of the child operation, as in `QueryOperation::parameters`:
    /// where a name occurs more than once, the first pair is the one read.
    pub parameters: Vec<(String, ParameterValue)>,
    pub ordering: Option<String>,
}

#[derive(Debug, Clone, Copy, PartialEq, Eq, Structural)]
pub enum CompositionIssueCode {
    EmptyRelationName,
    InvalidRelationName,
    DuplicateRelationName,
    ConflictingProjectionPath,
    UnknownParentKey,
    UnknownChildKey,
    UnknownKeyParameter,
    KeyParameterNotList,
    IncompatibleKeyTypes,
    KeyParameterIsStatic,
    UnknownStaticParameter,
    MissingStaticParameter,
    InvalidStaticParameterType,
    UnknownChildOrdering,
}

pub open spec fn composition_issue_code_name(c: CompositionIssueCode) -> Seq<char> {
    match c {
        CompositionIssueCode::EmptyRelationName => "EmptyRelationName"@,
        CompositionIssueCode::InvalidRelationName => "InvalidRelationName"@,
        CompositionIssueCode::DuplicateRelationName => "DuplicateRelationName"@,
        CompositionIssueCode::ConflictingProjectionPath => "ConflictingProjectionPath"@,
        CompositionIssueCode::UnknownParentKey => "UnknownParentKey"@,
        CompositionIssueCode::UnknownChildKey => "UnknownChildKey"@,
        CompositionIssueCode::UnknownKeyParameter => "UnknownKeyParameter"@,
        CompositionIssueCode::KeyParameterNotList => "KeyParameterNotList"@,
        CompositionIssueCode::IncompatibleKeyTypes => "IncompatibleKeyTypes"@,
        CompositionIssueCode::KeyParameterIsStatic => "KeyParameterIsStatic"@,
        CompositionIssueCode::UnknownStaticParameter => "UnknownStaticParameter"@,
        CompositionIssueCode::MissingStaticParameter => "MissingStaticParameter"@,
        CompositionIssueCode::InvalidStaticParameterType => "InvalidStaticParameterType"@,
        CompositionIssueCode::UnknownChildOrdering => "UnknownChildOrdering"@,
    }
}

impl CompositionIssueCode {
    /// The code's name.
    pub fn name(self) -> (r: &'static str)
        ensures
            r@ == composition_issue_code_name(self),
    {
        match self {
            CompositionIssueCode::EmptyRelationName => "EmptyRelationName",
            CompositionIssueCode::InvalidRelationName => "InvalidRelationName",
            CompositionIssueCode::DuplicateRelationName => "DuplicateRelationName",
            CompositionIssueCode::ConflictingProjectionPath => "ConflictingProjectionPath",
            CompositionIssueCode::UnknownParentKey => "UnknownParentKey",
            CompositionIssueCode::UnknownChildKey => "UnknownChildKey",
            CompositionIssueCode::UnknownKeyParameter => "UnknownKeyParameter",
            CompositionIssueCode::KeyParameterNotList => "KeyParameterNotList",
            CompositionIssueCode::IncompatibleKeyTypes => "IncompatibleKeyTypes",
            CompositionIssueCode::KeyParameterIsStatic => "KeyParameterIsStatic",
            CompositionIssueCode::UnknownStaticParameter => "UnknownStaticParameter",
            CompositionIssueCode::MissingStaticParameter => "MissingStaticParameter",
            CompositionIssueCode::InvalidStaticParameterType => "InvalidStaticParameterType",
            CompositionIssueCode::UnknownChildOrdering => "UnknownChildOrdering",
        }
    }
}

#[derive(Debug, Clone, PartialEq, Eq)]
pub struct CompositionIssue {
    pub code: CompositionIssueCode,
    pub location: String,
    pub message: String,
}

/// A composition issue as the rules describe it: its code, location and message.
pub type SpecCompositionIssue = (CompositionIssueCode, Seq<char>, Seq<char>);

pub open spec fn composition_issues_view(v: Seq<CompositionIssue>) -> Seq<SpecCompositionIssue> {
    Seq::new(v.len(), |i: int| (v[i].code, v[i].location@, v[i].message@))
}

/// The issues of a batch relation that does not fit its graphs.
#[derive(Debug, Clone, PartialEq, Eq)]
pub struct CompositionIssues(pub Vec<CompositionIssue>);

/// The lines of the first `n` issues: code, location and message of each.
pub open spec fn composition_issue_lines(v: Seq<SpecCompositionIssue>, n: int) -> Seq<char>
    decreases n,
{
    if n <= 0 {
        seq![]
    } else {
        composition_issue_lines(v, n - 1) + "\n- "@ + composition_issue_code_name(v[n - 1].0) + " at "@
            + v[n - 1].1 + ": "@ + v[n - 1].2
    }
}

impl CompositionIssues {
    pub fn as_slice(&self) -> (r: &[CompositionIssue])
        ensures
            r@ == self.0@,
    {
        self.0.as_slice()
    }

    pub fn into_vec(self) -> (r: Vec<CompositionIssue>)
        ensures
            r == self.0,
    {
        self.0
    }

    /// The issues as text: their number, then one line for each.
    pub fn message(&self) -> (r: String)
        ensures
            r@ == "query graph composition contains "@ + decimal_text(self.0@.len()) + " issue(s)"@
                + composition_issue_lines(composition_issues_view(self.0@), self.0@.len() as int),
    {
        let ghost v = composition_issues_view(self.0@);
        let mut r = concat3("query graph composition contains ", usize_text(self.0.len()).as_str(), " issue(s)");
        let ghost head = r@;
        let mut i: usize = 0;
        while i < self.0.len()
            invariant
                v == composition_issues_view(self.0@),
                i <= self.0@.len(),
                r@ == head + composition_issue_lines(v, i as int),
            decreases self.0.len() - i,
        {
            let issue = &self.0[i];
            r.append("\n- ");
            r.append(issue.code.name());
            r.append(" at ");
            r.append(issue.location.as_str());
            r.append(": ");
            r.append(issue.message.as_str());
            assert(r@ =~= head + composition_issue_lines(v, i + 1));
            i = i + 1;
        }
        r
    }
}

/// What a plan reports of a batch: the relation, its keys, the static parameters it
/// binds, and whether the plan added the parent or child key to the selection.
#[derive(Debug, PartialEq)]
pub struct BatchPlanMetadata {
    pub name: String,
    pub parent_key: String,
    pub child_key: String,
    pub key_parameter: String,
    /// A copy of the relation's static parameters, pair for pair.
    pub parameters: Vec<(String, ParameterValue)>,
    pub cardinality: RelationCardinality,
    pub parent_key_injected: bool,
    pub child_key_injected: bool,
}

/// Why a composed plan or one of its batches did not compile.
#[derive(Debug)]
pub enum ComposedCompileError {
    Operation(OperationIssues),
    Sql(SqlCompileError),
    UnknownSelectedBatchRelation(String),
}

impl ComposedCompileError {
    /// The error as text.
    pub fn message(&self) -> (r: String)
        ensures
            self matches ComposedCompileError::UnknownSelectedBatchRelation(name) ==> r@ == "batch relation "@
                + debug_text(name@) + " is not selected by the query plan"@,
            self matches ComposedCompileError::Operation(issues) ==> r@ == crate::operation::operation_issues_text(
                crate::operation::operation_issues_view(issues.0@),
            ),
            self matches ComposedCompileError::Sql(e) ==> r@ == crate::sql::sql_error_text(crate::sql::sql_error_view(*e)),
    {
        match self {
            ComposedCompileError::Operation(issues) => issues.message(),
            ComposedCompileError::Sql(error) => error.message(),
            ComposedCompileError::UnknownSelectedBatchRelation(name) => concat3(
                "batch relation ",
                debug_quote(name.as_str()).as_str(),
                " is not selected by the query plan",
            ),
        }
    }
}

impl From<OperationIssues> for ComposedCompileError {
    fn from(issues: OperationIssues) -> (r: Self) {
        ComposedCompileError::Operation(issues)
    }
}

impl vstd::std_specs::convert::FromSpecImpl<OperationIssues> for ComposedCompileError {
    open spec fn obeys_from_spec() -> bool {
        true
    }

    open spec fn from_spec(issues: OperationIssues) -> Self {
        ComposedCompileError::Operation(issues)
    }
}

impl From<SqlCompileError> for ComposedCompileError {
    fn from(error: SqlCompileError) -> (r: Self) {
        ComposedCompileError::Sql(error)
    }
}

impl vstd::std_specs::convert::FromSpecImpl<SqlCompileError> for ComposedCompileError {
    open spec fn obeys_from_spec() -> bool {
        true
    }

    open spec fn from_spec(error: SqlCompileError) -> Self {
        ComposedCompileError::Sql(error)
    }
}

/// A batch relation with the graph it loads.
#[derive(Debug)]
pub struct BatchRelation {
    pub definition: BatchRelationDefinition,
    pub graph: MappedQueryGraph,
}

} // verus!
