//! Compiling operations on mapped graphs to SQL.
pub mod dialect;
pub mod compile;
pub mod render;
pub mod shape;

use vstd::prelude::*;

use crate::definition::{RelationCardinality, ScalarType};
use crate::planner::{plan_error_text, plan_error_view, PlanError, SpecPlanError};
use crate::text::{concat, concat3, debug_quote, debug_text};
use crate::sql::dialect::{dialect_error_view, DialectError, SpecDialectError};

verus! {

/// A compiled SQL statement: its text, the parameter bindings its placeholders name,
/// the columns it returns and the relations it joins.
#[derive(Debug, Clone, PartialEq, Eq)]
pub struct SqlStatement {
    pub sql: String,
    pub bindings: Vec<ParameterBinding>,
    pub columns: Vec<SqlColumn>,
    pub objects: Vec<SqlObject>,
    pub relations: Vec<SqlRelation>,
}

/// A projection object of a statement: its path and the column that tells whether it is
/// present.
#[derive(Debug, Clone, PartialEq, Eq)]
pub struct SqlObject {
    pub path: String,
    pub presence_column: String,
}

/// A placeholder of a statement: its name, the parameter it takes its value from, the
/// value's type, and for a list parameter the position of the item.
#[derive(Debug, Clone, PartialEq, Eq)]
pub struct ParameterBinding {
    pub name: String,
    pub parameter: String,
    pub scalar_type: ScalarType,
    pub index: Option<usize>,
}

/// A column of a statement's result and the projection field it answers.
#[derive(Debug, Clone, PartialEq, Eq)]
pub struct SqlColumn {
    pub name: String,
    pub path: String,
    pub scalar_type: ScalarType,
    pub nullable: bool,
    pub relations: Vec<String>,
}

/// A relation joined by a statement.
#[derive(Debug, Clone, PartialEq, Eq)]
pub struct SqlRelation {
    pub name: String,
    pub from: String,
    pub to: String,
    pub cardinality: RelationCardinality,
    pub required: bool,
}

/// Why an operation could not be compiled to SQL.
#[derive(Debug)]
pub enum SqlCompileError {
    Plan(PlanError),
    MissingSourceMapping(String),
    MissingParameter(String),
    UnsupportedTableQualifier { dialect: &'static str, qualifier: &'static str },
    UnsupportedDialectFeature { dialect: &'static str, version: &'static str, feature: &'static str },
    PaginationRequiresOrder { dialect: &'static str },
}

/// A compile error as the rules describe it.
pub enum SpecSqlError {
    Plan(SpecPlanError),
    MissingSourceMapping(Seq<char>),
    MissingParameter(Seq<char>),
    Dialect(SpecDialectError),
    PaginationRequiresOrder(Seq<char>),
}

pub open spec fn sql_error_view(e: SqlCompileError) -> SpecSqlError {
    match e {
        SqlCompileError::Plan(p) => SpecSqlError::Plan(plan_error_view(p)),
        SqlCompileError::MissingSourceMapping(s) => SpecSqlError::MissingSourceMapping(s@),
        SqlCompileError::MissingParameter(p) => SpecSqlError::MissingParameter(p@),
        SqlCompileError::UnsupportedTableQualifier { dialect, qualifier } => SpecSqlError::Dialect(
            SpecDialectError::UnsupportedTableQualifier(dialect@, qualifier@),
        ),
        SqlCompileError::UnsupportedDialectFeature { dialect, version, feature } => SpecSqlError::Dialect(
            SpecDialectError::UnsupportedDialectFeature(dialect@, version@, feature@),
        ),
        SqlCompileError::PaginationRequiresOrder { dialect } => SpecSqlError::PaginationRequiresOrder(
            dialect@,
        ),
    }
}

/// The text that reports a compile error.
pub open spec fn sql_error_text(e: SpecSqlError) -> Seq<char> {
    match e {
        SpecSqlError::Plan(p) => plan_error_text(p),
        SpecSqlError::MissingSourceMapping(source) => "source "@ + debug_text(source) + " has no relational mapping"@,
        SpecSqlError::MissingParameter(parameter) => "parameter "@ + debug_text(parameter) + " is required by the SQL plan"@,
        SpecSqlError::Dialect(SpecDialectError::UnsupportedTableQualifier(dialect, qualifier)) => dialect
            + " does not support the relational mapping table qualifier "@ + debug_text(qualifier),
        SpecSqlError::Dialect(SpecDialectError::UnsupportedDialectFeature(dialect, version, feature)) => dialect + " "@
            + version + " does not support "@ + feature,
        SpecSqlError::PaginationRequiresOrder(dialect) => dialect + " pagination requires a default order"@,
    }
}

impl SqlCompileError {
    /// The error as text.
    pub fn message(&self) -> (r: String)
        ensures
            r@ == sql_error_text(sql_error_view(*self)),
    {
        match self {
            SqlCompileError::Plan(p) => p.message(),
            SqlCompileError::MissingSourceMapping(source) => concat3(
                "source ",
                debug_quote(source.as_str()).as_str(),
                " has no relational mapping",
            ),
            SqlCompileError::MissingParameter(parameter) => concat3(
                "parameter ",
                debug_quote(parameter.as_str()).as_str(),
                " is required by the SQL plan",
            ),
            SqlCompileError::UnsupportedTableQualifier { dialect, qualifier } => concat3(
                dialect,
                " does not support the relational mapping table qualifier ",
                debug_quote(qualifier).as_str(),
            ),
            SqlCompileError::UnsupportedDialectFeature { dialect, version, feature } => {
                let mut r = concat3(dialect, " ", version);
                r.append(" does not support ");
                r.append(feature);
                r
            },
            SqlCompileError::PaginationRequiresOrder { dialect } => concat(dialect, " pagination requires a default order"),
        }
    }

    /// The compile error that a dialect error stands for.
    pub fn from_dialect(e: DialectError) -> (r: SqlCompileError)
        ensures
            sql_error_view(r) == SpecSqlError::Dialect(dialect_error_view(e)),
    {
        match e {
            DialectError::UnsupportedTableQualifier { dialect, qualifier } => SqlCompileError::UnsupportedTableQualifier {
                dialect,
                qualifier,
            },
            DialectError::UnsupportedDialectFeature { dialect, version, feature } => SqlCompileError::UnsupportedDialectFeature {
                dialect,
                version,
                feature,
            },
        }
    }
}

impl From<PlanError> for SqlCompileError {
    fn from(error: PlanError) -> (r: Self) {
        SqlCompileError::Plan(error)
    }
}

impl vstd::std_specs::convert::FromSpecImpl<PlanError> for SqlCompileError {
    open spec fn obeys_from_spec() -> bool {
        true
    }

    open spec fn from_spec(error: PlanError) -> Self {
        SqlCompileError::Plan(error)
    }
}

} // verus!
