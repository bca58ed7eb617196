use vstd::prelude::*;

pub mod analysis;
pub mod compiled_graph;
pub mod composition;
pub mod definition;
pub mod expression;
pub mod mapping;
pub mod operation;
pub mod oracle;
pub mod path;
pub mod planner;
pub mod relational_graph;
pub mod scalar;
pub mod sql;
pub mod sql_server;
pub mod text;
pub mod type_system;
pub mod type_validation;
pub mod validation;

pub use compiled_graph::CompiledGraph;
pub use composition::graph::ComposedQueryGraph;
pub use composition::model::{
    BatchPlanMetadata, BatchRelationDefinition, ComposedCompileError, CompositionIssue,
    CompositionIssueCode, CompositionIssues,
};
pub use composition::plan::CompiledQueryPlan;
pub use definition::{
    ConstraintCondition, ConstraintDefinition, FieldDefinition, GraphDefinition, NullsOrder,
    OrderByDefinition, OrderDirection, OrderingDefinition, ParameterDefinition, ParameterShape,
    ProjectionDefinition, ProjectionFieldDefinition, ProjectionFieldRole,
    ProjectionObjectDefinition, RelationCardinality, RelationDefinition, RelationSelection,
    ScalarType, SourceDefinition, GRAPH_DEFINITION_VERSION,
};
pub use expression::{AggregateFunction, Expression, LiteralValue, SemanticFunction};
pub use mapping::{
    CompiledRelationalMapping, MappingIssue, MappingIssueCode, MappingIssues, RelationalMapping,
    SourceMapping, TableName,
};
pub use operation::{
    OperationIssue, OperationIssueCode, OperationIssues, ParameterValue, QueryOperation,
};
pub use oracle::OracleCompiler;
pub use planner::PlanError;
pub use relational_graph::MappedQueryGraph;
pub use sql::dialect::{OracleVersion, SqlServerVersion};
pub use sql::{ParameterBinding, SqlColumn, SqlCompileError, SqlObject, SqlRelation, SqlStatement};
pub use sql_server::SqlServerCompiler;
pub use type_system::ExpressionType;
pub use validation::{DefinitionIssue, DefinitionIssueCode, DefinitionIssues};

verus! {
} // verus!
