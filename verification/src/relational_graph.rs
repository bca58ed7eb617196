//! A compiled graph together with the relational mapping of its sources.
use vstd::prelude::*;

use crate::compiled_graph::CompiledGraph;
use crate::mapping::{mapping_issues, mapping_issues_view, CompiledRelationalMapping, MappingIssues, RelationalMapping};
use crate::operation::QueryOperation;
use crate::oracle::OracleCompiler;
use crate::sql::compile::{context_of, sql_outcome, statement_view};
use crate::sql::dialect::{Dialect, OracleVersion, SqlServerVersion};
use crate::sql::render::{binding_state, bindings_fit, names_in_order};
use crate::sql::{sql_error_view, SqlCompileError, SqlStatement};
use crate::sql_server::SqlServerCompiler;

verus! {

#[derive(Debug)]
pub struct MappedQueryGraph {
    graph: CompiledGraph,
    mapping: CompiledRelationalMapping,
}

impl MappedQueryGraph {
    /// The graph.
    pub closed spec fn graph_view(self) -> CompiledGraph {
        self.graph
    }

    /// The mapping.
    pub closed spec fn mapping_view(self) -> CompiledRelationalMapping {
        self.mapping
    }

    /// Pairs a compiled graph with a mapping of its sources, when the mapping fits it.
    pub fn new(graph: CompiledGraph, mapping: RelationalMapping) -> (r: Result<MappedQueryGraph, MappingIssues>)
        ensures
            r is Ok <==> mapping_issues(mapping@, graph.graph()).len() == 0,
            r matches Ok(m) ==> m.graph_view() == graph && m.mapping_view().mapping_view() == mapping@,
            r matches Err(e) ==> mapping_issues_view(e.0@) == mapping_issues(mapping@, graph.graph()),
    {
        match mapping.compile(&graph) {
            Ok(compiled) => Ok(MappedQueryGraph { graph, mapping: compiled }),
            Err(e) => Err(e),
        }
    }

    pub fn graph(&self) -> (r: &CompiledGraph)
        ensures
            *r == self.graph_view(),
    {
        &self.graph
    }

    pub fn mapping(&self) -> (r: &CompiledRelationalMapping)
        ensures
            *r == self.mapping_view(),
    {
        &self.mapping
    }

    /// Compiles an operation to SQL Server at the default version.
    pub fn compile_sql_server(&self, operation: &QueryOperation) -> (r: Result<SqlStatement, SqlCompileError>)
        ensures
            match sql_outcome(self.graph_view(), self.mapping_view(), *operation, Dialect::SqlServer(SqlServerVersion::V2012)) {
                Ok(s) => r matches Ok(x) && statement_view(x) == s && names_in_order(x.bindings@),
                Err(e) => r matches Err(x) && sql_error_view(x) == e,
            },
            r matches Ok(x) ==> bindings_fit(
                context_of(self.graph_view(), self.mapping_view(), *operation, Dialect::SqlServer(SqlServerVersion::V2012)),
                binding_state(x.bindings@),
            ),
    {
        self.compile_sql_server_with(operation, &SqlServerCompiler::default())
    }

    /// Compiles an operation to SQL Server with a compiler.
    pub fn compile_sql_server_with(&self, operation: &QueryOperation, compiler: &SqlServerCompiler) -> (r: Result<SqlStatement, SqlCompileError>)
        ensures
            match sql_outcome(self.graph_view(), self.mapping_view(), *operation, Dialect::SqlServer(compiler.target())) {
                Ok(s) => r matches Ok(x) && statement_view(x) == s && names_in_order(x.bindings@),
                Err(e) => r matches Err(x) && sql_error_view(x) == e,
            },
            r matches Ok(x) ==> bindings_fit(
                context_of(self.graph_view(), self.mapping_view(), *operation, Dialect::SqlServer(compiler.target())),
                binding_state(x.bindings@),
            ),
    {
        compiler.compile(&self.graph, &self.mapping, operation)
    }

    /// Compiles an operation to Oracle at the default version.
    pub fn compile_oracle(&self, operation: &QueryOperation) -> (r: Result<SqlStatement, SqlCompileError>)
        ensures
            match sql_outcome(self.graph_view(), self.mapping_view(), *operation, Dialect::Oracle(OracleVersion::V12c)) {
                Ok(s) => r matches Ok(x) && statement_view(x) == s && names_in_order(x.bindings@),
                Err(e) => r matches Err(x) && sql_error_view(x) == e,
            },
            r matches Ok(x) ==> bindings_fit(
                context_of(self.graph_view(), self.mapping_view(), *operation, Dialect::Oracle(OracleVersion::V12c)),
                binding_state(x.bindings@),
            ),
    {
        self.compile_oracle_with(operation, &OracleCompiler::default())
    }

    /// Compiles an operation to Oracle with a compiler.
    pub fn compile_oracle_with(&self, operation: &QueryOperation, compiler: &OracleCompiler) -> (r: Result<SqlStatement, SqlCompileError>)
        ensures
            match sql_outcome(self.graph_view(), self.mapping_view(), *operation, Dialect::Oracle(compiler.target())) {
                Ok(s) => r matches Ok(x) && statement_view(x) == s && names_in_order(x.bindings@),
                Err(e) => r matches Err(x) && sql_error_view(x) == e,
            },
            r matches Ok(x) ==> bindings_fit(
                context_of(self.graph_view(), self.mapping_view(), *operation, Dialect::Oracle(compiler.target())),
                binding_state(x.bindings@),
            ),
    {
        compiler.compile(&self.graph, &self.mapping, operation)
    }
}

} // verus!
