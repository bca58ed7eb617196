//! The SQL Server compiler.
use vstd::prelude::*;

use crate::compiled_graph::CompiledGraph;
use crate::mapping::CompiledRelationalMapping;
use crate::operation::QueryOperation;
use crate::sql::compile::{compile, context_of, sql_outcome, statement_view};
use crate::sql::dialect::{Dialect, SqlServerVersion};
use crate::sql::render::{binding_state, bindings_fit, names_in_order};
use crate::sql::{sql_error_view, SqlCompileError, SqlStatement};

verus! {

/// Compiles operations to SQL Server statements at one version.
#[derive(Debug, Clone, Copy)]
pub struct SqlServerCompiler {
    version: SqlServerVersion,
}

impl Default for SqlServerCompiler {
    fn default() -> (r: Self)
        ensures
            r.target() == SqlServerVersion::V2012,
    {
        SqlServerCompiler { version: SqlServerVersion::V2012 }
    }
}

impl SqlServerCompiler {
    /// The version the compiler targets.
    pub closed spec fn target(self) -> SqlServerVersion {
        self.version
    }

    pub fn new(version: SqlServerVersion) -> (r: Self)
        ensures
            r.target() == version,
    {
        SqlServerCompiler { version }
    }

    pub fn version(self) -> (r: SqlServerVersion)
        ensures
            r == self.target(),
    {
        self.version
    }

    /// Compiles an operation on a graph and its mapping.
    pub fn compile(&self, graph: &CompiledGraph, mapping: &CompiledRelationalMapping, operation: &QueryOperation) -> (r: Result<SqlStatement, SqlCompileError>)
        ensures
            match sql_outcome(*graph, *mapping, *operation, Dialect::SqlServer(self.target())) {
                Ok(s) => r matches Ok(x) && statement_view(x) == s && names_in_order(x.bindings@),
                Err(e) => r matches Err(x) && sql_error_view(x) == e,
            },
            r matches Ok(x) ==> bindings_fit(context_of(*graph, *mapping, *operation, Dialect::SqlServer(self.target())), binding_state(x.bindings@)),
    {
        compile(graph, mapping, operation, Dialect::SqlServer(self.version))
    }
}

} // verus!
