//! The Oracle compiler.
use vstd::prelude::*;

use crate::compiled_graph::CompiledGraph;
use crate::mapping::CompiledRelationalMapping;
use crate::operation::QueryOperation;
use crate::sql::compile::{compile, context_of, sql_outcome, statement_view};
use crate::sql::dialect::{Dialect, OracleVersion};
use crate::sql::render::{binding_state, bindings_fit, names_in_order};
use crate::sql::{sql_error_view, SqlCompileError, SqlStatement};

verus! {

/// Compiles operations to Oracle statements at one version.
#[derive(Debug, Clone, Copy)]
pub struct OracleCompiler {
    version: OracleVersion,
}

impl Default for OracleCompiler {
    fn default() -> (r: Self)
        ensures
            r.target() == OracleVersion::V12c,
    {
        OracleCompiler { version: OracleVersion::V12c }
    }
}

impl OracleCompiler {
    /// The version the compiler targets.
    pub closed spec fn target(self) -> OracleVersion {
        self.version
    }

    pub fn new(version: OracleVersion) -> (r: Self)
        ensures
            r.target() == version,
    {
        OracleCompiler { version }
    }

    pub fn version(self) -> (r: OracleVersion)
        ensures
            r == self.target(),
    {
        self.version
    }

    /// Compiles an operation on a graph and its mapping.
    pub fn compile(&self, graph: &CompiledGraph, mapping: &CompiledRelationalMapping, operation: &QueryOperation) -> (r: Result<SqlStatement, SqlCompileError>)
        ensures
            match sql_outcome(*graph, *mapping, *operation, Dialect::Oracle(self.target())) {
                Ok(s) => r matches Ok(x) && statement_view(x) == s && names_in_order(x.bindings@),
                Err(e) => r matches Err(x) && sql_error_view(x) == e,
            },
            r matches Ok(x) ==> bindings_fit(context_of(*graph, *mapping, *operation, Dialect::Oracle(self.target())), binding_state(x.bindings@)),
    {
        compile(graph, mapping, operation, Dialect::Oracle(self.version))
    }
}

} // verus!
