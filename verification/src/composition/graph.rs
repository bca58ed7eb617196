//! A root graph with batch relations to child graphs, and the plans compiled from it.
use vstd::prelude::*;

use crate::compiled_graph::CompiledGraph;
use crate::composition::model::{BatchRelation, BatchRelationDefinition, ComposedCompileError, CompositionIssues};
use crate::composition::partition::{partition_fits, partition_issues, partition_operation, PartitionedBatch, PartitionedOperation};
use crate::composition::plan::{compiles_to, plan_dialect, CompiledBatchStep, CompiledQueryPlan, PlanCompiler};
use crate::composition::validation::{
    child_check_operation, child_selection, duplicate_section, name_section, relation_issues, relation_location, relation_names,
    relation_outcome, validate_relation,
};
use crate::operation::{operation_issues_view, texts, QueryOperation};
use crate::oracle::OracleCompiler;
use crate::relational_graph::MappedQueryGraph;
use crate::sql::dialect::{Dialect, OracleVersion, SqlServerVersion};
use crate::sql_server::SqlServerCompiler;
use crate::text::{spec_is_blank, text};

verus! {

/// A root graph and the batch relations that load child graphs after it.
#[derive(Debug)]
pub struct ComposedQueryGraph {
    root: MappedQueryGraph,
    relations: Vec<BatchRelation>,
}

/// The step of a plan for the batch `b`: its metadata and operation, the child graph and
/// the key parameter of its relation.
pub open spec fn step_fits<'a>(step: CompiledBatchStep<'a>, b: PartitionedBatch, rels: Seq<BatchRelation>) -> bool {
    &&& step.metadata == b.metadata
    &&& step.operation == b.operation
    &&& *step.graph == rels[b.relation_index as int].graph
    &&& step.parameter@ == rels[b.relation_index as int].definition.parameter@
}

/// The plan `r` compiled from the split `p`: the root statement compiled from the root
/// operation, and one step for each batch.
pub open spec fn planned<'a>(
    r: Result<CompiledQueryPlan<'a>, ComposedCompileError>,
    p: PartitionedOperation,
    root: MappedQueryGraph,
    rels: Seq<BatchRelation>,
    d: Dialect,
) -> bool {
    match r {
        Ok(plan) => {
            &&& compiles_to(Ok(plan.root_statement()), root, p.root, d)
            &&& plan.dialect() == d
            &&& plan.steps().len() == p.batches@.len()
            &&& forall|i: int| 0 <= i < p.batches@.len() ==> step_fits(#[trigger] plan.steps()[i], p.batches@[i], rels)
        },
        Err(ComposedCompileError::Sql(e)) => compiles_to(Err(e), root, p.root, d),
        Err(_) => false,
    }
}

/// What compiling `op` on the composed graph `g` in dialect `d` gives: the selection
/// issues when the split finds any, else the plan of the split.
pub open spec fn plan_outcome<'a>(
    g: ComposedQueryGraph,
    op: QueryOperation,
    d: Dialect,
    r: Result<CompiledQueryPlan<'a>, ComposedCompileError>,
) -> bool {
    let root = g.root_graph();
    let rels = g.relations();
    match op.select {
        Some(v) if partition_issues(root.graph_view(), rels, texts(v@), v@.len() as int).len() > 0 => r matches Err(
            ComposedCompileError::Operation(e),
        ) && operation_issues_view(e.0@) == partition_issues(root.graph_view(), rels, texts(v@), v@.len() as int),
        _ => exists|p: PartitionedOperation|
            #![trigger partition_fits(p, root.graph_view(), rels, op)]
            partition_fits(p, root.graph_view(), rels, op) && planned(r, p, root, rels, d),
    }
}

impl ComposedQueryGraph {
    pub closed spec fn root_graph(self) -> MappedQueryGraph {
        self.root
    }

    pub closed spec fn relations(self) -> Seq<BatchRelation> {
        self.relations@
    }

    /// A composed graph with no batch relation yet.
    pub fn new(root: MappedQueryGraph) -> (r: Self)
        ensures
            r.root_graph() == root,
            r.relations().len() == 0,
    {
        ComposedQueryGraph { root, relations: Vec::new() }
    }

    pub fn root(&self) -> (r: &MappedQueryGraph)
        ensures
            *r == self.root_graph(),
    {
        &self.root
    }

    /// Adds a batch relation to `graph`, after checking it against the root graph, the
    /// relations already there and the child graph: `Err` lists every issue found.
    pub fn with_batch_relation(self, graph: MappedQueryGraph, definition: BatchRelationDefinition) -> (r: Result<
        Self,
        CompositionIssues,
    >)
        ensures
            relation_outcome(
                self.root_graph().graph_view(),
                relation_names(self.relations()),
                graph.graph_view(),
                definition,
                match r {
                    Ok(_) => Ok(()),
                    Err(e) => Err(e),
                },
            ),
            r matches Ok(c) ==> c.root_graph() == self.root_graph() && c.relations() == self.relations().push(
                (BatchRelation { definition, graph }),
            ),
    {
        let mut composed = self;
        match validate_relation(&composed.root, &composed.relations, &graph, &definition) {
            Ok(()) => {
                composed.relations.push(BatchRelation { definition, graph });
                Ok(composed)
            },
            Err(issues) => Err(issues),
        }
    }

    /// Splits `operation` between the root and the selected batch relations, compiles the
    /// root statement, and keeps each batch for when its keys are known.
    pub(crate) fn compile_plan(&self, operation: &QueryOperation, compiler: PlanCompiler) -> (r: Result<
        CompiledQueryPlan<'_>,
        ComposedCompileError,
    >)
        ensures
            plan_outcome(*self, *operation, plan_dialect(compiler), r),
    {
        let ghost rels = self.relations@;
        let ghost d = plan_dialect(compiler);
        let parts = match partition_operation(self.root.graph(), &self.relations, operation) {
            Ok(p) => p,
            Err(issues) => {
                return Err(ComposedCompileError::Operation(issues));
            },
        };
        let ghost whole = parts;
        assert(partition_fits(whole, self.root.graph_view(), rels, *operation));
        let root = match compiler.compile(&self.root, &parts.root) {
            Ok(s) => s,
            Err(e) => {
                let r = Err(ComposedCompileError::Sql(e));
                assert(planned(r, whole, self.root, rels, d));
                proof {
                    self.lemma_outcome(*operation, d, r, whole);
                }
                return r;
            },
        };
        let mut batches = parts.batches;
        let mut steps: Vec<CompiledBatchStep<'_>> = Vec::new();
        let ghost all = batches@;
        while batches.len() > 0
            invariant
                rels == self.relations@,
                all == whole.batches@,
                steps@.len() + batches@.len() == all.len(),
                batches@ == all.skip(steps@.len() as int),
                forall|b: int| 0 <= b < all.len() ==> (#[trigger] all[b]).relation_index < rels.len(),
                forall|i: int| 0 <= i < steps@.len() ==> step_fits(#[trigger] steps@[i], all[i], rels),
            decreases batches.len(),
        {
            let ghost k = steps@.len() as int;
            assert(batches@[0] == all[k]);
            let b = batches.remove(0);
            let rel = &self.relations[b.relation_index];
            let step = CompiledBatchStep {
                metadata: b.metadata,
                graph: &rel.graph,
                parameter: text(rel.definition.parameter.as_str()),
                operation: b.operation,
            };
            steps.push(step);
            assert(batches@ =~= all.skip(steps@.len() as int));
        }
        let plan = CompiledQueryPlan::new(root, steps, compiler);
        let r = Ok(plan);
        assert(planned(r, whole, self.root, rels, d));
        proof {
            self.lemma_outcome(*operation, d, r, whole);
        }
        r
    }

    proof fn lemma_outcome<'a>(self, op: QueryOperation, d: Dialect, r: Result<CompiledQueryPlan<'a>, ComposedCompileError>, p: PartitionedOperation)
        requires
            partition_fits(p, self.root.graph_view(), self.relations@, op),
            planned(r, p, self.root, self.relations@, d),
            op.select matches Some(v) ==> partition_issues(self.root.graph_view(), self.relations@, texts(v@), v@.len() as int).len() == 0,
        ensures
            plan_outcome(self, op, d, r),
    {
        assert(self.root_graph() == self.root);
        assert(self.relations() == self.relations@);
    }

    /// Compiles a plan for Oracle at the default version.
    pub fn compile_oracle_plan(&self, operation: &QueryOperation) -> (r: Result<CompiledQueryPlan<'_>, ComposedCompileError>)
        ensures
            plan_outcome(*self, *operation, Dialect::Oracle(OracleVersion::V12c), r),
    {
        self.compile_oracle_plan_with(operation, &OracleCompiler::default())
    }

    pub fn compile_oracle_plan_with(&self, operation: &QueryOperation, compiler: &OracleCompiler) -> (r: Result<
        CompiledQueryPlan<'_>,
        ComposedCompileError,
    >)
        ensures
            plan_outcome(*self, *operation, Dialect::Oracle(compiler.target()), r),
    {
        self.compile_plan(operation, PlanCompiler::Oracle(*compiler))
    }

    /// Compiles a plan for SQL Server at the default version.
    pub fn compile_sql_server_plan(&self, operation: &QueryOperation) -> (r: Result<
        CompiledQueryPlan<'_>,
        ComposedCompileError,
    >)
        ensures
            plan_outcome(*self, *operation, Dialect::SqlServer(SqlServerVersion::V2012), r),
    {
        self.compile_sql_server_plan_with(operation, &SqlServerCompiler::default())
    }

    pub fn compile_sql_server_plan_with(&self, operation: &QueryOperation, compiler: &SqlServerCompiler) -> (r: Result<
        CompiledQueryPlan<'_>,
        ComposedCompileError,
    >)
        ensures
            plan_outcome(*self, *operation, Dialect::SqlServer(compiler.target()), r),
    {
        self.compile_plan(operation, PlanCompiler::SqlServer(*compiler))
    }
}

/// A plan compiles only the batch relations that the operation selects by path: with no
/// explicit selection it has no batch.
pub proof fn law_default_selection_plans_no_batch<'a>(g: ComposedQueryGraph, op: QueryOperation, d: Dialect, plan: CompiledQueryPlan<'a>)
    requires
        plan_outcome(g, op, d, Ok(plan)),
        op.select is None,
    ensures
        plan.steps().len() == 0,
{
    let p = choose|p: PartitionedOperation| partition_fits(p, g.root_graph().graph_view(), g.relations(), op) && planned(Ok(plan), p, g.root_graph(), g.relations(), d);
}

/// A relation that a composed graph accepts has a name of one path segment that no
/// relation before it has.
pub proof fn law_accepted_relation_names_are_new(
    root: CompiledGraph,
    names: Seq<Seq<char>>,
    child: CompiledGraph,
    def: BatchRelationDefinition,
)
    requires
        relation_outcome(root, names, child, def, Ok(())),
    ensures
        !spec_is_blank(def.name@),
        !def.name@.contains('.'),
        !names.contains(def.name@),
{
    let x = choose|x: QueryOperation|
        (child_selection(child.graph(), def) matches Some(sel) ==> child_check_operation(x, sel, child.graph(), def))
            && relation_issues(root, names, child, def, x).len() == 0;
    let loc = relation_location(names.len() as int);
    assert(name_section(def, loc).len() == 0);
    assert(duplicate_section(names, def, loc).len() == 0);
}

} // verus!
