//! Compiled plans of composed graphs: the root statement, and the batches that are
//! compiled once the parent keys are known.
use vstd::prelude::*;

use crate::composition::model::{BatchPlanMetadata, ComposedCompileError};
use crate::composition::validation::binds_with;
use crate::mapping::optional_view;
use crate::operation::{copy_entries, entry_position, same_value, texts, ParameterValue, QueryOperation};
use crate::oracle::OracleCompiler;
use crate::relational_graph::MappedQueryGraph;
use crate::sql::compile::{context_of, sql_outcome, statement_view};
use crate::sql::dialect::Dialect;
use crate::sql::render::{binding_state, bindings_fit, names_in_order};
use crate::sql::{sql_error_view, SqlCompileError, SqlStatement};
use crate::sql_server::SqlServerCompiler;
use crate::text::{str_eq, text};

verus! {

/// The compiler a plan uses for its root statement and for each of its batches.
#[derive(Debug, Clone, Copy)]
pub enum PlanCompiler {
    Oracle(OracleCompiler),
    SqlServer(SqlServerCompiler),
}

pub open spec fn plan_dialect(c: PlanCompiler) -> Dialect {
    match c {
        PlanCompiler::Oracle(o) => Dialect::Oracle(o.target()),
        PlanCompiler::SqlServer(s) => Dialect::SqlServer(s.target()),
    }
}

/// `r` is what compiling `op` on `g` in dialect `d` gives.
#[verifier::opaque]
pub open spec fn compiles_to(r: Result<SqlStatement, SqlCompileError>, g: MappedQueryGraph, op: QueryOperation, d: Dialect) -> bool {
    match sql_outcome(g.graph_view(), g.mapping_view(), op, d) {
        Ok(s) => r matches Ok(x) && statement_view(x) == s && names_in_order(x.bindings@) && bindings_fit(
            context_of(g.graph_view(), g.mapping_view(), op, d),
            binding_state(x.bindings@),
        ),
        Err(e) => r matches Err(x) && sql_error_view(x) == e,
    }
}

impl PlanCompiler {
    pub fn compile(self, graph: &MappedQueryGraph, operation: &QueryOperation) -> (r: Result<SqlStatement, SqlCompileError>)
        ensures
            compiles_to(r, *graph, *operation, plan_dialect(self)),
    {
        reveal(compiles_to);
        match self {
            PlanCompiler::Oracle(compiler) => graph.compile_oracle_with(operation, &compiler),
            PlanCompiler::SqlServer(compiler) => graph.compile_sql_server_with(operation, &compiler),
        }
    }
}

/// A batch of a plan: what the plan reports of it, the child graph, the key parameter,
/// and the operation that runs once the keys are bound.
#[derive(Debug)]
pub struct CompiledBatchStep<'a> {
    pub metadata: BatchPlanMetadata,
    pub graph: &'a MappedQueryGraph,
    pub parameter: String,
    pub operation: QueryOperation,
}

/// A compiled plan: the root statement now, each batch when its keys are known.
#[derive(Debug)]
pub struct CompiledQueryPlan<'a> {
    root: SqlStatement,
    batches: Vec<CompiledBatchStep<'a>>,
    compiler: PlanCompiler,
}

/// The position of the first step whose relation is named `name`.
pub open spec fn step_position<'a>(steps: Seq<CompiledBatchStep<'a>>, name: Seq<char>, n: int) -> Option<int>
    decreases n,
{
    if n <= 0 {
        None
    } else {
        match step_position(steps, name, n - 1) {
            Some(k) => Some(k),
            None => if steps[n - 1].metadata.name@ == name {
                Some(n - 1)
            } else {
                None
            },
        }
    }
}

pub open spec fn select_view(s: Option<Vec<String>>) -> Option<Seq<Seq<char>>> {
    match s {
        Some(v) => Some(texts(v@)),
        None => None,
    }
}

/// `v` is a list of the keys.
pub open spec fn key_list(v: ParameterValue, keys: Seq<ParameterValue>) -> bool {
    v matches ParameterValue::Array(items) && items@.len() == keys.len() && forall|i: int|
        0 <= i < keys.len() ==> same_value(#[trigger] items@[i], keys[i])
}

/// `x` is the step's operation with its key parameter bound to the list of `keys`.
pub open spec fn keyed_operation(x: QueryOperation, step: QueryOperation, key: Seq<char>, keys: Seq<ParameterValue>) -> bool {
    &&& select_view(x.select) == select_view(step.select)
    &&& optional_view(x.ordering) == optional_view(step.ordering)
    &&& x.offset == step.offset
    &&& x.limit == step.limit
    &&& binds_with(x.parameters@, step.parameters@, key, |v: ParameterValue| key_list(v, keys))
}

/// `r` is what compiling `op` on `g` in dialect `d` gives, with a compile error carried
/// as `ComposedCompileError::Sql`.
pub open spec fn batch_compiles_to(r: Result<SqlStatement, ComposedCompileError>, g: MappedQueryGraph, op: QueryOperation, d: Dialect) -> bool {
    match r {
        Ok(s) => compiles_to(Ok(s), g, op, d),
        Err(ComposedCompileError::Sql(e)) => compiles_to(Err(e), g, op, d),
        Err(_) => false,
    }
}

impl<'a> CompiledQueryPlan<'a> {
    pub closed spec fn root_statement(self) -> SqlStatement {
        self.root
    }

    pub closed spec fn steps(self) -> Seq<CompiledBatchStep<'a>> {
        self.batches@
    }

    pub closed spec fn dialect(self) -> Dialect {
        plan_dialect(self.compiler)
    }

    pub(crate) fn new(root: SqlStatement, batches: Vec<CompiledBatchStep<'a>>, compiler: PlanCompiler) -> (r: Self)
        ensures
            r.root_statement() == root,
            r.steps() == batches@,
            r.dialect() == plan_dialect(compiler),
    {
        CompiledQueryPlan { root, batches, compiler }
    }

    /// The statement of the root graph.
    pub fn root(&self) -> (r: &SqlStatement)
        ensures
            *r == self.root_statement(),
    {
        &self.root
    }

    /// What the plan reports of each batch, in plan order.
    pub fn batches(&self) -> (r: Vec<&BatchPlanMetadata>)
        ensures
            r@.len() == self.steps().len(),
            forall|i: int| 0 <= i < r@.len() ==> *(#[trigger] r@[i]) == self.steps()[i].metadata,
    {
        let mut r: Vec<&BatchPlanMetadata> = Vec::new();
        let mut i: usize = 0;
        while i < self.batches.len()
            invariant
                i <= self.batches@.len(),
                r@.len() == i,
                forall|j: int| 0 <= j < i ==> *(#[trigger] r@[j]) == self.batches@[j].metadata,
            decreases self.batches.len() - i,
        {
            r.push(&self.batches[i].metadata);
            i = i + 1;
        }
        r
    }

    /// Compiles the batch of the relation named `name` with its key parameter bound to
    /// `keys`; `UnknownSelectedBatchRelation` when the plan has no such batch.
    pub fn compile_batch(&self, name: &str, keys: &[ParameterValue]) -> (r: Result<SqlStatement, ComposedCompileError>)
        ensures
            match step_position(self.steps(), name@, self.steps().len() as int) {
                None => r matches Err(ComposedCompileError::UnknownSelectedBatchRelation(n)) && n@ == name@,
                Some(k) => exists|x: QueryOperation|
                    #![trigger keyed_operation(x, self.steps()[k].operation, self.steps()[k].parameter@, keys@)]
                    keyed_operation(x, self.steps()[k].operation, self.steps()[k].parameter@, keys@) && batch_compiles_to(
                        r,
                        *self.steps()[k].graph,
                        x,
                        self.dialect(),
                    ),
            },
    {
        let k = match self.find_step(name) {
            Some(k) => k,
            None => {
                return Err(ComposedCompileError::UnknownSelectedBatchRelation(text(name)));
            },
        };
        let step = &self.batches[k];
        let operation = keyed_copy(&step.operation, step.parameter.as_str(), keys);
        let compiled = self.compiler.compile(step.graph, &operation);
        let r = match compiled {
            Ok(s) => Ok(s),
            Err(e) => Err(ComposedCompileError::Sql(e)),
        };
        assert(batch_compiles_to(r, *step.graph, operation, self.dialect()));
        assert(keyed_operation(operation, self.steps()[k as int].operation, self.steps()[k as int].parameter@, keys@));
        r
    }

    fn find_step(&self, name: &str) -> (r: Option<usize>)
        ensures
            match r {
                Some(i) => step_position(self.steps(), name@, self.steps().len() as int) == Some(i as int) && i < self.steps().len(),
                None => step_position(self.steps(), name@, self.steps().len() as int) is None,
            },
    {
        let mut i: usize = 0;
        while i < self.batches.len()
            invariant
                i <= self.batches@.len(),
                step_position(self.batches@, name@, i as int) is None,
            decreases self.batches.len() - i,
        {
            if str_eq(self.batches[i].metadata.name.as_str(), name) {
                proof {
                    lemma_step_stays(self.batches@, name@, i + 1, self.batches@.len() as int);
                }
                return Some(i);
            }
            i = i + 1;
        }
        None
    }
}

/// A copy of `op` with `key` bound to the list of `keys`.
fn keyed_copy(op: &QueryOperation, key: &str, keys: &[ParameterValue]) -> (x: QueryOperation)
    ensures
        keyed_operation(x, *op, key@, keys@),
{
    let mut items: Vec<ParameterValue> = Vec::new();
    let mut j: usize = 0;
    while j < keys.len()
        invariant
            j <= keys@.len(),
            items@.len() == j,
            forall|m: int| 0 <= m < j ==> same_value(#[trigger] items@[m], keys@[m]),
        decreases keys.len() - j,
    {
        items.push(keys[j].copy());
        j = j + 1;
    }
    let list = ParameterValue::Array(items);
    assert(key_list(list, keys@));
    let mut parameters = copy_entries(&op.parameters);
    match entry_position(&op.parameters, key) {
        Some(k) => {
            parameters.set(k, (text(key), list));
        },
        None => {
            parameters.push((text(key), list));
        },
    }
    let select = match &op.select {
        Some(v) => {
            let mut copies: Vec<String> = Vec::new();
            let mut m: usize = 0;
            while m < v.len()
                invariant
                    m <= v@.len(),
                    copies@.len() == m,
                    forall|q: int| 0 <= q < m ==> (#[trigger] copies@[q])@ == v@[q]@,
                decreases v.len() - m,
            {
                copies.push(text(v[m].as_str()));
                m = m + 1;
            }
            assert(texts(copies@) =~= texts(v@));
            Some(copies)
        },
        None => None,
    };
    QueryOperation {
        select,
        ordering: crate::mapping::copy_optional(&op.ordering),
        parameters,
        offset: op.offset,
        limit: op.limit,
    }
}

proof fn lemma_step_stays<'a>(steps: Seq<CompiledBatchStep<'a>>, name: Seq<char>, i: int, n: int)
    requires
        0 <= i <= n,
        step_position(steps, name, i) is Some,
    ensures
        step_position(steps, name, n) == step_position(steps, name, i),
    decreases n - i,
{
    if n > i {
        lemma_step_stays(steps, name, i, n - 1);
    }
}

} // verus!
