//! A graph definition that passed every check, with what the checks computed.
use vstd::prelude::*;

use crate::analysis::index::{
    field_index, field_names, lemma_first_key_range, lemma_last_key_range, ordering_index,
    ordering_names, parameter_index, parameter_names, relation_index, relation_names, root_index,
    source_index, source_keys, spec_field, spec_ordering, spec_parameter, spec_relation, spec_root,
    spec_source,
};
use crate::analysis::projection::{branch_issues, expression_path, infer_expression_path, lemma_expression_path_bounded};
use crate::analysis::topology::{edges_from, lemma_edges_from, shortest_paths, GraphTopology};
use crate::definition::{
    spec_is_summary, FieldDefinition, GraphDefinition, OrderingDefinition, ParameterDefinition,
    ProjectionFieldDefinition, ProjectionFieldRole, RelationDefinition, SourceDefinition,
};
use crate::expression::{spec_contains_aggregate, Expression};
use crate::path::{join_dots, parse_path, path_starts_with, path_view, same_path, split_dots, starts_with};
use crate::text::{concat, indexed};
use crate::type_system::ExpressionType;
use crate::type_validation::{
    check_types, field_type_check, infer, infer_list, projection_types, type_issues,
};
use crate::validation::expression::{expr_issues, list_issues, SpecContext};
use crate::validation::structure::{
    projection_field_issue, projection_field_section, projection_issues, root_issues,
    structure_issues, unrestricted_context,
};
use crate::validation::{at, definition_issues, issues_view, validate, DefinitionIssue, DefinitionIssues, SpecIssue};

verus! {

/// Whether a constraint applies to source rows or to groups.
#[derive(Debug, Clone, Copy, PartialEq, Eq, Structural)]
pub enum ConstraintPhase {
    BeforeAggregation,
    AfterAggregation,
}

pub open spec fn constraint_phase_of(e: Expression) -> ConstraintPhase {
    if spec_contains_aggregate(e) {
        ConstraintPhase::AfterAggregation
    } else {
        ConstraintPhase::BeforeAggregation
    }
}

pub open spec fn field_branch_section(d: GraphDefinition, t: GraphTopology, n: int) -> Seq<SpecIssue>
    decreases n,
{
    if n <= 0 {
        seq![]
    } else {
        field_branch_section(d, t, n - 1) + branch_issues(
            d,
            t,
            d.projection.fields@[n - 1].expression,
            at("projection.fields"@, n - 1) + ".expression"@,
        )
    }
}

pub open spec fn object_branch_section(d: GraphDefinition, t: GraphTopology, n: int) -> Seq<SpecIssue>
    decreases n,
{
    if n <= 0 {
        seq![]
    } else {
        object_branch_section(d, t, n - 1) + branch_issues(
            d,
            t,
            d.projection.objects@[n - 1].presence,
            at("projection.objects"@, n - 1) + ".presence"@,
        )
    }
}

/// Projection expressions that read sources on different relation branches.
pub open spec fn branch_section(d: GraphDefinition, t: GraphTopology) -> Seq<SpecIssue> {
    field_branch_section(d, t, d.projection.fields@.len() as int) + object_branch_section(
        d,
        t,
        d.projection.objects@.len() as int,
    )
}

/// The issues that compiling reports: those of the first stage that finds any.
pub open spec fn compile_issues(d: GraphDefinition, t: GraphTopology) -> Seq<SpecIssue> {
    if definition_issues(d, t).len() > 0 {
        definition_issues(d, t)
    } else if type_issues(d, t).len() > 0 {
        type_issues(d, t)
    } else {
        branch_section(d, t)
    }
}

/// The positions of the dimension fields among the first `n`, in order.
pub open spec fn dimension_positions(d: GraphDefinition, n: int) -> Seq<usize>
    decreases n,
{
    if n <= 0 {
        seq![]
    } else {
        dimension_positions(d, n - 1) + if d.projection.fields@[n - 1].role
            == ProjectionFieldRole::Dimension {
            seq![(n - 1) as usize]
        } else {
            seq![]
        }
    }
}

/// The last projection field whose path is `p`, among the first `n`.
pub open spec fn projection_position(d: GraphDefinition, p: Seq<Seq<char>>, n: int) -> Option<int>
    decreases n,
{
    if n <= 0 {
        None
    } else if path_view(d.projection.fields@[n - 1].path@) == p {
        Some(n - 1)
    } else {
        projection_position(d, p, n - 1)
    }
}

pub open spec fn spec_projection(d: GraphDefinition, p: Seq<Seq<char>>) -> Option<int> {
    projection_position(d, p, d.projection.fields@.len() as int)
}

#[derive(Debug)]
pub struct CompiledGraph {
    definition: GraphDefinition,
    topology: GraphTopology,
    projection_types: Vec<ExpressionType>,
    projection_paths: Vec<Vec<usize>>,
    object_paths: Vec<Vec<usize>>,
    dimension_indices: Vec<usize>,
    summary: bool,
    constraint_phases: Vec<ConstraintPhase>,
}

impl CompiledGraph {
    /// The definition that was compiled.
    pub closed spec fn graph(self) -> GraphDefinition {
        self.definition
    }

    /// The relation topology computed for the definition.
    pub closed spec fn graph_topology(self) -> GraphTopology {
        self.topology
    }

    /// The relation path of each projection field.
    pub closed spec fn field_paths(self) -> Seq<Seq<usize>> {
        Seq::new(self.projection_paths@.len(), |i: int| self.projection_paths@[i]@)
    }

    /// The relation path of each projection object.
    pub closed spec fn object_paths(self) -> Seq<Seq<usize>> {
        Seq::new(self.object_paths@.len(), |i: int| self.object_paths@[i]@)
    }

    /// The positions of the dimension fields.
    pub closed spec fn dimensions(self) -> Seq<usize> {
        self.dimension_indices@
    }

    /// The phase of each constraint.
    pub closed spec fn phases(self) -> Seq<ConstraintPhase> {
        self.constraint_phases@
    }

    /// What holds of every compiled graph.
    #[verifier::type_invariant]
    pub closed spec fn well_formed(self) -> bool {
        let d = self.definition;
        let t = self.topology;
        &&& t.wf(d)
        &&& compile_issues(d, t).len() == 0
        &&& definition_issues(d, t).len() == 0
        &&& type_issues(d, t).len() == 0
        &&& branch_section(d, t).len() == 0
        &&& self.projection_types@.len() == d.projection.fields@.len()
        &&& forall|i: int|
            0 <= i < d.projection.fields@.len() ==> #[trigger] projection_types(d, t)[i] == Some(
                self.projection_types@[i],
            )
        &&& self.projection_paths@.len() == d.projection.fields@.len()
        &&& forall|i: int|
            0 <= i < d.projection.fields@.len() ==> (#[trigger] self.projection_paths@[i])@
                == expression_path(d, t, d.projection.fields@[i].expression)
        &&& self.object_paths@.len() == d.projection.objects@.len()
        &&& forall|i: int|
            0 <= i < d.projection.objects@.len() ==> (#[trigger] self.object_paths@[i])@
                == expression_path(d, t, d.projection.objects@[i].presence)
        &&& self.dimension_indices@ == dimension_positions(d, d.projection.fields@.len() as int)
        &&& self.summary == spec_is_summary(d)
        &&& self.constraint_phases@.len() == d.constraints@.len()
        &&& forall|i: int|
            0 <= i < d.constraints@.len() ==> #[trigger] self.constraint_phases@[i]
                == constraint_phase_of(d.constraints@[i].predicate)
    }
}

proof fn lemma_field_sections_empty(d: GraphDefinition, t: GraphTopology, n: int, i: int)
    requires
        0 <= i < n,
        projection_field_section(d, t, n).len() == 0,
    ensures
        projection_field_issue(d, t, i).len() == 0,
    decreases n,
{
    if i < n - 1 {
        lemma_field_sections_empty(d, t, n - 1, i);
    }
}

proof fn lemma_type_sections_empty(d: GraphDefinition, t: GraphTopology, n: int, i: int)
    requires
        0 <= i < n,
        crate::type_validation::field_type_section(d, t, n).len() == 0,
    ensures
        field_type_check(d, t, i).1.len() == 0,
    decreases n,
{
    if i < n - 1 {
        lemma_type_sections_empty(d, t, n - 1, i);
    }
}

/// An expression whose references all resolve, and whose type check reports nothing,
/// has a type.
proof fn lemma_infer_some(d: GraphDefinition, t: GraphTopology, e: Expression, loc: Seq<char>, ctx: SpecContext)
    requires
        expr_issues(d, t, e, loc, ctx).len() == 0,
        infer(d, t, e, loc).1.len() == 0,
    ensures
        infer(d, t, e, loc).0 is Some,
    decreases e, 0nat,
{
    match e {
        Expression::Eq { left, right } | Expression::NotEq { left, right }
        | Expression::LessThan { left, right } | Expression::LessThanOrEqual { left, right }
        | Expression::GreaterThan { left, right } | Expression::GreaterThanOrEqual { left, right } => {
            lemma_infer_some(d, t, *left, loc + ".left"@, ctx);
            lemma_infer_some(d, t, *right, loc + ".right"@, ctx);
        },
        Expression::Like { expression, pattern } => {
            lemma_infer_some(d, t, *expression, loc + ".expression"@, ctx);
            lemma_infer_some(d, t, *pattern, loc + ".pattern"@, ctx);
        },
        Expression::In { expression, values } => {
            lemma_infer_some(d, t, *expression, loc + ".expression"@, ctx);
            lemma_infer_list_some(d, t, values@, loc + ".values"@, ctx, values@.len());
        },
        Expression::InParameter { expression, .. } => {
            lemma_infer_some(d, t, *expression, loc + ".expression"@, ctx);
        },
        Expression::And { expressions } | Expression::Or { expressions } => {
            lemma_infer_list_some(d, t, expressions@, loc + ".expressions"@, ctx, expressions@.len());
        },
        Expression::Function { arguments, .. } => {
            lemma_infer_list_some(d, t, arguments@, loc + ".arguments"@, ctx, arguments@.len());
        },
        Expression::Not { expression } | Expression::IsNull { expression }
        | Expression::IsNotNull { expression } => {
            lemma_infer_some(d, t, *expression, loc + ".expression"@, ctx);
        },
        Expression::Aggregate { expression, .. } => {
            if let Some(x) = expression {
                lemma_infer_some(d, t, *x, loc + ".expression"@, ctx);
            }
        },
        _ => {},
    }
}

proof fn lemma_infer_list_some(d: GraphDefinition, t: GraphTopology, es: Seq<Expression>, loc: Seq<char>, ctx: SpecContext, n: nat)
    requires
        list_issues(d, t, es, loc, ctx, n).len() == 0,
        infer_list(d, t, es, loc, n).1.len() == 0,
    ensures
        infer_list(d, t, es, loc, n).0 is Some,
    decreases es, n,
{
    if n == 0 || n > es.len() {
    } else {
        lemma_infer_list_some(d, t, es, loc, ctx, (n - 1) as nat);
        lemma_infer_some(d, t, es[n - 1], at(loc, n - 1), ctx);
    }
}

/// A definition that passes validation and type checking gives every projection
/// field a resolved type, and has a root.
pub proof fn law_checked_definitions_are_typed(d: GraphDefinition, t: GraphTopology)
    requires
        t.wf(d),
        definition_issues(d, t).len() == 0,
        type_issues(d, t).len() == 0,
    ensures
        spec_root(d) is Some,
        forall|i: int| 0 <= i < d.projection.fields@.len() ==> (#[trigger] projection_types(d, t)[i]) is Some,
{
    let n = d.projection.fields@.len() as int;
    assert(structure_issues(d, t).len() == 0);
    assert(root_issues(d).len() == 0);
    assert(projection_issues(d, t).len() == 0);
    assert(projection_field_section(d, t, n).len() == 0);
    assert(crate::type_validation::field_type_section(d, t, n).len() == 0);
    assert forall|i: int| 0 <= i < n implies (#[trigger] projection_types(d, t)[i]) is Some by {
        lemma_field_sections_empty(d, t, n, i);
        lemma_type_sections_empty(d, t, n, i);
        let f = d.projection.fields@[i];
        let loc = at("projection.fields"@, i) + ".expression"@;
        assert(expr_issues(d, t, f.expression, loc, unrestricted_context()).len() == 0);
        assert(infer(d, t, f.expression, loc).1.len() == 0);
        lemma_infer_some(d, t, f.expression, loc, unrestricted_context());
    }
}


/// What compiling `d` gives, for the topology `t` computed for it.
pub open spec fn compile_outcome(d: GraphDefinition, t: GraphTopology, r: Result<CompiledGraph, DefinitionIssues>) -> bool {
    match r {
        Ok(g) => g.graph() == d && g.graph_topology() == t && compile_issues(d, t).len() == 0,
        Err(e) => compile_issues(d, t).len() > 0 && issues_view(e.0@) == compile_issues(d, t),
    }
}

fn field_paths_of(d: &GraphDefinition, t: &GraphTopology, issues: &mut Vec<DefinitionIssue>) -> (r: Vec<Vec<usize>>)
    requires
        t.wf(*d),
    ensures
        r@.len() == d.projection.fields@.len(),
        forall|j: int| 0 <= j < r@.len() ==> (#[trigger] r@[j])@ == expression_path(*d, *t, d.projection.fields@[j].expression),
        issues_view(final(issues)@) == issues_view(old(issues)@) + field_branch_section(*d, *t, d.projection.fields@.len() as int),
{
    let ghost start = issues_view(issues@);
    let mut paths: Vec<Vec<usize>> = Vec::new();
    let mut i: usize = 0;
    while i < d.projection.fields.len()
        invariant
            t.wf(*d),
            i <= d.projection.fields@.len(),
            paths@.len() == i,
            forall|j: int| 0 <= j < i ==> (#[trigger] paths@[j])@ == expression_path(*d, *t, d.projection.fields@[j].expression),
            issues_view(issues@) == start + field_branch_section(*d, *t, i as int),
        decreases d.projection.fields.len() - i,
    {
        let loc = indexed("projection.fields", i);
        let loc = concat(loc.as_str(), ".expression");
        let p = infer_expression_path(d, t, &d.projection.fields[i].expression, loc.as_str(), issues);
        paths.push(p);
        assert(issues_view(issues@) =~= start + field_branch_section(*d, *t, (i + 1) as int));
        i = i + 1;
    }
    paths
}

fn object_paths_of(d: &GraphDefinition, t: &GraphTopology, issues: &mut Vec<DefinitionIssue>) -> (r: Vec<Vec<usize>>)
    requires
        t.wf(*d),
    ensures
        r@.len() == d.projection.objects@.len(),
        forall|j: int| 0 <= j < r@.len() ==> (#[trigger] r@[j])@ == expression_path(*d, *t, d.projection.objects@[j].presence),
        issues_view(final(issues)@) == issues_view(old(issues)@) + object_branch_section(*d, *t, d.projection.objects@.len() as int),
{
    let ghost start = issues_view(issues@);
    let mut paths: Vec<Vec<usize>> = Vec::new();
    let mut i: usize = 0;
    while i < d.projection.objects.len()
        invariant
            t.wf(*d),
            i <= d.projection.objects@.len(),
            paths@.len() == i,
            forall|j: int| 0 <= j < i ==> (#[trigger] paths@[j])@ == expression_path(*d, *t, d.projection.objects@[j].presence),
            issues_view(issues@) == start + object_branch_section(*d, *t, i as int),
        decreases d.projection.objects.len() - i,
    {
        let loc = indexed("projection.objects", i);
        let loc = concat(loc.as_str(), ".presence");
        let p = infer_expression_path(d, t, &d.projection.objects[i].presence, loc.as_str(), issues);
        paths.push(p);
        assert(issues_view(issues@) =~= start + object_branch_section(*d, *t, (i + 1) as int));
        i = i + 1;
    }
    paths
}

fn resolved_types(d: &GraphDefinition, t: &GraphTopology, types: Vec<Option<ExpressionType>>) -> (r: Vec<ExpressionType>)
    requires
        types@ == projection_types(*d, *t),
        forall|j: int| 0 <= j < d.projection.fields@.len() ==> (#[trigger] projection_types(*d, *t)[j]) is Some,
    ensures
        r@.len() == d.projection.fields@.len(),
        forall|j: int| 0 <= j < r@.len() ==> projection_types(*d, *t)[j] == Some(#[trigger] r@[j]),
{
    let mut resolved: Vec<ExpressionType> = Vec::new();
    let mut i: usize = 0;
    while i < types.len()
        invariant
            types@ == projection_types(*d, *t),
            types@.len() == d.projection.fields@.len(),
            forall|j: int| 0 <= j < d.projection.fields@.len() ==> (#[trigger] projection_types(*d, *t)[j]) is Some,
            i <= types@.len(),
            resolved@.len() == i,
            forall|j: int| 0 <= j < i ==> projection_types(*d, *t)[j] == Some(#[trigger] resolved@[j]),
        decreases types.len() - i,
    {
        assert(projection_types(*d, *t)[i as int] is Some);
        match types[i] {
            Some(ty) => resolved.push(ty),
            None => {
                proof {
                    assert(false);
                }
            },
        }
        i = i + 1;
    }
    resolved
}

fn dimension_list(d: &GraphDefinition) -> (r: Vec<usize>)
    ensures
        r@ == dimension_positions(*d, d.projection.fields@.len() as int),
{
    let mut dimension_indices: Vec<usize> = Vec::new();
    let mut i: usize = 0;
    while i < d.projection.fields.len()
        invariant
            i <= d.projection.fields@.len(),
            dimension_indices@ == dimension_positions(*d, i as int),
        decreases d.projection.fields.len() - i,
    {
        if d.projection.fields[i].role == ProjectionFieldRole::Dimension {
            dimension_indices.push(i);
        }
        assert(dimension_indices@ =~= dimension_positions(*d, (i + 1) as int));
        i = i + 1;
    }
    dimension_indices
}

fn phase_list(d: &GraphDefinition) -> (r: Vec<ConstraintPhase>)
    ensures
        r@.len() == d.constraints@.len(),
        forall|j: int| 0 <= j < r@.len() ==> #[trigger] r@[j] == constraint_phase_of(d.constraints@[j].predicate),
{
    let mut phases: Vec<ConstraintPhase> = Vec::new();
    let mut i: usize = 0;
    while i < d.constraints.len()
        invariant
            i <= d.constraints@.len(),
            phases@.len() == i,
            forall|j: int| 0 <= j < i ==> #[trigger] phases@[j] == constraint_phase_of(d.constraints@[j].predicate),
        decreases d.constraints.len() - i,
    {
        if d.constraints[i].predicate.contains_aggregate() {
            phases.push(ConstraintPhase::AfterAggregation);
        } else {
            phases.push(ConstraintPhase::BeforeAggregation);
        }
        i = i + 1;
    }
    phases
}

fn type_check(d: &GraphDefinition, t: &GraphTopology) -> (r: Result<Vec<Option<ExpressionType>>, DefinitionIssues>)
    requires
        t.wf(*d),
    ensures
        r matches Ok(types) ==> type_issues(*d, *t).len() == 0 && types@ == projection_types(*d, *t),
        r matches Err(e) ==> type_issues(*d, *t).len() > 0 && issues_view(e.0@) == type_issues(*d, *t),
{
    let mut issues: Vec<DefinitionIssue> = Vec::new();
    assert(issues_view(issues@) =~= seq![]);
    let types = check_types(d, t, &mut issues);
    assert(issues_view(issues@) =~= type_issues(*d, *t));
    if issues.len() > 0 {
        Err(DefinitionIssues::from_vec(issues))
    } else {
        Ok(types)
    }
}

fn branch_check(d: &GraphDefinition, t: &GraphTopology) -> (r: Result<(Vec<Vec<usize>>, Vec<Vec<usize>>), DefinitionIssues>)
    requires
        t.wf(*d),
    ensures
        r matches Ok(paths) ==> branch_section(*d, *t).len() == 0
            && paths.0@.len() == d.projection.fields@.len()
            && (forall|j: int| 0 <= j < paths.0@.len() ==> (#[trigger] paths.0@[j])@ == expression_path(*d, *t, d.projection.fields@[j].expression))
            && paths.1@.len() == d.projection.objects@.len()
            && (forall|j: int| 0 <= j < paths.1@.len() ==> (#[trigger] paths.1@[j])@ == expression_path(*d, *t, d.projection.objects@[j].presence)),
        r matches Err(e) ==> branch_section(*d, *t).len() > 0 && issues_view(e.0@) == branch_section(*d, *t),
{
    let mut issues: Vec<DefinitionIssue> = Vec::new();
    assert(issues_view(issues@) =~= seq![]);
    let fields = field_paths_of(d, t, &mut issues);
    let objects = object_paths_of(d, t, &mut issues);
    assert(issues_view(issues@) =~= branch_section(*d, *t));
    if issues.len() > 0 {
        Err(DefinitionIssues::from_vec(issues))
    } else {
        Ok((fields, objects))
    }
}

impl CompiledGraph {
    /// Validates, type-checks and analyses a definition.
    pub fn try_from_definition(definition: GraphDefinition) -> (r: Result<CompiledGraph, DefinitionIssues>)
        ensures
            exists|t: GraphTopology| t.wf(definition) && shortest_paths(definition, t.relation_paths@) && compile_outcome(definition, t, r),
    {
        let t = GraphTopology::build(&definition);
        match validate(&definition, &t) {
            Err(e) => {
                assert(compile_outcome(definition, t, Err(e)));
                return Err(e);
            },
            Ok(()) => {},
        }
        let types = match type_check(&definition, &t) {
            Err(e) => {
                assert(compile_outcome(definition, t, Err(e)));
                return Err(e);
            },
            Ok(types) => types,
        };
        proof {
            law_checked_definitions_are_typed(definition, t);
        }
        let (field_paths, object_paths) = match branch_check(&definition, &t) {
            Err(e) => {
                assert(compile_outcome(definition, t, Err(e)));
                return Err(e);
            },
            Ok(paths) => paths,
        };
        let resolved = resolved_types(&definition, &t, types);
        let dimension_indices = dimension_list(&definition);
        let phases = phase_list(&definition);
        let summary = definition.is_summary();
        let g = CompiledGraph {
            definition,
            topology: t,
            projection_types: resolved,
            projection_paths: field_paths,
            object_paths,
            dimension_indices,
            summary,
            constraint_phases: phases,
        };
        assert(compile_outcome(g.definition, t, Ok(g)));
        Ok(g)
    }
}

impl GraphDefinition {
    /// Compiles the definition: validation, type checking and projection analysis.
    pub fn compile(self) -> (r: Result<CompiledGraph, DefinitionIssues>)
        ensures
            exists|t: GraphTopology| t.wf(self) && shortest_paths(self, t.relation_paths@) && compile_outcome(self, t, r),
    {
        CompiledGraph::try_from_definition(self)
    }
}


pub open spec fn relations_at(d: GraphDefinition, p: Seq<usize>) -> Seq<RelationDefinition> {
    Seq::new(p.len(), |k: int| d.relations@[p[k] as int])
}

pub open spec fn derefs<T>(v: Seq<&T>) -> Seq<T> {
    Seq::new(v.len(), |k: int| *v[k])
}

fn relations_of<'a>(d: &'a GraphDefinition, p: &Vec<usize>) -> (r: Vec<&'a RelationDefinition>)
    requires
        forall|k: int| 0 <= k < p@.len() ==> (#[trigger] p@[k]) < d.relations@.len(),
    ensures
        derefs(r@) == relations_at(*d, p@),
{
    let mut r: Vec<&RelationDefinition> = Vec::new();
    let mut k: usize = 0;
    while k < p.len()
        invariant
            forall|j: int| 0 <= j < p@.len() ==> (#[trigger] p@[j]) < d.relations@.len(),
            k <= p@.len(),
            r@.len() == k,
            forall|j: int| 0 <= j < k ==> *(#[trigger] r@[j]) == d.relations@[p@[j] as int],
        decreases p.len() - k,
    {
        r.push(&d.relations[p[k]]);
        k = k + 1;
    }
    assert(derefs(r@) =~= relations_at(*d, p@));
    r
}

impl CompiledGraph {
    pub fn definition(&self) -> (r: &GraphDefinition)
        ensures
            *r == self.graph(),
    {
        &self.definition
    }

    pub fn is_summary(&self) -> (r: bool)
        ensures
            r == spec_is_summary(self.graph()),
    {
        proof {
            use_type_invariant(self);
        }
        self.summary
    }

    /// The root source; a compiled graph always has one.
    pub fn root(&self) -> (r: &SourceDefinition)
        ensures
            spec_root(self.graph()) matches Some(i) && *r == self.graph().sources@[i],
    {
        proof {
            use_type_invariant(self);
            law_checked_definitions_are_typed(self.definition, self.topology);
        }
        let i = match root_index(&self.definition) {
            Some(i) => i,
            None => {
                proof {
                    assert(false);
                }
                0
            },
        };
        proof {
            lemma_first_key_range(source_keys(self.definition), self.definition.root@);
        }
        &self.definition.sources[i]
    }

    pub fn source(&self, key: &str) -> (r: Option<&SourceDefinition>)
        ensures
            match spec_source(self.graph(), key@) {
                Some(i) => r == Some(&self.graph().sources@[i]),
                None => r is None,
            },
    {
        match source_index(&self.definition, key) {
            Some(i) => {
                proof {
                    lemma_first_key_range(source_keys(self.definition), key@);
                }
                Some(&self.definition.sources[i])
            },
            None => None,
        }
    }

    pub fn field(&self, source: &str, field: &str) -> (r: Option<&FieldDefinition>)
        ensures
            match spec_source(self.graph(), source@) {
                Some(si) => match spec_field(self.graph(), si, field@) {
                    Some(fi) => r == Some(&self.graph().sources@[si].fields@[fi]),
                    None => r is None,
                },
                None => r is None,
            },
    {
        let si = match source_index(&self.definition, source) {
            Some(si) => si,
            None => return None,
        };
        proof {
            lemma_first_key_range(source_keys(self.definition), source@);
        }
        match field_index(&self.definition, si, field) {
            Some(fi) => {
                proof {
                    lemma_first_key_range(field_names(self.definition, si as int), field@);
                }
                Some(&self.definition.sources[si].fields[fi])
            },
            None => None,
        }
    }

    pub fn parameter(&self, name: &str) -> (r: Option<&ParameterDefinition>)
        ensures
            match spec_parameter(self.graph(), name@) {
                Some(i) => r == Some(&self.graph().parameters@[i]),
                None => r is None,
            },
    {
        match parameter_index(&self.definition, name) {
            Some(i) => {
                proof {
                    lemma_last_key_range(parameter_names(self.definition), name@);
                }
                Some(&self.definition.parameters[i])
            },
            None => None,
        }
    }

    pub fn relation(&self, name: &str) -> (r: Option<&RelationDefinition>)
        ensures
            match spec_relation(self.graph(), name@) {
                Some(i) => r == Some(&self.graph().relations@[i]),
                None => r is None,
            },
    {
        match relation_index(&self.definition, name) {
            Some(i) => {
                proof {
                    lemma_first_key_range(relation_names(self.definition), name@);
                }
                Some(&self.definition.relations[i])
            },
            None => None,
        }
    }

    pub fn ordering(&self, name: &str) -> (r: Option<&OrderingDefinition>)
        ensures
            match spec_ordering(self.graph(), name@) {
                Some(i) => r == Some(&self.graph().orderings@[i]),
                None => r is None,
            },
    {
        match ordering_index(&self.definition, name) {
            Some(i) => {
                proof {
                    lemma_first_key_range(ordering_names(self.definition), name@);
                }
                Some(&self.definition.orderings[i])
            },
            None => None,
        }
    }

    /// The position of the projection field with the given path.
    pub fn projection_index(&self, path: &Vec<String>) -> (r: Option<usize>)
        ensures
            r matches Some(i) ==> spec_projection(self.graph(), path_view(path@)) == Some(i as int)
                && i < self.graph().projection.fields@.len(),
            r is None ==> spec_projection(self.graph(), path_view(path@)) is None,
    {
        let fields = &self.definition.projection.fields;
        let mut found: Option<usize> = None;
        let mut i: usize = 0;
        while i < fields.len()
            invariant
                *fields == self.definition.projection.fields,
                i <= fields@.len(),
                found matches Some(f) ==> projection_position(self.definition, path_view(path@), i as int) == Some(f as int) && f < i,
                found is None ==> projection_position(self.definition, path_view(path@), i as int) is None,
            decreases fields.len() - i,
        {
            if same_path(&fields[i].path, path) {
                found = Some(i);
            }
            i = i + 1;
        }
        found
    }

    /// The projection field at a dotted path.
    pub fn projection(&self, path: &str) -> (r: Option<&ProjectionFieldDefinition>)
        ensures
            match spec_projection(self.graph(), split_dots(path@)) {
                Some(i) => r == Some(&self.graph().projection.fields@[i]),
                None => r is None,
            },
    {
        let parsed = parse_path(path);
        match self.projection_index(&parsed) {
            Some(i) => Some(&self.definition.projection.fields[i]),
            None => None,
        }
    }

    /// The resolved type of the projection field at a dotted path.
    pub fn projection_type(&self, path: &str) -> (r: Option<ExpressionType>)
        ensures
            match spec_projection(self.graph(), split_dots(path@)) {
                Some(i) => r is Some && projection_types(self.graph(), self.graph_topology())[i] == r,
                None => r is None,
            },
    {
        proof {
            use_type_invariant(self);
        }
        let parsed = parse_path(path);
        match self.projection_index(&parsed) {
            Some(i) => Some(self.projection_types[i]),
            None => None,
        }
    }

    /// The relations that leave a source, in definition order.
    pub fn outgoing_relations(&self, source: &str) -> (r: Option<Vec<&RelationDefinition>>)
        ensures
            match spec_source(self.graph(), source@) {
                Some(si) => r matches Some(v) && derefs(v@) == relations_at(
                    self.graph(),
                    edges_from(self.graph(), si, self.graph().relations@.len() as int),
                ),
                None => r is None,
            },
    {
        proof {
            use_type_invariant(self);
        }
        let si = match source_index(&self.definition, source) {
            Some(si) => si,
            None => return None,
        };
        let relation_count = self.definition.relations.len();
        proof {
            lemma_first_key_range(source_keys(self.definition), source@);
            lemma_edges_from(self.definition, si as int, relation_count as int);
        }
        Some(relations_of(&self.definition, self.topology.outgoing(si)))
    }

    /// The relations from the root to a source, in order.
    pub fn relation_path(&self, source: &str) -> (r: Option<Vec<&RelationDefinition>>)
        ensures
            match spec_source(self.graph(), source@) {
                Some(si) => match self.graph_topology().spec_path(si) {
                    Some(p) => r matches Some(v) && derefs(v@) == relations_at(self.graph(), p),
                    None => r is None,
                },
                None => r is None,
            },
    {
        proof {
            use_type_invariant(self);
        }
        let si = match source_index(&self.definition, source) {
            Some(si) => si,
            None => return None,
        };
        proof {
            lemma_first_key_range(source_keys(self.definition), source@);
        }
        match self.topology.relation_path(si) {
            Some(p) => {
                proof {
                    assert(crate::analysis::topology::paths_tree(self.definition, self.topology.relation_paths@));
                    assert(self.topology.relation_paths@[si as int] == Some(*p));
                }
                Some(relations_of(&self.definition, p))
            },
            None => None,
        }
    }
}


/// Object `j` holds some selected field: a field whose path extends the object's path.
pub open spec fn object_selected(d: GraphDefinition, sel: Seq<usize>, j: int) -> bool {
    exists|k: int|
        0 <= k < sel.len() && path_view(d.projection.fields@[#[trigger] sel[k] as int].path@).len()
            > path_view(d.projection.objects@[j].path@).len() && starts_with(
            path_view(d.projection.fields@[sel[k] as int].path@),
            path_view(d.projection.objects@[j].path@),
        )
}

/// The selected objects among the first `n` whose path has `len` segments, in order.
pub open spec fn objects_of_length(d: GraphDefinition, sel: Seq<usize>, len: int, n: int) -> Seq<usize>
    decreases n,
{
    if n <= 0 {
        seq![]
    } else {
        objects_of_length(d, sel, len, n - 1) + if d.projection.objects@[n - 1].path@.len() == len
            && object_selected(d, sel, n - 1) {
            seq![(n - 1) as usize]
        } else {
            seq![]
        }
    }
}

/// The selected objects whose path has at most `len` segments: longest paths first,
/// then in definition order.
pub open spec fn objects_by_length(d: GraphDefinition, sel: Seq<usize>, len: int) -> Seq<usize>
    decreases len + 1,
{
    if len < 0 {
        seq![]
    } else {
        objects_of_length(d, sel, len, d.projection.objects@.len() as int) + objects_by_length(
            d,
            sel,
            len - 1,
        )
    }
}

pub open spec fn max_object_length(d: GraphDefinition, n: int) -> int
    decreases n,
{
    if n <= 0 {
        0
    } else {
        let l = d.projection.objects@[n - 1].path@.len() as int;
        let m = max_object_length(d, n - 1);
        if l > m {
            l
        } else {
            m
        }
    }
}

/// The projection objects that hold a selected field, deepest first.
pub open spec fn selected_objects(d: GraphDefinition, sel: Seq<usize>) -> Seq<usize> {
    objects_by_length(d, sel, max_object_length(d, d.projection.objects@.len() as int))
}

fn holds_selected_field(d: &GraphDefinition, sel: &Vec<usize>, j: usize) -> (r: bool)
    requires
        j < d.projection.objects@.len(),
        forall|k: int| 0 <= k < sel@.len() ==> (#[trigger] sel@[k]) < d.projection.fields@.len(),
    ensures
        r == object_selected(*d, sel@, j as int),
{
    let object_path = &d.projection.objects[j].path;
    let mut k: usize = 0;
    while k < sel.len()
        invariant
            j < d.projection.objects@.len(),
            *object_path == d.projection.objects@[j as int].path,
            forall|x: int| 0 <= x < sel@.len() ==> (#[trigger] sel@[x]) < d.projection.fields@.len(),
            k <= sel@.len(),
            forall|x: int| 0 <= x < k ==> !(path_view(d.projection.fields@[#[trigger] sel@[x] as int].path@).len()
                > path_view(d.projection.objects@[j as int].path@).len() && starts_with(
                path_view(d.projection.fields@[sel@[x] as int].path@),
                path_view(d.projection.objects@[j as int].path@),
            )),
        decreases sel.len() - k,
    {
        let field_path = &d.projection.fields[sel[k]].path;
        if field_path.len() > object_path.len() && path_starts_with(field_path, object_path) {
            return true;
        }
        k = k + 1;
    }
    false
}

impl CompiledGraph {
    /// The projection objects that hold one of the given fields: longest paths first, then
    /// in definition order.
    pub fn selected_projection_object_indices(&self, sel: &Vec<usize>) -> (r: Vec<usize>)
        requires
            forall|k: int| 0 <= k < sel@.len() ==> (#[trigger] sel@[k]) < self.graph().projection.fields@.len(),
        ensures
            r@ == selected_objects(self.graph(), sel@),
            forall|k: int| 0 <= k < r@.len() ==> (#[trigger] r@[k]) < self.graph().projection.objects@.len(),
    {
        let d = &self.definition;
        let objects = &d.projection.objects;
        let mut longest: usize = 0;
        let mut j: usize = 0;
        while j < objects.len()
            invariant
                *objects == d.projection.objects,
                j <= objects@.len(),
                longest == max_object_length(*d, j as int),
            decreases objects.len() - j,
        {
            if objects[j].path.len() > longest {
                longest = objects[j].path.len();
            }
            j = j + 1;
        }
        let mut r: Vec<usize> = Vec::new();
        let mut remaining: u128 = longest as u128 + 1;
        while remaining > 0
            invariant
                *objects == d.projection.objects,
                *d == self.graph(),
                forall|k: int| 0 <= k < sel@.len() ==> (#[trigger] sel@[k]) < d.projection.fields@.len(),
                remaining <= longest + 1,
                longest == max_object_length(*d, objects@.len() as int),
                objects_by_length(*d, sel@, longest as int) == r@ + objects_by_length(*d, sel@, remaining - 1),
                forall|k: int| 0 <= k < r@.len() ==> (#[trigger] r@[k]) < objects@.len(),
            decreases remaining,
        {
            let len = (remaining - 1) as usize;
            let ghost before = r@;
            let mut j: usize = 0;
            while j < objects.len()
                invariant
                    *objects == d.projection.objects,
                    forall|k: int| 0 <= k < sel@.len() ==> (#[trigger] sel@[k]) < d.projection.fields@.len(),
                    j <= objects@.len(),
                    r@ == before + objects_of_length(*d, sel@, len as int, j as int),
                    forall|k: int| 0 <= k < r@.len() ==> (#[trigger] r@[k]) < objects@.len(),
                decreases objects.len() - j,
            {
                if objects[j].path.len() == len && holds_selected_field(d, sel, j) {
                    r.push(j);
                }
                assert(r@ =~= before + objects_of_length(*d, sel@, len as int, (j + 1) as int));
                j = j + 1;
            }
            assert(objects_by_length(*d, sel@, len as int) == objects_of_length(*d, sel@, len as int, objects@.len() as int)
                + objects_by_length(*d, sel@, len - 1));
            assert(r@ + objects_by_length(*d, sel@, len - 1) =~= before + objects_by_length(*d, sel@, len as int));
            remaining = remaining - 1;
        }
        assert(r@ =~= r@ + objects_by_length(*d, sel@, -1));
        r
    }

    /// The resolved type of projection field `i`.
    pub fn projection_type_at(&self, i: usize) -> (r: ExpressionType)
        requires
            i < self.graph().projection.fields@.len(),
        ensures
            projection_types(self.graph(), self.graph_topology())[i as int] == Some(r),
    {
        proof {
            use_type_invariant(self);
        }
        self.projection_types[i]
    }

    /// The relation path of projection field `i`.
    pub fn projection_path_at(&self, i: usize) -> (r: &Vec<usize>)
        requires
            i < self.graph().projection.fields@.len(),
        ensures
            r@ == expression_path(self.graph(), self.graph_topology(), self.graph().projection.fields@[i as int].expression),
            forall|k: int| 0 <= k < r@.len() ==> (#[trigger] r@[k]) < self.graph().relations@.len(),
    {
        proof {
            use_type_invariant(self);
            lemma_expression_path_bounded(self.definition, self.topology, self.definition.projection.fields@[i as int].expression);
        }
        &self.projection_paths[i]
    }

    /// The relation path of projection object `i`.
    pub fn object_path_at(&self, i: usize) -> (r: &Vec<usize>)
        requires
            i < self.graph().projection.objects@.len(),
        ensures
            r@ == expression_path(self.graph(), self.graph_topology(), self.graph().projection.objects@[i as int].presence),
            forall|k: int| 0 <= k < r@.len() ==> (#[trigger] r@[k]) < self.graph().relations@.len(),
    {
        proof {
            use_type_invariant(self);
            lemma_expression_path_bounded(self.definition, self.topology, self.definition.projection.objects@[i as int].presence);
        }
        &self.object_paths[i]
    }

    /// The positions of the dimension fields, in order.
    pub fn dimension_projection_indices(&self) -> (r: &Vec<usize>)
        ensures
            r@ == dimension_positions(self.graph(), self.graph().projection.fields@.len() as int),
            forall|k: int| 0 <= k < r@.len() ==> (#[trigger] r@[k]) < self.graph().projection.fields@.len(),
    {
        let count = self.definition.projection.fields.len();
        proof {
            use_type_invariant(self);
            lemma_dimension_positions_bounded(self.definition, self.definition.projection.fields@.len() as int);
        }
        &self.dimension_indices
    }

    /// Whether constraint `i` applies before or after aggregation.
    pub fn constraint_phase(&self, i: usize) -> (r: ConstraintPhase)
        requires
            i < self.graph().constraints@.len(),
        ensures
            r == constraint_phase_of(self.graph().constraints@[i as int].predicate),
    {
        proof {
            use_type_invariant(self);
        }
        self.constraint_phases[i]
    }

    /// The relations from the root to a source, by position.
    pub fn relation_path_indices(&self, source: &str) -> (r: Option<&Vec<usize>>)
        ensures
            match spec_source(self.graph(), source@) {
                Some(si) => match self.graph_topology().spec_path(si) {
                    Some(p) => r matches Some(v) && v@ == p,
                    None => r is None,
                },
                None => r is None,
            },
            r matches Some(v) ==> forall|k: int| 0 <= k < v@.len() ==> (#[trigger] v@[k]) < self.graph().relations@.len(),
    {
        proof {
            use_type_invariant(self);
        }
        let si = match source_index(&self.definition, source) {
            Some(si) => si,
            None => return None,
        };
        proof {
            lemma_first_key_range(source_keys(self.definition), source@);
            assert(crate::analysis::topology::paths_tree(self.definition, self.topology.relation_paths@));
        }
        match self.topology.relation_path(si) {
            Some(p) => {
                proof {
                    assert(self.topology.relation_paths@[si as int] == Some(*p));
                }
                Some(p)
            },
            None => None,
        }
    }

    /// The relations from one source to another, when the path of the second extends
    /// the path of the first.
    pub fn relation_path_indices_between(&self, from: &str, to: &str) -> (r: Option<Vec<usize>>)
        ensures
            match (spec_source(self.graph(), from@), spec_source(self.graph(), to@)) {
                (Some(f), Some(t)) => match crate::validation::expression::path_between(self.graph_topology(), f, t) {
                    Some(p) => r matches Some(v) && v@ == p,
                    None => r is None,
                },
                _ => r is None,
            },
            r matches Some(v) ==> forall|k: int| 0 <= k < v@.len() ==> (#[trigger] v@[k]) < self.graph().relations@.len(),
    {
        proof {
            use_type_invariant(self);
        }
        let f = match source_index(&self.definition, from) {
            Some(f) => f,
            None => return None,
        };
        let t = match source_index(&self.definition, to) {
            Some(t) => t,
            None => return None,
        };
        proof {
            lemma_first_key_range(source_keys(self.definition), from@);
            lemma_first_key_range(source_keys(self.definition), to@);
            assert(crate::analysis::topology::paths_tree(self.definition, self.topology.relation_paths@));
        }
        let r = self.topology.relation_path_between(f, t);
        proof {
            if r is Some {
                let v = r->0;
                let tp = self.topology.relation_paths@[t as int]->0@;
                let fp = self.topology.relation_paths@[f as int]->0@;
                assert(forall|k: int| 0 <= k < tp.len() ==> (#[trigger] tp[k]) < self.definition.relations@.len());
                assert forall|k: int| 0 <= k < v@.len() implies (#[trigger] v@[k]) < self.definition.relations@.len() by {
                    assert(v@[k] == tp[k + fp.len()]);
                }
            }
        }
        r
    }

    /// Whether every relation on the path to the target of relation `i` is required.
    pub fn relation_is_effectively_required(&self, i: usize) -> (r: bool)
        requires
            i < self.graph().relations@.len(),
        ensures
            r == crate::analysis::topology::spec_effectively_required(self.graph(), self.graph_topology().relation_paths@, i as int),
    {
        proof {
            use_type_invariant(self);
        }
        self.topology.relation_is_effectively_required(i)
    }
}

proof fn lemma_dimension_positions_bounded(d: GraphDefinition, n: int)
    requires
        n <= d.projection.fields@.len(),
        n <= usize::MAX,
    ensures
        forall|k: int| 0 <= k < dimension_positions(d, n).len() ==> (#[trigger] dimension_positions(d, n)[k]) < n,
    decreases n,
{
    if n > 0 {
        lemma_dimension_positions_bounded(d, n - 1);
        let prev = dimension_positions(d, n - 1);
        let cur = dimension_positions(d, n);
        assert forall|k: int| 0 <= k < cur.len() implies (#[trigger] cur[k]) < n by {
            if k < prev.len() {
                assert(cur[k] == prev[k]);
            } else {
                assert(cur[k] == (n - 1) as usize);
            }
        }
    }
}


impl CompiledGraph {
    /// The relations that leave a source, by position, in definition order.
    pub fn outgoing_relation_indices(&self, source: &str) -> (r: Option<&Vec<usize>>)
        ensures
            match spec_source(self.graph(), source@) {
                Some(si) => r matches Some(v) && v@ == edges_from(self.graph(), si, self.graph().relations@.len() as int),
                None => r is None,
            },
            r matches Some(v) ==> forall|k: int| 0 <= k < v@.len() ==> (#[trigger] v@[k]) < self.graph().relations@.len(),
    {
        proof {
            use_type_invariant(self);
        }
        let si = match source_index(&self.definition, source) {
            Some(si) => si,
            None => return None,
        };
        let relation_count = self.definition.relations.len();
        proof {
            lemma_first_key_range(source_keys(self.definition), source@);
            lemma_edges_from(self.definition, si as int, relation_count as int);
        }
        Some(self.topology.outgoing(si))
    }
}

proof fn lemma_projection_position_found(d: GraphDefinition, p: Seq<Seq<char>>, n: int)
    ensures
        projection_position(d, p, n) matches Some(k) ==> 0 <= k < n && path_view(d.projection.fields@[k].path@) == p,
    decreases n,
{
    if n > 0 {
        lemma_projection_position_found(d, p, n - 1);
    }
}

proof fn lemma_projection_position_unique(d: GraphDefinition, i: int, n: int)
    requires
        0 <= i < n <= d.projection.fields@.len(),
        forall|j: int|
            0 <= j < d.projection.fields@.len() && j != i ==> path_view(d.projection.fields@[j].path@) != path_view(
                d.projection.fields@[i].path@,
            ),
    ensures
        projection_position(d, path_view(d.projection.fields@[i].path@), n) == Some(i),
    decreases n,
{
    if n - 1 != i {
        lemma_projection_position_unique(d, i, n - 1);
    }
}

/// A projection field is found by its path joined with `.`, and by no other text: when
/// the field's path has a segment, no segment holds a `.`, and no other field has the
/// same path, the lookup of a text finds the field exactly when the text is the field's
/// path joined with `.`.
pub proof fn law_projection_by_joined_path(d: GraphDefinition, i: int, text: Seq<char>)
    requires
        0 <= i < d.projection.fields@.len(),
        d.projection.fields@[i].path@.len() >= 1,
        forall|k: int|
            0 <= k < d.projection.fields@[i].path@.len() ==> !(#[trigger] d.projection.fields@[i].path@[k])@.contains('.'),
        forall|j: int|
            0 <= j < d.projection.fields@.len() && j != i ==> path_view(d.projection.fields@[j].path@) != path_view(
                d.projection.fields@[i].path@,
            ),
    ensures
        (spec_projection(d, split_dots(text)) == Some(i)) <==> text == join_dots(path_view(d.projection.fields@[i].path@)),
{
    let pv = path_view(d.projection.fields@[i].path@);
    lemma_projection_position_found(d, split_dots(text), d.projection.fields@.len() as int);
    crate::path::lemma_join_split(text);
    assert forall|k: int| 0 <= k < pv.len() implies !(#[trigger] pv[k]).contains('.') by {
        assert(pv[k] == d.projection.fields@[i].path@[k]@);
    }
    crate::path::lemma_split_join(pv);
    lemma_projection_position_unique(d, i, d.projection.fields@.len() as int);
}

/// The objects `v` lists are in ascending position order, each once.
pub open spec fn ascending(v: Seq<usize>) -> bool {
    forall|a: int, b: int| 0 <= a < b < v.len() ==> v[a] < v[b]
}

/// The objects `v` lists come deepest first, and in definition order among objects whose
/// paths are equally long.
pub open spec fn deepest_first(d: GraphDefinition, v: Seq<usize>) -> bool {
    forall|a: int, b: int|
        #![trigger v[a], v[b]]
        0 <= a < b < v.len() ==> {
            let la = d.projection.objects@[v[a] as int].path@.len();
            let lb = d.projection.objects@[v[b] as int].path@.len();
            la > lb || (la == lb && v[a] < v[b])
        }
}

proof fn lemma_objects_of_length(d: GraphDefinition, sel: Seq<usize>, len: int, n: int)
    requires
        0 <= n <= d.projection.objects@.len(),
        d.projection.objects@.len() <= usize::MAX,
    ensures
        ({
            let v = objects_of_length(d, sel, len, n);
            &&& ascending(v)
            &&& forall|a: int| 0 <= a < v.len() ==> (#[trigger] v[a]) < n && d.projection.objects@[v[a] as int].path@.len() == len
            &&& forall|j: int| 0 <= j < n ==> (v.contains(j as usize) <==> (d.projection.objects@[j].path@.len() == len
                && object_selected(d, sel, j)))
        }),
    decreases n,
{
    if n > 0 {
        lemma_objects_of_length(d, sel, len, n - 1);
        let prev = objects_of_length(d, sel, len, n - 1);
        let v = objects_of_length(d, sel, len, n);
        assert forall|j: int| 0 <= j < n implies (v.contains(j as usize) <==> (d.projection.objects@[j].path@.len() == len
            && object_selected(d, sel, j))) by {
            if v.contains(j as usize) {
                let a = choose|a: int| 0 <= a < v.len() && v[a] == j as usize;
                if a < prev.len() {
                    assert(v[a] == prev[a]);
                }
            }
            if j < n - 1 && prev.contains(j as usize) {
                let a = choose|a: int| 0 <= a < prev.len() && prev[a] == j as usize;
                assert(v[a] == prev[a]);
            }
            if j == n - 1 && d.projection.objects@[j].path@.len() == len && object_selected(d, sel, j) {
                assert(v[prev.len() as int] == j as usize);
            }
        }
    }
}

proof fn lemma_max_object_length(d: GraphDefinition, n: int)
    ensures
        max_object_length(d, n) >= 0,
        forall|j: int| 0 <= j < n ==> d.projection.objects@[j].path@.len() <= max_object_length(d, n),
    decreases n,
{
    if n > 0 {
        lemma_max_object_length(d, n - 1);
    }
}

proof fn lemma_objects_by_length(d: GraphDefinition, sel: Seq<usize>, len: int)
    requires
        d.projection.objects@.len() <= usize::MAX,
    ensures
        ({
            let v = objects_by_length(d, sel, len);
            &&& deepest_first(d, v)
            &&& forall|a: int| 0 <= a < v.len() ==> (#[trigger] v[a]) < d.projection.objects@.len()
                && d.projection.objects@[v[a] as int].path@.len() <= len
            &&& forall|j: int| 0 <= j < d.projection.objects@.len() ==> (v.contains(j as usize) <==> (
                d.projection.objects@[j].path@.len() <= len && object_selected(d, sel, j)))
        }),
    decreases len + 1,
{
    if len >= 0 {
        let n = d.projection.objects@.len() as int;
        lemma_objects_of_length(d, sel, len, n);
        lemma_objects_by_length(d, sel, len - 1);
        let g = objects_of_length(d, sel, len, n);
        let rest = objects_by_length(d, sel, len - 1);
        let v = objects_by_length(d, sel, len);
        assert(v == g + rest);
        assert forall|a: int, b: int| #![trigger v[a], v[b]] 0 <= a < b < v.len() implies {
            let la = d.projection.objects@[v[a] as int].path@.len();
            let lb = d.projection.objects@[v[b] as int].path@.len();
            la > lb || (la == lb && v[a] < v[b])
        } by {
            if b < g.len() {
                assert(v[a] == g[a] && v[b] == g[b]);
            } else if a < g.len() {
                assert(v[a] == g[a] && v[b] == rest[b - g.len()]);
            } else {
                assert(v[a] == rest[a - g.len()] && v[b] == rest[b - g.len()]);
            }
        }
        assert forall|a: int| 0 <= a < v.len() implies (#[trigger] v[a]) < d.projection.objects@.len()
            && d.projection.objects@[v[a] as int].path@.len() <= len by {
            if a < g.len() {
                assert(v[a] == g[a]);
            } else {
                assert(v[a] == rest[a - g.len()]);
            }
        }
        assert forall|j: int| 0 <= j < d.projection.objects@.len() implies (v.contains(j as usize) <==> (
            d.projection.objects@[j].path@.len() <= len && object_selected(d, sel, j))) by {
            if v.contains(j as usize) {
                let a = choose|a: int| 0 <= a < v.len() && v[a] == j as usize;
                if a < g.len() {
                    assert(g.contains(j as usize));
                } else {
                    assert(rest[a - g.len()] == j as usize);
                    assert(rest.contains(j as usize));
                }
            }
            if d.projection.objects@[j].path@.len() <= len && object_selected(d, sel, j) {
                if d.projection.objects@[j].path@.len() == len {
                    let a = choose|a: int| 0 <= a < g.len() && g[a] == j as usize;
                    assert(v[a] == j as usize);
                } else {
                    let a = choose|a: int| 0 <= a < rest.len() && rest[a] == j as usize;
                    assert(v[g.len() + a] == j as usize);
                }
            }
        }
    } else {
        assert(objects_by_length(d, sel, len) =~= seq![]);
    }
}

/// The objects a selection reaches are exactly those that hold a selected field (a field
/// whose path strictly extends the object's path); each is listed once, deepest first,
/// and in definition order among objects of equal depth.
pub proof fn law_selected_objects_are_the_holding_ones(d: GraphDefinition, sel: Seq<usize>)
    requires
        d.projection.objects@.len() <= usize::MAX,
    ensures
        ({
            let v = selected_objects(d, sel);
            &&& forall|j: int| 0 <= j < d.projection.objects@.len() ==> (v.contains(j as usize) <==> object_selected(d, sel, j))
            &&& forall|a: int| 0 <= a < v.len() ==> (#[trigger] v[a]) < d.projection.objects@.len()
            &&& forall|a: int, b: int| 0 <= a < b < v.len() ==> v[a] != v[b]
            &&& deepest_first(d, v)
        }),
{
    let n = d.projection.objects@.len() as int;
    lemma_max_object_length(d, n);
    lemma_objects_by_length(d, sel, max_object_length(d, n));
}

} // verus!
