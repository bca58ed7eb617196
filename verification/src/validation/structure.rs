//! Structural checks of a definition: names, references, projection paths, orderings.
use vstd::prelude::*;

use crate::analysis::index::{parameter_index, root_index, spec_parameter, spec_root, source_index, spec_source};
use crate::analysis::topology::GraphTopology;
use crate::definition::{ConstraintCondition, GraphDefinition, RelationCardinality, RelationSelection, spec_is_summary, GRAPH_DEFINITION_VERSION};
use crate::expression::Expression;
use crate::path::{debug_list, debug_path, path_starts_with, path_view, paths_conflict, same_path, spec_paths_conflict, starts_with};
use crate::text::{concat, contains_char, debug_quote, debug_text, decimal_text, indexed, is_blank, push_decimal, spec_is_blank, str_eq, text};
use crate::validation::expression::{context_ok, concat3q, expr_issues, one, validate_expression, ExpressionContext, SpecAllowed, SpecContext, ExistsPolicy};
use crate::analysis::index::{field_index, spec_field, lemma_first_key_range, source_keys};
use crate::definition::OrderByDefinition;
use crate::expression::walk;
use crate::validation::{at, issues_view, push_issue, DefinitionIssue, DefinitionIssueCode, SpecIssue};

verus! {

pub open spec fn header_issues(d: GraphDefinition) -> Seq<SpecIssue> {
    (if d.schema_version != GRAPH_DEFINITION_VERSION {
        one(
            DefinitionIssueCode::UnsupportedVersion,
            "schemaVersion"@,
            "expected version "@ + decimal_text(GRAPH_DEFINITION_VERSION as nat) + ", received "@
                + decimal_text(d.schema_version as nat),
        )
    } else {
        seq![]
    }) + (if spec_is_blank(d.name@) {
        one(DefinitionIssueCode::EmptyName, "name"@, "graph name must not be empty"@)
    } else {
        seq![]
    })
}

pub open spec fn field_issue(d: GraphDefinition, s: int, j: int) -> Seq<SpecIssue> {
    let fields = d.sources@[s].fields@;
    let name = fields[j].name@;
    let loc = at(at("sources"@, s) + ".fields"@, j) + ".name"@;
    if spec_is_blank(name) {
        one(DefinitionIssueCode::EmptyFieldName, loc, "field name must not be empty"@)
    } else if exists|k: int| 0 <= k < j && (#[trigger] fields[k]).name@ == name {
        one(
            DefinitionIssueCode::DuplicateField,
            loc,
            "field "@ + debug_text(name) + " is defined more than once in source "@ + debug_text(
                d.sources@[s].key@,
            ),
        )
    } else {
        seq![]
    }
}

pub open spec fn field_section(d: GraphDefinition, s: int, n: int) -> Seq<SpecIssue>
    decreases n,
{
    if n <= 0 {
        seq![]
    } else {
        field_section(d, s, n - 1) + field_issue(d, s, n - 1)
    }
}

pub open spec fn source_issue(d: GraphDefinition, i: int) -> Seq<SpecIssue> {
    let key = d.sources@[i].key@;
    let loc = at("sources"@, i) + ".key"@;
    if spec_is_blank(key) {
        one(DefinitionIssueCode::EmptySourceKey, loc, "source key must not be empty"@)
    } else if exists|j: int| 0 <= j < i && (#[trigger] d.sources@[j]).key@ == key {
        one(
            DefinitionIssueCode::DuplicateSource,
            loc,
            "source "@ + debug_text(key) + " is defined more than once"@,
        )
    } else {
        field_section(d, i, d.sources@[i].fields@.len() as int)
    }
}

pub open spec fn source_section(d: GraphDefinition, n: int) -> Seq<SpecIssue>
    decreases n,
{
    if n <= 0 {
        seq![]
    } else {
        source_section(d, n - 1) + source_issue(d, n - 1)
    }
}

pub open spec fn root_issues(d: GraphDefinition) -> Seq<SpecIssue> {
    if spec_root(d) is None {
        one(
            DefinitionIssueCode::UnknownRoot,
            "root"@,
            "root source "@ + debug_text(d.root@) + " is not defined"@,
        )
    } else {
        seq![]
    }
}

pub open spec fn parameter_issue(d: GraphDefinition, i: int) -> Seq<SpecIssue> {
    let name = d.parameters@[i].name@;
    let loc = at("parameters"@, i) + ".name"@;
    if spec_is_blank(name) {
        one(DefinitionIssueCode::EmptyParameterName, loc, "parameter name must not be empty"@)
    } else if exists|j: int| 0 <= j < i && (#[trigger] d.parameters@[j]).name@ == name {
        one(
            DefinitionIssueCode::DuplicateParameter,
            loc,
            "parameter "@ + debug_text(name) + " is defined more than once"@,
        )
    } else {
        seq![]
    }
}

pub open spec fn parameter_section(d: GraphDefinition, n: int) -> Seq<SpecIssue>
    decreases n,
{
    if n <= 0 {
        seq![]
    } else {
        parameter_section(d, n - 1) + parameter_issue(d, n - 1)
    }
}


pub open spec fn relation_context(d: GraphDefinition, i: int) -> SpecContext {
    SpecContext {
        scope: Some(
            (
                SpecAllowed::Explicit(seq![d.relations@[i].from@, d.relations@[i].to@]),
                DefinitionIssueCode::RelationExpressionScope,
            ),
        ),
        exists_policy: ExistsPolicy::RequireExplicitCorrelation,
    }
}

pub open spec fn selection_context(d: GraphDefinition, i: int) -> SpecContext {
    SpecContext {
        scope: Some(
            (
                SpecAllowed::Explicit(seq![d.relations@[i].to@]),
                DefinitionIssueCode::RelationSelectionExpressionScope,
            ),
        ),
        exists_policy: ExistsPolicy::Deny,
    }
}

pub open spec fn unrestricted_context() -> SpecContext {
    SpecContext { scope: None, exists_policy: ExistsPolicy::Deny }
}

pub open spec fn constraint_context() -> SpecContext {
    SpecContext { scope: None, exists_policy: ExistsPolicy::AllowImplicitCorrelation }
}

/// The issues of the first `n` order items, located as `loc[k].expression`.
pub open spec fn order_section(d: GraphDefinition, t: GraphTopology, orders: Seq<OrderByDefinition>, loc: Seq<char>, ctx: SpecContext, n: int) -> Seq<SpecIssue>
    decreases n,
{
    if n <= 0 {
        seq![]
    } else {
        order_section(d, t, orders, loc, ctx, n - 1) + expr_issues(
            d,
            t,
            orders[n - 1].expression,
            at(loc, n - 1) + ".expression"@,
            ctx,
        )
    }
}

pub open spec fn relation_name_issues(d: GraphDefinition, i: int) -> Seq<SpecIssue> {
    let name = d.relations@[i].name@;
    let loc = at("relations"@, i) + ".name"@;
    if spec_is_blank(name) {
        one(DefinitionIssueCode::EmptyRelationName, loc, "relation name must not be empty"@)
    } else if exists|j: int| 0 <= j < i && (#[trigger] d.relations@[j]).name@ == name {
        one(
            DefinitionIssueCode::DuplicateRelation,
            loc,
            "relation "@ + debug_text(name) + " is defined more than once"@,
        )
    } else {
        seq![]
    }
}

pub open spec fn selection_issues(d: GraphDefinition, t: GraphTopology, i: int) -> Seq<SpecIssue> {
    let r = d.relations@[i];
    let loc = at("relations"@, i) + ".selection"@;
    match r.selection {
        None => seq![],
        Some(RelationSelection::FirstBy { order_by }) => (if r.cardinality
            != RelationCardinality::One {
            one(
                DefinitionIssueCode::InvalidRelationSelection,
                loc,
                "relation selection is valid only for cardinality one"@,
            )
        } else {
            seq![]
        }) + (if order_by@.len() == 0 {
            one(
                DefinitionIssueCode::EmptyRelationSelectionOrder,
                loc + ".orderBy"@,
                "firstBy selection must contain at least one order expression"@,
            )
        } else {
            seq![]
        }) + order_section(
            d,
            t,
            order_by@,
            loc + ".orderBy"@,
            selection_context(d, i),
            order_by@.len() as int,
        ),
    }
}

pub open spec fn relation_issue(d: GraphDefinition, t: GraphTopology, i: int) -> Seq<SpecIssue> {
    let r = d.relations@[i];
    let loc = at("relations"@, i);
    relation_name_issues(d, i) + (if spec_source(d, r.from@) is None {
        one(
            DefinitionIssueCode::UnknownRelationSource,
            loc + ".from"@,
            "relation source "@ + debug_text(r.from@) + " is not defined"@,
        )
    } else {
        seq![]
    }) + (if spec_source(d, r.to@) is None {
        one(
            DefinitionIssueCode::UnknownRelationTarget,
            loc + ".to"@,
            "relation target "@ + debug_text(r.to@) + " is not defined"@,
        )
    } else {
        seq![]
    }) + expr_issues(d, t, r.on, loc + ".on"@, relation_context(d, i)) + selection_issues(d, t, i)
}

pub open spec fn relation_section(d: GraphDefinition, t: GraphTopology, n: int) -> Seq<SpecIssue>
    decreases n,
{
    if n <= 0 {
        seq![]
    } else {
        relation_section(d, t, n - 1) + relation_issue(d, t, n - 1)
    }
}

pub open spec fn constraint_issue(d: GraphDefinition, t: GraphTopology, i: int) -> Seq<SpecIssue> {
    let c = d.constraints@[i];
    let loc = at("constraints"@, i);
    (match c.when {
        ConstraintCondition::ParameterPresent { parameter } => if spec_parameter(
            d,
            parameter@,
        ) is None {
            one(
                DefinitionIssueCode::UnknownParameter,
                loc + ".when.parameter"@,
                "parameter "@ + debug_text(parameter@) + " is not defined"@,
            )
        } else {
            seq![]
        },
        ConstraintCondition::Always => seq![],
    }) + expr_issues(d, t, c.predicate, loc + ".predicate"@, constraint_context())
}

pub open spec fn constraint_section(d: GraphDefinition, t: GraphTopology, n: int) -> Seq<SpecIssue>
    decreases n,
{
    if n <= 0 {
        seq![]
    } else {
        constraint_section(d, t, n - 1) + constraint_issue(d, t, n - 1)
    }
}

/// The issues of the first `n` segments of a projection path.
pub open spec fn segment_section(path: Seq<Seq<char>>, loc: Seq<char>, n: int) -> Seq<SpecIssue>
    decreases n,
{
    if n <= 0 {
        seq![]
    } else {
        let segment = path[n - 1];
        segment_section(path, loc, n - 1) + if spec_is_blank(segment) {
            one(
                DefinitionIssueCode::EmptyProjectionPathSegment,
                at(loc, n - 1),
                "projection path segment must not be empty"@,
            )
        } else if segment.contains('.') {
            one(
                DefinitionIssueCode::InvalidProjectionPathSegment,
                at(loc, n - 1),
                "projection path segment must not contain '.'"@,
            )
        } else {
            seq![]
        }
    }
}

pub open spec fn path_issues(path: Seq<Seq<char>>, loc: Seq<char>) -> Seq<SpecIssue> {
    if path.len() == 0 {
        one(
            DefinitionIssueCode::EmptyProjectionPath,
            loc,
            "projection path must contain at least one segment"@,
        )
    } else {
        segment_section(path, loc, path.len() as int)
    }
}

pub open spec fn field_path(d: GraphDefinition, i: int) -> Seq<Seq<char>> {
    path_view(d.projection.fields@[i].path@)
}

pub open spec fn object_path(d: GraphDefinition, i: int) -> Seq<Seq<char>> {
    path_view(d.projection.objects@[i].path@)
}

/// The first of the first `n` field paths that conflicts with path `i`.
pub open spec fn first_conflict(d: GraphDefinition, i: int, n: int) -> Option<int>
    decreases n,
{
    if n <= 0 {
        None
    } else {
        match first_conflict(d, i, n - 1) {
            Some(j) => Some(j),
            None => if spec_paths_conflict(field_path(d, n - 1), field_path(d, i)) {
                Some(n - 1)
            } else {
                None
            },
        }
    }
}

pub open spec fn spec_field_is_hidden(d: GraphDefinition, source: Seq<char>, field: Seq<char>) -> bool {
    match spec_source(d, source) {
        Some(si) => match spec_field(d, si, field) {
            Some(fi) => !d.sources@[si].fields@[fi].selectable,
            None => false,
        },
        None => false,
    }
}

pub open spec fn same_field_node(a: Expression, b: Expression) -> bool {
    a matches Expression::Field { source: s1, field: f1 } && b matches Expression::Field {
        source: s2,
        field: f2,
    } && s1@ == s2@ && f1@ == f2@
}

/// Hidden fields among the first `n` nodes, each distinct field once, in walk order.
pub open spec fn visibility_section(d: GraphDefinition, nodes: Seq<Expression>, loc: Seq<char>, n: int) -> Seq<SpecIssue>
    decreases n,
{
    if n <= 0 {
        seq![]
    } else {
        let x = nodes[n - 1];
        visibility_section(d, nodes, loc, n - 1) + match x {
            Expression::Field { source, field } => if !(exists|k: int|
                0 <= k < n - 1 && same_field_node(#[trigger] nodes[k], x)) && spec_field_is_hidden(
                d,
                source@,
                field@,
            ) {
                one(
                    DefinitionIssueCode::HiddenProjectionField,
                    loc,
                    "field "@ + debug_text(source@) + "."@ + debug_text(field@)
                        + " is internal and cannot be exposed"@,
                )
            } else {
                seq![]
            },
            _ => seq![],
        }
    }
}

pub open spec fn visibility_issues(d: GraphDefinition, e: Expression, loc: Seq<char>) -> Seq<SpecIssue> {
    visibility_section(d, walk(e, false), loc, walk(e, false).len() as int)
}

pub open spec fn projection_field_issue(d: GraphDefinition, t: GraphTopology, i: int) -> Seq<SpecIssue> {
    let f = d.projection.fields@[i];
    let loc = at("projection.fields"@, i);
    let path = field_path(d, i);
    path_issues(path, loc + ".path"@) + (if exists|j: int|
        0 <= j < i && #[trigger] field_path(d, j) == path {
        one(
            DefinitionIssueCode::DuplicateProjectionPath,
            loc + ".path"@,
            "projection path "@ + debug_list(path) + " is defined more than once"@,
        )
    } else {
        match first_conflict(d, i, i) {
            Some(j) => one(
                DefinitionIssueCode::ConflictingProjectionPath,
                loc + ".path"@,
                "projection path "@ + debug_list(path) + " conflicts with "@ + debug_list(
                    field_path(d, j),
                ),
            ),
            None => seq![],
        }
    }) + expr_issues(d, t, f.expression, loc + ".expression"@, unrestricted_context())
        + visibility_issues(d, f.expression, loc + ".expression"@)
}

pub open spec fn projection_field_section(d: GraphDefinition, t: GraphTopology, n: int) -> Seq<SpecIssue>
    decreases n,
{
    if n <= 0 {
        seq![]
    } else {
        projection_field_section(d, t, n - 1) + projection_field_issue(d, t, n - 1)
    }
}

pub open spec fn has_descendant_field(d: GraphDefinition, path: Seq<Seq<char>>) -> bool {
    exists|j: int|
        0 <= j < d.projection.fields@.len() && #[trigger] field_path(d, j).len() > path.len()
            && starts_with(field_path(d, j), path)
}

pub open spec fn projection_object_issue(d: GraphDefinition, t: GraphTopology, i: int) -> Seq<SpecIssue> {
    let o = d.projection.objects@[i];
    let loc = at("projection.objects"@, i);
    let path = object_path(d, i);
    path_issues(path, loc + ".path"@) + (if exists|j: int|
        0 <= j < i && #[trigger] object_path(d, j) == path {
        one(
            DefinitionIssueCode::DuplicateProjectionObjectPath,
            loc + ".path"@,
            "projection object path "@ + debug_list(path) + " is defined more than once"@,
        )
    } else {
        seq![]
    }) + (if !has_descendant_field(d, path) {
        one(
            DefinitionIssueCode::ProjectionObjectWithoutFields,
            loc + ".path"@,
            "projection object path "@ + debug_list(path) + " has no descendant projection fields"@,
        )
    } else {
        seq![]
    }) + expr_issues(d, t, o.presence, loc + ".presence"@, unrestricted_context())
}

pub open spec fn projection_object_section(d: GraphDefinition, t: GraphTopology, n: int) -> Seq<SpecIssue>
    decreases n,
{
    if n <= 0 {
        seq![]
    } else {
        projection_object_section(d, t, n - 1) + projection_object_issue(d, t, n - 1)
    }
}

pub open spec fn projection_issues(d: GraphDefinition, t: GraphTopology) -> Seq<SpecIssue> {
    projection_field_section(d, t, d.projection.fields@.len() as int) + (if spec_is_summary(d)
        && d.projection.objects@.len() > 0 {
        one(
            DefinitionIssueCode::ProjectionObjectInSummary,
            "projection.objects"@,
            "summary graph cannot define projection objects"@,
        )
    } else {
        seq![]
    }) + projection_object_section(d, t, d.projection.objects@.len() as int)
}

pub open spec fn ordering_issue(d: GraphDefinition, t: GraphTopology, i: int) -> Seq<SpecIssue> {
    let o = d.orderings@[i];
    let loc = at("orderings"@, i);
    (if spec_is_blank(o.name@) {
        one(DefinitionIssueCode::EmptyOrderingName, loc + ".name"@, "ordering name must not be empty"@)
    } else if exists|j: int| 0 <= j < i && (#[trigger] d.orderings@[j]).name@ == o.name@ {
        one(
            DefinitionIssueCode::DuplicateOrdering,
            loc + ".name"@,
            "ordering "@ + debug_text(o.name@) + " is defined more than once"@,
        )
    } else {
        seq![]
    }) + (if o.order_by@.len() == 0 {
        one(
            DefinitionIssueCode::EmptyOrdering,
            loc + ".orderBy"@,
            "ordering must contain at least one order item"@,
        )
    } else {
        seq![]
    }) + order_section(
        d,
        t,
        o.order_by@,
        loc + ".orderBy"@,
        unrestricted_context(),
        o.order_by@.len() as int,
    )
}

pub open spec fn ordering_section(d: GraphDefinition, t: GraphTopology, n: int) -> Seq<SpecIssue>
    decreases n,
{
    if n <= 0 {
        seq![]
    } else {
        ordering_section(d, t, n - 1) + ordering_issue(d, t, n - 1)
    }
}

pub open spec fn default_count(d: GraphDefinition, n: int) -> nat
    decreases n,
{
    if n <= 0 {
        0
    } else {
        default_count(d, n - 1) + if d.orderings@[n - 1].selected_by_default {
            1nat
        } else {
            0nat
        }
    }
}

pub open spec fn ordering_issues(d: GraphDefinition, t: GraphTopology) -> Seq<SpecIssue> {
    ordering_section(d, t, d.orderings@.len() as int) + if default_count(
        d,
        d.orderings@.len() as int,
    ) > 1 {
        one(
            DefinitionIssueCode::MultipleDefaultOrderings,
            "orderings"@,
            "only one ordering can be selected by default"@,
        )
    } else {
        seq![]
    }
}

/// The structural issues, before aggregation and topology checks.
pub open spec fn structure_issues(d: GraphDefinition, t: GraphTopology) -> Seq<SpecIssue> {
    header_issues(d) + source_section(d, d.sources@.len() as int) + root_issues(d)
        + parameter_section(d, d.parameters@.len() as int) + relation_section(
        d,
        t,
        d.relations@.len() as int,
    ) + constraint_section(d, t, d.constraints@.len() as int) + projection_issues(d, t)
        + ordering_issues(d, t)
}


fn validate_header(d: &GraphDefinition, issues: &mut Vec<DefinitionIssue>)
    ensures
        issues_view(final(issues)@) == issues_view(old(issues)@) + header_issues(*d),
{
    let ghost start = issues_view(issues@);
    if d.schema_version != GRAPH_DEFINITION_VERSION {
        let mut m = text("expected version ");
        push_decimal(&mut m, GRAPH_DEFINITION_VERSION as u64);
        m.append(", received ");
        push_decimal(&mut m, d.schema_version as u64);
        push_issue(issues, DefinitionIssueCode::UnsupportedVersion, text("schemaVersion"), m);
    }
    if is_blank(d.name.as_str()) {
        push_issue(
            issues,
            DefinitionIssueCode::EmptyName,
            text("name"),
            text("graph name must not be empty"),
        );
    }
    assert(issues_view(issues@) =~= start + header_issues(*d));
}

fn validate_source_fields(d: &GraphDefinition, s: usize, issues: &mut Vec<DefinitionIssue>)
    requires
        s < d.sources@.len(),
    ensures
        issues_view(final(issues)@) == issues_view(old(issues)@) + field_section(
            *d,
            s as int,
            d.sources@[s as int].fields@.len() as int,
        ),
{
    let ghost start = issues_view(issues@);
    let source = &d.sources[s];
    let fields = &source.fields;
    let mut j: usize = 0;
    while j < fields.len()
        invariant
            s < d.sources@.len(),
            *source == d.sources@[s as int],
            *fields == source.fields,
            j <= fields@.len(),
            issues_view(issues@) == start + field_section(*d, s as int, j as int),
        decreases fields.len() - j,
    {
        let mut loc = indexed("sources", s);
        loc.append(".fields");
        let mut loc = indexed(loc.as_str(), j);
        loc.append(".name");
        let name = fields[j].name.as_str();
        if is_blank(name) {
            push_issue(issues, DefinitionIssueCode::EmptyFieldName, loc, text("field name must not be empty"));
        } else {
            let mut k: usize = 0;
            let mut duplicate = false;
            while k < j
                invariant
                    j < fields@.len(),
                    name@ == fields@[j as int].name@,
                    k <= j,
                    duplicate == exists|x: int| 0 <= x < k && (#[trigger] fields@[x]).name@ == fields@[j as int].name@,
                decreases j - k,
            {
                if str_eq(fields[k].name.as_str(), name) {
                    duplicate = true;
                }
                assert(duplicate == exists|x: int| 0 <= x < k + 1 && (#[trigger] fields@[x]).name@ == fields@[j as int].name@) by {
                    if fields@[k as int].name@ == fields@[j as int].name@ {
                        assert(fields@[k as int].name@ == fields@[j as int].name@);
                    }
                }
                k = k + 1;
            }
            if duplicate {
                let mut m = concat3q("field ", name, " is defined more than once in source ");
                m.append(debug_quote(source.key.as_str()).as_str());
                push_issue(issues, DefinitionIssueCode::DuplicateField, loc, m);
            }
        }
        assert(issues_view(issues@) =~= start + field_section(*d, s as int, (j + 1) as int));
        j = j + 1;
    }
}

fn validate_sources(d: &GraphDefinition, issues: &mut Vec<DefinitionIssue>)
    ensures
        issues_view(final(issues)@) == issues_view(old(issues)@) + source_section(
            *d,
            d.sources@.len() as int,
        ),
{
    let ghost start = issues_view(issues@);
    let mut i: usize = 0;
    while i < d.sources.len()
        invariant
            i <= d.sources@.len(),
            issues_view(issues@) == start + source_section(*d, i as int),
        decreases d.sources.len() - i,
    {
        let mut loc = indexed("sources", i);
        loc.append(".key");
        let key = d.sources[i].key.as_str();
        if is_blank(key) {
            push_issue(issues, DefinitionIssueCode::EmptySourceKey, loc, text("source key must not be empty"));
        } else {
            let mut k: usize = 0;
            let mut duplicate = false;
            while k < i
                invariant
                    i < d.sources@.len(),
                    key@ == d.sources@[i as int].key@,
                    k <= i,
                    duplicate == exists|x: int| 0 <= x < k && (#[trigger] d.sources@[x]).key@ == d.sources@[i as int].key@,
                decreases i - k,
            {
                if str_eq(d.sources[k].key.as_str(), key) {
                    duplicate = true;
                }
                assert(duplicate == exists|x: int| 0 <= x < k + 1 && (#[trigger] d.sources@[x]).key@ == d.sources@[i as int].key@) by {
                    if d.sources@[k as int].key@ == d.sources@[i as int].key@ {
                        assert(d.sources@[k as int].key@ == d.sources@[i as int].key@);
                    }
                }
                k = k + 1;
            }
            if duplicate {
                let m = concat3q("source ", key, " is defined more than once");
                push_issue(issues, DefinitionIssueCode::DuplicateSource, loc, m);
            } else {
                validate_source_fields(d, i, issues);
            }
        }
        assert(issues_view(issues@) =~= start + source_section(*d, (i + 1) as int));
        i = i + 1;
    }
}

fn validate_root(d: &GraphDefinition, issues: &mut Vec<DefinitionIssue>)
    ensures
        issues_view(final(issues)@) == issues_view(old(issues)@) + root_issues(*d),
{
    let ghost start = issues_view(issues@);
    if root_index(d).is_none() {
        let m = concat3q("root source ", d.root.as_str(), " is not defined");
        push_issue(issues, DefinitionIssueCode::UnknownRoot, text("root"), m);
    }
    assert(issues_view(issues@) =~= start + root_issues(*d));
}

fn validate_parameters(d: &GraphDefinition, issues: &mut Vec<DefinitionIssue>)
    ensures
        issues_view(final(issues)@) == issues_view(old(issues)@) + parameter_section(
            *d,
            d.parameters@.len() as int,
        ),
{
    let ghost start = issues_view(issues@);
    let mut i: usize = 0;
    while i < d.parameters.len()
        invariant
            i <= d.parameters@.len(),
            issues_view(issues@) == start + parameter_section(*d, i as int),
        decreases d.parameters.len() - i,
    {
        let mut loc = indexed("parameters", i);
        loc.append(".name");
        let name = d.parameters[i].name.as_str();
        if is_blank(name) {
            push_issue(issues, DefinitionIssueCode::EmptyParameterName, loc, text("parameter name must not be empty"));
        } else {
            let mut k: usize = 0;
            let mut duplicate = false;
            while k < i
                invariant
                    i < d.parameters@.len(),
                    name@ == d.parameters@[i as int].name@,
                    k <= i,
                    duplicate == exists|x: int| 0 <= x < k && (#[trigger] d.parameters@[x]).name@ == d.parameters@[i as int].name@,
                decreases i - k,
            {
                if str_eq(d.parameters[k].name.as_str(), name) {
                    duplicate = true;
                }
                assert(duplicate == exists|x: int| 0 <= x < k + 1 && (#[trigger] d.parameters@[x]).name@ == d.parameters@[i as int].name@) by {
                    if d.parameters@[k as int].name@ == d.parameters@[i as int].name@ {
                        assert(d.parameters@[k as int].name@ == d.parameters@[i as int].name@);
                    }
                }
                k = k + 1;
            }
            if duplicate {
                let m = concat3q("parameter ", name, " is defined more than once");
                push_issue(issues, DefinitionIssueCode::DuplicateParameter, loc, m);
            }
        }
        assert(issues_view(issues@) =~= start + parameter_section(*d, (i + 1) as int));
        i = i + 1;
    }
}


fn validate_orders(
    d: &GraphDefinition,
    t: &GraphTopology,
    orders: &Vec<OrderByDefinition>,
    location: &str,
    ctx: &ExpressionContext,
    issues: &mut Vec<DefinitionIssue>,
)
    requires
        t.wf(*d),
        context_ok(*d, ctx@),
    ensures
        issues_view(final(issues)@) == issues_view(old(issues)@) + order_section(
            *d,
            *t,
            orders@,
            location@,
            ctx@,
            orders@.len() as int,
        ),
{
    let ghost start = issues_view(issues@);
    let mut k: usize = 0;
    while k < orders.len()
        invariant
            t.wf(*d),
            context_ok(*d, ctx@),
            k <= orders@.len(),
            issues_view(issues@) == start + order_section(*d, *t, orders@, location@, ctx@, k as int),
        decreases orders.len() - k,
    {
        let mut loc = indexed(location, k);
        loc.append(".expression");
        validate_expression(d, t, &orders[k].expression, loc.as_str(), ctx, issues);
        assert(issues_view(issues@) =~= start + order_section(*d, *t, orders@, location@, ctx@, (k + 1) as int));
        k = k + 1;
    }
}

fn validate_relation_name(d: &GraphDefinition, i: usize, issues: &mut Vec<DefinitionIssue>)
    requires
        i < d.relations@.len(),
    ensures
        issues_view(final(issues)@) == issues_view(old(issues)@) + relation_name_issues(*d, i as int),
{
    let ghost start = issues_view(issues@);
    let mut loc = indexed("relations", i);
    loc.append(".name");
    let name = d.relations[i].name.as_str();
    if is_blank(name) {
        push_issue(issues, DefinitionIssueCode::EmptyRelationName, loc, text("relation name must not be empty"));
    } else {
        let mut k: usize = 0;
        let mut duplicate = false;
        while k < i
            invariant
                i < d.relations@.len(),
                name@ == d.relations@[i as int].name@,
                k <= i,
                duplicate == exists|x: int| 0 <= x < k && (#[trigger] d.relations@[x]).name@ == d.relations@[i as int].name@,
            decreases i - k,
        {
            if str_eq(d.relations[k].name.as_str(), name) {
                duplicate = true;
            }
            assert(duplicate == exists|x: int| 0 <= x < k + 1 && (#[trigger] d.relations@[x]).name@ == d.relations@[i as int].name@) by {
                if d.relations@[k as int].name@ == d.relations@[i as int].name@ {
                    assert(d.relations@[k as int].name@ == d.relations@[i as int].name@);
                }
            }
            k = k + 1;
        }
        if duplicate {
            let m = concat3q("relation ", name, " is defined more than once");
            push_issue(issues, DefinitionIssueCode::DuplicateRelation, loc, m);
        }
    }
    assert(issues_view(issues@) =~= start + relation_name_issues(*d, i as int));
}

fn validate_relation_selection(d: &GraphDefinition, t: &GraphTopology, i: usize, issues: &mut Vec<DefinitionIssue>)
    requires
        t.wf(*d),
        i < d.relations@.len(),
    ensures
        issues_view(final(issues)@) == issues_view(old(issues)@) + selection_issues(*d, *t, i as int),
{
    let ghost start = issues_view(issues@);
    let relation = &d.relations[i];
    match &relation.selection {
        None => {
            assert(issues_view(issues@) =~= start + selection_issues(*d, *t, i as int));
        },
        Some(selection) => {
            let order_by = selection.order_by();
            let mut loc = indexed("relations", i);
            loc.append(".selection");
            if relation.cardinality != RelationCardinality::One {
                push_issue(
                    issues,
                    DefinitionIssueCode::InvalidRelationSelection,
                    text(loc.as_str()),
                    text("relation selection is valid only for cardinality one"),
                );
            }
            let order_location = concat(loc.as_str(), ".orderBy");
            if order_by.len() == 0 {
                push_issue(
                    issues,
                    DefinitionIssueCode::EmptyRelationSelectionOrder,
                    text(order_location.as_str()),
                    text("firstBy selection must contain at least one order expression"),
                );
            }
            let mut allowed: Vec<String> = Vec::new();
            allowed.push(relation.to.clone());
            let ctx = ExpressionContext::scoped(allowed, DefinitionIssueCode::RelationSelectionExpressionScope);
            assert(ctx@ == selection_context(*d, i as int)) by {
                assert(crate::validation::expression::names_view(allowed@) =~= seq![relation.to@]);
            }
            validate_orders(d, t, order_by, order_location.as_str(), &ctx, issues);
            assert(issues_view(issues@) =~= start + selection_issues(*d, *t, i as int));
        },
    }
}

fn validate_relations(d: &GraphDefinition, t: &GraphTopology, issues: &mut Vec<DefinitionIssue>)
    requires
        t.wf(*d),
    ensures
        issues_view(final(issues)@) == issues_view(old(issues)@) + relation_section(
            *d,
            *t,
            d.relations@.len() as int,
        ),
{
    let ghost start = issues_view(issues@);
    let mut i: usize = 0;
    while i < d.relations.len()
        invariant
            t.wf(*d),
            i <= d.relations@.len(),
            issues_view(issues@) == start + relation_section(*d, *t, i as int),
        decreases d.relations.len() - i,
    {
        let ghost before = issues_view(issues@);
        let relation = &d.relations[i];
        let loc = indexed("relations", i);
        validate_relation_name(d, i, issues);
        if source_index(d, relation.from.as_str()).is_none() {
            let m = concat3q("relation source ", relation.from.as_str(), " is not defined");
            push_issue(issues, DefinitionIssueCode::UnknownRelationSource, concat(loc.as_str(), ".from"), m);
        }
        if source_index(d, relation.to.as_str()).is_none() {
            let m = concat3q("relation target ", relation.to.as_str(), " is not defined");
            push_issue(issues, DefinitionIssueCode::UnknownRelationTarget, concat(loc.as_str(), ".to"), m);
        }
        let mut allowed: Vec<String> = Vec::new();
        allowed.push(relation.from.clone());
        allowed.push(relation.to.clone());
        let ctx = ExpressionContext::relation_predicate(allowed);
        assert(ctx@ == relation_context(*d, i as int)) by {
            assert(crate::validation::expression::names_view(allowed@) =~= seq![relation.from@, relation.to@]);
        }
        let on_location = concat(loc.as_str(), ".on");
        validate_expression(d, t, &relation.on, on_location.as_str(), &ctx, issues);
        validate_relation_selection(d, t, i, issues);
        assert(issues_view(issues@) =~= before + relation_issue(*d, *t, i as int));
        assert(issues_view(issues@) =~= start + relation_section(*d, *t, (i + 1) as int));
        i = i + 1;
    }
}

fn validate_constraints(d: &GraphDefinition, t: &GraphTopology, issues: &mut Vec<DefinitionIssue>)
    requires
        t.wf(*d),
    ensures
        issues_view(final(issues)@) == issues_view(old(issues)@) + constraint_section(
            *d,
            *t,
            d.constraints@.len() as int,
        ),
{
    let ghost start = issues_view(issues@);
    let ctx = ExpressionContext::constraint();
    assert(ctx@ == constraint_context());
    let mut i: usize = 0;
    while i < d.constraints.len()
        invariant
            t.wf(*d),
            ctx@ == constraint_context(),
            i <= d.constraints@.len(),
            issues_view(issues@) == start + constraint_section(*d, *t, i as int),
        decreases d.constraints.len() - i,
    {
        let ghost before = issues_view(issues@);
        let constraint = &d.constraints[i];
        let loc = indexed("constraints", i);
        match &constraint.when {
            ConstraintCondition::ParameterPresent { parameter } => {
                if parameter_index(d, parameter.as_str()).is_none() {
                    let m = concat3q("parameter ", parameter.as_str(), " is not defined");
                    push_issue(
                        issues,
                        DefinitionIssueCode::UnknownParameter,
                        concat(loc.as_str(), ".when.parameter"),
                        m,
                    );
                }
            },
            ConstraintCondition::Always => {},
        }
        let predicate_location = concat(loc.as_str(), ".predicate");
        validate_expression(d, t, &constraint.predicate, predicate_location.as_str(), &ctx, issues);
        assert(issues_view(issues@) =~= before + constraint_issue(*d, *t, i as int));
        assert(issues_view(issues@) =~= start + constraint_section(*d, *t, (i + 1) as int));
        i = i + 1;
    }
}


fn validate_projection_path(path: &Vec<String>, location: &str, issues: &mut Vec<DefinitionIssue>)
    ensures
        issues_view(final(issues)@) == issues_view(old(issues)@) + path_issues(
            path_view(path@),
            location@,
        ),
{
    let ghost start = issues_view(issues@);
    if path.len() == 0 {
        push_issue(
            issues,
            DefinitionIssueCode::EmptyProjectionPath,
            text(location),
            text("projection path must contain at least one segment"),
        );
        assert(issues_view(issues@) =~= start + path_issues(path_view(path@), location@));
        return;
    }
    let mut k: usize = 0;
    while k < path.len()
        invariant
            0 < path@.len(),
            k <= path@.len(),
            issues_view(issues@) == start + segment_section(path_view(path@), location@, k as int),
        decreases path.len() - k,
    {
        let segment = path[k].as_str();
        if is_blank(segment) {
            push_issue(
                issues,
                DefinitionIssueCode::EmptyProjectionPathSegment,
                indexed(location, k),
                text("projection path segment must not be empty"),
            );
        } else if contains_char(segment, '.') {
            push_issue(
                issues,
                DefinitionIssueCode::InvalidProjectionPathSegment,
                indexed(location, k),
                text("projection path segment must not contain '.'"),
            );
        }
        assert(path_view(path@)[k as int] == path@[k as int]@);
        assert(issues_view(issues@) =~= start + segment_section(path_view(path@), location@, (k + 1) as int));
        k = k + 1;
    }
}

fn field_is_hidden(d: &GraphDefinition, source: &str, field: &str) -> (r: bool)
    ensures
        r == spec_field_is_hidden(*d, source@, field@),
{
    match source_index(d, source) {
        Some(si) => {
            proof {
                lemma_first_key_range(source_keys(*d), source@);
            }
            match field_index(d, si, field) {
                Some(fi) => {
                    proof {
                        lemma_first_key_range(crate::analysis::index::field_names(*d, si as int), field@);
                    }
                    !d.sources[si].fields[fi].selectable
                },
                None => false,
            }
        },
        None => false,
    }
}

fn validate_visibility(d: &GraphDefinition, e: &Expression, location: &str, issues: &mut Vec<DefinitionIssue>)
    ensures
        issues_view(final(issues)@) == issues_view(old(issues)@) + visibility_issues(
            *d,
            *e,
            location@,
        ),
{
    let ghost start = issues_view(issues@);
    let nodes = e.nodes(false);
    let ghost w = walk(*e, false);
    let mut n: usize = 0;
    while n < nodes.len()
        invariant
            nodes@.len() == w.len(),
            w == walk(*e, false),
            forall|j: int| 0 <= j < nodes@.len() ==> *(#[trigger] nodes@[j]) == w[j],
            n <= nodes@.len(),
            issues_view(issues@) == start + visibility_section(*d, w, location@, n as int),
        decreases nodes.len() - n,
    {
        let node = nodes[n];
        assert(*node == w[n as int]);
        match node {
            Expression::Field { source, field } => {
                let mut k: usize = 0;
                let mut seen = false;
                while k < n
                    invariant
                        nodes@.len() == w.len(),
                        forall|j: int| 0 <= j < nodes@.len() ==> *(#[trigger] nodes@[j]) == w[j],
                        n < nodes@.len(),
                        *node == w[n as int],
                        w[n as int] == (Expression::Field { source: *source, field: *field }),
                        k <= n,
                        seen == exists|x: int| 0 <= x < k && same_field_node(#[trigger] w[x], w[n as int]),
                    decreases n - k,
                {
                    let other = nodes[k];
                    assert(*other == w[k as int]);
                    match other {
                        Expression::Field { source: s2, field: f2 } => {
                            if str_eq(s2.as_str(), source.as_str()) && str_eq(f2.as_str(), field.as_str()) {
                                seen = true;
                            }
                        },
                        _ => {},
                    }
                    assert(seen == exists|x: int| 0 <= x < k + 1 && same_field_node(#[trigger] w[x], w[n as int])) by {
                        if same_field_node(w[k as int], w[n as int]) {
                            assert(same_field_node(w[k as int], w[n as int]));
                        }
                    }
                    k = k + 1;
                }
                if !seen && field_is_hidden(d, source.as_str(), field.as_str()) {
                    let mut m = concat3q("field ", source.as_str(), ".");
                    m.append(debug_quote(field.as_str()).as_str());
                    m.append(" is internal and cannot be exposed");
                    push_issue(issues, DefinitionIssueCode::HiddenProjectionField, text(location), m);
                }
            },
            _ => {},
        }
        assert(issues_view(issues@) =~= start + visibility_section(*d, w, location@, (n + 1) as int));
        n = n + 1;
    }
}

proof fn lemma_first_conflict_extends(d: GraphDefinition, i: int, k: int, n: int)
    requires
        0 <= k <= n,
        first_conflict(d, i, k) is Some,
    ensures
        first_conflict(d, i, n) == first_conflict(d, i, k),
    decreases n - k,
{
    if k < n {
        lemma_first_conflict_extends(d, i, k, n - 1);
    }
}

fn first_conflicting(d: &GraphDefinition, i: usize) -> (r: Option<usize>)
    requires
        i < d.projection.fields@.len(),
    ensures
        match r {
            Some(j) => first_conflict(*d, i as int, i as int) == Some(j as int) && j < i,
            None => first_conflict(*d, i as int, i as int) is None,
        },
{
    let fields = &d.projection.fields;
    let mut j: usize = 0;
    while j < i
        invariant
            *fields == d.projection.fields,
            i < fields@.len(),
            j <= i,
            first_conflict(*d, i as int, j as int) is None,
        decreases i - j,
    {
        if paths_conflict(&fields[j].path, &fields[i].path) {
            proof {
                lemma_first_conflict_extends(*d, i as int, j + 1, i as int);
            }
            return Some(j);
        }
        j = j + 1;
    }
    None
}

fn validate_projection_field(d: &GraphDefinition, t: &GraphTopology, i: usize, issues: &mut Vec<DefinitionIssue>)
    requires
        t.wf(*d),
        i < d.projection.fields@.len(),
    ensures
        issues_view(final(issues)@) == issues_view(old(issues)@) + projection_field_issue(*d, *t, i as int),
{
    let ghost start = issues_view(issues@);
    let fields = &d.projection.fields;
    let field = &fields[i];
    let loc = indexed("projection.fields", i);
    let path_location = concat(loc.as_str(), ".path");
    validate_projection_path(&field.path, path_location.as_str(), issues);
    let mut k: usize = 0;
    let mut duplicate = false;
    while k < i
        invariant
            *fields == d.projection.fields,
            *field == fields@[i as int],
            i < fields@.len(),
            k <= i,
            duplicate == exists|x: int| 0 <= x < k && #[trigger] field_path(*d, x) == field_path(*d, i as int),
        decreases i - k,
    {
        if same_path(&fields[k].path, &field.path) {
            duplicate = true;
        }
        assert(duplicate == exists|x: int| 0 <= x < k + 1 && #[trigger] field_path(*d, x) == field_path(*d, i as int)) by {
            if field_path(*d, k as int) == field_path(*d, i as int) {
                assert(field_path(*d, k as int) == field_path(*d, i as int));
            }
        }
        k = k + 1;
    }
    if duplicate {
        let mut m = text("projection path ");
        m.append(debug_path(&field.path).as_str());
        m.append(" is defined more than once");
        push_issue(issues, DefinitionIssueCode::DuplicateProjectionPath, text(path_location.as_str()), m);
    } else {
        match first_conflicting(d, i) {
            Some(j) => {
                let mut m = text("projection path ");
                m.append(debug_path(&field.path).as_str());
                m.append(" conflicts with ");
                m.append(debug_path(&fields[j].path).as_str());
                push_issue(issues, DefinitionIssueCode::ConflictingProjectionPath, text(path_location.as_str()), m);
            },
            None => {},
        }
    }
    let ctx = ExpressionContext::unrestricted();
    assert(ctx@ == unrestricted_context());
    let expression_location = concat(loc.as_str(), ".expression");
    validate_expression(d, t, &field.expression, expression_location.as_str(), &ctx, issues);
    validate_visibility(d, &field.expression, expression_location.as_str(), issues);
    assert(issues_view(issues@) =~= start + projection_field_issue(*d, *t, i as int));
}

fn validate_projection_object(d: &GraphDefinition, t: &GraphTopology, i: usize, issues: &mut Vec<DefinitionIssue>)
    requires
        t.wf(*d),
        i < d.projection.objects@.len(),
    ensures
        issues_view(final(issues)@) == issues_view(old(issues)@) + projection_object_issue(*d, *t, i as int),
{
    let ghost start = issues_view(issues@);
    let objects = &d.projection.objects;
    let fields = &d.projection.fields;
    let object = &objects[i];
    let loc = indexed("projection.objects", i);
    let path_location = concat(loc.as_str(), ".path");
    validate_projection_path(&object.path, path_location.as_str(), issues);
    let mut k: usize = 0;
    let mut duplicate = false;
    while k < i
        invariant
            *objects == d.projection.objects,
            *object == objects@[i as int],
            i < objects@.len(),
            k <= i,
            duplicate == exists|x: int| 0 <= x < k && #[trigger] object_path(*d, x) == object_path(*d, i as int),
        decreases i - k,
    {
        if same_path(&objects[k].path, &object.path) {
            duplicate = true;
        }
        assert(duplicate == exists|x: int| 0 <= x < k + 1 && #[trigger] object_path(*d, x) == object_path(*d, i as int)) by {
            if object_path(*d, k as int) == object_path(*d, i as int) {
                assert(object_path(*d, k as int) == object_path(*d, i as int));
            }
        }
        k = k + 1;
    }
    if duplicate {
        let mut m = text("projection object path ");
        m.append(debug_path(&object.path).as_str());
        m.append(" is defined more than once");
        push_issue(issues, DefinitionIssueCode::DuplicateProjectionObjectPath, text(path_location.as_str()), m);
    }
    let mut f: usize = 0;
    let mut has_descendant = false;
    while f < fields.len()
        invariant
            *fields == d.projection.fields,
            *object == d.projection.objects@[i as int],
            i < d.projection.objects@.len(),
            f <= fields@.len(),
            has_descendant == exists|x: int| 0 <= x < f && #[trigger] field_path(*d, x).len() > object_path(*d, i as int).len() && starts_with(field_path(*d, x), object_path(*d, i as int)),
        decreases fields.len() - f,
    {
        if fields[f].path.len() > object.path.len() && path_starts_with(&fields[f].path, &object.path) {
            has_descendant = true;
        }
        assert(has_descendant == exists|x: int| 0 <= x < f + 1 && #[trigger] field_path(*d, x).len() > object_path(*d, i as int).len() && starts_with(field_path(*d, x), object_path(*d, i as int))) by {
            if field_path(*d, f as int).len() > object_path(*d, i as int).len() && starts_with(field_path(*d, f as int), object_path(*d, i as int)) {
                assert(field_path(*d, f as int).len() > object_path(*d, i as int).len());
            }
        }
        f = f + 1;
    }
    if !has_descendant {
        let mut m = text("projection object path ");
        m.append(debug_path(&object.path).as_str());
        m.append(" has no descendant projection fields");
        push_issue(issues, DefinitionIssueCode::ProjectionObjectWithoutFields, text(path_location.as_str()), m);
    }
    let ctx = ExpressionContext::unrestricted();
    assert(ctx@ == unrestricted_context());
    let presence_location = concat(loc.as_str(), ".presence");
    validate_expression(d, t, &object.presence, presence_location.as_str(), &ctx, issues);
    assert(issues_view(issues@) =~= start + projection_object_issue(*d, *t, i as int));
}

fn validate_projection(d: &GraphDefinition, t: &GraphTopology, issues: &mut Vec<DefinitionIssue>)
    requires
        t.wf(*d),
    ensures
        issues_view(final(issues)@) == issues_view(old(issues)@) + projection_issues(*d, *t),
{
    let ghost start = issues_view(issues@);
    let mut i: usize = 0;
    while i < d.projection.fields.len()
        invariant
            t.wf(*d),
            i <= d.projection.fields@.len(),
            issues_view(issues@) == start + projection_field_section(*d, *t, i as int),
        decreases d.projection.fields.len() - i,
    {
        validate_projection_field(d, t, i, issues);
        assert(issues_view(issues@) =~= start + projection_field_section(*d, *t, (i + 1) as int));
        i = i + 1;
    }
    let ghost middle = issues_view(issues@);
    if d.is_summary() && d.projection.objects.len() > 0 {
        push_issue(
            issues,
            DefinitionIssueCode::ProjectionObjectInSummary,
            text("projection.objects"),
            text("summary graph cannot define projection objects"),
        );
    }
    let ghost after_summary = issues_view(issues@);
    let mut i: usize = 0;
    while i < d.projection.objects.len()
        invariant
            t.wf(*d),
            i <= d.projection.objects@.len(),
            issues_view(issues@) == after_summary + projection_object_section(*d, *t, i as int),
        decreases d.projection.objects.len() - i,
    {
        validate_projection_object(d, t, i, issues);
        assert(issues_view(issues@) =~= after_summary + projection_object_section(*d, *t, (i + 1) as int));
        i = i + 1;
    }
    assert(issues_view(issues@) =~= start + projection_issues(*d, *t));
}

fn validate_orderings(d: &GraphDefinition, t: &GraphTopology, issues: &mut Vec<DefinitionIssue>)
    requires
        t.wf(*d),
    ensures
        issues_view(final(issues)@) == issues_view(old(issues)@) + ordering_issues(*d, *t),
{
    let ghost start = issues_view(issues@);
    let ctx = ExpressionContext::unrestricted();
    assert(ctx@ == unrestricted_context());
    let mut defaults: usize = 0;
    let mut i: usize = 0;
    while i < d.orderings.len()
        invariant
            t.wf(*d),
            ctx@ == unrestricted_context(),
            i <= d.orderings@.len(),
            defaults == default_count(*d, i as int),
            defaults <= i,
            issues_view(issues@) == start + ordering_section(*d, *t, i as int),
        decreases d.orderings.len() - i,
    {
        let ghost before = issues_view(issues@);
        let ordering = &d.orderings[i];
        let loc = indexed("orderings", i);
        let name = ordering.name.as_str();
        if is_blank(name) {
            push_issue(issues, DefinitionIssueCode::EmptyOrderingName, concat(loc.as_str(), ".name"), text("ordering name must not be empty"));
        } else {
            let mut k: usize = 0;
            let mut duplicate = false;
            while k < i
                invariant
                    i < d.orderings@.len(),
                    name@ == d.orderings@[i as int].name@,
                    k <= i,
                    duplicate == exists|x: int| 0 <= x < k && (#[trigger] d.orderings@[x]).name@ == d.orderings@[i as int].name@,
                decreases i - k,
            {
                if str_eq(d.orderings[k].name.as_str(), name) {
                    duplicate = true;
                }
                assert(duplicate == exists|x: int| 0 <= x < k + 1 && (#[trigger] d.orderings@[x]).name@ == d.orderings@[i as int].name@) by {
                    if d.orderings@[k as int].name@ == d.orderings@[i as int].name@ {
                        assert(d.orderings@[k as int].name@ == d.orderings@[i as int].name@);
                    }
                }
                k = k + 1;
            }
            if duplicate {
                let m = concat3q("ordering ", name, " is defined more than once");
                push_issue(issues, DefinitionIssueCode::DuplicateOrdering, concat(loc.as_str(), ".name"), m);
            }
        }
        if ordering.selected_by_default {
            defaults = defaults + 1;
        }
        let order_location = concat(loc.as_str(), ".orderBy");
        if ordering.order_by.len() == 0 {
            push_issue(issues, DefinitionIssueCode::EmptyOrdering, text(order_location.as_str()), text("ordering must contain at least one order item"));
        }
        validate_orders(d, t, &ordering.order_by, order_location.as_str(), &ctx, issues);
        assert(issues_view(issues@) =~= before + ordering_issue(*d, *t, i as int));
        assert(issues_view(issues@) =~= start + ordering_section(*d, *t, (i + 1) as int));
        i = i + 1;
    }
    if defaults > 1 {
        push_issue(
            issues,
            DefinitionIssueCode::MultipleDefaultOrderings,
            text("orderings"),
            text("only one ordering can be selected by default"),
        );
    }
    assert(issues_view(issues@) =~= start + ordering_issues(*d, *t));
}

/// Runs the structural checks in order, appending their issues.
pub fn validate_structure(d: &GraphDefinition, t: &GraphTopology, issues: &mut Vec<DefinitionIssue>)
    requires
        t.wf(*d),
    ensures
        issues_view(final(issues)@) == issues_view(old(issues)@) + structure_issues(*d, *t),
{
    let ghost start = issues_view(issues@);
    validate_header(d, issues);
    validate_sources(d, issues);
    validate_root(d, issues);
    validate_parameters(d, issues);
    validate_relations(d, t, issues);
    validate_constraints(d, t, issues);
    validate_projection(d, t, issues);
    validate_orderings(d, t, issues);
    proof {
        lemma_concat_eight(
            start,
            header_issues(*d),
            source_section(*d, d.sources@.len() as int),
            root_issues(*d),
            parameter_section(*d, d.parameters@.len() as int),
            relation_section(*d, *t, d.relations@.len() as int),
            constraint_section(*d, *t, d.constraints@.len() as int),
            projection_issues(*d, *t),
            ordering_issues(*d, *t),
        );
    }
}

proof fn lemma_concat_eight<A>(
    s: Seq<A>,
    a: Seq<A>,
    b: Seq<A>,
    c: Seq<A>,
    d: Seq<A>,
    e: Seq<A>,
    f: Seq<A>,
    g: Seq<A>,
    h: Seq<A>,
)
    ensures
        s + a + b + c + d + e + f + g + h == s + (a + b + c + d + e + f + g + h),
{
    assert(s + a + b + c + d + e + f + g + h =~= s + (a + b + c + d + e + f + g + h));
}

} // verus!
