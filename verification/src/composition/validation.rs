//! The checks a batch relation passes before a composed graph accepts it.
use vstd::prelude::*;

use crate::analysis::index::spec_parameter;
use crate::compiled_graph::{spec_projection, CompiledGraph};
use crate::composition::model::{
    composition_issues_view, BatchRelation, BatchRelationDefinition, CompositionIssue, CompositionIssueCode,
    CompositionIssues, SpecCompositionIssue,
};
use crate::definition::{GraphDefinition, ParameterShape};
use crate::mapping::{copy_optional, optional_view};
use crate::operation::{
    bound_position, copy_entries, entry_position, operation_issues, operation_issues_view, same_entries, same_value,
    OperationIssueCode, ParameterValue, QueryOperation, SpecOperationIssue,
};
use crate::path::{join_dots, join_path, path_view, split_dots};
use crate::relational_graph::MappedQueryGraph;
use crate::text::{
    concat, concat3, contains_char, debug_quote, debug_text, is_blank, spec_is_blank, spec_starts_with, starts_with,
    str_eq, suffix, text,
};
use crate::type_system::ExpressionType;
use crate::type_validation::projection_types;
use crate::validation::at;

verus! {

pub open spec fn composition_issue(code: CompositionIssueCode, location: Seq<char>, message: Seq<char>) -> Seq<SpecCompositionIssue> {
    seq![(code, location, message)]
}

/// `relations[i]`: where the issues of the relation at position `i` are reported.
pub open spec fn relation_location(i: int) -> Seq<char> {
    at("relations"@, i)
}

pub open spec fn name_section(def: BatchRelationDefinition, loc: Seq<char>) -> Seq<SpecCompositionIssue> {
    if spec_is_blank(def.name@) {
        composition_issue(
            CompositionIssueCode::EmptyRelationName,
            loc + ".name"@,
            "batch relation name must not be empty"@,
        )
    } else if def.name@.contains('.') {
        composition_issue(
            CompositionIssueCode::InvalidRelationName,
            loc + ".name"@,
            "batch relation name must be a single projection path segment"@,
        )
    } else {
        seq![]
    }
}

pub open spec fn duplicate_section(names: Seq<Seq<char>>, def: BatchRelationDefinition, loc: Seq<char>) -> Seq<SpecCompositionIssue> {
    if names.contains(def.name@) {
        composition_issue(
            CompositionIssueCode::DuplicateRelationName,
            loc + ".name"@,
            "batch relation "@ + debug_text(def.name@) + " is defined more than once"@,
        )
    } else {
        seq![]
    }
}

/// Whether a root projection path is the relation's name or lies under it.
pub open spec fn conflicts_with(path: Seq<char>, name: Seq<char>) -> bool {
    path == name || spec_starts_with(path, name + "."@)
}

pub open spec fn field_path(d: GraphDefinition, i: int) -> Seq<char> {
    join_dots(path_view(d.projection.fields@[i].path@))
}

pub open spec fn conflict_section(root: GraphDefinition, def: BatchRelationDefinition, loc: Seq<char>) -> Seq<SpecCompositionIssue> {
    if exists|i: int| 0 <= i < root.projection.fields@.len() && conflicts_with(#[trigger] field_path(root, i), def.name@) {
        composition_issue(
            CompositionIssueCode::ConflictingProjectionPath,
            loc + ".name"@,
            "batch relation "@ + debug_text(def.name@) + " conflicts with a root projection path"@,
        )
    } else {
        seq![]
    }
}

/// The resolved type of the projection field at a dotted path.
pub open spec fn projection_type_at_path(g: CompiledGraph, path: Seq<char>) -> Option<ExpressionType> {
    match spec_projection(g.graph(), split_dots(path)) {
        Some(i) => projection_types(g.graph(), g.graph_topology())[i],
        None => None,
    }
}

pub open spec fn key_section(root: CompiledGraph, child: CompiledGraph, def: BatchRelationDefinition, loc: Seq<char>) -> Seq<SpecCompositionIssue> {
    let cd = child.graph();
    let parent_type = projection_type_at_path(root, def.from@);
    let child_type = projection_type_at_path(child, def.to@);
    let parameter = spec_parameter(cd, def.parameter@);
    (if parent_type is None {
        composition_issue(
            CompositionIssueCode::UnknownParentKey,
            loc + ".from"@,
            "projection field "@ + debug_text(def.from@) + " is not defined"@,
        )
    } else {
        seq![]
    }) + (if child_type is None {
        composition_issue(
            CompositionIssueCode::UnknownChildKey,
            loc + ".to"@,
            "projection field "@ + debug_text(def.to@) + " is not defined"@,
        )
    } else {
        seq![]
    }) + (match parameter {
        None => composition_issue(
            CompositionIssueCode::UnknownKeyParameter,
            loc + ".parameter"@,
            "parameter "@ + debug_text(def.parameter@) + " is not defined"@,
        ),
        Some(pi) => if cd.parameters@[pi].shape != ParameterShape::List {
            composition_issue(
                CompositionIssueCode::KeyParameterNotList,
                loc + ".parameter"@,
                "batch key parameter must have list shape"@,
            )
        } else {
            seq![]
        },
    }) + (match (parent_type, child_type, parameter) {
        (Some(a), Some(b), Some(pi)) => if b.scalar_type != a.scalar_type || cd.parameters@[pi].scalar_type
            != a.scalar_type {
            composition_issue(
                CompositionIssueCode::IncompatibleKeyTypes,
                loc,
                "parent key, child key, and key parameter must have the same scalar type"@,
            )
        } else {
            seq![]
        },
        _ => seq![],
    }) + (if bound_position(def.parameters@, def.parameter@, def.parameters@.len() as int) is Some {
        composition_issue(
            CompositionIssueCode::KeyParameterIsStatic,
            loc + ".parameters."@ + def.parameter@,
            "the batch key parameter is supplied automatically"@,
        )
    } else {
        seq![]
    })
}

/// The path the check of the child operation selects: the child key when the child
/// graph projects it, else the first child field.
pub open spec fn child_selection(child: GraphDefinition, def: BatchRelationDefinition) -> Option<Seq<char>> {
    if spec_projection(child, split_dots(def.to@)) is Some {
        Some(def.to@)
    } else if child.projection.fields@.len() > 0 {
        Some(field_path(child, 0))
    } else {
        None
    }
}

pub open spec fn key_is_list(child: GraphDefinition, key: Seq<char>) -> bool {
    spec_parameter(child, key) matches Some(pi) && child.parameters@[pi].shape == ParameterShape::List
}

/// `x` reads as `entries` with `key` bound to a value that `fits`: the first entry of
/// `key` takes the value, or a new entry is added at the end.
pub open spec fn binds_with(
    x: Seq<(String, ParameterValue)>,
    entries: Seq<(String, ParameterValue)>,
    key: Seq<char>,
    fits: spec_fn(ParameterValue) -> bool,
) -> bool {
    match bound_position(entries, key, entries.len() as int) {
        Some(k) => x.len() == entries.len() && x[k].0@ == key && fits(x[k].1) && forall|i: int|
            0 <= i < entries.len() && i != k ==> (#[trigger] x[i]).0@ == entries[i].0@ && same_value(x[i].1, entries[i].1),
        None => x.len() == entries.len() + 1 && x[entries.len() as int].0@ == key && fits(x[entries.len() as int].1)
            && forall|i: int|
            0 <= i < entries.len() ==> (#[trigger] x[i]).0@ == entries[i].0@ && same_value(x[i].1, entries[i].1),
    }
}

pub open spec fn empty_list(v: ParameterValue) -> bool {
    v matches ParameterValue::Array(items) && items@.len() == 0
}

/// The operation that checks a relation's static parameters and ordering against the
/// child graph: it selects `selected`, takes the relation's ordering, and binds the static
/// parameters, with the key bound to an empty list when the key is a list parameter.
pub open spec fn child_check_operation(x: QueryOperation, selected: Seq<char>, child: GraphDefinition, def: BatchRelationDefinition) -> bool {
    &&& x.select matches Some(v) && v@.len() == 1 && v@[0]@ == selected
    &&& optional_view(x.ordering) == optional_view(def.ordering)
    &&& x.offset is None
    &&& x.limit is None
    &&& if key_is_list(child, def.parameter@) {
        binds_with(x.parameters@, def.parameters@, def.parameter@, |v: ParameterValue| empty_list(v))
    } else {
        same_entries(x.parameters@, def.parameters@)
    }
}

/// Where an issue of the child operation is reported for the relation.
pub open spec fn prefixed_location(relation_loc: Seq<char>, operation_loc: Seq<char>) -> Seq<char> {
    if spec_starts_with(operation_loc, "parameters"@) {
        relation_loc + ".parameters"@ + operation_loc.skip("parameters"@.len() as int)
    } else {
        relation_loc + "."@ + operation_loc
    }
}

/// The relation issue that an issue of the child operation gives, if any: issues of the
/// key parameter are dropped, and so are those that do not concern static parameters or
/// the ordering.
pub open spec fn child_issue(i: SpecOperationIssue, key: Seq<char>, loc: Seq<char>) -> Seq<SpecCompositionIssue> {
    let key_loc = "parameters."@ + key;
    if i.1 == key_loc || spec_starts_with(i.1, key_loc + "["@) {
        seq![]
    } else {
        match i.0 {
            OperationIssueCode::UnknownOrdering => composition_issue(
                CompositionIssueCode::UnknownChildOrdering,
                loc + ".ordering"@,
                i.2,
            ),
            OperationIssueCode::UnknownParameter => composition_issue(
                CompositionIssueCode::UnknownStaticParameter,
                prefixed_location(loc, i.1),
                i.2,
            ),
            OperationIssueCode::MissingParameter => composition_issue(
                CompositionIssueCode::MissingStaticParameter,
                prefixed_location(loc, i.1),
                i.2,
            ),
            OperationIssueCode::InvalidParameterType => composition_issue(
                CompositionIssueCode::InvalidStaticParameterType,
                prefixed_location(loc, i.1),
                i.2,
            ),
            _ => seq![],
        }
    }
}

pub open spec fn child_issue_section(issues: Seq<SpecOperationIssue>, key: Seq<char>, loc: Seq<char>, n: int) -> Seq<SpecCompositionIssue>
    decreases n,
{
    if n <= 0 {
        seq![]
    } else {
        child_issue_section(issues, key, loc, n - 1) + child_issue(issues[n - 1], key, loc)
    }
}

/// The issues of a relation at position `names.len()` whose child operation, when there
/// is one, is `x`.
pub open spec fn relation_issues(
    root: CompiledGraph,
    names: Seq<Seq<char>>,
    child: CompiledGraph,
    def: BatchRelationDefinition,
    x: QueryOperation,
) -> Seq<SpecCompositionIssue> {
    let loc = relation_location(names.len() as int);
    name_section(def, loc) + duplicate_section(names, def, loc) + conflict_section(root.graph(), def, loc) + key_section(
        root,
        child,
        def,
        loc,
    ) + match child_selection(child.graph(), def) {
        None => seq![],
        Some(_) => {
            let issues = operation_issues(x, child.graph());
            child_issue_section(issues, def.parameter@, loc, issues.len() as int)
        },
    }
}

pub open spec fn relation_names(relations: Seq<BatchRelation>) -> Seq<Seq<char>> {
    Seq::new(relations.len(), |i: int| relations[i].definition.name@)
}

fn push_issue(issues: &mut Vec<CompositionIssue>, code: CompositionIssueCode, location: String, message: String)
    ensures
        composition_issues_view(final(issues)@) == composition_issues_view(old(issues)@) + composition_issue(
            code,
            location@,
            message@,
        ),
{
    let ghost before = issues@;
    issues.push(CompositionIssue { code, location, message });
    assert(composition_issues_view(issues@) =~= composition_issues_view(before) + composition_issue(code, location@, message@));
}

fn name_issues(def: &BatchRelationDefinition, names: &Vec<&String>, root: &GraphDefinition, loc: &str, issues: &mut Vec<CompositionIssue>)
    ensures
        composition_issues_view(final(issues)@) == composition_issues_view(old(issues)@) + name_section(*def, loc@)
            + duplicate_section(Seq::new(names@.len(), |i: int| names@[i]@), *def, loc@) + conflict_section(*root, *def, loc@),
{
    let ghost start = composition_issues_view(issues@);
    let ghost all = Seq::new(names@.len(), |i: int| names@[i]@);
    if is_blank(def.name.as_str()) {
        push_issue(issues, CompositionIssueCode::EmptyRelationName, concat(loc, ".name"), text("batch relation name must not be empty"));
    } else if contains_char(def.name.as_str(), '.') {
        push_issue(
            issues,
            CompositionIssueCode::InvalidRelationName,
            concat(loc, ".name"),
            text("batch relation name must be a single projection path segment"),
        );
    }
    assert(composition_issues_view(issues@) =~= start + name_section(*def, loc@));
    let ghost mid = composition_issues_view(issues@);
    let mut duplicate = false;
    let mut i: usize = 0;
    while i < names.len()
        invariant
            all == Seq::new(names@.len(), |i: int| names@[i]@),
            i <= names@.len(),
            duplicate == (exists|j: int| 0 <= j < i && #[trigger] all[j] == def.name@),
        decreases names.len() - i,
    {
        assert(all[i as int] == names@[i as int]@);
        if str_eq(names[i].as_str(), def.name.as_str()) {
            duplicate = true;
        }
        i = i + 1;
    }
    assert(duplicate == all.contains(def.name@));
    if duplicate {
        push_issue(
            issues,
            CompositionIssueCode::DuplicateRelationName,
            concat(loc, ".name"),
            concat3("batch relation ", debug_quote(def.name.as_str()).as_str(), " is defined more than once"),
        );
    }
    assert(composition_issues_view(issues@) =~= mid + duplicate_section(all, *def, loc@));
    let ghost mid2 = composition_issues_view(issues@);
    let namespace = concat(def.name.as_str(), ".");
    let mut conflict = false;
    let mut k: usize = 0;
    while k < root.projection.fields.len()
        invariant
            namespace@ == def.name@ + "."@,
            k <= root.projection.fields@.len(),
            conflict == (exists|j: int| 0 <= j < k && conflicts_with(#[trigger] field_path(*root, j), def.name@)),
        decreases root.projection.fields.len() - k,
    {
        let path = join_path(&root.projection.fields[k].path);
        if str_eq(path.as_str(), def.name.as_str()) || starts_with(path.as_str(), namespace.as_str()) {
            assert(conflicts_with(field_path(*root, k as int), def.name@));
            conflict = true;
        } else {
            assert(!conflicts_with(field_path(*root, k as int), def.name@));
        }
        k = k + 1;
    }
    if conflict {
        push_issue(
            issues,
            CompositionIssueCode::ConflictingProjectionPath,
            concat(loc, ".name"),
            concat3("batch relation ", debug_quote(def.name.as_str()).as_str(), " conflicts with a root projection path"),
        );
    }
    assert(composition_issues_view(issues@) =~= mid2 + conflict_section(*root, *def, loc@));
}

fn key_issues(root: &CompiledGraph, child: &CompiledGraph, def: &BatchRelationDefinition, loc: &str, issues: &mut Vec<CompositionIssue>)
    ensures
        composition_issues_view(final(issues)@) == composition_issues_view(old(issues)@) + key_section(*root, *child, *def, loc@),
{
    let ghost start = composition_issues_view(issues@);
    let parent_type = root.projection_type(def.from.as_str());
    let child_type = child.projection_type(def.to.as_str());
    let parameter = child.parameter(def.parameter.as_str());
    let ghost s1 = start;
    if parent_type.is_none() {
        push_issue(
            issues,
            CompositionIssueCode::UnknownParentKey,
            concat(loc, ".from"),
            concat3("projection field ", debug_quote(def.from.as_str()).as_str(), " is not defined"),
        );
    }
    let ghost s2 = composition_issues_view(issues@);
    if child_type.is_none() {
        push_issue(
            issues,
            CompositionIssueCode::UnknownChildKey,
            concat(loc, ".to"),
            concat3("projection field ", debug_quote(def.to.as_str()).as_str(), " is not defined"),
        );
    }
    let ghost s3 = composition_issues_view(issues@);
    match parameter {
        None => push_issue(
            issues,
            CompositionIssueCode::UnknownKeyParameter,
            concat(loc, ".parameter"),
            concat3("parameter ", debug_quote(def.parameter.as_str()).as_str(), " is not defined"),
        ),
        Some(p) => {
            if p.shape != ParameterShape::List {
                push_issue(
                    issues,
                    CompositionIssueCode::KeyParameterNotList,
                    concat(loc, ".parameter"),
                    text("batch key parameter must have list shape"),
                );
            }
        },
    }
    let ghost s4 = composition_issues_view(issues@);
    match (parent_type, child_type, parameter) {
        (Some(a), Some(b), Some(p)) => {
            if b.scalar_type != a.scalar_type || p.scalar_type != a.scalar_type {
                push_issue(
                    issues,
                    CompositionIssueCode::IncompatibleKeyTypes,
                    text(loc),
                    text("parent key, child key, and key parameter must have the same scalar type"),
                );
            }
        },
        _ => {},
    }
    let ghost s5 = composition_issues_view(issues@);
    if entry_position(&def.parameters, def.parameter.as_str()).is_some() {
        let mut location = concat(loc, ".parameters.");
        location.append(def.parameter.as_str());
        push_issue(
            issues,
            CompositionIssueCode::KeyParameterIsStatic,
            location,
            text("the batch key parameter is supplied automatically"),
        );
    }
    assert(composition_issues_view(issues@) =~= start + key_section(*root, *child, *def, loc@));
}

/// Where an issue of the child operation is reported for the relation.
fn prefix_location(relation_loc: &str, operation_loc: &str) -> (r: String)
    ensures
        r@ == prefixed_location(relation_loc@, operation_loc@),
{
    proof {
        reveal_strlit("parameters");
    }
    if starts_with(operation_loc, "parameters") {
        concat3(relation_loc, ".parameters", suffix(operation_loc, 10).as_str())
    } else {
        concat3(relation_loc, ".", operation_loc)
    }
}

/// The relation issues that the issues of the child operation give.
fn child_issue_list(found: &Vec<crate::operation::OperationIssue>, key: &str, loc: &str, issues: &mut Vec<CompositionIssue>)
    ensures
        composition_issues_view(final(issues)@) == composition_issues_view(old(issues)@) + child_issue_section(
            operation_issues_view(found@),
            key@,
            loc@,
            found@.len() as int,
        ),
{
    let ghost start = composition_issues_view(issues@);
    let ghost v = operation_issues_view(found@);
    let key_loc = concat("parameters.", key);
    let key_item = concat(key_loc.as_str(), "[");
    let mut i: usize = 0;
    while i < found.len()
        invariant
            v == operation_issues_view(found@),
            key_loc@ == "parameters."@ + key@,
            key_item@ == "parameters."@ + key@ + "["@,
            i <= found@.len(),
            composition_issues_view(issues@) == start + child_issue_section(v, key@, loc@, i as int),
        decreases found.len() - i,
    {
        let issue = &found[i];
        let ghost before = composition_issues_view(issues@);
        if !(str_eq(issue.location.as_str(), key_loc.as_str()) || starts_with(issue.location.as_str(), key_item.as_str())) {
            match issue.code {
                OperationIssueCode::UnknownOrdering => push_issue(
                    issues,
                    CompositionIssueCode::UnknownChildOrdering,
                    concat(loc, ".ordering"),
                    text(issue.message.as_str()),
                ),
                OperationIssueCode::UnknownParameter => push_issue(
                    issues,
                    CompositionIssueCode::UnknownStaticParameter,
                    prefix_location(loc, issue.location.as_str()),
                    text(issue.message.as_str()),
                ),
                OperationIssueCode::MissingParameter => push_issue(
                    issues,
                    CompositionIssueCode::MissingStaticParameter,
                    prefix_location(loc, issue.location.as_str()),
                    text(issue.message.as_str()),
                ),
                OperationIssueCode::InvalidParameterType => push_issue(
                    issues,
                    CompositionIssueCode::InvalidStaticParameterType,
                    prefix_location(loc, issue.location.as_str()),
                    text(issue.message.as_str()),
                ),
                _ => {},
            }
        }
        assert(v[i as int] == (issue.code, issue.location@, issue.message@));
        assert(composition_issues_view(issues@) =~= before + child_issue(v[i as int], key@, loc@));
        i = i + 1;
    }
}

/// Checks the relation's static parameters and ordering with an operation on the child
/// graph.
fn child_operation_issues(child: &CompiledGraph, def: &BatchRelationDefinition, loc: &str, issues: &mut Vec<CompositionIssue>)
    ensures
        exists|x: QueryOperation|
            #![trigger operation_issues(x, child.graph())]
            (child_selection(child.graph(), *def) matches Some(sel) ==> child_check_operation(x, sel, child.graph(), *def))
            && composition_issues_view(final(issues)@) == composition_issues_view(old(issues)@) + match child_selection(
                child.graph(),
                *def,
            ) {
                None => seq![],
                Some(_) => child_issue_section(
                    operation_issues(x, child.graph()),
                    def.parameter@,
                    loc@,
                    operation_issues(x, child.graph()).len() as int,
                ),
            },
{
    let d = child.definition();
    let selected = if child.projection(def.to.as_str()).is_some() {
        text(def.to.as_str())
    } else if d.projection.fields.len() > 0 {
        join_path(&d.projection.fields[0].path)
    } else {
        let ghost x = vstd::pervasive::arbitrary::<QueryOperation>();
        assert(operation_issues(x, child.graph()) == operation_issues(x, child.graph()));
        assert(composition_issues_view(issues@) =~= composition_issues_view(issues@) + seq![]);
        return;
    };
    let ghost sel = child_selection(child.graph(), *def)->0;
    assert(selected@ == sel);
    let key_list = match child.parameter(def.parameter.as_str()) {
        Some(p) => p.shape == ParameterShape::List,
        None => false,
    };
    assert(key_list == key_is_list(child.graph(), def.parameter@));
    let mut parameters = copy_entries(&def.parameters);
    if key_list {
        match entry_position(&def.parameters, def.parameter.as_str()) {
            Some(k) => {
                parameters.set(k, (text(def.parameter.as_str()), ParameterValue::Array(Vec::new())));
            },
            None => {
                parameters.push((text(def.parameter.as_str()), ParameterValue::Array(Vec::new())));
            },
        }
    }
    let operation = QueryOperation {
        select: Some(vec![selected]),
        ordering: copy_optional(&def.ordering),
        parameters,
        offset: None,
        limit: None,
    };
    assert(child_check_operation(operation, sel, child.graph(), *def));
    let ghost start = composition_issues_view(issues@);
    match operation.validate(child) {
        Ok(_) => {
            assert(child_issue_section(operation_issues(operation, child.graph()), def.parameter@, loc@, 0) =~= seq![]);
            assert(composition_issues_view(issues@) =~= start + child_issue_section(
                operation_issues(operation, child.graph()),
                def.parameter@,
                loc@,
                operation_issues(operation, child.graph()).len() as int,
            ));
        },
        Err(found) => {
            child_issue_list(&found.0, def.parameter.as_str(), loc, issues);
        },
    }
}

/// `r` is the outcome of checking relation `def` to `child` as the relation after those
/// named `names`: `Ok` exactly when the relation has no issue, else every issue, where
/// `x` is the operation that checks the static parameters and ordering.
pub open spec fn relation_outcome(
    root: CompiledGraph,
    names: Seq<Seq<char>>,
    child: CompiledGraph,
    def: BatchRelationDefinition,
    r: Result<(), CompositionIssues>,
) -> bool {
    exists|x: QueryOperation|
        #![trigger relation_issues(root, names, child, def, x)]
        (child_selection(child.graph(), def) matches Some(sel) ==> child_check_operation(x, sel, child.graph(), def))
            && match r {
            Ok(()) => relation_issues(root, names, child, def, x).len() == 0,
            Err(e) => composition_issues_view(e.0@) == relation_issues(root, names, child, def, x) && e.0@.len() > 0,
        }
}

/// The issues of a batch relation that a composed graph with `relations` would add at the
/// next position: `Ok` exactly when there are none.
pub(crate) fn validate_relation(
    root: &MappedQueryGraph,
    relations: &Vec<BatchRelation>,
    graph: &MappedQueryGraph,
    definition: &BatchRelationDefinition,
) -> (r: Result<(), CompositionIssues>)
    ensures
        relation_outcome(root.graph_view(), relation_names(relations@), graph.graph_view(), *definition, r),
{
    let loc = crate::text::indexed("relations", relations.len());
    let mut names: Vec<&String> = Vec::new();
    let mut i: usize = 0;
    while i < relations.len()
        invariant
            i <= relations@.len(),
            names@.len() == i,
            forall|j: int| 0 <= j < i ==> (#[trigger] names@[j])@ == relations@[j].definition.name@,
        decreases relations.len() - i,
    {
        names.push(&relations[i].definition.name);
        i = i + 1;
    }
    assert(Seq::new(names@.len(), |i: int| names@[i]@) =~= relation_names(relations@));
    let mut issues: Vec<CompositionIssue> = Vec::new();
    let root_graph = root.graph();
    let child_graph = graph.graph();
    name_issues(definition, &names, root_graph.definition(), loc.as_str(), &mut issues);
    key_issues(root_graph, child_graph, definition, loc.as_str(), &mut issues);
    let ghost before = composition_issues_view(issues@);
    child_operation_issues(child_graph, definition, loc.as_str(), &mut issues);
    assert(loc@ == relation_location(relations@.len() as int));
    let ghost x = choose|x: QueryOperation|
        #![trigger operation_issues(x, child_graph.graph())]
        (child_selection(child_graph.graph(), *definition) matches Some(sel) ==> child_check_operation(
            x,
            sel,
            child_graph.graph(),
            *definition,
        )) && composition_issues_view(issues@) == before + match child_selection(child_graph.graph(), *definition) {
            None => seq![],
            Some(_) => child_issue_section(
                operation_issues(x, child_graph.graph()),
                definition.parameter@,
                loc@,
                operation_issues(x, child_graph.graph()).len() as int,
            ),
        };
    assert(composition_issues_view(issues@) =~= relation_issues(
        root.graph_view(),
        relation_names(relations@),
        graph.graph_view(),
        *definition,
        x,
    ));
    if issues.len() == 0 {
        let r = Ok(());
        assert(relation_outcome(root.graph_view(), relation_names(relations@), graph.graph_view(), *definition, r));
        r
    } else {
        let r = Err(CompositionIssues(issues));
        assert(relation_outcome(root.graph_view(), relation_names(relations@), graph.graph_view(), *definition, r));
        r
    }
}

/// Every issue of `v` is reported at `loc` or below it.
pub open spec fn located_under(v: Seq<SpecCompositionIssue>, loc: Seq<char>) -> bool {
    forall|k: int| 0 <= k < v.len() ==> spec_starts_with(#[trigger] v[k].1, loc)
}

proof fn lemma_extends(loc: Seq<char>, x: Seq<char>)
    ensures
        spec_starts_with(loc + x, loc),
{
    assert((loc + x).take(loc.len() as int) =~= loc);
}

proof fn lemma_under_concat(a: Seq<SpecCompositionIssue>, b: Seq<SpecCompositionIssue>, loc: Seq<char>)
    requires
        located_under(a, loc),
        located_under(b, loc),
    ensures
        located_under(a + b, loc),
{
    assert forall|k: int| 0 <= k < (a + b).len() implies spec_starts_with(#[trigger] (a + b)[k].1, loc) by {
        if k < a.len() {
            assert((a + b)[k] == a[k]);
        } else {
            assert((a + b)[k] == b[k - a.len()]);
        }
    }
}

proof fn lemma_issue_under(code: CompositionIssueCode, loc: Seq<char>, x: Seq<char>, message: Seq<char>)
    ensures
        located_under(composition_issue(code, loc + x, message), loc),
{
    lemma_extends(loc, x);
}

proof fn lemma_child_issues_under(issues: Seq<SpecOperationIssue>, key: Seq<char>, loc: Seq<char>, n: int)
    ensures
        located_under(child_issue_section(issues, key, loc, n), loc),
    decreases n,
{
    if n > 0 {
        lemma_child_issues_under(issues, key, loc, n - 1);
        let i = issues[n - 1];
        lemma_issue_under(CompositionIssueCode::UnknownChildOrdering, loc, ".ordering"@, i.2);
        if spec_starts_with(i.1, "parameters"@) {
            lemma_extends(loc, ".parameters"@ + i.1.skip("parameters"@.len() as int));
            assert(loc + ".parameters"@ + i.1.skip("parameters"@.len() as int) =~= loc + (".parameters"@ + i.1.skip(
                "parameters"@.len() as int,
            )));
        } else {
            lemma_extends(loc, "."@ + i.1);
            assert(loc + "."@ + i.1 =~= loc + ("."@ + i.1));
        }
        lemma_under_concat(child_issue_section(issues, key, loc, n - 1), child_issue(i, key, loc), loc);
    }
}

/// Every issue of a batch relation is reported under the relation's location
/// `relations[n]`, where `n` is the number of relations before it.
pub proof fn law_relation_issues_lie_under_the_relation(
    root: CompiledGraph,
    names: Seq<Seq<char>>,
    child: CompiledGraph,
    def: BatchRelationDefinition,
    x: QueryOperation,
)
    ensures
        located_under(relation_issues(root, names, child, def, x), relation_location(names.len() as int)),
{
    let loc = relation_location(names.len() as int);
    lemma_issue_under(CompositionIssueCode::EmptyRelationName, loc, ".name"@, "batch relation name must not be empty"@);
    lemma_extends(loc, ".name"@);
    lemma_extends(loc, ".from"@);
    lemma_extends(loc, ".to"@);
    lemma_extends(loc, ".parameter"@);
    lemma_extends(loc, seq![]);
    assert(loc + seq![] =~= loc);
    lemma_extends(loc, ".parameters."@ + def.parameter@);
    assert(loc + ".parameters."@ + def.parameter@ =~= loc + (".parameters."@ + def.parameter@));
    let a = name_section(def, loc);
    let b = duplicate_section(names, def, loc);
    let c = conflict_section(root.graph(), def, loc);
    let k = key_section(root, child, def, loc);
    assert(located_under(a, loc));
    assert(located_under(b, loc));
    assert(located_under(c, loc));
    let cd = child.graph();
    let parent_type = projection_type_at_path(root, def.from@);
    let child_type = projection_type_at_path(child, def.to@);
    let parameter = spec_parameter(cd, def.parameter@);
    let k1: Seq<SpecCompositionIssue> = if parent_type is None {
        composition_issue(CompositionIssueCode::UnknownParentKey, loc + ".from"@, "projection field "@ + debug_text(def.from@) + " is not defined"@)
    } else {
        seq![]
    };
    let k2: Seq<SpecCompositionIssue> = if child_type is None {
        composition_issue(CompositionIssueCode::UnknownChildKey, loc + ".to"@, "projection field "@ + debug_text(def.to@) + " is not defined"@)
    } else {
        seq![]
    };
    let k3: Seq<SpecCompositionIssue> = match parameter {
        None => composition_issue(CompositionIssueCode::UnknownKeyParameter, loc + ".parameter"@, "parameter "@ + debug_text(def.parameter@) + " is not defined"@),
        Some(pi) => if cd.parameters@[pi].shape != ParameterShape::List {
            composition_issue(CompositionIssueCode::KeyParameterNotList, loc + ".parameter"@, "batch key parameter must have list shape"@)
        } else {
            seq![]
        },
    };
    let k4: Seq<SpecCompositionIssue> = match (parent_type, child_type, parameter) {
        (Some(a), Some(b), Some(pi)) => if b.scalar_type != a.scalar_type || cd.parameters@[pi].scalar_type != a.scalar_type {
            composition_issue(CompositionIssueCode::IncompatibleKeyTypes, loc, "parent key, child key, and key parameter must have the same scalar type"@)
        } else {
            seq![]
        },
        _ => seq![],
    };
    let k5: Seq<SpecCompositionIssue> = if bound_position(def.parameters@, def.parameter@, def.parameters@.len() as int) is Some {
        composition_issue(CompositionIssueCode::KeyParameterIsStatic, loc + ".parameters."@ + def.parameter@, "the batch key parameter is supplied automatically"@)
    } else {
        seq![]
    };
    assert(k == k1 + k2 + k3 + k4 + k5);
    assert(located_under(k1, loc));
    assert(located_under(k2, loc));
    assert(located_under(k3, loc));
    assert(located_under(k4, loc));
    assert(located_under(k5, loc));
    lemma_under_concat(k1, k2, loc);
    lemma_under_concat(k1 + k2, k3, loc);
    lemma_under_concat(k1 + k2 + k3, k4, loc);
    lemma_under_concat(k1 + k2 + k3 + k4, k5, loc);
    let e: Seq<SpecCompositionIssue> = match child_selection(child.graph(), def) {
        None => seq![],
        Some(_) => {
            let issues = operation_issues(x, child.graph());
            child_issue_section(issues, def.parameter@, loc, issues.len() as int)
        },
    };
    if child_selection(child.graph(), def) is Some {
        let issues = operation_issues(x, child.graph());
        lemma_child_issues_under(issues, def.parameter@, loc, issues.len() as int);
    }
    assert(located_under(e, loc));
    lemma_under_concat(a, b, loc);
    lemma_under_concat(a + b, c, loc);
    lemma_under_concat(a + b + c, k, loc);
    lemma_under_concat(a + b + c + k, e, loc);
}

} // verus!
