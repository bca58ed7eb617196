//! How a composed operation splits into the operation on the root graph and one
//! operation for each batch relation that it selects.
use vstd::prelude::*;

use crate::compiled_graph::{spec_projection, CompiledGraph};
use crate::composition::model::{BatchPlanMetadata, BatchRelation};
use crate::mapping::{copy_optional, optional_view};
use crate::operation::{
    copy_entries, issue, operation_issues_view, same_entries, texts, OperationIssue, OperationIssueCode, OperationIssues,
    QueryOperation, SpecOperationIssue,
};
use crate::path::split_dots;
use crate::text::{chars_of, concat, concat3, debug_quote, debug_text, indexed, spec_starts_with, starts_with, str_eq, suffix, text};
use crate::validation::at;

verus! {

/// Whether the selected path `p` names a field of the relation's child graph: the
/// relation's name, a dot, and a path that the child graph projects.
pub open spec fn relation_takes(rel: BatchRelation, p: Seq<char>) -> bool {
    let prefix = rel.definition.name@ + "."@;
    spec_starts_with(p, prefix) && spec_projection(rel.graph.graph_view().graph(), split_dots(p.skip(prefix.len() as int)))
        is Some
}

/// The path within the child graph that the selected path `p` names.
pub open spec fn child_path(rel: BatchRelation, p: Seq<char>) -> Seq<char> {
    p.skip(rel.definition.name@.len() + 1int)
}

/// The first of the first `n` relations that takes `p`.
pub open spec fn taking_relation(rels: Seq<BatchRelation>, p: Seq<char>, n: int) -> Option<int>
    decreases n,
{
    if n <= 0 {
        None
    } else {
        match taking_relation(rels, p, n - 1) {
            Some(r) => Some(r),
            None => if relation_takes(rels[n - 1], p) {
                Some(n - 1)
            } else {
                None
            },
        }
    }
}

/// Whether the path at position `k` was selected before.
pub open spec fn repeated(sel: Seq<Seq<char>>, k: int) -> bool {
    exists|j: int| 0 <= j < k && #[trigger] sel[j] == sel[k]
}

pub open spec fn root_projects(root: CompiledGraph, p: Seq<char>) -> bool {
    spec_projection(root.graph(), split_dots(p)) is Some
}

/// The relation that the path at position `k` goes to, if it goes to one.
pub open spec fn batch_choice(root: CompiledGraph, rels: Seq<BatchRelation>, sel: Seq<Seq<char>>, k: int) -> Option<int> {
    if repeated(sel, k) || root_projects(root, sel[k]) {
        None
    } else {
        taking_relation(rels, sel[k], rels.len() as int)
    }
}

/// The issues of the first `n` selected paths: repeated paths and paths that neither the
/// root nor a relation projects.
pub open spec fn partition_issues(root: CompiledGraph, rels: Seq<BatchRelation>, sel: Seq<Seq<char>>, n: int) -> Seq<
    SpecOperationIssue,
>
    decreases n,
{
    if n <= 0 {
        seq![]
    } else {
        let k = n - 1;
        partition_issues(root, rels, sel, k) + if repeated(sel, k) {
            issue(
                OperationIssueCode::DuplicateSelection,
                at("select"@, k),
                "projection field "@ + debug_text(sel[k]) + " is selected more than once"@,
            )
        } else if !root_projects(root, sel[k]) && taking_relation(rels, sel[k], rels.len() as int) is None {
            issue(OperationIssueCode::UnknownSelection, at("select"@, k), "projection field "@ + debug_text(sel[k]) + " is not defined"@)
        } else {
            seq![]
        }
    }
}

/// The root paths among the first `n` selected paths, each once, in selection order.
pub open spec fn requested_root_paths(root: CompiledGraph, sel: Seq<Seq<char>>, n: int) -> Seq<Seq<char>>
    decreases n,
{
    if n <= 0 {
        seq![]
    } else {
        let k = n - 1;
        requested_root_paths(root, sel, k) + if !repeated(sel, k) && root_projects(root, sel[k]) {
            seq![sel[k]]
        } else {
            seq![]
        }
    }
}

/// The child paths among the first `n` selected paths, each with its relation, in
/// selection order.
pub open spec fn batch_paths(root: CompiledGraph, rels: Seq<BatchRelation>, sel: Seq<Seq<char>>, n: int) -> Seq<
    (int, Seq<char>),
>
    decreases n,
{
    if n <= 0 {
        seq![]
    } else {
        let k = n - 1;
        batch_paths(root, rels, sel, k) + match batch_choice(root, rels, sel, k) {
            Some(r) => seq![(r, child_path(rels[r], sel[k]))],
            None => seq![],
        }
    }
}

/// The paths of the first `n` targets that go to relation `r`.
pub open spec fn paths_of(targets: Seq<(int, Seq<char>)>, r: int, n: int) -> Seq<Seq<char>>
    decreases n,
{
    if n <= 0 {
        seq![]
    } else {
        paths_of(targets, r, n - 1) + if targets[n - 1].0 == r {
            seq![targets[n - 1].1]
        } else {
            seq![]
        }
    }
}

/// The child paths that the selection asks of relation `r`.
pub open spec fn relation_selection(root: CompiledGraph, rels: Seq<BatchRelation>, sel: Seq<Seq<char>>, r: int) -> Seq<
    Seq<char>,
> {
    let targets = batch_paths(root, rels, sel, sel.len() as int);
    paths_of(targets, r, targets.len() as int)
}

/// The relations among the first `n` that the selection reaches, in relation order.
pub open spec fn selected_relations(root: CompiledGraph, rels: Seq<BatchRelation>, sel: Seq<Seq<char>>, n: int) -> Seq<int>
    decreases n,
{
    if n <= 0 {
        seq![]
    } else {
        selected_relations(root, rels, sel, n - 1) + if relation_selection(root, rels, sel, n - 1).len() > 0 {
            seq![n - 1]
        } else {
            seq![]
        }
    }
}

/// The root selection once the first `n` relations have added their parent keys: the
/// requested root paths, then each parent key that a selected relation needs and that
/// is not yet there.
pub open spec fn root_selection(root: CompiledGraph, rels: Seq<BatchRelation>, sel: Seq<Seq<char>>, n: int) -> Seq<Seq<char>>
    decreases n,
{
    if n <= 0 {
        requested_root_paths(root, sel, sel.len() as int)
    } else {
        let prev = root_selection(root, rels, sel, n - 1);
        let from = rels[n - 1].definition.from@;
        if relation_selection(root, rels, sel, n - 1).len() > 0 && !prev.contains(from) {
            prev.push(from)
        } else {
            prev
        }
    }
}

/// The paths selected in the child graph of relation `r`: those asked for, then the
/// child key when it is not among them.
pub open spec fn child_selection_of(root: CompiledGraph, rels: Seq<BatchRelation>, sel: Seq<Seq<char>>, r: int) -> Seq<Seq<char>> {
    let asked = relation_selection(root, rels, sel, r);
    let to = rels[r].definition.to@;
    if asked.contains(to) {
        asked
    } else {
        asked.push(to)
    }
}

/// The operation of a batch and what the plan reports of it.
#[derive(Debug)]
pub struct PartitionedBatch {
    pub relation_index: usize,
    pub metadata: BatchPlanMetadata,
    pub operation: QueryOperation,
}

/// An operation split between the root graph and the selected batch relations.
#[derive(Debug)]
pub struct PartitionedOperation {
    pub root: QueryOperation,
    pub batches: Vec<PartitionedBatch>,
}

/// The metadata of relation `rel`, whose child selection asks for `asked` while the
/// user requested the root paths `requested`.
pub open spec fn metadata_fits(m: BatchPlanMetadata, rel: BatchRelation, requested: Seq<Seq<char>>, asked: Seq<Seq<char>>) -> bool {
    let def = rel.definition;
    &&& m.name@ == def.name@
    &&& m.parent_key@ == def.from@
    &&& m.child_key@ == def.to@
    &&& m.key_parameter@ == def.parameter@
    &&& same_entries(m.parameters@, def.parameters@)
    &&& m.cardinality == def.cardinality
    &&& m.parent_key_injected == !requested.contains(def.from@)
    &&& m.child_key_injected == !asked.contains(def.to@)
}

/// The operation that a batch runs on its child graph: the child selection, the
/// relation's ordering and static parameters, and no paging.
pub open spec fn batch_operation_fits(x: QueryOperation, rel: BatchRelation, selected: Seq<Seq<char>>) -> bool {
    &&& x.select matches Some(v) && texts(v@) == selected
    &&& optional_view(x.ordering) == optional_view(rel.definition.ordering)
    &&& same_entries(x.parameters@, rel.definition.parameters@)
    &&& x.offset is None
    &&& x.limit is None
}

/// The batch for the relation at position `r`.
pub open spec fn batch_fits(b: PartitionedBatch, root: CompiledGraph, rels: Seq<BatchRelation>, sel: Seq<Seq<char>>, r: int) -> bool {
    &&& 0 <= r < rels.len()
    &&& b.relation_index == r
    &&& metadata_fits(
        b.metadata,
        rels[r],
        requested_root_paths(root, sel, sel.len() as int),
        relation_selection(root, rels, sel, r),
    )
    &&& batch_operation_fits(b.operation, rels[r], child_selection_of(root, rels, sel, r))
}

/// `x` is `op` with the selection replaced by `selected` (or kept, when `None`).
pub open spec fn root_operation_fits(x: QueryOperation, op: QueryOperation, selected: Option<Seq<Seq<char>>>) -> bool {
    &&& match selected {
        Some(s) => x.select matches Some(v) && texts(v@) == s,
        None => x.select is None,
    }
    &&& optional_view(x.ordering) == optional_view(op.ordering)
    &&& same_entries(x.parameters@, op.parameters@)
    &&& x.offset == op.offset
    &&& x.limit == op.limit
}

/// The split of `op`: with no explicit selection the root runs `op` and no batch is
/// selected; else the root runs the root selection and each selected relation, in
/// relation order, one batch.
pub open spec fn partition_fits(p: PartitionedOperation, root: CompiledGraph, rels: Seq<BatchRelation>, op: QueryOperation) -> bool {
    match op.select {
        None => root_operation_fits(p.root, op, None) && p.batches@.len() == 0,
        Some(v) => {
            let sel = texts(v@);
            let chosen = selected_relations(root, rels, sel, rels.len() as int);
            &&& root_operation_fits(p.root, op, Some(root_selection(root, rels, sel, rels.len() as int)))
            &&& p.batches@.len() == chosen.len()
            &&& forall|i: int| 0 <= i < chosen.len() ==> batch_fits(#[trigger] p.batches@[i], root, rels, sel, chosen[i])
        },
    }
}

proof fn lemma_taking_stays(rels: Seq<BatchRelation>, p: Seq<char>, i: int, n: int)
    requires
        0 <= i <= n,
        taking_relation(rels, p, i) is Some,
    ensures
        taking_relation(rels, p, n) == taking_relation(rels, p, i),
    decreases n - i,
{
    if n > i {
        lemma_taking_stays(rels, p, i, n - 1);
    }
}

/// The first relation that takes `path`, with the path within its child graph.
fn find_relation(rels: &Vec<BatchRelation>, path: &str) -> (r: Option<(usize, String)>)
    ensures
        match taking_relation(rels@, path@, rels@.len() as int) {
            Some(k) => r matches Some((x, c)) && x == k && c@ == child_path(rels@[k], path@),
            None => r is None,
        },
{
    let mut i: usize = 0;
    while i < rels.len()
        invariant
            i <= rels@.len(),
            taking_relation(rels@, path@, i as int) is None,
        decreases rels.len() - i,
    {
        let rel = &rels[i];
        let prefix = concat(rel.definition.name.as_str(), ".");
        proof {
            reveal_strlit(".");
        }
        if starts_with(path, prefix.as_str()) {
            let n = chars_of(prefix.as_str()).len();
            let rest = suffix(path, n);
            if rel.graph.graph().projection(rest.as_str()).is_some() {
                assert(relation_takes(rels@[i as int], path@));
                proof {
                    lemma_taking_stays(rels@, path@, i + 1, rels@.len() as int);
                }
                return Some((i, rest));
            }
        }
        assert(!relation_takes(rels@[i as int], path@));
        i = i + 1;
    }
    None
}

/// Whether `s` is among the first `n` texts of `v`.
fn among(v: &Vec<String>, n: usize, s: &str) -> (r: bool)
    requires
        n <= v@.len(),
    ensures
        r == texts(v@).take(n as int).contains(s@),
{
    let ghost t = texts(v@).take(n as int);
    let mut i: usize = 0;
    while i < n
        invariant
            n <= v@.len(),
            t == texts(v@).take(n as int),
            i <= n,
            forall|j: int| 0 <= j < i ==> t[j] != s@,
        decreases n - i,
    {
        assert(t[i as int] == v@[i as int]@);
        if str_eq(v[i].as_str(), s) {
            assert(t[i as int] == s@);
            return true;
        }
        i = i + 1;
    }
    false
}

fn push_operation_issue(issues: &mut Vec<OperationIssue>, code: OperationIssueCode, location: String, message: String)
    ensures
        operation_issues_view(final(issues)@) == operation_issues_view(old(issues)@) + issue(code, location@, message@),
{
    let ghost before = issues@;
    issues.push(OperationIssue { code, location, message });
    assert(operation_issues_view(issues@) =~= operation_issues_view(before) + issue(code, location@, message@));
}

/// Splits a composed operation between the root graph and the batch relations. Every
/// selected path must be selected once and be a root projection path or a relation's
/// name followed by a path of its child graph; `Err` lists the paths that are not.
pub(crate) fn partition_operation(root: &CompiledGraph, rels: &Vec<BatchRelation>, op: &QueryOperation) -> (r: Result<
    PartitionedOperation,
    OperationIssues,
>)
    ensures
        match op.select {
            None => r matches Ok(p) && partition_fits(p, *root, rels@, *op),
            Some(v) => {
                let issues = partition_issues(*root, rels@, texts(v@), v@.len() as int);
                if issues.len() == 0 {
                    r matches Ok(p) && partition_fits(p, *root, rels@, *op)
                } else {
                    r matches Err(e) && operation_issues_view(e.0@) == issues
                }
            },
        },
{
    let selected = match &op.select {
        None => {
            return Ok(
                PartitionedOperation {
                    root: QueryOperation {
                        select: None,
                        ordering: copy_optional(&op.ordering),
                        parameters: copy_entries(&op.parameters),
                        offset: op.offset,
                        limit: op.limit,
                    },
                    batches: Vec::new(),
                },
            );
        },
        Some(v) => v,
    };
    let ghost sel = texts(selected@);
    let mut issues: Vec<OperationIssue> = Vec::new();
    let mut root_select: Vec<String> = Vec::new();
    let mut targets: Vec<(usize, String)> = Vec::new();
    let mut i: usize = 0;
    while i < selected.len()
        invariant
            sel == texts(selected@),
            i <= selected@.len(),
            operation_issues_view(issues@) == partition_issues(*root, rels@, sel, i as int),
            texts(root_select@) == requested_root_paths(*root, sel, i as int),
            targets@.len() == batch_paths(*root, rels@, sel, i as int).len(),
            forall|j: int|
                0 <= j < targets@.len() ==> (#[trigger] targets@[j]).0 == batch_paths(*root, rels@, sel, i as int)[j].0
                    && targets@[j].1@ == batch_paths(*root, rels@, sel, i as int)[j].1,
        decreases selected.len() - i,
    {
        let path = &selected[i];
        assert(sel[i as int] == path@);
        let ghost before_targets = batch_paths(*root, rels@, sel, i as int);
        let mut seen = false;
        let mut j: usize = 0;
        while j < i
            invariant
                sel == texts(selected@),
                i < selected@.len(),
                j <= i,
                sel[i as int] == path@,
                seen == (exists|m: int| 0 <= m < j && #[trigger] sel[m] == sel[i as int]),
            decreases i - j,
        {
            assert(sel[j as int] == selected@[j as int]@);
            if str_eq(selected[j].as_str(), path.as_str()) {
                seen = true;
            }
            j = j + 1;
        }
        assert(seen == repeated(sel, i as int));
        if seen {
            push_operation_issue(
                &mut issues,
                OperationIssueCode::DuplicateSelection,
                indexed("select", i),
                concat3("projection field ", debug_quote(path.as_str()).as_str(), " is selected more than once"),
            );
            assert(texts(root_select@) =~= requested_root_paths(*root, sel, i + 1));
        } else if root.projection(path.as_str()).is_some() {
            let ghost old_root = root_select@;
            root_select.push(text(path.as_str()));
            assert(texts(root_select@) =~= texts(old_root).push(path@));
            assert(texts(root_select@) =~= requested_root_paths(*root, sel, i + 1));
            assert(operation_issues_view(issues@) =~= partition_issues(*root, rels@, sel, i + 1));
        } else {
            match find_relation(rels, path.as_str()) {
                Some(found) => {
                    targets.push(found);
                    assert(texts(root_select@) =~= requested_root_paths(*root, sel, i + 1));
                    assert(operation_issues_view(issues@) =~= partition_issues(*root, rels@, sel, i + 1));
                },
                None => {
                    push_operation_issue(
                        &mut issues,
                        OperationIssueCode::UnknownSelection,
                        indexed("select", i),
                        concat3("projection field ", debug_quote(path.as_str()).as_str(), " is not defined"),
                    );
                    assert(texts(root_select@) =~= requested_root_paths(*root, sel, i + 1));
                },
            }
        }
        i = i + 1;
    }
    assert(sel.len() == selected@.len());
    if issues.len() > 0 {
        return Err(OperationIssues(issues));
    }
    let ghost all_targets = batch_paths(*root, rels@, sel, sel.len() as int);
    let requested = root_select.len();
    let ghost requested_paths = texts(root_select@);
    let mut batches: Vec<PartitionedBatch> = Vec::new();
    let mut r: usize = 0;
    while r < rels.len()
        invariant
            sel == texts(selected@),
            all_targets == batch_paths(*root, rels@, sel, sel.len() as int),
            targets@.len() == all_targets.len(),
            forall|j: int| 0 <= j < targets@.len() ==> (#[trigger] targets@[j]).0 == all_targets[j].0 && targets@[j].1@ == all_targets[j].1,
            requested_paths == requested_root_paths(*root, sel, sel.len() as int),
            requested <= root_select@.len(),
            texts(root_select@).take(requested as int) == requested_paths,
            texts(root_select@) == root_selection(*root, rels@, sel, r as int),
            r <= rels@.len(),
            batches@.len() == selected_relations(*root, rels@, sel, r as int).len(),
            forall|b: int|
                0 <= b < batches@.len() ==> batch_fits(
                    #[trigger] batches@[b],
                    *root,
                    rels@,
                    sel,
                    selected_relations(*root, rels@, sel, r as int)[b],
                ),
        decreases rels.len() - r,
    {
        let rel = &rels[r];
        let mut selection: Vec<String> = Vec::new();
        let mut t: usize = 0;
        while t < targets.len()
            invariant
                targets@.len() == all_targets.len(),
                forall|j: int| 0 <= j < targets@.len() ==> (#[trigger] targets@[j]).0 == all_targets[j].0 && targets@[j].1@ == all_targets[j].1,
                t <= targets@.len(),
                texts(selection@) == paths_of(all_targets, r as int, t as int),
            decreases targets.len() - t,
        {
            if targets[t].0 == r {
                let ghost prev = selection@;
                selection.push(text(targets[t].1.as_str()));
                assert(texts(selection@) =~= texts(prev).push(all_targets[t as int].1));
            }
            t = t + 1;
        }
        let ghost asked = texts(selection@);
        assert(asked == relation_selection(*root, rels@, sel, r as int));
        if selection.len() > 0 {
            let def = &rel.definition;
            let parent_requested = among(&root_select, requested, def.from.as_str());
            let child_asked = among(&selection, selection.len(), def.to.as_str());
            assert(texts(selection@).take(selection@.len() as int) =~= asked);
            let ghost before_root = root_select@;
            if !among(&root_select, root_select.len(), def.from.as_str()) {
                root_select.push(text(def.from.as_str()));
                assert(texts(root_select@) =~= texts(before_root).push(def.from@));
                assert(texts(root_select@).take(requested as int) =~= texts(before_root).take(requested as int));
            }
            assert(texts(before_root).take(before_root.len() as int) =~= texts(before_root));
            assert(texts(root_select@) == root_selection(*root, rels@, sel, r + 1));
            if !child_asked {
                let ghost prev = selection@;
                selection.push(text(def.to.as_str()));
                assert(texts(selection@) =~= texts(prev).push(def.to@));
            }
            let batch = PartitionedBatch {
                relation_index: r,
                metadata: BatchPlanMetadata {
                    name: text(def.name.as_str()),
                    parent_key: text(def.from.as_str()),
                    child_key: text(def.to.as_str()),
                    key_parameter: text(def.parameter.as_str()),
                    parameters: copy_entries(&def.parameters),
                    cardinality: def.cardinality,
                    parent_key_injected: !parent_requested,
                    child_key_injected: !child_asked,
                },
                operation: QueryOperation {
                    select: Some(selection),
                    ordering: copy_optional(&def.ordering),
                    parameters: copy_entries(&def.parameters),
                    offset: None,
                    limit: None,
                },
            };
            assert(batch_fits(batch, *root, rels@, sel, r as int));
            let ghost before_batches = batches@;
            batches.push(batch);
            assert(selected_relations(*root, rels@, sel, r + 1) == selected_relations(*root, rels@, sel, r as int).push(r as int));
            assert forall|b: int| 0 <= b < batches@.len() implies batch_fits(
                #[trigger] batches@[b],
                *root,
                rels@,
                sel,
                selected_relations(*root, rels@, sel, r + 1)[b],
            ) by {
                if b < before_batches.len() {
                    assert(batches@[b] == before_batches[b]);
                }
            }
        } else {
            assert(selected_relations(*root, rels@, sel, r + 1) =~= selected_relations(*root, rels@, sel, r as int));
            assert(texts(root_select@) == root_selection(*root, rels@, sel, r + 1));
        }
        r = r + 1;
    }
    let result = PartitionedOperation {
        root: QueryOperation {
            select: Some(root_select),
            ordering: copy_optional(&op.ordering),
            parameters: copy_entries(&op.parameters),
            offset: op.offset,
            limit: op.limit,
        },
        batches,
    };
    Ok(result)
}

proof fn lemma_parent_keys_selected(root: CompiledGraph, rels: Seq<BatchRelation>, sel: Seq<Seq<char>>, n: int)
    requires
        0 <= n <= rels.len(),
    ensures
        forall|j: int|
            0 <= j < selected_relations(root, rels, sel, n).len() ==> {
                let r = #[trigger] selected_relations(root, rels, sel, n)[j];
                0 <= r < n && root_selection(root, rels, sel, n).contains(rels[r].definition.from@)
            },
    decreases n,
{
    if n > 0 {
        lemma_parent_keys_selected(root, rels, sel, n - 1);
        let prev = root_selection(root, rels, sel, n - 1);
        let now = root_selection(root, rels, sel, n);
        let before = selected_relations(root, rels, sel, n - 1);
        let after = selected_relations(root, rels, sel, n);
        assert forall|j: int| 0 <= j < after.len() implies {
            let r = #[trigger] after[j];
            0 <= r < n && now.contains(rels[r].definition.from@)
        } by {
            if j < before.len() {
                assert(after[j] == before[j]);
                let r = before[j];
                let w = choose|w: int| 0 <= w < prev.len() && prev[w] == rels[r].definition.from@;
                if now != prev {
                    assert(now[w] == prev[w]);
                }
            } else {
                assert(after[j] == n - 1);
                if now != prev {
                    assert(now[prev.len() as int] == rels[n - 1].definition.from@);
                }
            }
        }
    }
}

/// Every batch of a split has its keys at hand: the root operation selects the batch's
/// parent key, and the batch operation selects its child key.
pub proof fn law_split_selects_every_key(p: PartitionedOperation, root: CompiledGraph, rels: Seq<BatchRelation>, op: QueryOperation)
    requires
        partition_fits(p, root, rels, op),
    ensures
        forall|i: int|
            0 <= i < p.batches@.len() ==> {
                let b = #[trigger] p.batches@[i];
                let def = rels[b.relation_index as int].definition;
                &&& p.root.select matches Some(v) && texts(v@).contains(def.from@)
                &&& b.operation.select matches Some(w) && texts(w@).contains(def.to@)
            },
{
    if let Some(v) = op.select {
        let sel = texts(v@);
        lemma_parent_keys_selected(root, rels, sel, rels.len() as int);
        let chosen = selected_relations(root, rels, sel, rels.len() as int);
        assert forall|i: int| 0 <= i < p.batches@.len() implies {
            let b = #[trigger] p.batches@[i];
            let def = rels[b.relation_index as int].definition;
            &&& p.root.select matches Some(v) && texts(v@).contains(def.from@)
            &&& b.operation.select matches Some(w) && texts(w@).contains(def.to@)
        } by {
            let b = p.batches@[i];
            assert(batch_fits(b, root, rels, sel, chosen[i]));
            let asked = relation_selection(root, rels, sel, chosen[i]);
            let to = rels[chosen[i]].definition.to@;
            if !asked.contains(to) {
                assert(asked.push(to)[asked.len() as int] == to);
            }
        }
    }
}

/// Paging applies to the root only: the root operation keeps the offset and limit of
/// the composed operation, and no batch operation pages.
pub proof fn law_paging_stays_with_the_root(p: PartitionedOperation, root: CompiledGraph, rels: Seq<BatchRelation>, op: QueryOperation)
    requires
        partition_fits(p, root, rels, op),
    ensures
        p.root.offset == op.offset,
        p.root.limit == op.limit,
        forall|i: int| 0 <= i < p.batches@.len() ==> (#[trigger] p.batches@[i]).operation.offset is None && p.batches@[i].operation.limit is None,
{
    if let Some(v) = op.select {
        let sel = texts(v@);
        let chosen = selected_relations(root, rels, sel, rels.len() as int);
        assert forall|i: int| 0 <= i < p.batches@.len() implies (#[trigger] p.batches@[i]).operation.offset is None
            && p.batches@[i].operation.limit is None by {
            assert(batch_fits(p.batches@[i], root, rels, sel, chosen[i]));
        }
    }
}

} // verus!
