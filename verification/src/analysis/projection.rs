//! The relation path of each projection field and object, inferred from the
//! sources its expression reads.
use vstd::prelude::*;

use crate::analysis::index::{lemma_first_key_range, source_index, source_keys, spec_source};
use crate::analysis::topology::paths_tree;
use crate::analysis::topology::GraphTopology;
use crate::definition::GraphDefinition;
use crate::expression::{walk, Expression};
use crate::text::{debug_quote, debug_text, str_eq, text};

use crate::validation::expression::{concat3q, one};
use crate::validation::{issues_view, push_issue, DefinitionIssue, DefinitionIssueCode, SpecIssue};

verus! {

/// The distinct sources of the field references among the first `n` nodes, in order.
pub open spec fn field_sources(w: Seq<Expression>, n: int) -> Seq<Seq<char>>
    decreases n,
{
    if n <= 0 {
        seq![]
    } else {
        let prev = field_sources(w, n - 1);
        match w[n - 1] {
            Expression::Field { source, .. } => if prev.contains(source@) {
                prev
            } else {
                prev.push(source@)
            },
            _ => prev,
        }
    }
}

/// The distinct sources that an expression reads, in the order they first occur.
pub open spec fn referenced_sources(e: Expression) -> Seq<Seq<char>> {
    field_sources(walk(e, false), walk(e, false).len() as int)
}

pub open spec fn is_path_prefix(prefix: Seq<usize>, path: Seq<usize>) -> bool {
    prefix.len() <= path.len() && path.take(prefix.len() as int) == prefix
}

/// The deepest path seen so far, the source it belongs to, and the first two
/// sources found on different branches.
pub type BranchState = (Option<Seq<usize>>, Option<Seq<char>>, Option<(Seq<char>, Seq<char>)>);

pub open spec fn branch_step(d: GraphDefinition, t: GraphTopology, state: BranchState, source: Seq<char>) -> BranchState {
    if state.2 is Some {
        state
    } else {
        match spec_source(d, source) {
            None => state,
            Some(si) => match t.spec_path(si) {
                None => state,
                Some(candidate) => match state.0 {
                    None => (Some(candidate), Some(source), None),
                    Some(current) => if is_path_prefix(current, candidate) {
                        (Some(candidate), Some(source), None)
                    } else if is_path_prefix(candidate, current) {
                        state
                    } else {
                        (state.0, state.1, Some((state.1.unwrap_or(d.root@), source)))
                    },
                },
            },
        }
    }
}

pub open spec fn branch_fold(d: GraphDefinition, t: GraphTopology, sources: Seq<Seq<char>>, n: int) -> BranchState
    decreases n,
{
    if n <= 0 {
        (None, None, None)
    } else {
        branch_step(d, t, branch_fold(d, t, sources, n - 1), sources[n - 1])
    }
}

pub open spec fn branch_state(d: GraphDefinition, t: GraphTopology, e: Expression) -> BranchState {
    branch_fold(d, t, referenced_sources(e), referenced_sources(e).len() as int)
}

/// The relation path of an expression: the path of the deepest source it reads.
pub open spec fn expression_path(d: GraphDefinition, t: GraphTopology, e: Expression) -> Seq<usize> {
    branch_state(d, t, e).0.unwrap_or(seq![])
}

/// The issue of an expression that reads sources on different branches.
pub open spec fn branch_issues(d: GraphDefinition, t: GraphTopology, e: Expression, loc: Seq<char>) -> Seq<SpecIssue> {
    match branch_state(d, t, e).2 {
        Some(pair) => one(
            DefinitionIssueCode::ProjectionExpressionScope,
            loc,
            "projection expression sources "@ + debug_text(pair.0) + " and "@ + debug_text(pair.1)
                + " are on different relation branches"@,
        ),
        None => seq![],
    }
}

fn names_contain(names: &Vec<&String>, name: &String) -> (r: bool)
    ensures
        r == exists|i: int| 0 <= i < names@.len() && (#[trigger] names@[i])@ == name@,
{
    let mut i: usize = 0;
    while i < names.len()
        invariant
            i <= names@.len(),
            forall|j: int| 0 <= j < i ==> (#[trigger] names@[j])@ != name@,
        decreases names.len() - i,
    {
        if str_eq(names[i].as_str(), name.as_str()) {
            return true;
        }
        i = i + 1;
    }
    false
}

pub open spec fn views(names: Seq<&String>) -> Seq<Seq<char>> {
    Seq::new(names.len(), |i: int| names[i]@)
}

/// The distinct sources an expression reads, in the order they first occur.
pub fn collect_sources(e: &Expression) -> (r: Vec<&String>)
    ensures
        views(r@) == referenced_sources(*e),
{
    let nodes = e.nodes(false);
    let ghost w = walk(*e, false);
    let mut r: Vec<&String> = Vec::new();
    let mut i: usize = 0;
    while i < nodes.len()
        invariant
            nodes@.len() == w.len(),
            w == walk(*e, false),
            forall|j: int| 0 <= j < nodes@.len() ==> *(#[trigger] nodes@[j]) == w[j],
            i <= nodes@.len(),
            views(r@) == field_sources(w, i as int),
        decreases nodes.len() - i,
    {
        let node = nodes[i];
        assert(*node == w[i as int]);
        match node {
            Expression::Field { source, .. } => {
                let seen = names_contain(&r, source);
                proof {
                    if seen {
                        let j = choose|j: int| 0 <= j < r@.len() && (#[trigger] r@[j])@ == source@;
                        assert(views(r@)[j] == source@);
                    } else {
                        assert forall|j: int| 0 <= j < views(r@).len() implies views(r@)[j] != source@ by {
                            assert(views(r@)[j] == r@[j]@);
                        }
                    }
                }
                if !seen {
                    r.push(source);
                }
            },
            _ => {},
        }
        assert(views(r@) =~= field_sources(w, (i + 1) as int));
        i = i + 1;
    }
    r
}

fn path_prefix(prefix: &Vec<usize>, path: &Vec<usize>) -> (r: bool)
    ensures
        r == is_path_prefix(prefix@, path@),
{
    if prefix.len() > path.len() {
        return false;
    }
    let mut i: usize = 0;
    while i < prefix.len()
        invariant
            prefix@.len() <= path@.len(),
            i <= prefix@.len(),
            forall|j: int| 0 <= j < i ==> prefix@[j] == path@[j],
        decreases prefix.len() - i,
    {
        if prefix[i] != path[i] {
            assert(path@.take(prefix@.len() as int)[i as int] != prefix@[i as int]);
            return false;
        }
        i = i + 1;
    }
    assert(path@.take(prefix@.len() as int) =~= prefix@);
    true
}

pub open spec fn opt_path(p: Option<&Vec<usize>>) -> Option<Seq<usize>> {
    match p {
        Some(v) => Some(v@),
        None => None,
    }
}

pub open spec fn opt_name(p: Option<&String>) -> Option<Seq<char>> {
    match p {
        Some(v) => Some(v@),
        None => None,
    }
}

/// The relation path of one projection expression; records the issue when it reads
/// sources on different relation branches.
pub fn infer_expression_path(
    d: &GraphDefinition,
    t: &GraphTopology,
    e: &Expression,
    location: &str,
    issues: &mut Vec<DefinitionIssue>,
) -> (r: Vec<usize>)
    requires
        t.wf(*d),
    ensures
        r@ == expression_path(*d, *t, *e),
        issues_view(final(issues)@) == issues_view(old(issues)@) + branch_issues(*d, *t, *e, location@),
{
    let ghost start = issues_view(issues@);
    let sources = collect_sources(e);
    let ghost refs = referenced_sources(*e);
    let mut inferred_path: Option<&Vec<usize>> = None;
    let mut inferred_source: Option<&String> = None;
    let mut i: usize = 0;
    while i < sources.len()
        invariant
            t.wf(*d),
            views(sources@) == refs,
            refs == referenced_sources(*e),
            i <= sources@.len(),
            branch_fold(*d, *t, refs, i as int) == (opt_path(inferred_path), opt_name(inferred_source), None::<(Seq<char>, Seq<char>)>),
            inferred_path is Some <==> inferred_source is Some,
            start == issues_view(old(issues)@),
            issues_view(issues@) == start,
        decreases sources.len() - i,
    {
        let source = sources[i];
        assert(refs[i as int] == source@);
        let si = match source_index(d, source.as_str()) {
            Some(si) => si,
            None => {
                i = i + 1;
                continue;
            },
        };
        proof {
            lemma_first_key_range(source_keys(*d), source@);
        }
        let candidate = match t.relation_path(si) {
            Some(p) => p,
            None => {
                i = i + 1;
                continue;
            },
        };
        match inferred_path {
            None => {
                inferred_path = Some(candidate);
                inferred_source = Some(source);
            },
            Some(current) => {
                if path_prefix(current, candidate) {
                    inferred_path = Some(candidate);
                    inferred_source = Some(source);
                } else if path_prefix(candidate, current) {
                } else {
                    let first = match inferred_source {
                        Some(s) => s,
                        None => &d.root,
                    };
                    let mut m = concat3q("projection expression sources ", first.as_str(), " and ");
                    m.append(debug_quote(source.as_str()).as_str());
                    m.append(" are on different relation branches");
                    push_issue(issues, DefinitionIssueCode::ProjectionExpressionScope, text(location), m);
                    proof {
                        assert(branch_fold(*d, *t, refs, i + 1) == branch_step(*d, *t, branch_fold(*d, *t, refs, i as int), refs[i as int]));
                        assert(branch_fold(*d, *t, refs, i + 1).2 == Some((first@, source@)));
                        lemma_fold_stays(*d, *t, refs, i + 1, refs.len() as int);
                        assert(branch_state(*d, *t, *e).2 == Some((first@, source@)));
                    }
                    let r = current.clone();
                    assert(issues_view(issues@) =~= start + branch_issues(*d, *t, *e, location@));
                    return r;
                }
            },
        }
        i = i + 1;
    }
    assert(sources@.len() == refs.len());
    assert(issues_view(issues@) =~= start + branch_issues(*d, *t, *e, location@));
    match inferred_path {
        Some(p) => p.clone(),
        None => Vec::new(),
    }
}

proof fn lemma_fold_stays(d: GraphDefinition, t: GraphTopology, sources: Seq<Seq<char>>, k: int, n: int)
    requires
        0 <= k <= n,
        branch_fold(d, t, sources, k).2 is Some,
    ensures
        branch_fold(d, t, sources, n) == branch_fold(d, t, sources, k),
    decreases n - k,
{
    if k < n {
        lemma_fold_stays(d, t, sources, k, n - 1);
    }
}


proof fn lemma_fold_paths(d: GraphDefinition, t: GraphTopology, sources: Seq<Seq<char>>, n: int)
    requires
        t.wf(d),
    ensures
        branch_fold(d, t, sources, n).0 matches Some(p) ==> forall|k: int|
            0 <= k < p.len() ==> (#[trigger] p[k]) < d.relations@.len(),
    decreases n,
{
    if n > 0 {
        lemma_fold_paths(d, t, sources, n - 1);
        let prev = branch_fold(d, t, sources, n - 1);
        if prev.2 is None {
            if let Some(si) = spec_source(d, sources[n - 1]) {
                crate::analysis::index::lemma_first_key_range(crate::analysis::index::source_keys(d), sources[n - 1]);
                assert(paths_tree(d, t.relation_paths@));
                if let Some(cp) = t.relation_paths@[si] {
                    assert(forall|k: int| 0 <= k < cp@.len() ==> (#[trigger] cp@[k]) < d.relations@.len());
                }
            }
        }
    }
}

/// Every relation on the path of an expression is a relation of the definition.
pub proof fn lemma_expression_path_bounded(d: GraphDefinition, t: GraphTopology, e: Expression)
    requires
        t.wf(d),
    ensures
        forall|k: int| 0 <= k < expression_path(d, t, e).len() ==> (#[trigger] expression_path(d, t, e)[k]) < d.relations@.len(),
{
    lemma_fold_paths(d, t, referenced_sources(e), referenced_sources(e).len() as int);
}

} // verus!
