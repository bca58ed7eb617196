//! Checks on the shape of the relation graph: root, unique paths, reachability.
use vstd::prelude::*;

use crate::analysis::index::{lemma_first_key_range, root_index, source_index, source_keys, spec_root, spec_source};
use crate::analysis::topology::{from_of, lemma_edges_to, to_of, GraphTopology};
use crate::definition::GraphDefinition;
use crate::path::{debug_list, debug_path};
use crate::text::{concat, debug_quote, debug_text, indexed, str_eq, text};
use crate::validation::expression::{concat3q, one};
use crate::validation::{at, issues_view, push_issue, DefinitionIssue, DefinitionIssueCode, SpecIssue};

verus! {

pub open spec fn root_incoming_section(d: GraphDefinition, n: int) -> Seq<SpecIssue>
    decreases n,
{
    if n <= 0 {
        seq![]
    } else {
        root_incoming_section(d, n - 1) + if from_of(d, n - 1) is Some && to_of(d, n - 1) is Some
            && d.relations@[n - 1].to@ == d.root@ {
            one(
                DefinitionIssueCode::RootHasIncomingRelation,
                at("relations"@, n - 1) + ".to"@,
                "root source "@ + debug_text(d.root@) + " cannot have an incoming relation"@,
            )
        } else {
            seq![]
        }
    }
}

/// The names of the given relations, in order.
pub open spec fn relation_names_of(d: GraphDefinition, rs: Seq<usize>) -> Seq<Seq<char>> {
    Seq::new(rs.len(), |k: int| d.relations@[rs[k] as int].name@)
}

pub open spec fn ambiguous_issue(d: GraphDefinition, t: GraphTopology, i: int) -> Seq<SpecIssue> {
    let key = d.sources@[i].key@;
    if key == d.root@ || exists|j: int| 0 <= j < i && (#[trigger] d.sources@[j]).key@ == key {
        seq![]
    } else {
        match spec_source(d, key) {
            None => seq![],
            Some(si) => {
                let rs = t.incoming_relations@[si]@;
                if rs.len() <= 1 {
                    seq![]
                } else {
                    one(
                        DefinitionIssueCode::AmbiguousSourcePath,
                        "sources."@ + key,
                        "source "@ + debug_text(key) + " has multiple incoming relations: "@
                            + debug_list(relation_names_of(d, rs)),
                    )
                }
            },
        }
    }
}

pub open spec fn ambiguous_section(d: GraphDefinition, t: GraphTopology, n: int) -> Seq<SpecIssue>
    decreases n,
{
    if n <= 0 {
        seq![]
    } else {
        ambiguous_section(d, t, n - 1) + ambiguous_issue(d, t, n - 1)
    }
}

pub open spec fn spec_source_reachable(d: GraphDefinition, t: GraphTopology, key: Seq<char>) -> bool {
    match spec_source(d, key) {
        Some(si) => t.relation_paths@[si] is Some,
        None => false,
    }
}

pub open spec fn reachability_section(d: GraphDefinition, t: GraphTopology, n: int) -> Seq<SpecIssue>
    decreases n,
{
    if n <= 0 {
        seq![]
    } else {
        let key = d.sources@[n - 1].key@;
        reachability_section(d, t, n - 1) + if !spec_source_reachable(d, t, key) {
            one(
                DefinitionIssueCode::UnreachableSource,
                at("sources"@, n - 1) + ".key"@,
                "source "@ + debug_text(key) + " is not reachable from root "@ + debug_text(
                    d.root@,
                ),
            )
        } else {
            seq![]
        }
    }
}

/// The graph-shape rules of a definition, in the order they are reported.
pub open spec fn topology_issues(d: GraphDefinition, t: GraphTopology) -> Seq<SpecIssue> {
    root_incoming_section(d, d.relations@.len() as int) + ambiguous_section(
        d,
        t,
        d.sources@.len() as int,
    ) + if spec_root(d) is None {
        seq![]
    } else {
        reachability_section(d, t, d.sources@.len() as int)
    }
}

fn validate_root_incoming(d: &GraphDefinition, issues: &mut Vec<DefinitionIssue>)
    ensures
        issues_view(final(issues)@) == issues_view(old(issues)@) + root_incoming_section(
            *d,
            d.relations@.len() as int,
        ),
{
    let ghost start = issues_view(issues@);
    let mut i: usize = 0;
    while i < d.relations.len()
        invariant
            i <= d.relations@.len(),
            issues_view(issues@) == start + root_incoming_section(*d, i as int),
        decreases d.relations.len() - i,
    {
        let relation = &d.relations[i];
        if source_index(d, relation.from.as_str()).is_some() && source_index(
            d,
            relation.to.as_str(),
        ).is_some() && str_eq(relation.to.as_str(), d.root.as_str()) {
            let loc = indexed("relations", i);
            push_issue(
                issues,
                DefinitionIssueCode::RootHasIncomingRelation,
                concat(loc.as_str(), ".to"),
                concat3q("root source ", d.root.as_str(), " cannot have an incoming relation"),
            );
        }
        assert(issues_view(issues@) =~= start + root_incoming_section(*d, (i + 1) as int));
        i = i + 1;
    }
}

fn key_seen_before(d: &GraphDefinition, i: usize) -> (r: bool)
    requires
        i < d.sources@.len(),
    ensures
        r == exists|j: int| 0 <= j < i && (#[trigger] d.sources@[j]).key@ == d.sources@[i as int].key@,
{
    let mut j: usize = 0;
    while j < i
        invariant
            i < d.sources@.len(),
            j <= i,
            forall|k: int| 0 <= k < j ==> (#[trigger] d.sources@[k]).key@ != d.sources@[i as int].key@,
        decreases i - j,
    {
        if str_eq(d.sources[j].key.as_str(), d.sources[i].key.as_str()) {
            return true;
        }
        j = j + 1;
    }
    false
}

fn validate_unique_paths(d: &GraphDefinition, t: &GraphTopology, issues: &mut Vec<DefinitionIssue>)
    requires
        t.wf(*d),
    ensures
        issues_view(final(issues)@) == issues_view(old(issues)@) + ambiguous_section(
            *d,
            *t,
            d.sources@.len() as int,
        ),
{
    let ghost start = issues_view(issues@);
    let mut i: usize = 0;
    while i < d.sources.len()
        invariant
            t.wf(*d),
            i <= d.sources@.len(),
            issues_view(issues@) == start + ambiguous_section(*d, *t, i as int),
        decreases d.sources.len() - i,
    {
        let key = &d.sources[i].key;
        if !str_eq(key.as_str(), d.root.as_str()) && !key_seen_before(d, i) {
            match source_index(d, key.as_str()) {
                Some(si) => {
                    let relation_count = d.relations.len();
                    proof {
                        lemma_first_key_range(source_keys(*d), key@);
                        lemma_edges_to(*d, si as int, d.relations@.len() as int);
                    }
                    let rs = t.incoming(si);
                    if rs.len() > 1 {
                        let mut names: Vec<String> = Vec::new();
                        let mut k: usize = 0;
                        while k < rs.len()
                            invariant
                                t.wf(*d),
                                si < d.sources@.len(),
                                *rs == t.incoming_relations@[si as int],
                                forall|x: int| 0 <= x < rs@.len() ==> (#[trigger] rs@[x]) < d.relations@.len(),
                                k <= rs@.len(),
                                names@.len() == k,
                                forall|x: int| 0 <= x < k ==> (#[trigger] names@[x])@ == d.relations@[rs@[x] as int].name@,
                            decreases rs.len() - k,
                        {
                            names.push(text(d.relations[rs[k]].name.as_str()));
                            k = k + 1;
                        }
                        assert(crate::path::path_view(names@) =~= relation_names_of(*d, rs@));
                        let mut m = concat3q("source ", key.as_str(), " has multiple incoming relations: ");
                        m.append(debug_path(&names).as_str());
                        push_issue(issues, DefinitionIssueCode::AmbiguousSourcePath, concat("sources.", key.as_str()), m);
                    }
                },
                None => {},
            }
        }
        assert(issues_view(issues@) =~= start + ambiguous_section(*d, *t, (i + 1) as int));
        i = i + 1;
    }
}

fn validate_reachability(d: &GraphDefinition, t: &GraphTopology, issues: &mut Vec<DefinitionIssue>)
    requires
        t.wf(*d),
    ensures
        issues_view(final(issues)@) == issues_view(old(issues)@) + if spec_root(*d) is None {
            seq![]
        } else {
            reachability_section(*d, *t, d.sources@.len() as int)
        },
{
    let ghost start = issues_view(issues@);
    if root_index(d).is_none() {
        assert(issues_view(issues@) =~= start + seq![]);
        return;
    }
    let mut i: usize = 0;
    while i < d.sources.len()
        invariant
            t.wf(*d),
            i <= d.sources@.len(),
            issues_view(issues@) == start + reachability_section(*d, *t, i as int),
        decreases d.sources.len() - i,
    {
        let key = &d.sources[i].key;
        let reachable = match source_index(d, key.as_str()) {
            Some(si) => {
                proof {
                    lemma_first_key_range(source_keys(*d), key@);
                }
                t.source_is_reachable(si)
            },
            None => false,
        };
        if !reachable {
            let loc = indexed("sources", i);
            let mut m = concat3q("source ", key.as_str(), " is not reachable from root ");
            m.append(debug_quote(d.root.as_str()).as_str());
            push_issue(issues, DefinitionIssueCode::UnreachableSource, concat(loc.as_str(), ".key"), m);
        }
        assert(issues_view(issues@) =~= start + reachability_section(*d, *t, (i + 1) as int));
        i = i + 1;
    }
}

/// Reports the graph-shape rules that a definition breaks.
pub fn validate_topology(d: &GraphDefinition, t: &GraphTopology, issues: &mut Vec<DefinitionIssue>)
    requires
        t.wf(*d),
    ensures
        issues_view(final(issues)@) == issues_view(old(issues)@) + topology_issues(*d, *t),
{
    let ghost start = issues_view(issues@);
    validate_root_incoming(d, issues);
    validate_unique_paths(d, t, issues);
    validate_reachability(d, t, issues);
    assert(issues_view(issues@) =~= start + topology_issues(*d, *t));
}

} // verus!
