//! Name lookups into a graph definition. A blank name is never found; when a name
//! occurs more than once, sources, fields, relations and orderings resolve to the first
//! occurrence, parameters and projection paths to the last.
use vstd::prelude::*;

use crate::definition::GraphDefinition;
use crate::text::{is_blank, spec_is_blank, str_eq};

verus! {

pub open spec fn key_matches(key: Seq<char>, probe: Seq<char>) -> bool {
    !spec_is_blank(key) && key == probe
}

/// The position of the first key that matches `probe`.
pub open spec fn first_key(keys: Seq<Seq<char>>, probe: Seq<char>) -> Option<int>
    decreases keys.len(),
{
    if keys.len() == 0 {
        None
    } else {
        match first_key(keys.drop_last(), probe) {
            Some(i) => Some(i),
            None => if key_matches(keys.last(), probe) {
                Some(keys.len() - 1)
            } else {
                None
            },
        }
    }
}

/// The position of the last key that matches `probe`.
pub open spec fn last_key(keys: Seq<Seq<char>>, probe: Seq<char>) -> Option<int>
    decreases keys.len(),
{
    if keys.len() == 0 {
        None
    } else if key_matches(keys.last(), probe) {
        Some(keys.len() - 1)
    } else {
        last_key(keys.drop_last(), probe)
    }
}

pub open spec fn source_keys(d: GraphDefinition) -> Seq<Seq<char>> {
    Seq::new(d.sources@.len(), |i: int| d.sources@[i].key@)
}

pub open spec fn field_names(d: GraphDefinition, source: int) -> Seq<Seq<char>> {
    Seq::new(d.sources@[source].fields@.len(), |i: int| d.sources@[source].fields@[i].name@)
}

pub open spec fn parameter_names(d: GraphDefinition) -> Seq<Seq<char>> {
    Seq::new(d.parameters@.len(), |i: int| d.parameters@[i].name@)
}

pub open spec fn relation_names(d: GraphDefinition) -> Seq<Seq<char>> {
    Seq::new(d.relations@.len(), |i: int| d.relations@[i].name@)
}

pub open spec fn ordering_names(d: GraphDefinition) -> Seq<Seq<char>> {
    Seq::new(d.orderings@.len(), |i: int| d.orderings@[i].name@)
}

pub open spec fn spec_source(d: GraphDefinition, key: Seq<char>) -> Option<int> {
    first_key(source_keys(d), key)
}

pub open spec fn spec_root(d: GraphDefinition) -> Option<int> {
    spec_source(d, d.root@)
}

pub open spec fn spec_field(d: GraphDefinition, source: int, name: Seq<char>) -> Option<int> {
    first_key(field_names(d, source), name)
}

pub open spec fn spec_parameter(d: GraphDefinition, name: Seq<char>) -> Option<int> {
    last_key(parameter_names(d), name)
}

pub open spec fn spec_relation(d: GraphDefinition, name: Seq<char>) -> Option<int> {
    first_key(relation_names(d), name)
}

pub open spec fn spec_ordering(d: GraphDefinition, name: Seq<char>) -> Option<int> {
    first_key(ordering_names(d), name)
}

/// The first ordering that is selected by default.
pub open spec fn default_ordering_in(d: GraphDefinition, n: int) -> Option<int>
    decreases n,
{
    if n <= 0 {
        None
    } else {
        match default_ordering_in(d, n - 1) {
            Some(i) => Some(i),
            None => if d.orderings@[n - 1].selected_by_default {
                Some(n - 1)
            } else {
                None
            },
        }
    }
}

pub open spec fn spec_default_ordering(d: GraphDefinition) -> Option<int> {
    default_ordering_in(d, d.orderings@.len() as int)
}

pub proof fn lemma_first_key_range(keys: Seq<Seq<char>>, probe: Seq<char>)
    ensures
        first_key(keys, probe) matches Some(i) ==> 0 <= i < keys.len() && key_matches(
            keys[i],
            probe,
        ),
    decreases keys.len(),
{
    if keys.len() > 0 {
        lemma_first_key_range(keys.drop_last(), probe);
    }
}

pub proof fn lemma_last_key_range(keys: Seq<Seq<char>>, probe: Seq<char>)
    ensures
        last_key(keys, probe) matches Some(i) ==> 0 <= i < keys.len() && key_matches(
            keys[i],
            probe,
        ),
    decreases keys.len(),
{
    if keys.len() > 0 {
        lemma_last_key_range(keys.drop_last(), probe);
    }
}

proof fn lemma_first_key_extends(keys: Seq<Seq<char>>, probe: Seq<char>, k: int)
    requires
        0 <= k <= keys.len(),
        first_key(keys.take(k), probe) is Some,
    ensures
        first_key(keys, probe) == first_key(keys.take(k), probe),
    decreases keys.len() - k,
{
    if k < keys.len() {
        assert(keys.take(k + 1).drop_last() =~= keys.take(k));
        lemma_first_key_extends(keys, probe, k + 1);
    } else {
        assert(keys.take(k) =~= keys);
    }
}

/// Whether `key` names `probe`: non-blank and equal.
pub fn matches_key(key: &str, probe: &str) -> (r: bool)
    ensures
        r == key_matches(key@, probe@),
{
    str_eq(key, probe) && !is_blank(key)
}

pub fn source_index(d: &GraphDefinition, key: &str) -> (r: Option<usize>)
    ensures
        r matches Some(i) ==> spec_source(*d, key@) == Some(i as int),
        r is None ==> spec_source(*d, key@) is None,
{
    let ghost keys = source_keys(*d);
    let mut i: usize = 0;
    while i < d.sources.len()
        invariant
            keys == source_keys(*d),
            i <= d.sources@.len(),
            first_key(keys.take(i as int), key@) is None,
        decreases d.sources.len() - i,
    {
        assert(keys.take(i + 1).drop_last() =~= keys.take(i as int));
        if matches_key(d.sources[i].key.as_str(), key) {
            proof {
                lemma_first_key_extends(keys, key@, i + 1);
            }
            return Some(i);
        }
        i = i + 1;
    }
    assert(keys.take(i as int) =~= keys);
    None
}

pub fn field_index(d: &GraphDefinition, source: usize, name: &str) -> (r: Option<usize>)
    requires
        source < d.sources@.len(),
    ensures
        r matches Some(i) ==> spec_field(*d, source as int, name@) == Some(i as int),
        r is None ==> spec_field(*d, source as int, name@) is None,
{
    let ghost keys = field_names(*d, source as int);
    let fields = &d.sources[source].fields;
    let mut i: usize = 0;
    while i < fields.len()
        invariant
            fields == d.sources@[source as int].fields,
            keys == field_names(*d, source as int),
            i <= fields@.len(),
            first_key(keys.take(i as int), name@) is None,
        decreases fields.len() - i,
    {
        assert(keys.take(i + 1).drop_last() =~= keys.take(i as int));
        if matches_key(fields[i].name.as_str(), name) {
            proof {
                lemma_first_key_extends(keys, name@, i + 1);
            }
            return Some(i);
        }
        i = i + 1;
    }
    assert(keys.take(i as int) =~= keys);
    None
}

pub fn relation_index(d: &GraphDefinition, name: &str) -> (r: Option<usize>)
    ensures
        r matches Some(i) ==> spec_relation(*d, name@) == Some(i as int),
        r is None ==> spec_relation(*d, name@) is None,
{
    let ghost keys = relation_names(*d);
    let mut i: usize = 0;
    while i < d.relations.len()
        invariant
            keys == relation_names(*d),
            i <= d.relations@.len(),
            first_key(keys.take(i as int), name@) is None,
        decreases d.relations.len() - i,
    {
        assert(keys.take(i + 1).drop_last() =~= keys.take(i as int));
        if matches_key(d.relations[i].name.as_str(), name) {
            proof {
                lemma_first_key_extends(keys, name@, i + 1);
            }
            return Some(i);
        }
        i = i + 1;
    }
    assert(keys.take(i as int) =~= keys);
    None
}

pub fn ordering_index(d: &GraphDefinition, name: &str) -> (r: Option<usize>)
    ensures
        r matches Some(i) ==> spec_ordering(*d, name@) == Some(i as int),
        r is None ==> spec_ordering(*d, name@) is None,
{
    let ghost keys = ordering_names(*d);
    let mut i: usize = 0;
    while i < d.orderings.len()
        invariant
            keys == ordering_names(*d),
            i <= d.orderings@.len(),
            first_key(keys.take(i as int), name@) is None,
        decreases d.orderings.len() - i,
    {
        assert(keys.take(i + 1).drop_last() =~= keys.take(i as int));
        if matches_key(d.orderings[i].name.as_str(), name) {
            proof {
                lemma_first_key_extends(keys, name@, i + 1);
            }
            return Some(i);
        }
        i = i + 1;
    }
    assert(keys.take(i as int) =~= keys);
    None
}

pub fn parameter_index(d: &GraphDefinition, name: &str) -> (r: Option<usize>)
    ensures
        r matches Some(i) ==> spec_parameter(*d, name@) == Some(i as int),
        r is None ==> spec_parameter(*d, name@) is None,
{
    let ghost keys = parameter_names(*d);
    let mut found: Option<usize> = None;
    let mut i: usize = 0;
    while i < d.parameters.len()
        invariant
            keys == parameter_names(*d),
            i <= d.parameters@.len(),
            found matches Some(j) ==> last_key(keys.take(i as int), name@) == Some(j as int),
            found is None ==> last_key(keys.take(i as int), name@) is None,
        decreases d.parameters.len() - i,
    {
        assert(keys.take(i + 1).drop_last() =~= keys.take(i as int));
        if matches_key(d.parameters[i].name.as_str(), name) {
            found = Some(i);
        }
        i = i + 1;
    }
    assert(keys.take(i as int) =~= keys);
    found
}

pub fn root_index(d: &GraphDefinition) -> (r: Option<usize>)
    ensures
        r matches Some(i) ==> spec_root(*d) == Some(i as int),
        r is None ==> spec_root(*d) is None,
{
    source_index(d, d.root.as_str())
}

pub fn default_ordering_index(d: &GraphDefinition) -> (r: Option<usize>)
    ensures
        r matches Some(i) ==> spec_default_ordering(*d) == Some(i as int),
        r is None ==> spec_default_ordering(*d) is None,
{
    let mut i: usize = 0;
    while i < d.orderings.len()
        invariant
            i <= d.orderings@.len(),
            default_ordering_in(*d, i as int) is None,
        decreases d.orderings.len() - i,
    {
        if d.orderings[i].selected_by_default {
            proof {
                lemma_default_ordering_extends(*d, i + 1);
            }
            return Some(i);
        }
        i = i + 1;
    }
    None
}

proof fn lemma_default_ordering_extends(d: GraphDefinition, k: int)
    requires
        0 <= k <= d.orderings@.len(),
        default_ordering_in(d, k) is Some,
    ensures
        spec_default_ordering(d) == default_ordering_in(d, k),
    decreases d.orderings@.len() - k,
{
    if k < d.orderings@.len() {
        lemma_default_ordering_extends(d, k + 1);
    }
}

} // verus!
