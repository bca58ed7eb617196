//! Relational mappings: the physical table of each source and the column of each field.
use vstd::prelude::*;

use crate::analysis::index::{spec_field, spec_source};

use crate::compiled_graph::CompiledGraph;
use crate::definition::GraphDefinition;
use crate::validation::at;
use crate::text::{concat, concat3, debug_quote, debug_text, is_blank, spec_is_blank, str_eq, text};

verus! {

#[derive(Debug, Clone, PartialEq, Eq)]
pub enum TableName {
    Name(String),
    Qualified { catalog: Option<String>, schema: Option<String>, name: String },
}

/// A table name as the rules read it.
pub enum SpecTable {
    Name(Seq<char>),
    Qualified(Option<Seq<char>>, Option<Seq<char>>, Seq<char>),
}

pub open spec fn optional_view(o: Option<String>) -> Option<Seq<char>> {
    match o {
        Some(s) => Some(s@),
        None => None,
    }
}

pub open spec fn table_view(t: TableName) -> SpecTable {
    match t {
        TableName::Name(n) => SpecTable::Name(n@),
        TableName::Qualified { catalog, schema, name } => SpecTable::Qualified(
            optional_view(catalog),
            optional_view(schema),
            name@,
        ),
    }
}

/// Two table names denote the same table: equal, or one unqualified and the other
/// qualified by its name alone.
pub open spec fn spec_denotes_same_table(a: SpecTable, b: SpecTable) -> bool {
    match (a, b) {
        (SpecTable::Name(l), SpecTable::Name(r)) => l == r,
        (SpecTable::Name(l), SpecTable::Qualified(None, None, r)) => l == r,
        (SpecTable::Qualified(None, None, l), SpecTable::Name(r)) => l == r,
        (SpecTable::Qualified(c1, s1, n1), SpecTable::Qualified(c2, s2, n2)) => c1 == c2 && s1 == s2
            && n1 == n2,
        _ => false,
    }
}

pub open spec fn debug_optional(o: Option<Seq<char>>) -> Seq<char> {
    match o {
        Some(s) => "Some("@ + debug_text(s) + ")"@,
        None => "None"@,
    }
}

/// The `Debug` text of a table name.
pub open spec fn debug_table(t: SpecTable) -> Seq<char> {
    match t {
        SpecTable::Name(n) => "Name("@ + debug_text(n) + ")"@,
        SpecTable::Qualified(c, s, n) => "Qualified { catalog: "@ + debug_optional(c) + ", schema: "@
            + debug_optional(s) + ", name: "@ + debug_text(n) + " }"@,
    }
}

fn optional_equal(a: &Option<String>, b: &Option<String>) -> (r: bool)
    ensures
        r == (optional_view(*a) == optional_view(*b)),
{
    match (a, b) {
        (Some(x), Some(y)) => str_eq(x.as_str(), y.as_str()),
        (None, None) => true,
        _ => false,
    }
}

pub(crate) fn copy_optional(o: &Option<String>) -> (r: Option<String>)
    ensures
        optional_view(r) == optional_view(*o),
{
    match o {
        Some(s) => Some(text(s.as_str())),
        None => None,
    }
}

fn debug_optional_text(o: &Option<String>) -> (r: String)
    ensures
        r@ == debug_optional(optional_view(*o)),
{
    match o {
        Some(s) => concat3("Some(", debug_quote(s.as_str()).as_str(), ")"),
        None => text("None"),
    }
}

impl TableName {
    pub fn denotes_same_table(&self, other: &TableName) -> (r: bool)
        ensures
            r == spec_denotes_same_table(table_view(*self), table_view(*other)),
    {
        match (self, other) {
            (TableName::Name(l), TableName::Name(r)) => str_eq(l.as_str(), r.as_str()),
            (TableName::Name(l), TableName::Qualified { catalog: None, schema: None, name: r }) => str_eq(
                l.as_str(),
                r.as_str(),
            ),
            (TableName::Qualified { catalog: None, schema: None, name: l }, TableName::Name(r)) => str_eq(
                l.as_str(),
                r.as_str(),
            ),
            (
                TableName::Qualified { catalog: c1, schema: s1, name: n1 },
                TableName::Qualified { catalog: c2, schema: s2, name: n2 },
            ) => optional_equal(c1, c2) && optional_equal(s1, s2) && str_eq(n1.as_str(), n2.as_str()),
            _ => false,
        }
    }

    /// A copy of the table name.
    pub fn copy(&self) -> (r: TableName)
        ensures
            table_view(r) == table_view(*self),
    {
        match self {
            TableName::Name(n) => TableName::Name(text(n.as_str())),
            TableName::Qualified { catalog, schema, name } => TableName::Qualified {
                catalog: copy_optional(catalog),
                schema: copy_optional(schema),
                name: text(name.as_str()),
            },
        }
    }

    /// The `Debug` text of the table name.
    pub fn debug_text(&self) -> (r: String)
        ensures
            r@ == debug_table(table_view(*self)),
    {
        match self {
            TableName::Name(n) => concat3("Name(", debug_quote(n.as_str()).as_str(), ")"),
            TableName::Qualified { catalog, schema, name } => {
                let mut r = text("Qualified { catalog: ");
                r.append(debug_optional_text(catalog).as_str());
                r.append(", schema: ");
                r.append(debug_optional_text(schema).as_str());
                r.append(", name: ");
                r.append(debug_quote(name.as_str()).as_str());
                r.append(" }");
                r
            },
        }
    }

    pub fn from_str(name: &str) -> (r: TableName)
        ensures
            table_view(r) == SpecTable::Name(name@),
    {
        TableName::Name(text(name))
    }
}

/// The physical table of a source and the columns of its fields, by field name.
#[derive(Debug, Clone, PartialEq, Eq)]
pub struct SourceMapping {
    pub table: TableName,
    /// Field name and column name pairs. A field name is meant to occur once; where it
    /// occurs more than once, the first pair is the one read (see `column_position`).
    pub columns: Vec<(String, String)>,
}

impl SourceMapping {
    pub fn new(table: TableName) -> (r: Self)
        ensures
            r.table == table,
            r.columns@.len() == 0,
    {
        SourceMapping { table, columns: Vec::new() }
    }
}

/// The mappings of sources, by source key.
#[derive(Debug, Clone, PartialEq, Eq)]
pub struct RelationalMapping {
    /// Source key and mapping pairs. A key is meant to occur once; where it occurs more
    /// than once, the first pair is the one read (see `source_position`), and `merge`
    /// reports the later one as a conflict when its table or columns differ.
    pub sources: Vec<(String, SourceMapping)>,
}

pub type SpecColumns = Seq<(Seq<char>, Seq<char>)>;

pub type SpecSources = Seq<(Seq<char>, SpecTable, SpecColumns)>;

pub open spec fn columns_view(c: Seq<(String, String)>) -> SpecColumns {
    Seq::new(c.len(), |i: int| (c[i].0@, c[i].1@))
}

pub open spec fn sources_view(s: Seq<(String, SourceMapping)>) -> SpecSources {
    Seq::new(s.len(), |i: int| (s[i].0@, table_view(s[i].1.table), columns_view(s[i].1.columns@)))
}

impl View for RelationalMapping {
    type V = SpecSources;

    open spec fn view(&self) -> SpecSources {
        sources_view(self.sources@)
    }
}

/// The first entry whose key is `key`, among the first `n`.
pub open spec fn column_position(c: SpecColumns, key: Seq<char>, n: int) -> Option<int>
    decreases n,
{
    if n <= 0 {
        None
    } else {
        match column_position(c, key, n - 1) {
            Some(i) => Some(i),
            None => if c[n - 1].0 == key {
                Some(n - 1)
            } else {
                None
            },
        }
    }
}

pub open spec fn source_position(s: SpecSources, key: Seq<char>, n: int) -> Option<int>
    decreases n,
{
    if n <= 0 {
        None
    } else {
        match source_position(s, key, n - 1) {
            Some(i) => Some(i),
            None => if s[n - 1].0 == key {
                Some(n - 1)
            } else {
                None
            },
        }
    }
}

#[derive(Debug, Clone, Copy, PartialEq, Eq, Structural)]
pub enum MappingIssueCode {
    MissingSource,
    ConflictingSourceTable,
    ConflictingColumn,
    UnknownSource,
    EmptyTableName,
    EmptyTableQualifier,
    UnknownColumnField,
    EmptyColumnName,
}

#[derive(Debug, Clone, PartialEq, Eq)]
pub struct MappingIssue {
    pub code: MappingIssueCode,
    pub location: String,
    pub message: String,
}

pub type SpecMappingIssue = (MappingIssueCode, Seq<char>, Seq<char>);

pub open spec fn mapping_issues_view(v: Seq<MappingIssue>) -> Seq<SpecMappingIssue> {
    v.map_values(|i: MappingIssue| (i.code, i.location@, i.message@))
}

fn push_mapping_issue(issues: &mut Vec<MappingIssue>, code: MappingIssueCode, location: String, message: String)
    ensures
        mapping_issues_view(final(issues)@) == mapping_issues_view(old(issues)@).push((code, location@, message@)),
{
    let ghost before = issues@;
    issues.push(MappingIssue { code, location, message });
    assert(mapping_issues_view(issues@) =~= mapping_issues_view(before).push((code, location@, message@)));
}

/// The issues of a mapping that cannot be used.
#[derive(Debug, Clone, PartialEq, Eq)]
pub struct MappingIssues(pub Vec<MappingIssue>);

impl MappingIssues {
    pub fn as_slice(&self) -> (r: &[MappingIssue])
        ensures
            r@ == self.0@,
    {
        self.0.as_slice()
    }

    pub fn into_vec(self) -> (r: Vec<MappingIssue>)
        ensures
            r == self.0,
    {
        self.0
    }
}


/// Columns of a source merged with more columns, and the conflicts found.
pub open spec fn merge_columns(cols: SpecColumns, incoming: SpecColumns, loc: Seq<char>, source: Seq<char>, n: int) -> (SpecColumns, Seq<SpecMappingIssue>)
    decreases n,
{
    if n <= 0 {
        (cols, seq![])
    } else {
        let prev = merge_columns(cols, incoming, loc, source, n - 1);
        let field = incoming[n - 1].0;
        let column = incoming[n - 1].1;
        match column_position(prev.0, field, prev.0.len() as int) {
            None => (prev.0.push((field, column)), prev.1),
            Some(j) => if prev.0[j].1 == column {
                prev
            } else {
                (
                    prev.0,
                    prev.1.push(
                        (
                            MappingIssueCode::ConflictingColumn,
                            loc + ".columns."@ + field,
                            "field "@ + debug_text(source) + "."@ + debug_text(field)
                                + " maps to conflicting physical columns "@ + debug_text(prev.0[j].1)
                                + " and "@ + debug_text(column),
                        ),
                    ),
                )
            },
        }
    }
}

/// One more source mapping merged into the sources so far.
pub open spec fn merge_entry(state: (SpecSources, Seq<SpecMappingIssue>), mi: int, entry: (Seq<char>, SpecTable, SpecColumns)) -> (SpecSources, Seq<SpecMappingIssue>) {
    let srcs = state.0;
    match source_position(srcs, entry.0, srcs.len() as int) {
        None => (srcs.push(entry), state.1),
        Some(j) => {
            let loc = at("mappings"@, mi) + ".sources."@ + entry.0;
            let table_issue = if spec_denotes_same_table(srcs[j].1, entry.1) {
                seq![]
            } else {
                seq![
                    (
                        MappingIssueCode::ConflictingSourceTable,
                        loc + ".table"@,
                        "source "@ + debug_text(entry.0) + " maps to conflicting physical tables "@
                            + debug_table(srcs[j].1) + " and "@ + debug_table(entry.1),
                    ),
                ]
            };
            let merged = merge_columns(srcs[j].2, entry.2, loc, entry.0, entry.2.len() as int);
            (srcs.update(j, (srcs[j].0, srcs[j].1, merged.0)), state.1 + table_issue + merged.1)
        },
    }
}

pub open spec fn merge_mapping(state: (SpecSources, Seq<SpecMappingIssue>), mi: int, incoming: SpecSources, n: int) -> (SpecSources, Seq<SpecMappingIssue>)
    decreases n,
{
    if n <= 0 {
        state
    } else {
        merge_entry(merge_mapping(state, mi, incoming, n - 1), mi, incoming[n - 1])
    }
}

/// The first `n` mappings merged in order, and the conflicts found.
pub open spec fn merge_all(ms: Seq<SpecSources>, n: int) -> (SpecSources, Seq<SpecMappingIssue>)
    decreases n,
{
    if n <= 0 {
        (seq![], seq![])
    } else {
        merge_mapping(merge_all(ms, n - 1), n - 1, ms[n - 1], ms[n - 1].len() as int)
    }
}

fn find_column(cols: &Vec<(String, String)>, key: &str) -> (r: Option<usize>)
    ensures
        r matches Some(j) ==> column_position(columns_view(cols@), key@, cols@.len() as int) == Some(j as int) && j < cols@.len(),
        r is None ==> column_position(columns_view(cols@), key@, cols@.len() as int) is None,
{
    let ghost v = columns_view(cols@);
    let mut j: usize = 0;
    while j < cols.len()
        invariant
            v == columns_view(cols@),
            j <= cols@.len(),
            column_position(v, key@, j as int) is None,
        decreases cols.len() - j,
    {
        if str_eq(cols[j].0.as_str(), key) {
            proof {
                lemma_column_position_extends(v, key@, j + 1, v.len() as int);
            }
            return Some(j);
        }
        j = j + 1;
    }
    None
}

proof fn lemma_column_position_extends(c: SpecColumns, key: Seq<char>, k: int, n: int)
    requires
        0 <= k <= n,
        column_position(c, key, k) is Some,
    ensures
        column_position(c, key, n) == column_position(c, key, k),
    decreases n - k,
{
    if k < n {
        lemma_column_position_extends(c, key, k, n - 1);
    }
}

fn find_source(srcs: &Vec<(String, SourceMapping)>, key: &str) -> (r: Option<usize>)
    ensures
        r matches Some(j) ==> source_position(sources_view(srcs@), key@, srcs@.len() as int) == Some(j as int) && j < srcs@.len(),
        r is None ==> source_position(sources_view(srcs@), key@, srcs@.len() as int) is None,
{
    let ghost v = sources_view(srcs@);
    let mut j: usize = 0;
    while j < srcs.len()
        invariant
            v == sources_view(srcs@),
            j <= srcs@.len(),
            source_position(v, key@, j as int) is None,
        decreases srcs.len() - j,
    {
        if str_eq(srcs[j].0.as_str(), key) {
            proof {
                lemma_source_position_extends(v, key@, j + 1, v.len() as int);
            }
            return Some(j);
        }
        j = j + 1;
    }
    None
}

proof fn lemma_source_position_extends(c: SpecSources, key: Seq<char>, k: int, n: int)
    requires
        0 <= k <= n,
        source_position(c, key, k) is Some,
    ensures
        source_position(c, key, n) == source_position(c, key, k),
    decreases n - k,
{
    if k < n {
        lemma_source_position_extends(c, key, k, n - 1);
    }
}

fn copy_columns(cols: &Vec<(String, String)>) -> (r: Vec<(String, String)>)
    ensures
        columns_view(r@) == columns_view(cols@),
{
    let mut r: Vec<(String, String)> = Vec::new();
    let mut j: usize = 0;
    while j < cols.len()
        invariant
            j <= cols@.len(),
            r@.len() == j,
            forall|k: int| 0 <= k < j ==> (#[trigger] r@[k]).0@ == cols@[k].0@ && r@[k].1@ == cols@[k].1@,
        decreases cols.len() - j,
    {
        r.push((text(cols[j].0.as_str()), text(cols[j].1.as_str())));
        j = j + 1;
    }
    assert(columns_view(r@) =~= columns_view(cols@));
    r
}

fn merge_column_list(
    existing: &Vec<(String, String)>,
    incoming: &Vec<(String, String)>,
    loc: &str,
    source: &str,
    issues: &mut Vec<MappingIssue>,
) -> (r: Vec<(String, String)>)
    ensures
        columns_view(r@) == merge_columns(columns_view(existing@), columns_view(incoming@), loc@, source@, incoming@.len() as int).0,
        mapping_issues_view(final(issues)@) == mapping_issues_view(old(issues)@) + merge_columns(
            columns_view(existing@),
            columns_view(incoming@),
            loc@,
            source@,
            incoming@.len() as int,
        ).1,
{
    let ghost start = mapping_issues_view(issues@);
    let ghost ex = columns_view(existing@);
    let ghost inc = columns_view(incoming@);
    let mut cols = copy_columns(existing);
    let mut k: usize = 0;
    while k < incoming.len()
        invariant
            ex == columns_view(existing@),
            inc == columns_view(incoming@),
            k <= incoming@.len(),
            columns_view(cols@) == merge_columns(ex, inc, loc@, source@, k as int).0,
            mapping_issues_view(issues@) == start + merge_columns(ex, inc, loc@, source@, k as int).1,
        decreases incoming.len() - k,
    {
        let field = &incoming[k].0;
        let column = &incoming[k].1;
        assert(inc[k as int] == (field@, column@));
        match find_column(&cols, field.as_str()) {
            None => {
                let ghost before = cols@;
                cols.push((text(field.as_str()), text(column.as_str())));
                assert(columns_view(cols@) =~= columns_view(before).push((field@, column@)));
            },
            Some(j) => {
                if !str_eq(cols[j].1.as_str(), column.as_str()) {
                    let mut location = text(loc);
                    location.append(".columns.");
                    location.append(field.as_str());
                    let mut m = concat3("field ", debug_quote(source).as_str(), ".");
                    m.append(debug_quote(field.as_str()).as_str());
                    m.append(" maps to conflicting physical columns ");
                    m.append(debug_quote(cols[j].1.as_str()).as_str());
                    m.append(" and ");
                    m.append(debug_quote(column.as_str()).as_str());
                    push_mapping_issue(issues, MappingIssueCode::ConflictingColumn, location, m);
                }
            },
        }
        assert(mapping_issues_view(issues@) =~= start + merge_columns(ex, inc, loc@, source@, (k + 1) as int).1);
        k = k + 1;
    }
    cols
}

fn merge_one(
    srcs: &mut Vec<(String, SourceMapping)>,
    mi: usize,
    key: &String,
    incoming: &SourceMapping,
    issues: &mut Vec<MappingIssue>,
)
    ensures
        (sources_view(final(srcs)@), mapping_issues_view(final(issues)@)) == merge_entry(
            (sources_view(old(srcs)@), mapping_issues_view(old(issues)@)),
            mi as int,
            (key@, table_view(incoming.table), columns_view(incoming.columns@)),
        ),
{
    let ghost entry = (key@, table_view(incoming.table), columns_view(incoming.columns@));
    let ghost old_srcs = sources_view(srcs@);
    let ghost start = mapping_issues_view(issues@);
    match find_source(srcs, key.as_str()) {
        None => {
            let copy = SourceMapping { table: incoming.table.copy(), columns: copy_columns(&incoming.columns) };
            srcs.push((text(key.as_str()), copy));
            assert(sources_view(srcs@) =~= old_srcs.push(entry));
        },
        Some(j) => {
            let loc = crate::text::indexed("mappings", mi);
            let mut loc = text(loc.as_str());
            loc.append(".sources.");
            loc.append(key.as_str());
            if !srcs[j].1.table.denotes_same_table(&incoming.table) {
                let mut m = concat3("source ", debug_quote(key.as_str()).as_str(), " maps to conflicting physical tables ");
                m.append(srcs[j].1.table.debug_text().as_str());
                m.append(" and ");
                m.append(incoming.table.debug_text().as_str());
                push_mapping_issue(issues, MappingIssueCode::ConflictingSourceTable, concat(loc.as_str(), ".table"), m);
            }
            let cols = merge_column_list(&srcs[j].1.columns, &incoming.columns, loc.as_str(), key.as_str(), issues);
            let updated = (text(srcs[j].0.as_str()), SourceMapping { table: srcs[j].1.table.copy(), columns: cols });
            let ghost before = srcs@;
            srcs.set(j, updated);
            assert(sources_view(srcs@) =~= old_srcs.update(j as int, (old_srcs[j as int].0, old_srcs[j as int].1, columns_view(cols@))));
        },
    }
}

impl RelationalMapping {
    /// Merges mapping fragments in order. A source mapped more than once keeps its first
    /// table and gains the columns it did not have; a different table or a different column
    /// for the same field is a conflict.
    pub fn merge(mappings: Vec<RelationalMapping>) -> (r: Result<RelationalMapping, MappingIssues>)
        ensures
            ({
                let ms = Seq::new(mappings@.len(), |i: int| mappings@[i]@);
                let merged = merge_all(ms, ms.len() as int);
                match r {
                    Ok(m) => merged.1.len() == 0 && m@ == merged.0,
                    Err(e) => merged.1.len() > 0 && mapping_issues_view(e.0@) == merged.1,
                }
            }),
    {
        let ghost ms = Seq::new(mappings@.len(), |i: int| mappings@[i]@);
        let mut srcs: Vec<(String, SourceMapping)> = Vec::new();
        let mut issues: Vec<MappingIssue> = Vec::new();
        assert(sources_view(srcs@) =~= seq![]);
        assert(mapping_issues_view(issues@) =~= seq![]);
        let mut i: usize = 0;
        while i < mappings.len()
            invariant
                ms == Seq::new(mappings@.len(), |i: int| mappings@[i]@),
                i <= mappings@.len(),
                (sources_view(srcs@), mapping_issues_view(issues@)) == merge_all(ms, i as int),
            decreases mappings.len() - i,
        {
            let m = &mappings[i];
            let ghost state0 = merge_all(ms, i as int);
            let mut k: usize = 0;
            while k < m.sources.len()
                invariant
                    ms == Seq::new(mappings@.len(), |i: int| mappings@[i]@),
                    i < mappings@.len(),
                    *m == mappings@[i as int],
                    k <= m.sources@.len(),
                    (sources_view(srcs@), mapping_issues_view(issues@)) == merge_mapping(state0, i as int, ms[i as int], k as int),
                decreases m.sources.len() - k,
            {
                assert(ms[i as int][k as int] == (m.sources@[k as int].0@, table_view(m.sources@[k as int].1.table), columns_view(m.sources@[k as int].1.columns@)));
                merge_one(&mut srcs, i, &m.sources[k].0, &m.sources[k].1, &mut issues);
                k = k + 1;
            }
            i = i + 1;
        }
        if issues.len() == 0 {
            Ok(RelationalMapping { sources: srcs })
        } else {
            Err(MappingIssues(issues))
        }
    }
}


pub open spec fn unknown_source_section(m: SpecSources, d: GraphDefinition, n: int) -> Seq<SpecMappingIssue>
    decreases n,
{
    if n <= 0 {
        seq![]
    } else {
        let key = m[n - 1].0;
        unknown_source_section(m, d, n - 1) + if spec_source(d, key) is None {
            seq![
                (
                    MappingIssueCode::UnknownSource,
                    "sources."@ + key,
                    "source "@ + debug_text(key) + " is not defined by the graph"@,
                ),
            ]
        } else {
            seq![]
        }
    }
}

pub open spec fn blank_qualifier(o: Option<Seq<char>>) -> bool {
    match o {
        Some(v) => spec_is_blank(v),
        None => false,
    }
}

pub open spec fn table_issues(t: SpecTable, key: Seq<char>) -> Seq<SpecMappingIssue> {
    let loc = "sources."@ + key + ".table"@;
    match t {
        SpecTable::Name(n) => if spec_is_blank(n) {
            seq![(MappingIssueCode::EmptyTableName, loc, "physical table name must not be empty"@)]
        } else {
            seq![]
        },
        SpecTable::Qualified(c, s, n) => (if spec_is_blank(n) {
            seq![
                (
                    MappingIssueCode::EmptyTableName,
                    loc + ".name"@,
                    "physical table name must not be empty"@,
                ),
            ]
        } else {
            seq![]
        }) + (if blank_qualifier(c) {
            seq![
                (
                    MappingIssueCode::EmptyTableQualifier,
                    loc + ".catalog"@,
                    "table catalog must not be empty when provided"@,
                ),
            ]
        } else {
            seq![]
        }) + (if blank_qualifier(s) {
            seq![
                (
                    MappingIssueCode::EmptyTableQualifier,
                    loc + ".schema"@,
                    "table schema must not be empty when provided"@,
                ),
            ]
        } else {
            seq![]
        }),
    }
}

/// Whether the graph defines the field `field` of the source `key`.
pub open spec fn field_defined(d: GraphDefinition, key: Seq<char>, field: Seq<char>) -> bool {
    match spec_source(d, key) {
        Some(si) => spec_field(d, si, field) is Some,
        None => false,
    }
}

pub open spec fn column_issue_section(d: GraphDefinition, key: Seq<char>, cols: SpecColumns, n: int) -> Seq<SpecMappingIssue>
    decreases n,
{
    if n <= 0 {
        seq![]
    } else {
        let field = cols[n - 1].0;
        let loc = "sources."@ + key + ".columns."@ + field;
        column_issue_section(d, key, cols, n - 1) + (if !field_defined(d, key, field) {
            seq![
                (
                    MappingIssueCode::UnknownColumnField,
                    loc,
                    "column mapping refers to unknown field "@ + debug_text(key) + "."@ + debug_text(field),
                ),
            ]
        } else {
            seq![]
        }) + (if spec_is_blank(cols[n - 1].1) {
            seq![(MappingIssueCode::EmptyColumnName, loc, "physical column name must not be empty"@)]
        } else {
            seq![]
        })
    }
}

pub open spec fn coverage_section(m: SpecSources, d: GraphDefinition, n: int) -> Seq<SpecMappingIssue>
    decreases n,
{
    if n <= 0 {
        seq![]
    } else {
        let key = d.sources@[n - 1].key@;
        coverage_section(m, d, n - 1) + match source_position(m, key, m.len() as int) {
            None => seq![
                (
                    MappingIssueCode::MissingSource,
                    "sources."@ + key,
                    "source "@ + debug_text(key) + " has no relational mapping"@,
                ),
            ],
            Some(j) => table_issues(m[j].1, key) + column_issue_section(d, key, m[j].2, m[j].2.len() as int),
        }
    }
}

/// The issues of a mapping against a definition, in the order they are reported.
pub open spec fn mapping_issues(m: SpecSources, d: GraphDefinition) -> Seq<SpecMappingIssue> {
    unknown_source_section(m, d, m.len() as int) + coverage_section(m, d, d.sources@.len() as int)
}

fn check_table(t: &TableName, key: &str, issues: &mut Vec<MappingIssue>)
    ensures
        mapping_issues_view(final(issues)@) == mapping_issues_view(old(issues)@) + table_issues(table_view(*t), key@),
{
    let ghost start = mapping_issues_view(issues@);
    let loc = concat3("sources.", key, ".table");
    match t {
        TableName::Name(n) => {
            if is_blank(n.as_str()) {
                push_mapping_issue(issues, MappingIssueCode::EmptyTableName, loc, text("physical table name must not be empty"));
            }
        },
        TableName::Qualified { catalog, schema, name } => {
            if is_blank(name.as_str()) {
                push_mapping_issue(issues, MappingIssueCode::EmptyTableName, concat(loc.as_str(), ".name"), text("physical table name must not be empty"));
            }
            if let Some(c) = catalog {
                if is_blank(c.as_str()) {
                    push_mapping_issue(issues, MappingIssueCode::EmptyTableQualifier, concat(loc.as_str(), ".catalog"), text("table catalog must not be empty when provided"));
                }
            }
            if let Some(c) = schema {
                if is_blank(c.as_str()) {
                    push_mapping_issue(issues, MappingIssueCode::EmptyTableQualifier, concat(loc.as_str(), ".schema"), text("table schema must not be empty when provided"));
                }
            }
        },
    }
    assert(mapping_issues_view(issues@) =~= start + table_issues(table_view(*t), key@));
}

fn check_columns(g: &CompiledGraph, key: &str, cols: &Vec<(String, String)>, issues: &mut Vec<MappingIssue>)
    ensures
        mapping_issues_view(final(issues)@) == mapping_issues_view(old(issues)@) + column_issue_section(
            g.graph(),
            key@,
            columns_view(cols@),
            cols@.len() as int,
        ),
{
    let ghost start = mapping_issues_view(issues@);
    let ghost cv = columns_view(cols@);
    let mut k: usize = 0;
    while k < cols.len()
        invariant
            cv == columns_view(cols@),
            k <= cols@.len(),
            mapping_issues_view(issues@) == start + column_issue_section(g.graph(), key@, cv, k as int),
        decreases cols.len() - k,
    {
        let field = &cols[k].0;
        let column = &cols[k].1;
        assert(cv[k as int] == (field@, column@));
        let mut loc = concat3("sources.", key, ".columns.");
        loc.append(field.as_str());
        if g.field(key, field.as_str()).is_none() {
            let mut m = concat3("column mapping refers to unknown field ", debug_quote(key).as_str(), ".");
            m.append(debug_quote(field.as_str()).as_str());
            push_mapping_issue(issues, MappingIssueCode::UnknownColumnField, text(loc.as_str()), m);
        }
        if is_blank(column.as_str()) {
            push_mapping_issue(issues, MappingIssueCode::EmptyColumnName, loc, text("physical column name must not be empty"));
        }
        assert(mapping_issues_view(issues@) =~= start + column_issue_section(g.graph(), key@, cv, (k + 1) as int));
        k = k + 1;
    }
}

/// A mapping that covers every source of its graph with a usable table and columns.
#[derive(Debug, Clone)]
pub struct CompiledRelationalMapping {
    mapping: RelationalMapping,
}

impl CompiledRelationalMapping {
    /// The mapping that was compiled.
    pub closed spec fn mapping_view(self) -> SpecSources {
        self.mapping@
    }

    pub fn definition(&self) -> (r: &RelationalMapping)
        ensures
            r@ == self.mapping_view(),
    {
        &self.mapping
    }

    /// The mapping of a source.
    pub fn source(&self, source: &str) -> (r: Option<&SourceMapping>)
        ensures
            match source_position(self.mapping_view(), source@, self.mapping_view().len() as int) {
                Some(j) => r matches Some(m) && table_view(m.table) == self.mapping_view()[j].1
                    && columns_view(m.columns@) == self.mapping_view()[j].2,
                None => r is None,
            },
    {
        match find_source(&self.mapping.sources, source) {
            Some(j) => Some(&self.mapping.sources[j].1),
            None => None,
        }
    }

    /// The physical column of a field: the mapped column, or the field's own name when
    /// the source maps no column for it.
    pub fn column<'a>(&'a self, source: &str, field: &'a str) -> (r: Option<&'a str>)
        ensures
            match source_position(self.mapping_view(), source@, self.mapping_view().len() as int) {
                Some(j) => r matches Some(c) && c@ == match column_position(
                    self.mapping_view()[j].2,
                    field@,
                    self.mapping_view()[j].2.len() as int,
                ) {
                    Some(k) => self.mapping_view()[j].2[k].1,
                    None => field@,
                },
                None => r is None,
            },
    {
        let m = match self.source(source) {
            Some(m) => m,
            None => return None,
        };
        match find_column(&m.columns, field) {
            Some(k) => Some(m.columns[k].1.as_str()),
            None => Some(field),
        }
    }
}

impl RelationalMapping {
    /// Checks the mapping against a compiled graph: `Ok` exactly when it has no issue.
    pub fn compile(self, graph: &CompiledGraph) -> (r: Result<CompiledRelationalMapping, MappingIssues>)
        ensures
            r is Ok <==> mapping_issues(self@, graph.graph()).len() == 0,
            r matches Ok(c) ==> c.mapping_view() == self@,
            r matches Err(e) ==> mapping_issues_view(e.0@) == mapping_issues(self@, graph.graph()),
    {
        let ghost m = self@;
        let d = graph.definition();
        let mut issues: Vec<MappingIssue> = Vec::new();
        assert(mapping_issues_view(issues@) =~= seq![]);
        let mut k: usize = 0;
        while k < self.sources.len()
            invariant
                m == self@,
                *d == graph.graph(),
                k <= self.sources@.len(),
                mapping_issues_view(issues@) == unknown_source_section(m, *d, k as int),
            decreases self.sources.len() - k,
        {
            let key = &self.sources[k].0;
            assert(m[k as int].0 == key@);
            if graph.source(key.as_str()).is_none() {
                push_mapping_issue(
                    &mut issues,
                    MappingIssueCode::UnknownSource,
                    concat("sources.", key.as_str()),
                    concat3("source ", debug_quote(key.as_str()).as_str(), " is not defined by the graph"),
                );
            }
            assert(mapping_issues_view(issues@) =~= unknown_source_section(m, *d, (k + 1) as int));
            k = k + 1;
        }
        let ghost mid = mapping_issues_view(issues@);
        let mut i: usize = 0;
        while i < d.sources.len()
            invariant
                m == self@,
                *d == graph.graph(),
                i <= d.sources@.len(),
                mapping_issues_view(issues@) == mid + coverage_section(m, *d, i as int),
            decreases d.sources.len() - i,
        {
            let key = &d.sources[i].key;
            match find_source(&self.sources, key.as_str()) {
                None => {
                    push_mapping_issue(
                        &mut issues,
                        MappingIssueCode::MissingSource,
                        concat("sources.", key.as_str()),
                        concat3("source ", debug_quote(key.as_str()).as_str(), " has no relational mapping"),
                    );
                },
                Some(j) => {
                    check_table(&self.sources[j].1.table, key.as_str(), &mut issues);
                    check_columns(graph, key.as_str(), &self.sources[j].1.columns, &mut issues);
                },
            }
            assert(mapping_issues_view(issues@) =~= mid + coverage_section(m, *d, (i + 1) as int));
            i = i + 1;
        }
        assert(mapping_issues_view(issues@) =~= mapping_issues(m, *d));
        if issues.len() == 0 {
            Ok(CompiledRelationalMapping { mapping: self })
        } else {
            Err(MappingIssues(issues))
        }
    }
}

impl From<String> for TableName {
    fn from(name: String) -> (r: Self) {
        TableName::Name(name)
    }
}

impl vstd::std_specs::convert::FromSpecImpl<String> for TableName {
    open spec fn obeys_from_spec() -> bool {
        true
    }

    open spec fn from_spec(name: String) -> Self {
        TableName::Name(name)
    }
}

/// No source key occurs twice.
pub open spec fn distinct_keys(s: SpecSources) -> bool {
    forall|a: int, b: int| 0 <= a < b < s.len() ==> #[trigger] s[a].0 != #[trigger] s[b].0
}

proof fn lemma_position_none(s: SpecSources, key: Seq<char>, n: int)
    requires
        0 <= n <= s.len(),
        source_position(s, key, n) is None,
    ensures
        forall|i: int| 0 <= i < n ==> (#[trigger] s[i]).0 != key,
    decreases n,
{
    if n > 0 {
        lemma_position_none(s, key, n - 1);
    }
}

proof fn lemma_position_some(s: SpecSources, key: Seq<char>, n: int)
    ensures
        source_position(s, key, n) matches Some(j) ==> 0 <= j < n,
    decreases n,
{
    if n > 0 {
        lemma_position_some(s, key, n - 1);
    }
}

proof fn lemma_entry_distinct(state: (SpecSources, Seq<SpecMappingIssue>), mi: int, entry: (Seq<char>, SpecTable, SpecColumns))
    requires
        distinct_keys(state.0),
    ensures
        distinct_keys(merge_entry(state, mi, entry).0),
{
    let srcs = state.0;
    let next = merge_entry(state, mi, entry).0;
    lemma_position_some(srcs, entry.0, srcs.len() as int);
    match source_position(srcs, entry.0, srcs.len() as int) {
        None => {
            lemma_position_none(srcs, entry.0, srcs.len() as int);
            assert forall|a: int, b: int| 0 <= a < b < next.len() implies #[trigger] next[a].0 != #[trigger] next[b].0 by {
                if b == srcs.len() {
                    assert(srcs[a].0 != entry.0);
                } else {
                    assert(next[a] == srcs[a] && next[b] == srcs[b]);
                }
            }
        },
        Some(j) => {
            assert forall|a: int, b: int| 0 <= a < b < next.len() implies #[trigger] next[a].0 != #[trigger] next[b].0 by {
                assert(next[a].0 == srcs[a].0 && next[b].0 == srcs[b].0);
            }
        },
    }
}

proof fn lemma_mapping_distinct(state: (SpecSources, Seq<SpecMappingIssue>), mi: int, incoming: SpecSources, n: int)
    requires
        distinct_keys(state.0),
    ensures
        distinct_keys(merge_mapping(state, mi, incoming, n).0),
    decreases n,
{
    if n > 0 {
        lemma_mapping_distinct(state, mi, incoming, n - 1);
        lemma_entry_distinct(merge_mapping(state, mi, incoming, n - 1), mi, incoming[n - 1]);
    }
}

/// Merging mappings yields each source key once: a key that occurs again is merged into
/// the first entry for it, never added beside it.
pub proof fn law_merged_sources_are_distinct(ms: Seq<SpecSources>, n: int)
    ensures
        distinct_keys(merge_all(ms, n).0),
    decreases n,
{
    if n > 0 {
        law_merged_sources_are_distinct(ms, n - 1);
        lemma_mapping_distinct(merge_all(ms, n - 1), n - 1, ms[n - 1], ms[n - 1].len() as int);
    }
}

/// The graph has a source with key `key` that has a field named `field`.
pub open spec fn graph_has_field(d: GraphDefinition, key: Seq<char>, field: Seq<char>) -> bool {
    exists|si: int, fi: int|
        0 <= si < d.sources@.len() && 0 <= fi < d.sources@[si].fields@.len() && #[trigger] d.sources@[si].key@ == key
            && #[trigger] d.sources@[si].fields@[fi].name@ == field
}

proof fn lemma_defined_field_exists(d: GraphDefinition, key: Seq<char>, field: Seq<char>)
    requires
        field_defined(d, key, field),
    ensures
        graph_has_field(d, key, field),
{
    crate::analysis::index::lemma_first_key_range(crate::analysis::index::source_keys(d), key);
    let si = spec_source(d, key)->0;
    crate::analysis::index::lemma_first_key_range(crate::analysis::index::field_names(d, si), field);
    let fi = spec_field(d, si, field)->0;
    assert(crate::analysis::index::source_keys(d)[si] == d.sources@[si].key@);
    assert(crate::analysis::index::field_names(d, si)[fi] == d.sources@[si].fields@[fi].name@);
}

proof fn lemma_columns_defined(d: GraphDefinition, key: Seq<char>, cols: SpecColumns, n: int)
    requires
        0 <= n <= cols.len(),
        column_issue_section(d, key, cols, n).len() == 0,
    ensures
        forall|k: int| 0 <= k < n ==> graph_has_field(d, key, (#[trigger] cols[k]).0),
        forall|k: int| 0 <= k < n ==> !spec_is_blank((#[trigger] cols[k]).1),
    decreases n,
{
    if n > 0 {
        lemma_columns_defined(d, key, cols, n - 1);
        lemma_defined_field_exists(d, key, cols[n - 1].0);
    }
}

proof fn lemma_coverage_clean(m: SpecSources, d: GraphDefinition, n: int)
    requires
        0 <= n <= d.sources@.len(),
        coverage_section(m, d, n).len() == 0,
    ensures
        forall|s: int|
            0 <= s < n ==> ((#[trigger] source_position(m, d.sources@[s].key@, m.len() as int)) matches Some(j) && ({
                &&& forall|k: int| 0 <= k < m[j].2.len() ==> graph_has_field(d, d.sources@[s].key@, (#[trigger] m[j].2[k]).0)
                &&& forall|k: int| 0 <= k < m[j].2.len() ==> !spec_is_blank((#[trigger] m[j].2[k]).1)
            })),
    decreases n,
{
    if n > 0 {
        lemma_coverage_clean(m, d, n - 1);
        let key = d.sources@[n - 1].key@;
        if let Some(j) = source_position(m, key, m.len() as int) {
            lemma_columns_defined(d, key, m[j].2, m[j].2.len() as int);
        }
    }
}

proof fn lemma_unknown_clean(m: SpecSources, d: GraphDefinition, n: int)
    requires
        0 <= n <= m.len(),
        unknown_source_section(m, d, n).len() == 0,
    ensures
        forall|j: int| 0 <= j < n ==> spec_source(d, (#[trigger] m[j]).0) is Some,
    decreases n,
{
    if n > 0 {
        lemma_unknown_clean(m, d, n - 1);
    }
}

/// A mapping fits a graph only if it maps every source of the graph, maps no source the
/// graph lacks, and every column it maps names a field that the graph defines for that
/// source, with a non-blank column name. (`RelationalMapping::compile` and
/// `MappedQueryGraph::new` return `Ok` exactly when `mapping_issues` is empty.)
pub proof fn law_fitting_mappings_name_defined_fields(m: SpecSources, d: GraphDefinition)
    requires
        mapping_issues(m, d).len() == 0,
    ensures
        forall|j: int| 0 <= j < m.len() ==> exists|si: int| 0 <= si < d.sources@.len() && #[trigger] d.sources@[si].key@ == (
            #[trigger] m[j]).0,
        forall|s: int|
            0 <= s < d.sources@.len() ==> ((#[trigger] source_position(m, d.sources@[s].key@, m.len() as int)) matches Some(j)
                && forall|k: int| 0 <= k < m[j].2.len() ==> graph_has_field(d, d.sources@[s].key@, (#[trigger] m[j].2[k]).0)
                && !spec_is_blank(m[j].2[k].1)),
{
    lemma_unknown_clean(m, d, m.len() as int);
    lemma_coverage_clean(m, d, d.sources@.len() as int);
    assert forall|j: int| 0 <= j < m.len() implies exists|si: int| 0 <= si < d.sources@.len() && #[trigger] d.sources@[si].key@
        == (#[trigger] m[j]).0 by {
        crate::analysis::index::lemma_first_key_range(crate::analysis::index::source_keys(d), m[j].0);
        let si = spec_source(d, m[j].0)->0;
        assert(crate::analysis::index::source_keys(d)[si] == d.sources@[si].key@);
    }
}

/// The location at which a column of source `key` mapping field `field` is reported.
pub open spec fn column_location(key: Seq<char>, field: Seq<char>) -> Seq<char> {
    "sources."@ + key + ".columns."@ + field
}

proof fn lemma_unknown_column_reported(d: GraphDefinition, key: Seq<char>, cols: SpecColumns, n: int, k: int)
    requires
        0 <= k < n <= cols.len(),
        !field_defined(d, key, cols[k].0),
    ensures
        exists|x: int|
            0 <= x < column_issue_section(d, key, cols, n).len() && (#[trigger] column_issue_section(d, key, cols, n)[x]).0
                == MappingIssueCode::UnknownColumnField && column_issue_section(d, key, cols, n)[x].1 == column_location(key, cols[k].0),
    decreases n,
{
    let cur = column_issue_section(d, key, cols, n);
    let prev = column_issue_section(d, key, cols, n - 1);
    if k < n - 1 {
        lemma_unknown_column_reported(d, key, cols, n - 1, k);
        let x = choose|x: int|
            0 <= x < prev.len() && (#[trigger] prev[x]).0 == MappingIssueCode::UnknownColumnField && prev[x].1 == column_location(key, cols[k].0);
        assert(cur[x] == prev[x]);
    } else {
        assert(cur[prev.len() as int].0 == MappingIssueCode::UnknownColumnField);
        assert(cur[prev.len() as int].1 == column_location(key, cols[k].0));
    }
}

proof fn lemma_coverage_reports(m: SpecSources, d: GraphDefinition, n: int, s: int, j: int, k: int)
    requires
        0 <= s < n <= d.sources@.len(),
        source_position(m, d.sources@[s].key@, m.len() as int) == Some(j),
        0 <= k < m[j].2.len(),
        !field_defined(d, d.sources@[s].key@, m[j].2[k].0),
    ensures
        exists|x: int|
            0 <= x < coverage_section(m, d, n).len() && (#[trigger] coverage_section(m, d, n)[x]).0 == MappingIssueCode::UnknownColumnField
                && coverage_section(m, d, n)[x].1 == column_location(d.sources@[s].key@, m[j].2[k].0),
    decreases n,
{
    let cur = coverage_section(m, d, n);
    let prev = coverage_section(m, d, n - 1);
    let key = d.sources@[s].key@;
    if s < n - 1 {
        lemma_coverage_reports(m, d, n - 1, s, j, k);
        let x = choose|x: int|
            0 <= x < prev.len() && (#[trigger] prev[x]).0 == MappingIssueCode::UnknownColumnField && prev[x].1 == column_location(key, m[j].2[k].0);
        assert(cur[x] == prev[x]);
    } else {
        let cols = column_issue_section(d, key, m[j].2, m[j].2.len() as int);
        lemma_unknown_column_reported(d, key, m[j].2, m[j].2.len() as int, k);
        let y = choose|x: int|
            0 <= x < cols.len() && (#[trigger] cols[x]).0 == MappingIssueCode::UnknownColumnField && cols[x].1 == column_location(key, m[j].2[k].0);
        let off = prev.len() + table_issues(m[j].1, key).len();
        assert(cur == prev + (table_issues(m[j].1, key) + cols));
        assert(cur[off + y] == cols[y]);
    }
}

/// A column that maps a field the graph does not define for the source is reported, as
/// `UnknownColumnField` at `sources.<key>.columns.<field>`, so the mapping is refused.
pub proof fn law_unknown_column_fields_are_reported(m: SpecSources, d: GraphDefinition, s: int, k: int)
    requires
        0 <= s < d.sources@.len(),
        source_position(m, d.sources@[s].key@, m.len() as int) matches Some(j) && 0 <= k < m[j].2.len()
            && !graph_has_field(d, d.sources@[s].key@, m[j].2[k].0),
    ensures
        ({
            let j = source_position(m, d.sources@[s].key@, m.len() as int)->0;
            exists|x: int|
                0 <= x < mapping_issues(m, d).len() && (#[trigger] mapping_issues(m, d)[x]).0 == MappingIssueCode::UnknownColumnField
                    && mapping_issues(m, d)[x].1 == column_location(d.sources@[s].key@, m[j].2[k].0)
        }),
{
    let j = source_position(m, d.sources@[s].key@, m.len() as int)->0;
    let key = d.sources@[s].key@;
    if field_defined(d, key, m[j].2[k].0) {
        lemma_defined_field_exists(d, key, m[j].2[k].0);
    }
    lemma_coverage_reports(m, d, d.sources@.len() as int, s, j, k);
    let cov = coverage_section(m, d, d.sources@.len() as int);
    let unk = unknown_source_section(m, d, m.len() as int);
    let x = choose|x: int|
        0 <= x < cov.len() && (#[trigger] cov[x]).0 == MappingIssueCode::UnknownColumnField && cov[x].1 == column_location(key, m[j].2[k].0);
    assert(mapping_issues(m, d)[unk.len() + x] == cov[x]);
}

} // verus!
