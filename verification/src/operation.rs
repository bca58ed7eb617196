//! Query operations: what a caller selects, orders by and binds, checked against a graph.
use vstd::prelude::*;

use crate::analysis::index::{default_ordering_index, ordering_index, parameter_index, spec_default_ordering, spec_ordering, spec_parameter};
use crate::compiled_graph::{spec_projection, CompiledGraph};
use crate::definition::{GraphDefinition, ParameterDefinition, ParameterShape, ScalarType};
use crate::path::{join_dots, join_path, parse_path, path_view, same_path, split_dots};
use crate::scalar::{is_decimal_text, parses_i64, spec_is_decimal_text, spec_parses_i64};
use crate::text::{concat, concat3, debug_quote, debug_text, decimal_text, indexed, str_eq, text, usize_text};

verus! {

/// A parameter value as the checks read it.
#[derive(Debug, PartialEq)]
pub enum ParameterValue {
    Null,
    Boolean(bool),
    /// An integer number within the range of `i64`.
    Integer(i64),
    /// An integer number above `i64::MAX`.
    Unsigned(u64),
    /// A number with a fraction or an exponent; `safe_integer` tells whether it is a
    /// whole number no larger in magnitude than 2^53 - 1.
    Float { safe_integer: bool },
    String(String),
    Array(Vec<ParameterValue>),
    Object,
}

/// Two values that read the same: the same kind, the same scalar, the same text, or lists
/// of the same length whose items read the same.
pub open spec fn same_value(a: ParameterValue, b: ParameterValue) -> bool
    decreases a,
{
    match (a, b) {
        (ParameterValue::Null, ParameterValue::Null) => true,
        (ParameterValue::Boolean(x), ParameterValue::Boolean(y)) => x == y,
        (ParameterValue::Integer(x), ParameterValue::Integer(y)) => x == y,
        (ParameterValue::Unsigned(x), ParameterValue::Unsigned(y)) => x == y,
        (ParameterValue::Float { safe_integer: x }, ParameterValue::Float { safe_integer: y }) => x == y,
        (ParameterValue::String(x), ParameterValue::String(y)) => x@ == y@,
        (ParameterValue::Array(x), ParameterValue::Array(y)) => x@.len() == y@.len() && forall|i: int|
            0 <= i < x@.len() ==> same_value(#[trigger] x@[i], y@[i]),
        (ParameterValue::Object, ParameterValue::Object) => true,
        _ => false,
    }
}

/// Two lists of bound parameters that read the same, entry by entry.
pub open spec fn same_entries(a: Seq<(String, ParameterValue)>, b: Seq<(String, ParameterValue)>) -> bool {
    &&& a.len() == b.len()
    &&& forall|i: int| 0 <= i < a.len() ==> (#[trigger] a[i]).0@ == b[i].0@ && same_value(a[i].1, b[i].1)
}

impl ParameterValue {
    /// A copy of the value.
    pub fn copy(&self) -> (r: ParameterValue)
        ensures
            same_value(r, *self),
        decreases *self,
    {
        match self {
            ParameterValue::Null => ParameterValue::Null,
            ParameterValue::Boolean(b) => ParameterValue::Boolean(*b),
            ParameterValue::Integer(n) => ParameterValue::Integer(*n),
            ParameterValue::Unsigned(n) => ParameterValue::Unsigned(*n),
            ParameterValue::Float { safe_integer } => ParameterValue::Float { safe_integer: *safe_integer },
            ParameterValue::String(s) => ParameterValue::String(text(s.as_str())),
            ParameterValue::Array(items) => {
                let mut copies: Vec<ParameterValue> = Vec::new();
                let mut i: usize = 0;
                proof {
                    assert forall|j: int| 0 <= j < items@.len() implies decreases_to!(*self => #[trigger] items@[j]) by {
                        assert(decreases_to!(*items => items@));
                    }
                }
                while i < items.len()
                    invariant
                        forall|j: int| 0 <= j < items@.len() ==> decreases_to!(*self => #[trigger] items@[j]),
                        i <= items@.len(),
                        copies@.len() == i,
                        forall|j: int| 0 <= j < i ==> same_value(#[trigger] copies@[j], items@[j]),
                    decreases items.len() - i,
                {
                    assert(decreases_to!(*self => items@[i as int]));
                    copies.push(items[i].copy());
                    i = i + 1;
                }
                ParameterValue::Array(copies)
            },
            ParameterValue::Object => ParameterValue::Object,
        }
    }
}

/// A copy of a list of bound parameters.
pub fn copy_entries(entries: &Vec<(String, ParameterValue)>) -> (r: Vec<(String, ParameterValue)>)
    ensures
        same_entries(r@, entries@),
{
    let mut r: Vec<(String, ParameterValue)> = Vec::new();
    let mut i: usize = 0;
    while i < entries.len()
        invariant
            i <= entries@.len(),
            r@.len() == i,
            forall|j: int| 0 <= j < i ==> (#[trigger] r@[j]).0@ == entries@[j].0@ && same_value(r@[j].1, entries@[j].1),
        decreases entries.len() - i,
    {
        r.push((text(entries[i].0.as_str()), entries[i].1.copy()));
        i = i + 1;
    }
    r
}

/// Whether a value is acceptable for a scalar parameter of the given type.
pub open spec fn spec_is_valid_scalar(v: ParameterValue, t: ScalarType) -> bool {
    match t {
        ScalarType::Boolean => v is Boolean,
        ScalarType::Int32 => v matches ParameterValue::Integer(n) && -0x8000_0000 <= n
            <= 0x7fff_ffff,
        ScalarType::Int64 => {
            ||| v is Integer
            ||| (v matches ParameterValue::Float { safe_integer } && safe_integer)
            ||| (v matches ParameterValue::String(s) && spec_parses_i64(s@))
        },
        ScalarType::Float64 => v is Integer || v is Unsigned || v is Float,
        ScalarType::Decimal => {
            ||| v is Integer
            ||| v is Unsigned
            ||| v is Float
            ||| (v matches ParameterValue::String(s) && spec_is_decimal_text(s@))
        },
        ScalarType::String => v is String,
        ScalarType::Date => v is String,
        ScalarType::DateTime => v is String,
        ScalarType::Binary => v is String,
        ScalarType::Json => true,
    }
}

pub fn is_valid_scalar(v: &ParameterValue, t: ScalarType) -> (r: bool)
    ensures
        r == spec_is_valid_scalar(*v, t),
{
    match t {
        ScalarType::Boolean => matches!(v, ParameterValue::Boolean(_)),
        ScalarType::Int32 => match v {
            ParameterValue::Integer(n) => -0x8000_0000 <= *n && *n <= 0x7fff_ffff,
            _ => false,
        },
        ScalarType::Int64 => match v {
            ParameterValue::Integer(_) => true,
            ParameterValue::Float { safe_integer } => *safe_integer,
            ParameterValue::String(s) => parses_i64(s.as_str()),
            _ => false,
        },
        ScalarType::Float64 => matches!(
            v,
            ParameterValue::Integer(_) | ParameterValue::Unsigned(_) | ParameterValue::Float { .. }
        ),
        ScalarType::Decimal => match v {
            ParameterValue::Integer(_) | ParameterValue::Unsigned(_) | ParameterValue::Float {
                ..
            } => true,
            ParameterValue::String(s) => is_decimal_text(s.as_str()),
            _ => false,
        },
        ScalarType::String | ScalarType::Date | ScalarType::DateTime | ScalarType::Binary => matches!(
            v,
            ParameterValue::String(_)
        ),
        ScalarType::Json => true,
    }
}

/// The `Debug` text of a scalar type: its variant name.
pub open spec fn scalar_debug_name(t: ScalarType) -> Seq<char> {
    match t {
        ScalarType::Boolean => "Boolean"@,
        ScalarType::Int32 => "Int32"@,
        ScalarType::Int64 => "Int64"@,
        ScalarType::Float64 => "Float64"@,
        ScalarType::Decimal => "Decimal"@,
        ScalarType::String => "String"@,
        ScalarType::Date => "Date"@,
        ScalarType::DateTime => "DateTime"@,
        ScalarType::Binary => "Binary"@,
        ScalarType::Json => "Json"@,
    }
}

fn scalar_debug(t: ScalarType) -> (r: &'static str)
    ensures
        r@ == scalar_debug_name(t),
{
    match t {
        ScalarType::Boolean => "Boolean",
        ScalarType::Int32 => "Int32",
        ScalarType::Int64 => "Int64",
        ScalarType::Float64 => "Float64",
        ScalarType::Decimal => "Decimal",
        ScalarType::String => "String",
        ScalarType::Date => "Date",
        ScalarType::DateTime => "DateTime",
        ScalarType::Binary => "Binary",
        ScalarType::Json => "Json",
    }
}

#[derive(Debug, Clone, Copy, PartialEq, Eq, Structural)]
pub enum OperationIssueCode {
    EmptySelection,
    UnknownSelection,
    DuplicateSelection,
    UnknownOrdering,
    MissingParameter,
    UnknownParameter,
    InvalidParameterType,
    InvalidPagination,
}

#[derive(Debug, Clone, PartialEq, Eq)]
pub struct OperationIssue {
    pub code: OperationIssueCode,
    pub location: String,
    pub message: String,
}

/// An operation issue as the rules describe it: its code, location and message.
pub type SpecOperationIssue = (OperationIssueCode, Seq<char>, Seq<char>);

pub open spec fn operation_issue_view(i: OperationIssue) -> SpecOperationIssue {
    (i.code, i.location@, i.message@)
}

pub open spec fn operation_issues_view(v: Seq<OperationIssue>) -> Seq<SpecOperationIssue> {
    v.map_values(|i: OperationIssue| operation_issue_view(i))
}

pub open spec fn issue(code: OperationIssueCode, location: Seq<char>, message: Seq<char>) -> Seq<SpecOperationIssue> {
    seq![(code, location, message)]
}

fn push_operation_issue(issues: &mut Vec<OperationIssue>, code: OperationIssueCode, location: String, message: String)
    ensures
        operation_issues_view(final(issues)@) == operation_issues_view(old(issues)@).push((code, location@, message@)),
{
    let ghost before = issues@;
    issues.push(OperationIssue { code, location, message });
    assert(operation_issues_view(issues@) =~= operation_issues_view(before).push((code, location@, message@)));
}

pub open spec fn operation_issue_code_name(c: OperationIssueCode) -> Seq<char> {
    match c {
        OperationIssueCode::EmptySelection => "EmptySelection"@,
        OperationIssueCode::UnknownSelection => "UnknownSelection"@,
        OperationIssueCode::DuplicateSelection => "DuplicateSelection"@,
        OperationIssueCode::UnknownOrdering => "UnknownOrdering"@,
        OperationIssueCode::MissingParameter => "MissingParameter"@,
        OperationIssueCode::UnknownParameter => "UnknownParameter"@,
        OperationIssueCode::InvalidParameterType => "InvalidParameterType"@,
        OperationIssueCode::InvalidPagination => "InvalidPagination"@,
    }
}

impl OperationIssueCode {
    /// The code's name.
    pub fn name(self) -> (r: &'static str)
        ensures
            r@ == operation_issue_code_name(self),
    {
        match self {
            OperationIssueCode::EmptySelection => "EmptySelection",
            OperationIssueCode::UnknownSelection => "UnknownSelection",
            OperationIssueCode::DuplicateSelection => "DuplicateSelection",
            OperationIssueCode::UnknownOrdering => "UnknownOrdering",
            OperationIssueCode::MissingParameter => "MissingParameter",
            OperationIssueCode::UnknownParameter => "UnknownParameter",
            OperationIssueCode::InvalidParameterType => "InvalidParameterType",
            OperationIssueCode::InvalidPagination => "InvalidPagination",
        }
    }
}

/// The lines of the first `n` issues: code, location and message of each.
pub open spec fn issue_lines(v: Seq<SpecOperationIssue>, n: int) -> Seq<char>
    decreases n,
{
    if n <= 0 {
        seq![]
    } else {
        issue_lines(v, n - 1) + "\n- "@ + operation_issue_code_name(v[n - 1].0) + " at "@ + v[n - 1].1 + ": "@
            + v[n - 1].2
    }
}

/// The text that reports a list of operation issues.
pub open spec fn operation_issues_text(v: Seq<SpecOperationIssue>) -> Seq<char> {
    "query operation contains "@ + decimal_text(v.len()) + " issue(s)"@ + issue_lines(v, v.len() as int)
}

/// The issues of an operation that does not fit its graph.
#[derive(Debug, Clone, PartialEq, Eq)]
pub struct OperationIssues(pub Vec<OperationIssue>);

impl OperationIssues {
    pub fn from_vec(issues: Vec<OperationIssue>) -> (r: Self)
        ensures
            r.0 == issues,
    {
        OperationIssues(issues)
    }

    pub fn as_slice(&self) -> (r: &[OperationIssue])
        ensures
            r@ == self.0@,
    {
        self.0.as_slice()
    }

    pub fn into_vec(self) -> (r: Vec<OperationIssue>)
        ensures
            r == self.0,
    {
        self.0
    }
    /// The issues as text: their number, then one line for each.
    pub fn message(&self) -> (r: String)
        ensures
            r@ == operation_issues_text(operation_issues_view(self.0@)),
    {
        let ghost v = operation_issues_view(self.0@);
        let mut r = concat3("query operation contains ", usize_text(self.0.len()).as_str(), " issue(s)");
        let ghost head = r@;
        let mut i: usize = 0;
        while i < self.0.len()
            invariant
                v == operation_issues_view(self.0@),
                i <= self.0@.len(),
                r@ == head + issue_lines(v, i as int),
            decreases self.0.len() - i,
        {
            let issue = &self.0[i];
            r.append("\n- ");
            r.append(issue.code.name());
            r.append(" at ");
            r.append(issue.location.as_str());
            r.append(": ");
            r.append(issue.message.as_str());
            assert(r@ =~= head + issue_lines(v, i + 1));
            i = i + 1;
        }
        r
    }
}

/// What a caller asks of a graph: the projection paths to select, the ordering, the
/// parameter values by name, and the page.
#[derive(Debug, PartialEq)]
pub struct QueryOperation {
    pub select: Option<Vec<String>>,
    pub ordering: Option<String>,
    /// Parameter name and value pairs. A name is meant to occur once; where it occurs
    /// more than once, the first pair is the one read (see `bound_position`), while
    /// each pair is still checked for being a parameter of the graph.
    pub parameters: Vec<(String, ParameterValue)>,
    pub offset: Option<u64>,
    pub limit: Option<u64>,
}

impl Default for QueryOperation {
    fn default() -> (r: Self)
        ensures
            r.select is None,
            r.ordering is None,
            r.parameters@.len() == 0,
            r.offset is None,
            r.limit is None,
    {
        QueryOperation { select: None, ordering: None, parameters: Vec::new(), offset: None, limit: None }
    }
}

/// The position of the first value bound to `name`.
pub open spec fn bound_position(entries: Seq<(String, ParameterValue)>, name: Seq<char>, n: int) -> Option<int>
    decreases n,
{
    if n <= 0 {
        None
    } else {
        match bound_position(entries, name, n - 1) {
            Some(i) => Some(i),
            None => if entries[n - 1].0@ == name {
                Some(n - 1)
            } else {
                None
            },
        }
    }
}

pub open spec fn bound(op: QueryOperation, name: Seq<char>) -> Option<int> {
    bound_position(op.parameters@, name, op.parameters@.len() as int)
}

/// The paths selected by default: those of the default fields, joined with `.`.
pub open spec fn default_selection(d: GraphDefinition, n: int) -> Seq<Seq<char>>
    decreases n,
{
    if n <= 0 {
        seq![]
    } else {
        default_selection(d, n - 1) + if d.projection.fields@[n - 1].selected_by_default {
            seq![join_dots(path_view(d.projection.fields@[n - 1].path@))]
        } else {
            seq![]
        }
    }
}

pub open spec fn selection(op: QueryOperation, d: GraphDefinition) -> Seq<Seq<char>> {
    match op.select {
        Some(v) => Seq::new(v@.len(), |i: int| v@[i]@),
        None => default_selection(d, d.projection.fields@.len() as int),
    }
}

pub open spec fn selected_twice(sel: Seq<Seq<char>>, k: int) -> bool {
    exists|j: int| 0 <= j < k && split_dots(#[trigger] sel[j]) == split_dots(sel[k])
}

pub open spec fn select_section(d: GraphDefinition, sel: Seq<Seq<char>>, n: int) -> Seq<SpecOperationIssue>
    decreases n,
{
    if n <= 0 {
        seq![]
    } else {
        let k = n - 1;
        select_section(d, sel, k) + if selected_twice(sel, k) {
            issue(
                OperationIssueCode::DuplicateSelection,
                crate::validation::at("select"@, k),
                "projection field "@ + debug_text(sel[k]) + " is selected more than once"@,
            )
        } else if spec_projection(d, split_dots(sel[k])) is None {
            issue(
                OperationIssueCode::UnknownSelection,
                crate::validation::at("select"@, k),
                "projection field "@ + debug_text(sel[k]) + " is not defined"@,
            )
        } else {
            seq![]
        }
    }
}

/// The projection fields selected, in selection order, each once.
pub open spec fn selected_indices(d: GraphDefinition, sel: Seq<Seq<char>>, n: int) -> Seq<usize>
    decreases n,
{
    if n <= 0 {
        seq![]
    } else {
        let k = n - 1;
        selected_indices(d, sel, k) + if !selected_twice(sel, k) && spec_projection(
            d,
            split_dots(sel[k]),
        ) is Some {
            seq![spec_projection(d, split_dots(sel[k]))->0 as usize]
        } else {
            seq![]
        }
    }
}

pub open spec fn ordering_choice(op: QueryOperation, d: GraphDefinition) -> Option<int> {
    match op.ordering {
        Some(name) => spec_ordering(d, name@),
        None => spec_default_ordering(d),
    }
}

pub open spec fn ordering_issues(op: QueryOperation, d: GraphDefinition) -> Seq<SpecOperationIssue> {
    match op.ordering {
        Some(name) => if spec_ordering(d, name@) is None {
            issue(
                OperationIssueCode::UnknownOrdering,
                "ordering"@,
                "ordering "@ + debug_text(name@) + " is not defined by the graph"@,
            )
        } else {
            seq![]
        },
        None => seq![],
    }
}

pub open spec fn unknown_parameter_section(op: QueryOperation, d: GraphDefinition, n: int) -> Seq<SpecOperationIssue>
    decreases n,
{
    if n <= 0 {
        seq![]
    } else {
        let name = op.parameters@[n - 1].0@;
        unknown_parameter_section(op, d, n - 1) + if spec_parameter(d, name) is None {
            issue(
                OperationIssueCode::UnknownParameter,
                "parameters."@ + name,
                "parameter "@ + debug_text(name) + " is not defined by the graph"@,
            )
        } else {
            seq![]
        }
    }
}

pub open spec fn item_section(items: Seq<ParameterValue>, t: ScalarType, loc: Seq<char>, n: int) -> Seq<SpecOperationIssue>
    decreases n,
{
    if n <= 0 {
        seq![]
    } else {
        item_section(items, t, loc, n - 1) + if !spec_is_valid_scalar(items[n - 1], t) {
            issue(
                OperationIssueCode::InvalidParameterType,
                crate::validation::at(loc, n - 1),
                "expected "@ + scalar_debug_name(t),
            )
        } else {
            seq![]
        }
    }
}

pub open spec fn value_issues(p: ParameterDefinition, v: ParameterValue) -> Seq<SpecOperationIssue> {
    let loc = "parameters."@ + p.name@;
    match p.shape {
        ParameterShape::Scalar => if !spec_is_valid_scalar(v, p.scalar_type) {
            issue(
                OperationIssueCode::InvalidParameterType,
                loc,
                "expected "@ + scalar_debug_name(p.scalar_type),
            )
        } else {
            seq![]
        },
        ParameterShape::List => match v {
            ParameterValue::Array(items) => item_section(items@, p.scalar_type, loc, items@.len() as int),
            _ => issue(
                OperationIssueCode::InvalidParameterType,
                loc,
                "expected list of "@ + scalar_debug_name(p.scalar_type),
            ),
        },
    }
}

pub open spec fn binding_section(op: QueryOperation, d: GraphDefinition, n: int) -> Seq<SpecOperationIssue>
    decreases n,
{
    if n <= 0 {
        seq![]
    } else {
        let p = d.parameters@[n - 1];
        binding_section(op, d, n - 1) + match bound(op, p.name@) {
            Some(k) => value_issues(p, op.parameters@[k].1),
            None => if p.required {
                issue(
                    OperationIssueCode::MissingParameter,
                    "parameters."@ + p.name@,
                    "required parameter "@ + debug_text(p.name@) + " is missing"@,
                )
            } else {
                seq![]
            },
        }
    }
}

/// The issues of an operation against a definition, in the order they are reported.
pub open spec fn operation_issues(op: QueryOperation, d: GraphDefinition) -> Seq<SpecOperationIssue> {
    let sel = selection(op, d);
    (if sel.len() == 0 {
        issue(
            OperationIssueCode::EmptySelection,
            "select"@,
            "query operation must select at least one field"@,
        )
    } else {
        seq![]
    }) + select_section(d, sel, sel.len() as int) + ordering_issues(op, d)
        + unknown_parameter_section(op, d, op.parameters@.len() as int) + binding_section(
        op,
        d,
        d.parameters@.len() as int,
    ) + if op.limit == Some(0u64) {
        issue(OperationIssueCode::InvalidPagination, "limit"@, "limit must be greater than zero"@)
    } else {
        seq![]
    }
}

/// An operation that fits its graph: the selected projection fields and the ordering.
#[derive(Debug)]
pub struct ValidatedQueryOperation {
    pub projection_indices: Vec<usize>,
    pub ordering_index: Option<usize>,
}


pub open spec fn texts(v: Seq<String>) -> Seq<Seq<char>> {
    Seq::new(v.len(), |i: int| v[i]@)
}

fn selected_fields(op: &QueryOperation, d: &GraphDefinition) -> (r: Vec<String>)
    ensures
        texts(r@) == selection(*op, *d),
{
    match &op.select {
        Some(fields) => {
            let mut r: Vec<String> = Vec::new();
            let mut i: usize = 0;
            while i < fields.len()
                invariant
                    i <= fields@.len(),
                    r@.len() == i,
                    forall|j: int| 0 <= j < i ==> (#[trigger] r@[j])@ == fields@[j]@,
                decreases fields.len() - i,
            {
                r.push(text(fields[i].as_str()));
                i = i + 1;
            }
            assert(texts(r@) =~= texts(fields@));
            r
        },
        None => {
            let fields = &d.projection.fields;
            let mut r: Vec<String> = Vec::new();
            let mut i: usize = 0;
            while i < fields.len()
                invariant
                    *fields == d.projection.fields,
                    i <= fields@.len(),
                    texts(r@) == default_selection(*d, i as int),
                decreases fields.len() - i,
            {
                if fields[i].selected_by_default {
                    r.push(join_path(&fields[i].path));
                }
                assert(texts(r@) =~= default_selection(*d, (i + 1) as int));
                i = i + 1;
            }
            r
        },
    }
}

fn check_selection(g: &CompiledGraph, sel: &Vec<String>, issues: &mut Vec<OperationIssue>) -> (r: Vec<usize>)
    ensures
        r@ == selected_indices(g.graph(), texts(sel@), sel@.len() as int),
        operation_issues_view(final(issues)@) == operation_issues_view(old(issues)@) + select_section(
            g.graph(),
            texts(sel@),
            sel@.len() as int,
        ),
{
    let ghost start = operation_issues_view(issues@);
    let ghost names = texts(sel@);
    let mut seen: Vec<Vec<String>> = Vec::new();
    let mut indices: Vec<usize> = Vec::new();
    let mut k: usize = 0;
    while k < sel.len()
        invariant
            names == texts(sel@),
            k <= sel@.len(),
            seen@.len() == k,
            forall|j: int| 0 <= j < k ==> path_view((#[trigger] seen@[j])@) == split_dots(names[j]),
            indices@ == selected_indices(g.graph(), names, k as int),
            operation_issues_view(issues@) == start + select_section(g.graph(), names, k as int),
        decreases sel.len() - k,
    {
        let path = parse_path(sel[k].as_str());
        assert(names[k as int] == sel@[k as int]@);
        let mut duplicate = false;
        let mut j: usize = 0;
        while j < k
            invariant
                names == texts(sel@),
                k < sel@.len(),
                seen@.len() == k,
                forall|x: int| 0 <= x < k ==> path_view((#[trigger] seen@[x])@) == split_dots(names[x]),
                path_view(path@) == split_dots(names[k as int]),
                j <= k,
                duplicate == exists|x: int| 0 <= x < j && split_dots(#[trigger] names[x]) == split_dots(names[k as int]),
            decreases k - j,
        {
            if same_path(&seen[j], &path) {
                duplicate = true;
            }
            assert(duplicate == exists|x: int| 0 <= x < j + 1 && split_dots(#[trigger] names[x]) == split_dots(names[k as int])) by {
                assert(path_view(seen@[j as int]@) == split_dots(names[j as int]));
            }
            j = j + 1;
        }
        let loc = indexed("select", k);
        if duplicate {
            let mut m = text("projection field ");
            m.append(debug_quote(sel[k].as_str()).as_str());
            m.append(" is selected more than once");
            push_operation_issue(issues, OperationIssueCode::DuplicateSelection, loc, m);
        } else {
            match g.projection_index(&path) {
                Some(i) => {
                    indices.push(i);
                },
                None => {
                    let mut m = text("projection field ");
                    m.append(debug_quote(sel[k].as_str()).as_str());
                    m.append(" is not defined");
                    push_operation_issue(issues, OperationIssueCode::UnknownSelection, loc, m);
                },
            }
        }
        seen.push(path);
        assert(indices@ =~= selected_indices(g.graph(), names, (k + 1) as int));
        assert(operation_issues_view(issues@) =~= start + select_section(g.graph(), names, (k + 1) as int));
        k = k + 1;
    }
    indices
}

/// The position of the first entry bound to `name`.
pub fn entry_position(entries: &Vec<(String, ParameterValue)>, name: &str) -> (r: Option<usize>)
    ensures
        r matches Some(k) ==> bound_position(entries@, name@, entries@.len() as int) == Some(k as int)
            && k < entries@.len(),
        r is None ==> bound_position(entries@, name@, entries@.len() as int) is None,
{
    let mut k: usize = 0;
    while k < entries.len()
        invariant
            k <= entries@.len(),
            bound_position(entries@, name@, k as int) is None,
        decreases entries.len() - k,
    {
        if str_eq(entries[k].0.as_str(), name) {
            proof {
                lemma_bound_position_stays(entries@, name@, k + 1, entries@.len() as int);
            }
            return Some(k);
        }
        k = k + 1;
    }
    None
}

pub(crate) proof fn lemma_bound_position_stays(entries: Seq<(String, ParameterValue)>, name: Seq<char>, k: int, n: int)
    requires
        k <= n,
        bound_position(entries, name, k) is Some,
    ensures
        bound_position(entries, name, n) == bound_position(entries, name, k),
    decreases n - k,
{
    if k < n {
        lemma_bound_position_stays(entries, name, k, n - 1);
    }
}

pub fn bound_index(op: &QueryOperation, name: &str) -> (r: Option<usize>)
    ensures
        r matches Some(k) ==> bound(*op, name@) == Some(k as int) && k < op.parameters@.len(),
        r is None ==> bound(*op, name@) is None,
{
    let mut k: usize = 0;
    while k < op.parameters.len()
        invariant
            k <= op.parameters@.len(),
            bound_position(op.parameters@, name@, k as int) is None,
        decreases op.parameters.len() - k,
    {
        if str_eq(op.parameters[k].0.as_str(), name) {
            proof {
                lemma_bound_extends(op.parameters@, name@, k + 1, op.parameters@.len() as int);
            }
            return Some(k);
        }
        k = k + 1;
    }
    None
}

proof fn lemma_bound_extends(entries: Seq<(String, ParameterValue)>, name: Seq<char>, k: int, n: int)
    requires
        0 <= k <= n,
        bound_position(entries, name, k) is Some,
    ensures
        bound_position(entries, name, n) == bound_position(entries, name, k),
    decreases n - k,
{
    if k < n {
        lemma_bound_extends(entries, name, k, n - 1);
    }
}

fn check_value(p: &ParameterDefinition, v: &ParameterValue, issues: &mut Vec<OperationIssue>)
    ensures
        operation_issues_view(final(issues)@) == operation_issues_view(old(issues)@) + value_issues(*p, *v),
{
    let ghost start = operation_issues_view(issues@);
    let loc = concat("parameters.", p.name.as_str());
    match p.shape {
        ParameterShape::Scalar => {
            if !is_valid_scalar(v, p.scalar_type) {
                push_operation_issue(issues, OperationIssueCode::InvalidParameterType, loc, concat("expected ", scalar_debug(p.scalar_type)));
            }
        },
        ParameterShape::List => {
            match v {
                ParameterValue::Array(items) => {
                    let mut i: usize = 0;
                    while i < items.len()
                        invariant
                            i <= items@.len(),
                            loc@ == "parameters."@ + p.name@,
                            operation_issues_view(issues@) == start + item_section(items@, p.scalar_type, loc@, i as int),
                        decreases items.len() - i,
                    {
                        if !is_valid_scalar(&items[i], p.scalar_type) {
                            push_operation_issue(
                                issues,
                                OperationIssueCode::InvalidParameterType,
                                indexed(loc.as_str(), i),
                                concat("expected ", scalar_debug(p.scalar_type)),
                            );
                        }
                        assert(operation_issues_view(issues@) =~= start + item_section(items@, p.scalar_type, loc@, (i + 1) as int));
                        i = i + 1;
                    }
                },
                _ => {
                    push_operation_issue(issues, OperationIssueCode::InvalidParameterType, loc, concat("expected list of ", scalar_debug(p.scalar_type)));
                },
            }
        },
    }
    assert(operation_issues_view(issues@) =~= start + value_issues(*p, *v));
}

impl QueryOperation {
    /// Checks the operation against a graph: `Ok` exactly when it has no issue, with the
    /// selected projection fields and the ordering to apply.
    pub fn validate(&self, graph: &CompiledGraph) -> (r: Result<ValidatedQueryOperation, OperationIssues>)
        ensures
            r is Ok <==> operation_issues(*self, graph.graph()).len() == 0,
            r matches Ok(v) ==> v.projection_indices@ == selected_indices(
                graph.graph(),
                selection(*self, graph.graph()),
                selection(*self, graph.graph()).len() as int,
            ) && match ordering_choice(*self, graph.graph()) {
                Some(i) => v.ordering_index == Some(i as usize),
                None => v.ordering_index is None,
            },
            r matches Err(e) ==> operation_issues_view(e.0@) == operation_issues(*self, graph.graph()),
    {
        let d = graph.definition();
        let mut issues: Vec<OperationIssue> = Vec::new();
        assert(operation_issues_view(issues@) =~= seq![]);
        let sel = selected_fields(self, d);
        if sel.len() == 0 {
            push_operation_issue(&mut issues, OperationIssueCode::EmptySelection, text("select"), text("query operation must select at least one field"));
        }
        let projection_indices = check_selection(graph, &sel, &mut issues);
        let ordering_index = match &self.ordering {
            Some(name) => match ordering_index(d, name.as_str()) {
                Some(i) => Some(i),
                None => {
                    push_operation_issue(&mut issues, OperationIssueCode::UnknownOrdering, text("ordering"), concat3("ordering ", debug_quote(name.as_str()).as_str(), " is not defined by the graph"));
                    None
                },
            },
            None => default_ordering_index(d),
        };
        let ghost before_unknown = operation_issues_view(issues@);
        let mut k: usize = 0;
        while k < self.parameters.len()
            invariant
                k <= self.parameters@.len(),
                operation_issues_view(issues@) == before_unknown + unknown_parameter_section(*self, *d, k as int),
            decreases self.parameters.len() - k,
        {
            let name = &self.parameters[k].0;
            if parameter_index(d, name.as_str()).is_none() {
                push_operation_issue(
                    &mut issues,
                    OperationIssueCode::UnknownParameter,
                    concat("parameters.", name.as_str()),
                    concat3("parameter ", debug_quote(name.as_str()).as_str(), " is not defined by the graph"),
                );
            }
            assert(operation_issues_view(issues@) =~= before_unknown + unknown_parameter_section(*self, *d, (k + 1) as int));
            k = k + 1;
        }
        let ghost before_bindings = operation_issues_view(issues@);
        let mut i: usize = 0;
        while i < d.parameters.len()
            invariant
                i <= d.parameters@.len(),
                operation_issues_view(issues@) == before_bindings + binding_section(*self, *d, i as int),
            decreases d.parameters.len() - i,
        {
            let p = &d.parameters[i];
            match bound_index(self, p.name.as_str()) {
                Some(k) => check_value(p, &self.parameters[k].1, &mut issues),
                None => {
                    if p.required {
                        push_operation_issue(
                            &mut issues,
                            OperationIssueCode::MissingParameter,
                            concat("parameters.", p.name.as_str()),
                            concat3("required parameter ", debug_quote(p.name.as_str()).as_str(), " is missing"),
                        );
                    }
                },
            }
            assert(operation_issues_view(issues@) =~= before_bindings + binding_section(*self, *d, (i + 1) as int));
            i = i + 1;
        }
        if self.limit == Some(0u64) {
            push_operation_issue(&mut issues, OperationIssueCode::InvalidPagination, text("limit"), text("limit must be greater than zero"));
        }
        assert(operation_issues_view(issues@) =~= operation_issues(*self, *d));
        if issues.len() == 0 {
            Ok(ValidatedQueryOperation { projection_indices, ordering_index })
        } else {
            Err(OperationIssues(issues))
        }
    }
}

/// What an operation must be to pass the checks of a graph: it selects something; every
/// selected path is selected once and names a projection field; a named ordering exists;
/// every bound name is a parameter of the graph; every parameter is bound to a value that
/// fits it, or else is optional; and the limit is not zero.
pub open spec fn operation_fits(op: QueryOperation, d: GraphDefinition) -> bool {
    let sel = selection(op, d);
    &&& sel.len() > 0
    &&& forall|k: int| 0 <= k < sel.len() ==> !selected_twice(sel, k) && spec_projection(d, split_dots(#[trigger] sel[k])) is Some
    &&& (op.ordering matches Some(name) ==> spec_ordering(d, name@) is Some)
    &&& forall|k: int| 0 <= k < op.parameters@.len() ==> spec_parameter(d, (#[trigger] op.parameters@[k]).0@) is Some
    &&& forall|i: int|
        0 <= i < d.parameters@.len() ==> match bound(op, (#[trigger] d.parameters@[i]).name@) {
            Some(k) => value_issues(d.parameters@[i], op.parameters@[k].1).len() == 0,
            None => !d.parameters@[i].required,
        }
    &&& op.limit != Some(0u64)
}

proof fn lemma_select_section_empty(d: GraphDefinition, sel: Seq<Seq<char>>, n: int)
    requires
        0 <= n <= sel.len(),
    ensures
        (select_section(d, sel, n).len() == 0) <==> forall|k: int|
            0 <= k < n ==> !selected_twice(sel, k) && spec_projection(d, split_dots(#[trigger] sel[k])) is Some,
    decreases n,
{
    if n > 0 {
        lemma_select_section_empty(d, sel, n - 1);
    }
}

proof fn lemma_unknown_section_empty(op: QueryOperation, d: GraphDefinition, n: int)
    requires
        0 <= n <= op.parameters@.len(),
    ensures
        (unknown_parameter_section(op, d, n).len() == 0) <==> forall|k: int|
            0 <= k < n ==> spec_parameter(d, (#[trigger] op.parameters@[k]).0@) is Some,
    decreases n,
{
    if n > 0 {
        lemma_unknown_section_empty(op, d, n - 1);
    }
}

proof fn lemma_binding_section_empty(op: QueryOperation, d: GraphDefinition, n: int)
    requires
        0 <= n <= d.parameters@.len(),
    ensures
        (binding_section(op, d, n).len() == 0) <==> forall|i: int|
            0 <= i < n ==> match bound(op, (#[trigger] d.parameters@[i]).name@) {
                Some(k) => value_issues(d.parameters@[i], op.parameters@[k].1).len() == 0,
                None => !d.parameters@[i].required,
            },
    decreases n,
{
    if n > 0 {
        lemma_binding_section_empty(op, d, n - 1);
    }
}

/// An operation passes the checks of a graph exactly when it fits the graph as
/// `operation_fits` describes; `QueryOperation::validate` returns `Ok` exactly then.
pub proof fn law_operations_pass_exactly_when_they_fit(op: QueryOperation, d: GraphDefinition)
    ensures
        (operation_issues(op, d).len() == 0) <==> operation_fits(op, d),
{
    let sel = selection(op, d);
    lemma_select_section_empty(d, sel, sel.len() as int);
    lemma_unknown_section_empty(op, d, op.parameters@.len() as int);
    lemma_binding_section_empty(op, d, d.parameters@.len() as int);
}

proof fn lemma_bound_position_first(entries: Seq<(String, ParameterValue)>, name: Seq<char>, n: int)
    requires
        0 <= n <= entries.len(),
    ensures
        match bound_position(entries, name, n) {
            Some(k) => 0 <= k < n && entries[k].0@ == name && forall|j: int| 0 <= j < k ==> (#[trigger] entries[j]).0@ != name,
            None => forall|j: int| 0 <= j < n ==> (#[trigger] entries[j]).0@ != name,
        },
    decreases n,
{
    if n > 0 {
        lemma_bound_position_first(entries, name, n - 1);
    }
}

/// An operation binds a name exactly when one of its parameter entries carries that
/// name, and the value read is that of the first such entry.
pub proof fn law_bound_reads_the_first_entry(op: QueryOperation, name: Seq<char>)
    ensures
        match bound(op, name) {
            Some(k) => 0 <= k < op.parameters@.len() && op.parameters@[k].0@ == name && forall|j: int|
                0 <= j < k ==> (#[trigger] op.parameters@[j]).0@ != name,
            None => forall|j: int| 0 <= j < op.parameters@.len() ==> (#[trigger] op.parameters@[j]).0@ != name,
        },
{
    lemma_bound_position_first(op.parameters@, name, op.parameters@.len() as int);
}

} // verus!
