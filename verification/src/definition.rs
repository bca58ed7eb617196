//! The graph definition model: sources, parameters, relations, constraints,
//! projection and orderings.
use vstd::prelude::*;

use crate::expression::Expression;
use crate::text::text;

verus! {

/// The definition schema version that this library accepts.
pub const GRAPH_DEFINITION_VERSION: u32 = 8;

#[derive(Debug, Clone, Copy, PartialEq, Eq, Structural)]
pub enum ScalarType {
    Boolean,
    Int32,
    Int64,
    Float64,
    Decimal,
    String,
    Date,
    DateTime,
    Binary,
    Json,
}

pub open spec fn scalar_type_name(t: ScalarType) -> Seq<char> {
    match t {
        ScalarType::Boolean => "boolean"@,
        ScalarType::Int32 => "int32"@,
        ScalarType::Int64 => "int64"@,
        ScalarType::Float64 => "float64"@,
        ScalarType::Decimal => "decimal"@,
        ScalarType::String => "string"@,
        ScalarType::Date => "date"@,
        ScalarType::DateTime => "dateTime"@,
        ScalarType::Binary => "binary"@,
        ScalarType::Json => "json"@,
    }
}

impl ScalarType {
    pub fn as_str(self) -> (r: &'static str)
        ensures
            r@ == scalar_type_name(self),
    {
        match self {
            ScalarType::Boolean => "boolean",
            ScalarType::Int32 => "int32",
            ScalarType::Int64 => "int64",
            ScalarType::Float64 => "float64",
            ScalarType::Decimal => "decimal",
            ScalarType::String => "string",
            ScalarType::Date => "date",
            ScalarType::DateTime => "dateTime",
            ScalarType::Binary => "binary",
            ScalarType::Json => "json",
        }
    }
}

#[derive(Debug, Clone, Copy, PartialEq, Eq, Structural)]
pub enum ParameterShape {
    Scalar,
    List,
}

pub open spec fn parameter_shape_name(s: ParameterShape) -> Seq<char> {
    match s {
        ParameterShape::Scalar => "scalar"@,
        ParameterShape::List => "list"@,
    }
}

impl ParameterShape {
    pub fn as_str(self) -> (r: &'static str)
        ensures
            r@ == parameter_shape_name(self),
    {
        match self {
            ParameterShape::Scalar => "scalar",
            ParameterShape::List => "list",
        }
    }
}

#[derive(Debug, Clone, Copy, PartialEq, Eq, Structural)]
pub enum RelationCardinality {
    One,
    Many,
}

pub open spec fn cardinality_name(c: RelationCardinality) -> Seq<char> {
    match c {
        RelationCardinality::One => "one"@,
        RelationCardinality::Many => "many"@,
    }
}

impl RelationCardinality {
    /// The cardinality's name: `one` or `many`.
    pub fn as_str(self) -> (r: &'static str)
        ensures
            r@ == cardinality_name(self),
    {
        match self {
            RelationCardinality::One => "one",
            RelationCardinality::Many => "many",
        }
    }
}

#[derive(Debug, Clone, Copy, PartialEq, Eq, Structural)]
pub enum OrderDirection {
    Asc,
    Desc,
}

#[derive(Debug, Clone, Copy, PartialEq, Eq, Structural)]
pub enum NullsOrder {
    First,
    Last,
}

#[derive(Debug, Clone, Copy, PartialEq, Eq, Structural)]
pub enum ProjectionFieldRole {
    Value,
    Dimension,
    Measure,
}

#[derive(Debug, Clone, PartialEq, Eq)]
pub struct FieldDefinition {
    pub name: String,
    pub scalar_type: ScalarType,
    pub nullable: bool,
    pub selectable: bool,
}

impl FieldDefinition {
    /// A selectable, non-nullable field.
    pub fn new(name: &str, scalar_type: ScalarType) -> (r: Self)
        ensures
            r.name@ == name@,
            r.scalar_type == scalar_type,
            !r.nullable,
            r.selectable,
    {
        FieldDefinition { name: text(name), scalar_type, nullable: false, selectable: true }
    }

    pub fn nullable(self) -> (r: Self)
        ensures
            r == (FieldDefinition { nullable: true, ..self }),
    {
        FieldDefinition { nullable: true, ..self }
    }

    /// A field that may be read by expressions but not exposed by the projection.
    pub fn hidden(self) -> (r: Self)
        ensures
            r == (FieldDefinition { selectable: false, ..self }),
    {
        FieldDefinition { selectable: false, ..self }
    }
}

#[derive(Debug, Clone, PartialEq, Eq)]
pub struct SourceDefinition {
    pub key: String,
    pub fields: Vec<FieldDefinition>,
}

impl SourceDefinition {
    pub fn new(key: &str, fields: Vec<FieldDefinition>) -> (r: Self)
        ensures
            r.key@ == key@,
            r.fields == fields,
    {
        SourceDefinition { key: text(key), fields }
    }
}

#[derive(Debug, Clone, PartialEq, Eq)]
pub struct ParameterDefinition {
    pub name: String,
    pub scalar_type: ScalarType,
    pub required: bool,
    pub shape: ParameterShape,
}

impl ParameterDefinition {
    pub fn required(name: &str, scalar_type: ScalarType) -> (r: Self)
        ensures
            r.name@ == name@,
            r.scalar_type == scalar_type,
            r.required,
            r.shape == ParameterShape::Scalar,
    {
        ParameterDefinition {
            name: text(name),
            scalar_type,
            required: true,
            shape: ParameterShape::Scalar,
        }
    }

    pub fn optional(name: &str, scalar_type: ScalarType) -> (r: Self)
        ensures
            r.name@ == name@,
            r.scalar_type == scalar_type,
            !r.required,
            r.shape == ParameterShape::Scalar,
    {
        ParameterDefinition {
            name: text(name),
            scalar_type,
            required: false,
            shape: ParameterShape::Scalar,
        }
    }

    pub fn required_list(name: &str, scalar_type: ScalarType) -> (r: Self)
        ensures
            r.name@ == name@,
            r.scalar_type == scalar_type,
            r.required,
            r.shape == ParameterShape::List,
    {
        ParameterDefinition {
            name: text(name),
            scalar_type,
            required: true,
            shape: ParameterShape::List,
        }
    }

    pub fn optional_list(name: &str, scalar_type: ScalarType) -> (r: Self)
        ensures
            r.name@ == name@,
            r.scalar_type == scalar_type,
            !r.required,
            r.shape == ParameterShape::List,
    {
        ParameterDefinition {
            name: text(name),
            scalar_type,
            required: false,
            shape: ParameterShape::List,
        }
    }
}

#[derive(Debug, PartialEq, Eq)]
pub struct OrderByDefinition {
    pub expression: Expression,
    pub direction: OrderDirection,
    pub nulls: Option<NullsOrder>,
}

impl OrderByDefinition {
    pub fn asc(expression: Expression) -> (r: Self)
        ensures
            r == (OrderByDefinition { expression, direction: OrderDirection::Asc, nulls: None }),
    {
        OrderByDefinition { expression, direction: OrderDirection::Asc, nulls: None }
    }

    pub fn desc(expression: Expression) -> (r: Self)
        ensures
            r == (OrderByDefinition { expression, direction: OrderDirection::Desc, nulls: None }),
    {
        OrderByDefinition { expression, direction: OrderDirection::Desc, nulls: None }
    }

    pub fn nulls(self, nulls: NullsOrder) -> (r: Self)
        ensures
            r == (OrderByDefinition { nulls: Some(nulls), ..self }),
    {
        OrderByDefinition { nulls: Some(nulls), ..self }
    }
}

#[derive(Debug, PartialEq, Eq)]
pub enum RelationSelection {
    FirstBy { order_by: Vec<OrderByDefinition> },
}

impl RelationSelection {
    pub fn order_by(&self) -> (r: &Vec<OrderByDefinition>)
        ensures
            self matches RelationSelection::FirstBy { order_by } && r == order_by,
    {
        match self {
            RelationSelection::FirstBy { order_by } => order_by,
        }
    }
}

#[derive(Debug, PartialEq, Eq)]
pub struct RelationDefinition {
    pub name: String,
    pub from: String,
    pub to: String,
    pub on: Expression,
    pub cardinality: RelationCardinality,
    pub required: bool,
    pub selection: Option<RelationSelection>,
}

impl RelationDefinition {
    /// An optional relation of cardinality one.
    pub fn new(name: &str, from: &str, to: &str, on: Expression) -> (r: Self)
        ensures
            r.name@ == name@,
            r.from@ == from@,
            r.to@ == to@,
            r.on == on,
            r.cardinality == RelationCardinality::One,
            !r.required,
            r.selection is None,
    {
        RelationDefinition {
            name: text(name),
            from: text(from),
            to: text(to),
            on,
            cardinality: RelationCardinality::One,
            required: false,
            selection: None,
        }
    }

    pub fn required(self) -> (r: Self)
        ensures
            r == (RelationDefinition { required: true, ..self }),
    {
        RelationDefinition { required: true, ..self }
    }

    pub fn many(self) -> (r: Self)
        ensures
            r == (RelationDefinition { cardinality: RelationCardinality::Many, ..self }),
    {
        RelationDefinition { cardinality: RelationCardinality::Many, ..self }
    }

    /// Selects the first related row by the given order.
    pub fn first_by(self, order_by: Vec<OrderByDefinition>) -> (r: Self)
        ensures
            r == (RelationDefinition {
                selection: Some(RelationSelection::FirstBy { order_by }),
                ..self
            }),
    {
        RelationDefinition { selection: Some(RelationSelection::FirstBy { order_by }), ..self }
    }
}

#[derive(Debug, Clone, PartialEq, Eq)]
pub enum ConstraintCondition {
    Always,
    ParameterPresent { parameter: String },
}

#[derive(Debug, PartialEq, Eq)]
pub struct ConstraintDefinition {
    pub when: ConstraintCondition,
    pub predicate: Expression,
}

impl ConstraintDefinition {
    pub fn always(predicate: Expression) -> (r: Self)
        ensures
            r == (ConstraintDefinition { when: ConstraintCondition::Always, predicate }),
    {
        ConstraintDefinition { when: ConstraintCondition::Always, predicate }
    }

    /// A constraint that applies only when the operation supplies `parameter`.
    pub fn when_parameter(parameter: &str, predicate: Expression) -> (r: Self)
        ensures
            r.when matches ConstraintCondition::ParameterPresent { parameter: p } && p@
                == parameter@,
            r.predicate == predicate,
    {
        ConstraintDefinition {
            when: ConstraintCondition::ParameterPresent { parameter: text(parameter) },
            predicate,
        }
    }
}

#[derive(Debug, PartialEq, Eq)]
pub struct ProjectionFieldDefinition {
    pub path: Vec<String>,
    pub expression: Expression,
    pub selected_by_default: bool,
    pub role: ProjectionFieldRole,
}

impl ProjectionFieldDefinition {
    /// A value field that is not selected by default.
    pub fn new(path: Vec<String>, expression: Expression) -> (r: Self)
        ensures
            r == (ProjectionFieldDefinition {
                path,
                expression,
                selected_by_default: false,
                role: ProjectionFieldRole::Value,
            }),
    {
        ProjectionFieldDefinition {
            path,
            expression,
            selected_by_default: false,
            role: ProjectionFieldRole::Value,
        }
    }

    pub fn selected_by_default(self) -> (r: Self)
        ensures
            r == (ProjectionFieldDefinition { selected_by_default: true, ..self }),
    {
        ProjectionFieldDefinition { selected_by_default: true, ..self }
    }

    pub fn dimension(self) -> (r: Self)
        ensures
            r == (ProjectionFieldDefinition { role: ProjectionFieldRole::Dimension, ..self }),
    {
        ProjectionFieldDefinition { role: ProjectionFieldRole::Dimension, ..self }
    }

    pub fn measure(self) -> (r: Self)
        ensures
            r == (ProjectionFieldDefinition { role: ProjectionFieldRole::Measure, ..self }),
    {
        ProjectionFieldDefinition { role: ProjectionFieldRole::Measure, ..self }
    }
}

#[derive(Debug, PartialEq, Eq)]
pub struct ProjectionObjectDefinition {
    pub path: Vec<String>,
    pub presence: Expression,
}

impl ProjectionObjectDefinition {
    pub fn new(path: Vec<String>, presence: Expression) -> (r: Self)
        ensures
            r == (ProjectionObjectDefinition { path, presence }),
    {
        ProjectionObjectDefinition { path, presence }
    }
}

#[derive(Debug, PartialEq, Eq)]
pub struct ProjectionDefinition {
    pub fields: Vec<ProjectionFieldDefinition>,
    pub objects: Vec<ProjectionObjectDefinition>,
}

impl ProjectionDefinition {
    /// A projection of the given fields and no objects.
    pub fn new(fields: Vec<ProjectionFieldDefinition>) -> (r: Self)
        ensures
            r.fields == fields,
            r.objects@.len() == 0,
    {
        ProjectionDefinition { fields, objects: Vec::new() }
    }
}

#[derive(Debug, PartialEq, Eq)]
pub struct OrderingDefinition {
    pub name: String,
    pub order_by: Vec<OrderByDefinition>,
    pub selected_by_default: bool,
}

impl OrderingDefinition {
    pub fn new(name: &str, order_by: Vec<OrderByDefinition>) -> (r: Self)
        ensures
            r.name@ == name@,
            r.order_by == order_by,
            !r.selected_by_default,
    {
        OrderingDefinition { name: text(name), order_by, selected_by_default: false }
    }

    pub fn selected_by_default(self) -> (r: Self)
        ensures
            r == (OrderingDefinition { selected_by_default: true, ..self }),
    {
        OrderingDefinition { selected_by_default: true, ..self }
    }
}

#[derive(Debug, PartialEq, Eq)]
pub struct GraphDefinition {
    pub schema_version: u32,
    pub name: String,
    pub root: String,
    pub sources: Vec<SourceDefinition>,
    pub parameters: Vec<ParameterDefinition>,
    pub relations: Vec<RelationDefinition>,
    pub constraints: Vec<ConstraintDefinition>,
    pub projection: ProjectionDefinition,
    pub orderings: Vec<OrderingDefinition>,
}

/// A summary graph is one whose projection declares a dimension or a measure.
pub open spec fn spec_is_summary(d: GraphDefinition) -> bool {
    exists|i: int|
        0 <= i < d.projection.fields@.len() && (#[trigger] d.projection.fields@[i]).role
            != ProjectionFieldRole::Value
}

impl GraphDefinition {
    /// An empty definition of the current schema version.
    pub fn new(name: &str, root: &str) -> (r: Self)
        ensures
            r.schema_version == GRAPH_DEFINITION_VERSION,
            r.name@ == name@,
            r.root@ == root@,
            r.sources@.len() == 0,
            r.parameters@.len() == 0,
            r.relations@.len() == 0,
            r.constraints@.len() == 0,
            r.projection.fields@.len() == 0,
            r.projection.objects@.len() == 0,
            r.orderings@.len() == 0,
    {
        GraphDefinition {
            schema_version: GRAPH_DEFINITION_VERSION,
            name: text(name),
            root: text(root),
            sources: Vec::new(),
            parameters: Vec::new(),
            relations: Vec::new(),
            constraints: Vec::new(),
            projection: ProjectionDefinition { fields: Vec::new(), objects: Vec::new() },
            orderings: Vec::new(),
        }
    }

    pub fn is_summary(&self) -> (r: bool)
        ensures
            r == spec_is_summary(*self),
    {
        let fields = &self.projection.fields;
        let mut i: usize = 0;
        while i < fields.len()
            invariant
                fields == self.projection.fields,
                i <= fields@.len(),
                forall|j: int| 0 <= j < i ==> (#[trigger] fields@[j]).role == ProjectionFieldRole::Value,
            decreases fields.len() - i,
        {
            if fields[i].role != ProjectionFieldRole::Value {
                return true;
            }
            i = i + 1;
        }
        false
    }
}

} // verus!
