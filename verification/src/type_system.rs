//! Scalar type inference rules for expressions.
use vstd::prelude::*;

use crate::definition::{scalar_type_name, ScalarType};
use crate::expression::{AggregateFunction, LiteralValue, SemanticFunction, aggregate_function_name};
use crate::text::{concat, debug_quote, debug_text, decimal_text, push_usize, text};

verus! {

/// The resolved type of a projection expression.
#[derive(Debug, Clone, Copy, PartialEq, Eq, Structural)]
pub struct ExpressionType {
    pub scalar_type: ScalarType,
    pub nullable: bool,
}

impl ExpressionType {
    pub fn new(scalar_type: ScalarType, nullable: bool) -> (r: Self)
        ensures
            r == (ExpressionType { scalar_type, nullable }),
    {
        ExpressionType { scalar_type, nullable }
    }
}

/// The type of an expression during inference; `scalar_type` is `None` for `NULL`.
#[derive(Debug, Clone, Copy, PartialEq, Eq, Structural)]
pub struct InferredType {
    pub scalar_type: Option<ScalarType>,
    pub nullable: bool,
}

pub open spec fn scalar(scalar_type: ScalarType, nullable: bool) -> InferredType {
    InferredType { scalar_type: Some(scalar_type), nullable }
}

pub open spec fn boolean_type(nullable: bool) -> InferredType {
    scalar(ScalarType::Boolean, nullable)
}

pub open spec fn spec_literal_type(value: LiteralValue) -> InferredType {
    match value {
        LiteralValue::Null => InferredType { scalar_type: None, nullable: true },
        LiteralValue::Boolean(_) => scalar(ScalarType::Boolean, false),
        LiteralValue::Integer(_) => scalar(ScalarType::Int64, false),
        LiteralValue::Decimal(_) => scalar(ScalarType::Decimal, false),
        LiteralValue::String(_) => scalar(ScalarType::String, false),
    }
}

/// The name used for a type in messages.
pub open spec fn describe(t: InferredType) -> Seq<char> {
    match t.scalar_type {
        Some(s) => scalar_type_name(s),
        None => "null"@,
    }
}

impl InferredType {
    pub fn scalar(scalar_type: ScalarType, nullable: bool) -> (r: Self)
        ensures
            r == scalar(scalar_type, nullable),
    {
        InferredType { scalar_type: Some(scalar_type), nullable }
    }

    /// A parameter value is never `NULL`.
    pub fn parameter(scalar_type: ScalarType) -> (r: Self)
        ensures
            r == scalar(scalar_type, false),
    {
        InferredType::scalar(scalar_type, false)
    }

    pub fn literal(value: &LiteralValue) -> (r: Self)
        ensures
            r == spec_literal_type(*value),
    {
        match value {
            LiteralValue::Null => InferredType { scalar_type: None, nullable: true },
            LiteralValue::Boolean(_) => InferredType::scalar(ScalarType::Boolean, false),
            LiteralValue::Integer(_) => InferredType::scalar(ScalarType::Int64, false),
            LiteralValue::Decimal(_) => InferredType::scalar(ScalarType::Decimal, false),
            LiteralValue::String(_) => InferredType::scalar(ScalarType::String, false),
        }
    }

    pub fn describe(self) -> (r: String)
        ensures
            r@ == describe(self),
    {
        match self.scalar_type {
            Some(s) => text(s.as_str()),
            None => text("null"),
        }
    }
}

#[derive(Debug, Clone, Copy, PartialEq, Eq, Structural)]
pub enum TypeSystemErrorKind {
    IncompatibleTypes,
    InvalidType,
    InvalidFunctionArity,
    UnresolvedType,
}

#[derive(Debug)]
pub struct TypeSystemError {
    pub kind: TypeSystemErrorKind,
    pub message: String,
}

/// A type error as the rules describe it: its kind and message.
pub type SpecTypeError = (TypeSystemErrorKind, Seq<char>);

pub open spec fn error_view(e: TypeSystemError) -> SpecTypeError {
    (e.kind, e.message@)
}

pub open spec fn result_view<T>(r: Result<T, TypeSystemError>) -> Result<T, SpecTypeError> {
    match r {
        Ok(t) => Ok(t),
        Err(e) => Err(error_view(e)),
    }
}

pub open spec fn incompatible_error(operation: Seq<char>, left: InferredType, right: InferredType) -> SpecTypeError {
    (
        TypeSystemErrorKind::IncompatibleTypes,
        operation + " cannot combine "@ + describe(left) + " and "@ + describe(right),
    )
}

pub open spec fn unresolved_error(role: Seq<char>) -> SpecTypeError {
    (TypeSystemErrorKind::UnresolvedType, role + " has no inferable scalar type"@)
}

pub open spec fn spec_is_numeric(t: ScalarType) -> bool {
    t == ScalarType::Int32 || t == ScalarType::Int64 || t == ScalarType::Float64 || t
        == ScalarType::Decimal
}

pub open spec fn spec_is_orderable(t: ScalarType) -> bool {
    spec_is_numeric(t) || t == ScalarType::String || t == ScalarType::Date || t
        == ScalarType::DateTime
}

pub open spec fn spec_promote_numeric(left: ScalarType, right: ScalarType) -> ScalarType {
    if left == ScalarType::Float64 || right == ScalarType::Float64 {
        ScalarType::Float64
    } else if left == ScalarType::Decimal || right == ScalarType::Decimal {
        ScalarType::Decimal
    } else if left == ScalarType::Int64 || right == ScalarType::Int64 {
        ScalarType::Int64
    } else {
        ScalarType::Int32
    }
}

/// The type that two operand types share, if any; `None` stands for `NULL`.
pub open spec fn spec_common_scalar_type(left: Option<ScalarType>, right: Option<ScalarType>) -> Result<Option<ScalarType>, ()> {
    match (left, right) {
        (None, v) => Ok(v),
        (v, None) => Ok(v),
        (Some(l), Some(r)) => if l == r {
            Ok(Some(l))
        } else if spec_is_numeric(l) && spec_is_numeric(r) {
            Ok(Some(spec_promote_numeric(l, r)))
        } else if (l == ScalarType::Date && r == ScalarType::DateTime) || (l
            == ScalarType::DateTime && r == ScalarType::Date) {
            Ok(Some(ScalarType::DateTime))
        } else {
            Err(())
        },
    }
}

pub open spec fn spec_infer_equality(left: InferredType, right: InferredType) -> Result<InferredType, SpecTypeError> {
    if left.scalar_type is None || right.scalar_type is None {
        Ok(boolean_type(false))
    } else {
        match spec_common_scalar_type(left.scalar_type, right.scalar_type) {
            Err(_) => Err(incompatible_error("equality comparison"@, left, right)),
            Ok(None) => Ok(boolean_type(false)),
            Ok(Some(common)) => if common == ScalarType::Json {
                Err(
                    (
                        TypeSystemErrorKind::InvalidType,
                        "equality comparison is not defined for json values"@,
                    ),
                )
            } else {
                Ok(boolean_type(left.nullable || right.nullable))
            },
        }
    }
}

pub open spec fn spec_infer_ordering_comparison(left: InferredType, right: InferredType) -> Result<InferredType, SpecTypeError> {
    match spec_common_scalar_type(left.scalar_type, right.scalar_type) {
        Err(_) => Err(incompatible_error("ordering comparison"@, left, right)),
        Ok(None) => Err(unresolved_error("ordering comparison"@)),
        Ok(Some(common)) => if !spec_is_orderable(common) {
            Err(
                (
                    TypeSystemErrorKind::InvalidType,
                    "ordering comparison requires orderable values, received "@ + describe(left)
                        + " and "@ + describe(right),
                ),
            )
        } else {
            Ok(boolean_type(left.nullable || right.nullable))
        },
    }
}

pub open spec fn spec_require_string_or_null(value: InferredType, role: Seq<char>) -> Result<(), SpecTypeError> {
    if value.scalar_type is None || value.scalar_type == Some(ScalarType::String) {
        Ok(())
    } else {
        Err(
            (
                TypeSystemErrorKind::InvalidType,
                role + " must be string, received "@ + describe(value),
            ),
        )
    }
}

pub open spec fn spec_require_boolean_or_null(value: InferredType, role: Seq<char>) -> Result<(), SpecTypeError> {
    if value.scalar_type is None || value.scalar_type == Some(ScalarType::Boolean) {
        Ok(())
    } else {
        Err(
            (
                TypeSystemErrorKind::InvalidType,
                role + " must be boolean, received "@ + describe(value),
            ),
        )
    }
}

pub open spec fn spec_infer_like(expression: InferredType, pattern: InferredType) -> Result<InferredType, SpecTypeError> {
    match spec_require_string_or_null(expression, "LIKE expression"@) {
        Err(e) => Err(e),
        Ok(_) => match spec_require_string_or_null(pattern, "LIKE pattern"@) {
            Err(e) => Err(e),
            Ok(_) => if expression.scalar_type is None && pattern.scalar_type is None {
                Err(unresolved_error("LIKE expression"@))
            } else {
                Ok(boolean_type(expression.nullable || pattern.nullable))
            },
        },
    }
}

/// `IN`: each value must be comparable for equality with the tested expression.
pub open spec fn spec_infer_in(expression: InferredType, values: Seq<InferredType>) -> Result<InferredType, SpecTypeError>
    decreases values.len(),
{
    if values.len() == 0 {
        Ok(boolean_type(expression.nullable))
    } else {
        match spec_infer_in(expression, values.drop_last()) {
            Err(e) => Err(e),
            Ok(t) => match spec_infer_equality(expression, values.last()) {
                Err(_) => Err(incompatible_error("IN expression"@, expression, values.last())),
                Ok(_) => Ok(boolean_type(t.nullable || values.last().nullable)),
            },
        }
    }
}

pub open spec fn spec_infer_logical(expressions: Seq<InferredType>) -> Result<InferredType, SpecTypeError>
    decreases expressions.len(),
{
    if expressions.len() == 0 {
        Ok(boolean_type(false))
    } else {
        match spec_infer_logical(expressions.drop_last()) {
            Err(e) => Err(e),
            Ok(t) => match spec_require_boolean_or_null(expressions.last(), "logical operand"@) {
                Err(e) => Err(e),
                Ok(_) => Ok(boolean_type(t.nullable || expressions.last().nullable)),
            },
        }
    }
}

pub open spec fn spec_infer_not(expression: InferredType) -> Result<InferredType, SpecTypeError> {
    match spec_require_boolean_or_null(expression, "NOT operand"@) {
        Err(e) => Err(e),
        Ok(_) => Ok(boolean_type(expression.nullable)),
    }
}

pub open spec fn arity_error(name: Seq<char>, actual: nat, minimum: nat, maximum: nat) -> SpecTypeError {
    (
        TypeSystemErrorKind::InvalidFunctionArity,
        "semantic function "@ + debug_text(name) + " expects "@ + (if minimum == maximum {
            decimal_text(minimum)
        } else {
            "at least "@ + decimal_text(minimum)
        }) + " argument(s), received "@ + decimal_text(actual),
    )
}

pub open spec fn spec_require_arity(name: Seq<char>, actual: nat, minimum: nat, maximum: nat) -> Result<(), SpecTypeError> {
    if minimum <= actual <= maximum {
        Ok(())
    } else {
        Err(arity_error(name, actual, minimum, maximum))
    }
}

pub open spec fn all_nullable(arguments: Seq<InferredType>) -> bool {
    forall|i: int| 0 <= i < arguments.len() ==> (#[trigger] arguments[i]).nullable
}

pub open spec fn spec_infer_unary_string_function(name: Seq<char>, arguments: Seq<InferredType>) -> Result<InferredType, SpecTypeError> {
    match spec_require_arity(name, arguments.len(), 1, 1) {
        Err(e) => Err(e),
        Ok(_) => match spec_require_string_or_null(arguments[0], name + " argument"@) {
            Err(e) => Err(e),
            Ok(_) => Ok(scalar(ScalarType::String, arguments[0].nullable)),
        },
    }
}

/// The common type of the first `n` coalesce arguments.
pub open spec fn coalesce_common(arguments: Seq<InferredType>, n: nat) -> Result<Option<ScalarType>, ()>
    decreases n,
{
    if n == 0 {
        Ok(None)
    } else {
        match coalesce_common(arguments, (n - 1) as nat) {
            Err(_) => Err(()),
            Ok(common) => spec_common_scalar_type(common, arguments[n - 1].scalar_type),
        }
    }
}

/// The descriptions of the given types, separated by `, `.
pub open spec fn join_descriptions(types: Seq<InferredType>) -> Seq<char>
    decreases types.len(),
{
    if types.len() == 0 {
        seq![]
    } else if types.len() == 1 {
        describe(types[0])
    } else {
        join_descriptions(types.drop_last()) + ", "@ + describe(types.last())
    }
}

pub open spec fn spec_infer_coalesce(arguments: Seq<InferredType>) -> Result<InferredType, SpecTypeError> {
    match spec_require_arity("coalesce"@, arguments.len(), 2, usize::MAX as nat) {
        Err(e) => Err(e),
        Ok(_) => match coalesce_common(arguments, arguments.len()) {
            Err(_) => Err(
                (
                    TypeSystemErrorKind::IncompatibleTypes,
                    "coalesce arguments have incompatible types: "@ + join_descriptions(arguments),
                ),
            ),
            Ok(None) => Err(unresolved_error("coalesce result"@)),
            Ok(Some(t)) => Ok(scalar(t, all_nullable(arguments))),
        },
    }
}

/// The first argument of `concat` that is neither a string nor `NULL`, if any.
pub open spec fn first_non_string(arguments: Seq<InferredType>, n: nat) -> Option<int>
    decreases n,
{
    if n == 0 {
        None
    } else {
        match first_non_string(arguments, (n - 1) as nat) {
            Some(i) => Some(i),
            None => if spec_require_string_or_null(arguments[n - 1], "concat argument"@) is Err {
                Some(n - 1)
            } else {
                None
            },
        }
    }
}

pub open spec fn spec_infer_concat(arguments: Seq<InferredType>) -> Result<InferredType, SpecTypeError> {
    match spec_require_arity("concat"@, arguments.len(), 1, usize::MAX as nat) {
        Err(e) => Err(e),
        Ok(_) => match first_non_string(arguments, arguments.len()) {
            Some(i) => match spec_require_string_or_null(arguments[i], "concat argument"@) {
                Err(e) => Err(e),
                Ok(_) => Ok(scalar(ScalarType::String, false)),
            },
            None => Ok(scalar(ScalarType::String, all_nullable(arguments))),
        },
    }
}

pub open spec fn spec_infer_function(function: SemanticFunction, arguments: Seq<InferredType>) -> Result<InferredType, SpecTypeError> {
    match function {
        SemanticFunction::Lower => spec_infer_unary_string_function("lower"@, arguments),
        SemanticFunction::Upper => spec_infer_unary_string_function("upper"@, arguments),
        SemanticFunction::Coalesce => spec_infer_coalesce(arguments),
        SemanticFunction::Concat => spec_infer_concat(arguments),
    }
}

pub open spec fn aggregate_arity_error(function: AggregateFunction) -> SpecTypeError {
    (
        TypeSystemErrorKind::InvalidFunctionArity,
        "aggregate "@ + debug_text(aggregate_function_name(function))
            + " expects 1 argument(s), received 0"@,
    )
}

pub open spec fn aggregate_type_error(function: AggregateFunction, requirement: Seq<char>, argument: InferredType) -> SpecTypeError {
    (
        TypeSystemErrorKind::InvalidType,
        "aggregate "@ + debug_text(aggregate_function_name(function)) + " requires "@ + requirement
            + ", received "@ + describe(argument),
    )
}

/// Whether values of the type can be grouped, that is compared for equality.
pub open spec fn spec_is_groupable(t: InferredType) -> bool {
    t.scalar_type != Some(ScalarType::Json)
}

/// Aggregates: `count` counts rows or values; `countDistinct` needs groupable values;
/// `sum` and `average` need numbers; `minimum` and `maximum` need orderable values.
/// Every aggregate but the counts is `NULL` over no rows.
pub open spec fn spec_infer_aggregate(function: AggregateFunction, argument: Option<InferredType>) -> Result<InferredType, SpecTypeError> {
    match (function, argument) {
        (AggregateFunction::Count, _) => Ok(scalar(ScalarType::Int64, false)),
        (_, None) => Err(aggregate_arity_error(function)),
        (AggregateFunction::CountDistinct, Some(a)) => if spec_is_groupable(a) {
            Ok(scalar(ScalarType::Int64, false))
        } else {
            Err(aggregate_type_error(function, "values with equality semantics"@, a))
        },
        (AggregateFunction::Sum, Some(a)) => match a.scalar_type {
            Some(t) => if spec_is_numeric(t) {
                Ok(
                    scalar(
                        if t == ScalarType::Int32 {
                            ScalarType::Int64
                        } else {
                            t
                        },
                        true,
                    ),
                )
            } else {
                Err(aggregate_type_error(function, "numeric values"@, a))
            },
            None => Err(unresolved_error("aggregate argument"@)),
        },
        (AggregateFunction::Average, Some(a)) => match a.scalar_type {
            Some(t) => if spec_is_numeric(t) {
                Ok(
                    scalar(
                        if t == ScalarType::Float64 {
                            ScalarType::Float64
                        } else {
                            ScalarType::Decimal
                        },
                        true,
                    ),
                )
            } else {
                Err(aggregate_type_error(function, "numeric values"@, a))
            },
            None => Err(unresolved_error("aggregate argument"@)),
        },
        (_, Some(a)) => match a.scalar_type {
            Some(t) => if spec_is_orderable(t) {
                Ok(scalar(t, true))
            } else {
                Err(aggregate_type_error(function, "orderable values"@, a))
            },
            None => Err(unresolved_error("aggregate argument"@)),
        },
    }
}

pub open spec fn spec_require_predicate(expression: InferredType) -> Result<(), SpecTypeError> {
    if expression.scalar_type == Some(ScalarType::Boolean) {
        Ok(())
    } else {
        Err(
            (
                TypeSystemErrorKind::InvalidType,
                "predicate must be a boolean expression, received "@ + describe(expression),
            ),
        )
    }
}

pub open spec fn spec_require_orderable(expression: InferredType) -> Result<(), SpecTypeError> {
    match expression.scalar_type {
        None => Err(unresolved_error("order expression"@)),
        Some(t) => if spec_is_orderable(t) {
            Ok(())
        } else {
            Err(
                (
                    TypeSystemErrorKind::InvalidType,
                    "order expression must be orderable, received "@ + describe(expression),
                ),
            )
        },
    }
}

pub open spec fn spec_require_groupable(expression: InferredType) -> Result<(), SpecTypeError> {
    if spec_is_groupable(expression) {
        Ok(())
    } else {
        Err(
            (
                TypeSystemErrorKind::InvalidType,
                "dimension expression must have equality semantics, received "@ + describe(
                    expression,
                ),
            ),
        )
    }
}

pub open spec fn spec_resolve_expression_type(expression: InferredType) -> Result<ExpressionType, SpecTypeError> {
    match expression.scalar_type {
        Some(t) => Ok(ExpressionType { scalar_type: t, nullable: expression.nullable }),
        None => Err(unresolved_error("projection expression"@)),
    }
}

fn type_error(kind: TypeSystemErrorKind, message: String) -> (r: TypeSystemError)
    ensures
        error_view(r) == (kind, message@),
{
    TypeSystemError { kind, message }
}

fn incompatible_types(operation: &str, left: InferredType, right: InferredType) -> (r: TypeSystemError)
    ensures
        error_view(r) == incompatible_error(operation@, left, right),
{
    let mut m = concat(operation, " cannot combine ");
    m.append(left.describe().as_str());
    m.append(" and ");
    m.append(right.describe().as_str());
    type_error(TypeSystemErrorKind::IncompatibleTypes, m)
}

fn unresolved_type(role: &str) -> (r: TypeSystemError)
    ensures
        error_view(r) == unresolved_error(role@),
{
    type_error(TypeSystemErrorKind::UnresolvedType, concat(role, " has no inferable scalar type"))
}

pub fn is_numeric(t: ScalarType) -> (r: bool)
    ensures
        r == spec_is_numeric(t),
{
    t == ScalarType::Int32 || t == ScalarType::Int64 || t == ScalarType::Float64 || t
        == ScalarType::Decimal
}

pub fn is_orderable(t: ScalarType) -> (r: bool)
    ensures
        r == spec_is_orderable(t),
{
    is_numeric(t) || t == ScalarType::String || t == ScalarType::Date || t == ScalarType::DateTime
}

pub fn promote_numeric(left: ScalarType, right: ScalarType) -> (r: ScalarType)
    ensures
        r == spec_promote_numeric(left, right),
{
    if left == ScalarType::Float64 || right == ScalarType::Float64 {
        ScalarType::Float64
    } else if left == ScalarType::Decimal || right == ScalarType::Decimal {
        ScalarType::Decimal
    } else if left == ScalarType::Int64 || right == ScalarType::Int64 {
        ScalarType::Int64
    } else {
        ScalarType::Int32
    }
}

pub fn common_scalar_type(left: Option<ScalarType>, right: Option<ScalarType>) -> (r: Result<
    Option<ScalarType>,
    (),
>)
    ensures
        r == spec_common_scalar_type(left, right),
{
    match (left, right) {
        (None, v) => Ok(v),
        (v, None) => Ok(v),
        (Some(l), Some(r)) => {
            if l == r {
                Ok(Some(l))
            } else if is_numeric(l) && is_numeric(r) {
                Ok(Some(promote_numeric(l, r)))
            } else if (l == ScalarType::Date && r == ScalarType::DateTime) || (l
                == ScalarType::DateTime && r == ScalarType::Date) {
                Ok(Some(ScalarType::DateTime))
            } else {
                Err(())
            }
        },
    }
}

pub fn infer_equality(left: InferredType, right: InferredType) -> (r: Result<InferredType, TypeSystemError>)
    ensures
        result_view(r) == spec_infer_equality(left, right),
{
    if left.scalar_type.is_none() || right.scalar_type.is_none() {
        return Ok(InferredType::scalar(ScalarType::Boolean, false));
    }
    match common_scalar_type(left.scalar_type, right.scalar_type) {
        Err(_) => Err(incompatible_types("equality comparison", left, right)),
        Ok(None) => Ok(InferredType::scalar(ScalarType::Boolean, false)),
        Ok(Some(common)) => {
            if common == ScalarType::Json {
                Err(
                    type_error(
                        TypeSystemErrorKind::InvalidType,
                        text("equality comparison is not defined for json values"),
                    ),
                )
            } else {
                Ok(InferredType::scalar(ScalarType::Boolean, left.nullable || right.nullable))
            }
        },
    }
}

pub fn infer_ordering_comparison(left: InferredType, right: InferredType) -> (r: Result<
    InferredType,
    TypeSystemError,
>)
    ensures
        result_view(r) == spec_infer_ordering_comparison(left, right),
{
    match common_scalar_type(left.scalar_type, right.scalar_type) {
        Err(_) => Err(incompatible_types("ordering comparison", left, right)),
        Ok(None) => Err(unresolved_type("ordering comparison")),
        Ok(Some(common)) => {
            if !is_orderable(common) {
                let mut m = text("ordering comparison requires orderable values, received ");
                m.append(left.describe().as_str());
                m.append(" and ");
                m.append(right.describe().as_str());
                Err(type_error(TypeSystemErrorKind::InvalidType, m))
            } else {
                Ok(InferredType::scalar(ScalarType::Boolean, left.nullable || right.nullable))
            }
        },
    }
}

fn require_string_or_null(value: InferredType, role: &str) -> (r: Result<(), TypeSystemError>)
    ensures
        result_view(r) == spec_require_string_or_null(value, role@),
{
    if value.scalar_type.is_none() || value.scalar_type == Some(ScalarType::String) {
        Ok(())
    } else {
        let mut m = concat(role, " must be string, received ");
        m.append(value.describe().as_str());
        Err(type_error(TypeSystemErrorKind::InvalidType, m))
    }
}

fn require_boolean_or_null(value: InferredType, role: &str) -> (r: Result<(), TypeSystemError>)
    ensures
        result_view(r) == spec_require_boolean_or_null(value, role@),
{
    if value.scalar_type.is_none() || value.scalar_type == Some(ScalarType::Boolean) {
        Ok(())
    } else {
        let mut m = concat(role, " must be boolean, received ");
        m.append(value.describe().as_str());
        Err(type_error(TypeSystemErrorKind::InvalidType, m))
    }
}

pub fn infer_like(expression: InferredType, pattern: InferredType) -> (r: Result<
    InferredType,
    TypeSystemError,
>)
    ensures
        result_view(r) == spec_infer_like(expression, pattern),
{
    require_string_or_null(expression, "LIKE expression")?;
    require_string_or_null(pattern, "LIKE pattern")?;
    if expression.scalar_type.is_none() && pattern.scalar_type.is_none() {
        return Err(unresolved_type("LIKE expression"));
    }
    Ok(InferredType::scalar(ScalarType::Boolean, expression.nullable || pattern.nullable))
}

pub fn infer_in(expression: InferredType, values: &[InferredType]) -> (r: Result<
    InferredType,
    TypeSystemError,
>)
    ensures
        result_view(r) == spec_infer_in(expression, values@),
{
    let mut nullable = expression.nullable;
    let mut i: usize = 0;
    while i < values.len()
        invariant
            i <= values@.len(),
            spec_infer_in(expression, values@.take(i as int)) == Ok::<InferredType, SpecTypeError>(
                boolean_type(nullable),
            ),
        decreases values.len() - i,
    {
        let value = values[i];
        assert(values@.take(i + 1).drop_last() =~= values@.take(i as int));
        match infer_equality(expression, value) {
            Err(_) => {
                proof {
                    let p = values@.take(i + 1);
                    assert(p.last() == value);
                    assert(spec_infer_in(expression, p) is Err);
                    lemma_in_prefix_error(expression, values@, i + 1);
                }
                return Err(incompatible_types("IN expression", expression, value));
            },
            Ok(_) => {},
        }
        nullable = nullable || value.nullable;
        i = i + 1;
    }
    assert(values@.take(values.len() as int) =~= values@);
    Ok(InferredType::scalar(ScalarType::Boolean, nullable))
}

proof fn lemma_in_prefix_error(expression: InferredType, values: Seq<InferredType>, n: int)
    requires
        0 <= n <= values.len(),
        spec_infer_in(expression, values.take(n)) is Err,
    ensures
        spec_infer_in(expression, values) == spec_infer_in(expression, values.take(n)),
    decreases values.len() - n,
{
    if n < values.len() {
        assert(values.take(n + 1).drop_last() =~= values.take(n));
        lemma_in_prefix_error(expression, values, n + 1);
    } else {
        assert(values.take(n) =~= values);
    }
}

proof fn lemma_logical_prefix_error(expressions: Seq<InferredType>, n: int)
    requires
        0 <= n <= expressions.len(),
        spec_infer_logical(expressions.take(n)) is Err,
    ensures
        spec_infer_logical(expressions) == spec_infer_logical(expressions.take(n)),
    decreases expressions.len() - n,
{
    if n < expressions.len() {
        assert(expressions.take(n + 1).drop_last() =~= expressions.take(n));
        lemma_logical_prefix_error(expressions, n + 1);
    } else {
        assert(expressions.take(n) =~= expressions);
    }
}

pub fn infer_logical(expressions: &[InferredType]) -> (r: Result<InferredType, TypeSystemError>)
    ensures
        result_view(r) == spec_infer_logical(expressions@),
{
    let mut nullable = false;
    let mut i: usize = 0;
    while i < expressions.len()
        invariant
            i <= expressions@.len(),
            spec_infer_logical(expressions@.take(i as int)) == Ok::<InferredType, SpecTypeError>(
                boolean_type(nullable),
            ),
        decreases expressions.len() - i,
    {
        let e = expressions[i];
        assert(expressions@.take(i + 1).drop_last() =~= expressions@.take(i as int));
        match require_boolean_or_null(e, "logical operand") {
            Err(err) => {
                proof {
                    lemma_logical_prefix_error(expressions@, i + 1);
                }
                return Err(err);
            },
            Ok(_) => {},
        }
        nullable = nullable || e.nullable;
        i = i + 1;
    }
    assert(expressions@.take(expressions.len() as int) =~= expressions@);
    Ok(InferredType::scalar(ScalarType::Boolean, nullable))
}

pub fn infer_not(expression: InferredType) -> (r: Result<InferredType, TypeSystemError>)
    ensures
        result_view(r) == spec_infer_not(expression),
{
    require_boolean_or_null(expression, "NOT operand")?;
    Ok(InferredType::scalar(ScalarType::Boolean, expression.nullable))
}

/// `IS NULL` and `IS NOT NULL` accept any operand and are never `NULL`.
pub fn infer_null_test(expression: InferredType) -> (r: Result<InferredType, TypeSystemError>)
    ensures
        result_view(r) == Ok::<InferredType, SpecTypeError>(boolean_type(false)),
{
    Ok(InferredType::scalar(ScalarType::Boolean, false))
}

fn require_arity(name: &str, actual: usize, minimum: usize, maximum: usize) -> (r: Result<
    (),
    TypeSystemError,
>)
    ensures
        result_view(r) == spec_require_arity(name@, actual as nat, minimum as nat, maximum as nat),
{
    if actual >= minimum && actual <= maximum {
        return Ok(());
    }
    let mut m = text("semantic function ");
    m.append(debug_quote(name).as_str());
    m.append(" expects ");
    if minimum != maximum {
        m.append("at least ");
    }
    push_usize(&mut m, minimum);
    m.append(" argument(s), received ");
    push_usize(&mut m, actual);
    proof {
        let expected = if minimum == maximum {
            decimal_text(minimum as nat)
        } else {
            "at least "@ + decimal_text(minimum as nat)
        };
        assert(m@ =~= "semantic function "@ + debug_text(name@) + " expects "@ + expected
            + " argument(s), received "@ + decimal_text(actual as nat));
    }
    Err(type_error(TypeSystemErrorKind::InvalidFunctionArity, m))
}

fn infer_unary_string_function(name: &str, arguments: &[InferredType]) -> (r: Result<
    InferredType,
    TypeSystemError,
>)
    ensures
        result_view(r) == spec_infer_unary_string_function(name@, arguments@),
{
    require_arity(name, arguments.len(), 1, 1)?;
    let argument = arguments[0];
    let role = concat(name, " argument");
    require_string_or_null(argument, role.as_str())?;
    Ok(InferredType::scalar(ScalarType::String, argument.nullable))
}

fn join_describe(types: &[InferredType]) -> (r: String)
    ensures
        r@ == join_descriptions(types@),
{
    let mut r = String::new();
    let mut i: usize = 0;
    while i < types.len()
        invariant
            i <= types@.len(),
            r@ == join_descriptions(types@.take(i as int)),
        decreases types.len() - i,
    {
        assert(types@.take(i + 1).drop_last() =~= types@.take(i as int));
        if i > 0 {
            r.append(", ");
        }
        r.append(types[i].describe().as_str());
        proof {
            if i == 0 {
                assert(r@ =~= join_descriptions(types@.take(1)));
            } else {
                assert(r@ =~= join_descriptions(types@.take(i + 1)));
            }
        }
        i = i + 1;
    }
    assert(types@.take(types.len() as int) =~= types@);
    r
}

proof fn lemma_coalesce_error_stays(arguments: Seq<InferredType>, n: nat, m: nat)
    requires
        n <= m,
        coalesce_common(arguments, n) is Err,
    ensures
        coalesce_common(arguments, m) is Err,
    decreases m - n,
{
    if n < m {
        lemma_coalesce_error_stays(arguments, n, (m - 1) as nat);
    }
}

fn infer_coalesce(arguments: &[InferredType]) -> (r: Result<InferredType, TypeSystemError>)
    ensures
        result_view(r) == spec_infer_coalesce(arguments@),
{
    require_arity("coalesce", arguments.len(), 2, usize::MAX)?;
    let mut common: Option<ScalarType> = None;
    let mut all: bool = true;
    let mut i: usize = 0;
    while i < arguments.len()
        invariant
            i <= arguments@.len(),
            coalesce_common(arguments@, i as nat) == Ok::<Option<ScalarType>, ()>(common),
            all == all_nullable(arguments@.take(i as int)),
        decreases arguments.len() - i,
    {
        match common_scalar_type(common, arguments[i].scalar_type) {
            Err(_) => {
                proof {
                    lemma_coalesce_error_stays(arguments@, (i + 1) as nat, arguments@.len());
                }
                let m = concat(
                    "coalesce arguments have incompatible types: ",
                    join_describe(arguments).as_str(),
                );
                return Err(type_error(TypeSystemErrorKind::IncompatibleTypes, m));
            },
            Ok(c) => {
                common = c;
            },
        }
        proof {
            let t = arguments@.take(i + 1);
            assert(all_nullable(t) == (all_nullable(arguments@.take(i as int)) && arguments@[i as int].nullable)) by {
                if all_nullable(t) {
                    assert forall|j: int| 0 <= j < i implies (#[trigger] arguments@.take(i as int)[j]).nullable by {
                        assert(t[j] == arguments@.take(i as int)[j]);
                    }
                    assert(t[i as int] == arguments@[i as int]);
                }
            }
        }
        all = all && arguments[i].nullable;
        i = i + 1;
    }
    assert(arguments@.take(arguments.len() as int) =~= arguments@);
    match common {
        None => Err(unresolved_type("coalesce result")),
        Some(t) => Ok(InferredType::scalar(t, all)),
    }
}

proof fn lemma_first_non_string_stays(arguments: Seq<InferredType>, n: nat, m: nat)
    requires
        n <= m,
        first_non_string(arguments, n) is Some,
    ensures
        first_non_string(arguments, m) == first_non_string(arguments, n),
    decreases m - n,
{
    if n < m {
        lemma_first_non_string_stays(arguments, n, (m - 1) as nat);
    }
}

fn infer_concat(arguments: &[InferredType]) -> (r: Result<InferredType, TypeSystemError>)
    ensures
        result_view(r) == spec_infer_concat(arguments@),
{
    require_arity("concat", arguments.len(), 1, usize::MAX)?;
    let mut all: bool = true;
    let mut i: usize = 0;
    while i < arguments.len()
        invariant
            i <= arguments@.len(),
            first_non_string(arguments@, i as nat) is None,
            all == all_nullable(arguments@.take(i as int)),
        decreases arguments.len() - i,
    {
        match require_string_or_null(arguments[i], "concat argument") {
            Err(e) => {
                proof {
                    lemma_first_non_string_stays(arguments@, (i + 1) as nat, arguments@.len());
                }
                return Err(e);
            },
            Ok(_) => {},
        }
        proof {
            let t = arguments@.take(i + 1);
            assert(all_nullable(t) == (all_nullable(arguments@.take(i as int)) && arguments@[i as int].nullable)) by {
                if all_nullable(t) {
                    assert forall|j: int| 0 <= j < i implies (#[trigger] arguments@.take(i as int)[j]).nullable by {
                        assert(t[j] == arguments@.take(i as int)[j]);
                    }
                    assert(t[i as int] == arguments@[i as int]);
                }
            }
        }
        all = all && arguments[i].nullable;
        i = i + 1;
    }
    assert(arguments@.take(arguments.len() as int) =~= arguments@);
    Ok(InferredType::scalar(ScalarType::String, all))
}

pub fn infer_function(function: SemanticFunction, arguments: &[InferredType]) -> (r: Result<
    InferredType,
    TypeSystemError,
>)
    ensures
        result_view(r) == spec_infer_function(function, arguments@),
{
    match function {
        SemanticFunction::Lower => infer_unary_string_function("lower", arguments),
        SemanticFunction::Upper => infer_unary_string_function("upper", arguments),
        SemanticFunction::Coalesce => infer_coalesce(arguments),
        SemanticFunction::Concat => infer_concat(arguments),
    }
}

fn aggregate_type_failure(function: AggregateFunction, requirement: &str, argument: InferredType) -> (r: TypeSystemError)
    ensures
        error_view(r) == aggregate_type_error(function, requirement@, argument),
{
    let mut m = text("aggregate ");
    m.append(debug_quote(function.as_str()).as_str());
    m.append(" requires ");
    m.append(requirement);
    m.append(", received ");
    m.append(argument.describe().as_str());
    type_error(TypeSystemErrorKind::InvalidType, m)
}

pub fn infer_aggregate(function: AggregateFunction, argument: Option<InferredType>) -> (r: Result<
    InferredType,
    TypeSystemError,
>)
    ensures
        result_view(r) == spec_infer_aggregate(function, argument),
{
    if function == AggregateFunction::Count {
        return Ok(InferredType::scalar(ScalarType::Int64, false));
    }
    let a = match argument {
        Some(a) => a,
        None => {
            let mut m = text("aggregate ");
            m.append(debug_quote(function.as_str()).as_str());
            m.append(" expects 1 argument(s), received 0");
            return Err(type_error(TypeSystemErrorKind::InvalidFunctionArity, m));
        },
    };
    if function == AggregateFunction::CountDistinct {
        if a.scalar_type == Some(ScalarType::Json) {
            return Err(aggregate_type_failure(function, "values with equality semantics", a));
        }
        return Ok(InferredType::scalar(ScalarType::Int64, false));
    }
    let t = match a.scalar_type {
        Some(t) => t,
        None => {
            return Err(unresolved_type("aggregate argument"));
        },
    };
    if function == AggregateFunction::Sum {
        if is_numeric(t) {
            let result = if t == ScalarType::Int32 {
                ScalarType::Int64
            } else {
                t
            };
            Ok(InferredType::scalar(result, true))
        } else {
            Err(aggregate_type_failure(function, "numeric values", a))
        }
    } else if function == AggregateFunction::Average {
        if is_numeric(t) {
            let result = if t == ScalarType::Float64 {
                ScalarType::Float64
            } else {
                ScalarType::Decimal
            };
            Ok(InferredType::scalar(result, true))
        } else {
            Err(aggregate_type_failure(function, "numeric values", a))
        }
    } else if is_orderable(t) {
        Ok(InferredType::scalar(t, true))
    } else {
        Err(aggregate_type_failure(function, "orderable values", a))
    }
}

pub fn require_predicate(expression: InferredType) -> (r: Result<(), TypeSystemError>)
    ensures
        result_view(r) == spec_require_predicate(expression),
{
    if expression.scalar_type == Some(ScalarType::Boolean) {
        Ok(())
    } else {
        let m = concat(
            "predicate must be a boolean expression, received ",
            expression.describe().as_str(),
        );
        Err(type_error(TypeSystemErrorKind::InvalidType, m))
    }
}

pub fn require_orderable(expression: InferredType) -> (r: Result<(), TypeSystemError>)
    ensures
        result_view(r) == spec_require_orderable(expression),
{
    let t = match expression.scalar_type {
        Some(t) => t,
        None => {
            return Err(unresolved_type("order expression"));
        },
    };
    if is_orderable(t) {
        Ok(())
    } else {
        let m = concat(
            "order expression must be orderable, received ",
            expression.describe().as_str(),
        );
        Err(type_error(TypeSystemErrorKind::InvalidType, m))
    }
}

pub fn require_groupable(expression: InferredType) -> (r: Result<(), TypeSystemError>)
    ensures
        result_view(r) == spec_require_groupable(expression),
{
    if expression.scalar_type != Some(ScalarType::Json) {
        Ok(())
    } else {
        let m = concat(
            "dimension expression must have equality semantics, received ",
            expression.describe().as_str(),
        );
        Err(type_error(TypeSystemErrorKind::InvalidType, m))
    }
}

pub fn resolve_expression_type(expression: InferredType) -> (r: Result<
    ExpressionType,
    TypeSystemError,
>)
    ensures
        result_view(r) == spec_resolve_expression_type(expression),
{
    match expression.scalar_type {
        Some(t) => Ok(ExpressionType::new(t, expression.nullable)),
        None => Err(unresolved_type("projection expression")),
    }
}

proof fn lemma_coalesce_one_type(arguments: Seq<InferredType>, s: ScalarType, n: nat)
    requires
        n <= arguments.len(),
        forall|i: int| 0 <= i < arguments.len() ==> (#[trigger] arguments[i]).scalar_type is None || arguments[i].scalar_type == Some(s),
    ensures
        coalesce_common(arguments, n) == if exists|i: int| 0 <= i < n && (#[trigger] arguments[i]).scalar_type is Some {
            Ok::<Option<ScalarType>, ()>(Some(s))
        } else {
            Ok(None)
        },
    decreases n,
{
    if n > 0 {
        lemma_coalesce_one_type(arguments, s, (n - 1) as nat);
        if exists|i: int| 0 <= i < n - 1 && (#[trigger] arguments[i]).scalar_type is Some {
            let i = choose|i: int| 0 <= i < n - 1 && (#[trigger] arguments[i]).scalar_type is Some;
            assert(0 <= i < n && arguments[i].scalar_type is Some);
        }
    }
}

/// `coalesce` of arguments that share one scalar type (where they have a type at all,
/// and at least one has) has that type, and is nullable exactly when every argument is;
/// with fewer than two arguments it fails with `InvalidFunctionArity`.
pub proof fn law_coalesce_keeps_the_common_type(arguments: Seq<InferredType>, s: ScalarType)
    requires
        arguments.len() <= usize::MAX,
    ensures
        arguments.len() < 2 ==> (spec_infer_coalesce(arguments) matches Err(e) && e.0 == TypeSystemErrorKind::InvalidFunctionArity),
        arguments.len() >= 2 && (exists|i: int| 0 <= i < arguments.len() && (#[trigger] arguments[i]).scalar_type is Some)
            && (forall|i: int| 0 <= i < arguments.len() ==> (#[trigger] arguments[i]).scalar_type is None || arguments[i].scalar_type == Some(s))
            ==> spec_infer_coalesce(arguments) == Ok::<InferredType, SpecTypeError>(scalar(s, all_nullable(arguments))),
        spec_infer_coalesce(arguments) matches Ok(t) ==> t.nullable == all_nullable(arguments),
{
    if arguments.len() >= 2 && (exists|i: int| 0 <= i < arguments.len() && (#[trigger] arguments[i]).scalar_type is Some)
        && (forall|i: int| 0 <= i < arguments.len() ==> (#[trigger] arguments[i]).scalar_type is None || arguments[i].scalar_type == Some(s)) {
        lemma_coalesce_one_type(arguments, s, arguments.len());
    }
}

/// Values of the numeric types, strings, dates and date-times have an order; booleans,
/// binaries and JSON do not. So two values of one type compare with `<`, `<=`, `>`, `>=`
/// exactly when the type is one of the former, and the comparison is a boolean that is
/// nullable when either side is; the same types, and only they, can be order items and
/// arguments of `MIN` and `MAX` (whose result is nullable).
pub proof fn law_ordered_types(t: ScalarType, n1: bool, n2: bool)
    ensures
        ({
            let ordered = match t {
                ScalarType::Int32 | ScalarType::Int64 | ScalarType::Float64 | ScalarType::Decimal | ScalarType::String
                | ScalarType::Date | ScalarType::DateTime => true,
                ScalarType::Boolean | ScalarType::Binary | ScalarType::Json => false,
            };
            &&& ordered ==> spec_infer_ordering_comparison(scalar(t, n1), scalar(t, n2)) == Ok::<InferredType, SpecTypeError>(
                InferredType { scalar_type: Some(ScalarType::Boolean), nullable: n1 || n2 },
            )
            &&& !ordered ==> spec_infer_ordering_comparison(scalar(t, n1), scalar(t, n2)) is Err
            &&& spec_require_orderable(scalar(t, n1)) is Ok == ordered
            &&& ordered ==> spec_infer_aggregate(AggregateFunction::Minimum, Some(scalar(t, n1))) == Ok::<InferredType, SpecTypeError>(
                InferredType { scalar_type: Some(t), nullable: true },
            )
            &&& ordered ==> spec_infer_aggregate(AggregateFunction::Maximum, Some(scalar(t, n1))) == Ok::<InferredType, SpecTypeError>(
                InferredType { scalar_type: Some(t), nullable: true },
            )
            &&& !ordered ==> spec_infer_aggregate(AggregateFunction::Minimum, Some(scalar(t, n1))) is Err
            &&& !ordered ==> spec_infer_aggregate(AggregateFunction::Maximum, Some(scalar(t, n1))) is Err
        }),
{
}

/// The width of a numeric type: `Int32` < `Int64` < `Decimal` < `Float64`.
pub open spec fn numeric_width(t: ScalarType) -> int {
    match t {
        ScalarType::Int32 => 0,
        ScalarType::Int64 => 1,
        ScalarType::Decimal => 2,
        ScalarType::Float64 => 3,
        _ => -1,
    }
}

/// Two numbers meet at the wider of their two types, whichever side it is on; every
/// type but JSON compares for equality with itself, giving a boolean nullable when a side
/// is; dates and date-times meet at `DateTime`.
pub proof fn law_types_meet_at_the_wider(l: ScalarType, r: ScalarType, n1: bool, n2: bool)
    ensures
        numeric_width(l) >= 0 && numeric_width(r) >= 0 ==> {
            let p = spec_promote_numeric(l, r);
            &&& p == spec_promote_numeric(r, l)
            &&& (p == l || p == r)
            &&& numeric_width(p) >= numeric_width(l) && numeric_width(p) >= numeric_width(r)
            &&& spec_common_scalar_type(Some(l), Some(r)) == Ok::<Option<ScalarType>, ()>(Some(p))
        },
        l != ScalarType::Json ==> spec_infer_equality(scalar(l, n1), scalar(l, n2)) == Ok::<InferredType, SpecTypeError>(
            InferredType { scalar_type: Some(ScalarType::Boolean), nullable: n1 || n2 },
        ),
        spec_infer_equality(scalar(ScalarType::Json, n1), scalar(ScalarType::Json, n2)) is Err,
        spec_common_scalar_type(Some(ScalarType::Date), Some(ScalarType::DateTime)) == Ok::<Option<ScalarType>, ()>(Some(ScalarType::DateTime)),
        spec_common_scalar_type(Some(ScalarType::DateTime), Some(ScalarType::Date)) == Ok::<Option<ScalarType>, ()>(Some(ScalarType::DateTime)),
{
}

} // verus!
