use query_graph_core::operation::is_valid_scalar;
use query_graph_core::{ParameterValue, ScalarType};

fn object() -> ParameterValue {
    ParameterValue::Object
}

#[test]
fn accepts_the_documented_scalar_wire_values() {
    let examples = [
        (ParameterValue::Boolean(true), ScalarType::Boolean),
        (ParameterValue::Integer(2_147_483_647), ScalarType::Int32),
        (ParameterValue::Integer(9_007_199_254_740_991), ScalarType::Int64),
        (
            ParameterValue::String("9223372036854775807".into()),
            ScalarType::Int64,
        ),
        (
            ParameterValue::Float {
                safe_integer: false,
            },
            ScalarType::Float64,
        ),
        (
            ParameterValue::Float {
                safe_integer: false,
            },
            ScalarType::Decimal,
        ),
        (
            ParameterValue::String("1234567890.123456789".into()),
            ScalarType::Decimal,
        ),
        (ParameterValue::String("value".into()), ScalarType::String),
        (ParameterValue::String("2026-07-28".into()), ScalarType::Date),
        (
            ParameterValue::String("2026-07-28T10:15:30+06:00".into()),
            ScalarType::DateTime,
        ),
        (
            ParameterValue::String("base64-or-driver-token".into()),
            ScalarType::Binary,
        ),
        (object(), ScalarType::Json),
    ];

    for (value, scalar_type) in examples {
        assert!(
            is_valid_scalar(&value, scalar_type),
            "{value:?} should satisfy {scalar_type:?}"
        );
    }
}

#[test]
fn rejects_values_outside_the_scalar_wire_contract() {
    let examples = [
        (ParameterValue::Integer(1), ScalarType::Boolean),
        (ParameterValue::Integer(2_147_483_648), ScalarType::Int32),
        (
            ParameterValue::Float {
                safe_integer: false,
            },
            ScalarType::Int64,
        ),
        (ParameterValue::String("1e3".into()), ScalarType::Decimal),
        (ParameterValue::Boolean(false), ScalarType::String),
        (object(), ScalarType::Date),
        (
            ParameterValue::Array(vec![
                ParameterValue::Integer(1),
                ParameterValue::Integer(2),
                ParameterValue::Integer(3),
            ]),
            ScalarType::Binary,
        ),
    ];

    for (value, scalar_type) in examples {
        assert!(
            !is_valid_scalar(&value, scalar_type),
            "{value:?} should not satisfy {scalar_type:?}"
        );
    }
}
