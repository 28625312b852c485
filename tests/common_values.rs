use liquid_json::bridge::{to_json_value, to_liquid_obj, to_liquid_value};
use liquid_json::single::single_value;
use liquid_json::{Context, Error, Json, LiquidValue, Number};

fn s(x: &str) -> String {
    x.to_string()
}

#[test]
fn bare_reference_is_recognised() {
    assert_eq!(single_value("{{ myval }}"), Some(s("myval")));
    assert_eq!(single_value("{{myval}}"), Some(s("myval")));
    assert_eq!(single_value("  {{\tmy_val2 }}\n"), Some(s("my_val2")));
    assert_eq!(single_value("{{}}"), Some(s("")));
}

#[test]
fn other_sources_are_not_bare_references() {
    assert_eq!(single_value("{{ a.b }}"), None);
    assert_eq!(single_value("{{ a | upcase }}"), None);
    assert_eq!(single_value("x {{ a }}"), None);
    assert_eq!(single_value("{{ a }} x"), None);
    assert_eq!(single_value("{{ a }"), None);
    assert_eq!(single_value("{% a %}"), None);
    assert_eq!(single_value(""), None);
    assert_eq!(single_value("{{ a b }}"), None);
}

#[test]
fn u32_max_converts_to_an_integer() {
    let v = to_liquid_value(&Json::Number(Number::PosInt(u32::MAX as u64))).unwrap();
    assert!(matches!(v, LiquidValue::Integer(4294967295)));
    let back = to_json_value(&v);
    assert!(matches!(back, Json::Number(Number::PosInt(4294967295))));
}

#[test]
fn integers_above_i64_are_refused() {
    let r = to_liquid_value(&Json::Number(Number::PosInt(u64::MAX)));
    assert!(matches!(r, Err(Error::U64)));
    let r = to_liquid_value(&Json::Number(Number::PosInt(i64::MAX as u64 + 1)));
    assert!(matches!(r, Err(Error::U64)));
}

#[test]
fn integers_between_u32_and_i64_convert() {
    let r = to_liquid_value(&Json::Number(Number::PosInt(1u64 << 32))).unwrap();
    assert!(matches!(r, LiquidValue::Integer(4294967296)));
    let r = to_liquid_value(&Json::Number(Number::PosInt(i64::MAX as u64))).unwrap();
    assert!(matches!(r, LiquidValue::Integer(i64::MAX)));
}

#[test]
fn numbers_of_every_kind_convert() {
    let r = to_liquid_value(&Json::Number(Number::NegInt(-7))).unwrap();
    assert!(matches!(r, LiquidValue::Integer(-7)));
    let bits = 5.1f64.to_bits();
    let r = to_liquid_value(&Json::Number(Number::Float(bits))).unwrap();
    assert!(matches!(r, LiquidValue::Float(b) if b == bits));
    assert!(matches!(to_json_value(&LiquidValue::Integer(-7)), Json::Number(Number::NegInt(-7))));
    assert!(matches!(to_json_value(&LiquidValue::Integer(0)), Json::Number(Number::PosInt(0))));
}

#[test]
fn non_finite_floats_become_null() {
    assert!(matches!(to_json_value(&LiquidValue::Float(f64::NAN.to_bits())), Json::Null));
    assert!(matches!(to_json_value(&LiquidValue::Float(f64::INFINITY.to_bits())), Json::Null));
}

#[test]
fn nested_values_keep_shape_and_order() {
    let j = Json::Object(vec![
        (s("b"), Json::Array(vec![Json::Null, Json::Bool(true), Json::String(s("x"))])),
        (s("a"), Json::Object(vec![(s("n"), Json::Number(Number::NegInt(-1)))])),
    ]);
    let v = to_liquid_value(&j).unwrap();
    assert_eq!(format!("{:?}", to_json_value(&v)), format!("{:?}", j));
}

#[test]
fn a_nested_large_integer_is_refused() {
    let j = Json::Array(vec![Json::Null, Json::Array(vec![Json::Number(Number::PosInt(u64::MAX))])]);
    assert!(matches!(to_liquid_value(&j), Err(Error::U64)));
}

#[test]
fn non_object_data_is_an_invalid_context() {
    for data in [
        Json::String(s("not-an-object")),
        Json::Null,
        Json::Bool(false),
        Json::Number(Number::PosInt(3)),
        Json::Array(vec![]),
    ] {
        match to_liquid_obj(&data) {
            Err(Error::InvalidContext(d)) => assert_eq!(format!("{:?}", d), format!("{:?}", data)),
            other => panic!("unexpected {:?}", other),
        }
    }
}

#[test]
fn object_data_becomes_the_context() {
    let data = Json::Object(vec![(s("myval"), Json::Number(Number::PosInt(5)))]);
    let c: Context = to_liquid_obj(&data).unwrap();
    assert_eq!(c.entries.len(), 1);
    assert_eq!(c.entries[0].0, "myval");
    assert!(matches!(c.entries[0].1, LiquidValue::Integer(5)));
    let bad = Json::Object(vec![(s("big"), Json::Number(Number::PosInt(u64::MAX)))]);
    assert!(matches!(to_liquid_obj(&bad), Err(Error::U64)));
}
