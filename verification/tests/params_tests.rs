use espanso_core::params::{
    convert_params, convert_value, ConversionError, Number, Params, Value, YamlNumber, YamlValue,
};

#[test]
fn convert_value_null() {
    assert_eq!(convert_value(&YamlValue::Null).unwrap(), Value::Null);
}

#[test]
fn convert_value_bool() {
    assert_eq!(convert_value(&YamlValue::Bool(true)).unwrap(), Value::Bool(true));
    assert_eq!(convert_value(&YamlValue::Bool(false)).unwrap(), Value::Bool(false));
}

#[test]
fn convert_value_number() {
    assert_eq!(
        convert_value(&YamlValue::Number(YamlNumber::Int(0))).unwrap(),
        Value::Number(Number::Integer(0))
    );
    assert_eq!(
        convert_value(&YamlValue::Number(YamlNumber::Int(-100))).unwrap(),
        Value::Number(Number::Integer(-100))
    );
    assert_eq!(
        convert_value(&YamlValue::Number(YamlNumber::Float(1.5f64.to_bits()))).unwrap(),
        Value::Number(Number::Float(1.5f64.to_bits()))
    );
}

#[test]
fn convert_value_string() {
    assert_eq!(
        convert_value(&YamlValue::Str("hello".to_string())).unwrap(),
        Value::Str("hello".to_string())
    );
}

#[test]
fn convert_value_array() {
    assert_eq!(
        convert_value(&YamlValue::Sequence(vec![
            YamlValue::Bool(true),
            YamlValue::Null,
        ]))
        .unwrap(),
        Value::Array(vec![Value::Bool(true), Value::Null,])
    );
}

#[test]
fn convert_value_params() {
    let mapping = vec![(YamlValue::Str("test".to_string()), YamlValue::Null)];

    let mut expected = Params::new();
    expected.insert("test".to_string(), Value::Null);
    assert_eq!(
        convert_value(&YamlValue::Mapping(mapping)).unwrap(),
        Value::Object(expected)
    );
}

#[test]
fn convert_params_works_correctly() {
    let mapping = vec![(YamlValue::Str("test".to_string()), YamlValue::Null)];

    let mut expected = Params::new();
    expected.insert("test".to_string(), Value::Null);
    assert_eq!(convert_params(&mapping).unwrap(), expected);
}

#[test]
fn convert_params_invalid_key_type() {
    let mapping = vec![(YamlValue::Null, YamlValue::Null)];

    assert!(convert_params(&mapping).is_err());
}

#[test]
fn convert_value_large_unsigned_does_not_fit() {
    assert_eq!(
        convert_value(&YamlValue::Number(YamlNumber::UInt(u64::MAX))),
        Err(ConversionError::InvalidNumberFormat)
    );
    assert_eq!(
        convert_value(&YamlValue::Number(YamlNumber::UInt(42))).unwrap(),
        Value::Number(Number::Integer(42))
    );
}

#[test]
fn convert_value_tagged_unwraps() {
    assert_eq!(
        convert_value(&YamlValue::Tagged(Box::new(YamlValue::Bool(true)))).unwrap(),
        Value::Bool(true)
    );
}

#[test]
fn convert_value_first_error_wins() {
    let seq = vec![
        YamlValue::Bool(true),
        YamlValue::Mapping(vec![(YamlValue::Null, YamlValue::Null)]),
        YamlValue::Number(YamlNumber::UInt(u64::MAX)),
    ];
    assert_eq!(
        convert_value(&YamlValue::Sequence(seq)),
        Err(ConversionError::InvalidKeyFormat)
    );
}

#[test]
fn params_insert_replaces_by_key() {
    let mut a = Params::new();
    a.insert("k".to_string(), Value::Bool(true));
    a.insert("k".to_string(), Value::Bool(false));

    let mut b = Params::new();
    b.insert("k".to_string(), Value::Bool(false));
    assert_eq!(a, b);
}

#[test]
fn conversion_error_messages() {
    assert_eq!(ConversionError::InvalidKeyFormat.message(), "invalid key format");
    assert_eq!(ConversionError::InvalidNumberFormat.message(), "invalid number format");
}
