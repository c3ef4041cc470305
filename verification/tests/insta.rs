use serde_kdl::ser::to_string_ugly;
use serde_kdl::value::Value;

fn enum_unit() -> Value {
    Value::UnitVariant("Enum", 0, "Unit")
}

fn enum_newtype(v: i32) -> Value {
    Value::NewtypeVariant("Enum", 1, "Newtype", Box::new(Value::I32(v)))
}

fn enum_tuple(a: i32, b: i32) -> Value {
    Value::TupleVariant("Enum", 2, "Tuple", vec![Value::I32(a), Value::I32(b)])
}

fn enum_struct(field: i32) -> Value {
    Value::StructVariant("Enum", 3, "Struct", vec![("field", Value::I32(field))])
}

fn struct_unit() -> Value {
    Value::UnitStruct("Unit")
}

fn struct_newtype(v: i32) -> Value {
    Value::NewtypeStruct("Newtype", Box::new(Value::I32(v)))
}

fn struct_tuple(a: i32, b: i32) -> Value {
    Value::TupleStruct("Tuple", vec![Value::I32(a), Value::I32(b)])
}

fn struct_struct(field: i32) -> Value {
    Value::Struct("Struct", vec![("field", Value::I32(field))])
}

#[test]
fn insta_ugly_primitives() -> serde_kdl::Result {
    assert_eq!(to_string_ugly(&Value::Bool(true))?, "- true");
    assert_eq!(to_string_ugly(&Value::U32(0u32))?, "- 0");
    assert_eq!(to_string_ugly(&Value::I32(0i32))?, "- 0");
    assert_eq!(to_string_ugly(&Value::Float(format!("{}", 0f32)))?, "- 0");
    assert_eq!(to_string_ugly(&Value::Str("Hello".to_string()))?, "- r\"Hello\"");
    assert_eq!(to_string_ugly(&Value::Bytes(b"KDL".to_vec()))?, "- \"S0RM\"");
    assert_eq!(to_string_ugly(&Value::Char('\u{1F980}'))?, "- r\"\u{1F980}\"");
    assert_eq!(to_string_ugly(&Value::Unit)?, "- null");
    assert_eq!(to_string_ugly(&Value::Present(Box::new(Value::I32(0))))?, "- 0");
    assert_eq!(to_string_ugly(&Value::Absent)?, "- null");
    Ok(())
}

#[test]
fn insta_ugly_variants() -> serde_kdl::Result {
    assert_eq!(to_string_ugly(&enum_unit())?, "(Unit)- null");
    assert_eq!(to_string_ugly(&enum_newtype(0))?, "(Newtype)- 0");
    assert_eq!(to_string_ugly(&enum_tuple(0, 0))?, "(Tuple)- { - 0; - 0; }");
    assert_eq!(to_string_ugly(&enum_struct(0))?, "(Struct)- { field 0; }");
    Ok(())
}

#[test]
fn insta_ugly_structs() -> serde_kdl::Result {
    assert_eq!(to_string_ugly(&struct_unit())?, "- null");
    assert_eq!(to_string_ugly(&struct_newtype(0))?, "- 0");
    assert_eq!(to_string_ugly(&struct_tuple(0, 0))?, "- { - 0; - 0; }");
    assert_eq!(to_string_ugly(&struct_struct(0))?, "- { field 0; }");
    Ok(())
}

#[test]
fn insta_ugly_hashmaps() -> serde_kdl::Result {
    let string_map = Value::Mapping(vec![
        (Value::Str("one".to_string()), Value::U32(1)),
        (Value::Str("two".to_string()), Value::U32(2)),
    ]);
    assert_eq!(
        to_string_ugly(&string_map)?,
        "- { - { key r\"one\"; value 1; }; - { key r\"two\"; value 2; }; }"
    );
    let object_map = Value::Mapping(vec![
        (struct_struct(1), struct_tuple(2, 3)),
        (struct_struct(4), struct_tuple(5, 6)),
    ]);
    assert_eq!(
        to_string_ugly(&object_map)?,
        "- { - { key { field 1; }; value { - 2; - 3; }; }; - { key { field 4; }; value { - 5; - 6; }; }; }"
    );
    Ok(())
}
