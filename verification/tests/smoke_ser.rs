use serde_kdl::ser::{to_string, to_string_ugly};
use serde_kdl::value::Value;

fn enum_unit() -> Value {
    Value::UnitVariant("Enum", 0, "Unit")
}

fn enum_newtype(v: i32) -> Value {
    Value::NewtypeVariant("Enum", 1, "Newtype", Box::new(Value::I32(v)))
}

fn enum_tuple(a: i32, b: i32) -> Value {
    Value::TupleVariant("Enum", 2, "Tuple", vec![Value::I32(a), Value::I32(b)])
}

fn enum_struct(field: i32) -> Value {
    Value::StructVariant("Enum", 3, "Struct", vec![("field", Value::I32(field))])
}

fn struct_unit() -> Value {
    Value::UnitStruct("Unit")
}

fn struct_newtype(v: i32) -> Value {
    Value::NewtypeStruct("Newtype", Box::new(Value::I32(v)))
}

fn struct_tuple(a: i32, b: i32) -> Value {
    Value::TupleStruct("Tuple", vec![Value::I32(a), Value::I32(b)])
}

fn struct_struct(field: i32) -> Value {
    Value::Struct("Struct", vec![("field", Value::I32(field))])
}

fn string_map() -> Value {
    Value::Mapping(vec![
        (Value::Str("one".to_string()), Value::U32(1)),
        (Value::Str("two".to_string()), Value::U32(2)),
    ])
}

fn object_map() -> Value {
    Value::Mapping(vec![
        (struct_struct(1), struct_tuple(2, 3)),
        (struct_struct(4), struct_tuple(5, 6)),
    ])
}

#[test]
fn smoke_ser_ugly_primitives() -> serde_kdl::Result {
    assert_eq!(to_string_ugly(&Value::Bool(true))?, "- true");
    assert_eq!(to_string_ugly(&Value::U32(0u32))?, "- 0");
    assert_eq!(to_string_ugly(&Value::I32(0i32))?, "- 0");
    assert_eq!(to_string_ugly(&Value::Float(format!("{}", 0f32)))?, "- 0");
    assert_eq!(to_string_ugly(&Value::Str("Hello".to_string()))?, "- r\"Hello\"");
    assert_eq!(to_string_ugly(&Value::Bytes(b"KDL".to_vec()))?, "- \"S0RM\"");
    assert_eq!(to_string_ugly(&Value::Char('\u{1F980}'))?, "- r\"\u{1F980}\"");
    assert_eq!(to_string_ugly(&Value::Unit)?, "- null");
    assert_eq!(to_string_ugly(&Value::Present(Box::new(Value::I32(0))))?, "- 0");
    assert_eq!(to_string_ugly(&Value::Absent)?, "- null");
    Ok(())
}

#[test]
fn human_primitives() -> serde_kdl::Result {
    assert_eq!(to_string(&Value::Bool(true))?, "\n- true");
    assert_eq!(to_string(&Value::U32(0u32))?, "\n- 0");
    assert_eq!(to_string(&Value::I32(0i32))?, "\n- 0");
    assert_eq!(to_string(&Value::Float(format!("{}", 0f32)))?, "\n- 0");
    assert_eq!(to_string(&Value::Str("Hello".to_string()))?, "\n- r\"Hello\"");
    assert_eq!(to_string(&Value::Bytes(b"KDL".to_vec()))?, "\n- \"S0RM\"");
    assert_eq!(to_string(&Value::Char('\u{1F980}'))?, "\n- r\"\u{1F980}\"");
    assert_eq!(to_string(&Value::Unit)?, "\n- null");
    assert_eq!(to_string(&Value::Present(Box::new(Value::I32(0))))?, "\n- 0");
    assert_eq!(to_string(&Value::Absent)?, "\n- null");
    Ok(())
}

#[test]
fn smoke_ser_ugly_variants() -> serde_kdl::Result {
    assert_eq!(to_string_ugly(&enum_unit())?, "(Unit)- null");
    assert_eq!(to_string_ugly(&enum_newtype(0))?, "(Newtype)- 0");
    assert_eq!(to_string_ugly(&enum_tuple(0, 0))?, "(Tuple)- { - 0; - 0; }");
    assert_eq!(to_string_ugly(&enum_struct(0))?, "(Struct)- { field 0; }");
    Ok(())
}

#[test]
fn human_variants() -> serde_kdl::Result {
    assert_eq!(to_string(&enum_unit())?, "\n(Unit)- null");
    assert_eq!(to_string(&enum_newtype(0))?, "\n(Newtype)- 0");
    assert_eq!(to_string(&enum_tuple(0, 0))?, "\n(Tuple)- {\n    - 0\n    - 0\n}");
    assert_eq!(to_string(&enum_struct(0))?, "\n(Struct)- {\n    field 0\n}");
    Ok(())
}

#[test]
fn smoke_ser_ugly_structs() -> serde_kdl::Result {
    assert_eq!(to_string_ugly(&struct_unit())?, "- null");
    assert_eq!(to_string_ugly(&struct_newtype(0))?, "- 0");
    assert_eq!(to_string_ugly(&struct_tuple(0, 0))?, "- { - 0; - 0; }");
    assert_eq!(to_string_ugly(&struct_struct(0))?, "- { field 0; }");
    Ok(())
}

#[test]
fn human_structs() -> serde_kdl::Result {
    assert_eq!(to_string(&struct_unit())?, "\n- null");
    assert_eq!(to_string(&struct_newtype(0))?, "\n- 0");
    assert_eq!(to_string(&struct_tuple(0, 0))?, "\n- 0\n- 0\n");
    assert_eq!(to_string(&struct_struct(0))?, "\nfield 0\n");
    Ok(())
}

#[test]
fn smoke_ser_ugly_hashmaps() -> serde_kdl::Result {
    assert_eq!(
        to_string_ugly(&string_map())?,
        "- { - { key r\"one\"; value 1; }; - { key r\"two\"; value 2; }; }"
    );
    assert_eq!(
        to_string_ugly(&object_map())?,
        "- { - { key { field 1; }; value { - 2; - 3; }; }; - { key { field 4; }; value { - 5; - 6; }; }; }"
    );
    Ok(())
}

#[test]
fn human_hashmaps() -> serde_kdl::Result {
    assert_eq!(
        to_string(&string_map())?,
        "\n- {\n    key r\"one\"\n    value 1\n}\n- {\n    key r\"two\"\n    value 2\n}\n"
    );
    assert_eq!(
        to_string(&object_map())?,
        "\n- {\n    key {\n        field 1\n    }\n    value {\n        - 2\n        - 3\n    }\n}\n- {\n    key {\n        field 4\n    }\n    value {\n        - 5\n        - 6\n    }\n}\n"
    );
    Ok(())
}
