use serde_kdl::compact::SimpleFormatter;
use serde_kdl::format::Format;
use serde_kdl::human::HumanFormatter;
use serde_kdl::ser::{
    to_string, to_string_ugly, to_string_ugly_with_options, to_string_with_options, to_vec_ugly,
};
use serde_kdl::value::{MapFormat, Options, Value};
use serde_kdl::Serializer;

fn text(s: &str) -> Value {
    Value::Str(s.to_string())
}

fn options() -> Options {
    Options::default()
}

fn one_two() -> Value {
    Value::Mapping(vec![(text("one"), Value::I32(1)), (text("two"), Value::I32(2))])
}

#[test]
fn default_options_choose_no_variant() {
    let opt = Options::default();
    assert!(!opt.option_as_enum);
    assert!(!opt.unit_as_tuple);
    assert!(!opt.newtype_as_tuple);
    assert!(!opt.force_root_node);
    assert_eq!(opt.map_format, MapFormat::Infer);
}

#[test]
fn true_alone_and_under_a_name() {
    assert_eq!(to_string_ugly(&Value::Bool(true)).unwrap(), "- true");
    assert_eq!(to_string_ugly(&Value::Bool(false)).unwrap(), "- false");
    let named = Value::Struct("Flags", vec![("on", Value::Bool(true))]);
    assert_eq!(to_string_ugly(&named).unwrap(), "- { on true; }");
}

#[test]
fn named_group_with_list_keeps_field_order() {
    let value = Value::Struct(
        "Package",
        vec![
            ("name", text("kdl")),
            ("version", text("0.0.0")),
            ("authors", Value::Sequence(vec![text("a"), text("b")])),
        ],
    );
    assert_eq!(
        to_string(&value).unwrap(),
        "\nname r\"kdl\"\nversion r\"0.0.0\"\nauthors {\n    - r\"a\"\n    - r\"b\"\n}\n"
    );
    assert_eq!(
        to_string_ugly(&value).unwrap(),
        "- { name r\"kdl\"; version r\"0.0.0\"; authors { - r\"a\"; - r\"b\"; }; }"
    );
}

#[test]
fn map_inferred() {
    let opt = options();
    assert_eq!(
        to_string_ugly_with_options(&one_two(), opt).unwrap(),
        "- { - { key r\"one\"; value 1; }; - { key r\"two\"; value 2; }; }"
    );
    assert_eq!(
        to_string_with_options(&one_two(), opt).unwrap(),
        "\n- {\n    key r\"one\"\n    value 1\n}\n- {\n    key r\"two\"\n    value 2\n}\n"
    );
}

#[test]
fn map_flattened() {
    let mut opt = options();
    opt.map_format = MapFormat::Tuple;
    assert_eq!(
        to_string_ugly_with_options(&one_two(), opt).unwrap(),
        "- { - { - r\"one\"; - 1; }; - { - r\"two\"; - 2; }; }"
    );
    assert_eq!(
        to_string_with_options(&one_two(), opt).unwrap(),
        "\n- {\n    - r\"one\"\n    - 1\n}\n- {\n    - r\"two\"\n    - 2\n}\n"
    );
}

#[test]
fn map_as_fields() {
    let mut opt = options();
    opt.map_format = MapFormat::Struct;
    assert_eq!(
        to_string_ugly_with_options(&one_two(), opt).unwrap(),
        "- { key r\"one\"; value 1; key r\"two\"; value 2; }"
    );
    assert_eq!(
        to_string_with_options(&one_two(), opt).unwrap(),
        "\nkey r\"one\"\nvalue 1\nkey r\"two\"\nvalue 2\n"
    );
}

#[test]
fn empty_groups() {
    assert_eq!(to_string_ugly(&Value::Sequence(vec![])).unwrap(), "- { }");
    assert_eq!(to_string_ugly(&Value::Mapping(vec![])).unwrap(), "- { }");
    assert_eq!(to_string_ugly(&Value::Struct("S", vec![])).unwrap(), "- { }");
    assert_eq!(to_string(&Value::Tuple(vec![])).unwrap(), "\n");
}

#[test]
fn option_as_enum() {
    let mut opt = options();
    opt.option_as_enum = true;
    assert_eq!(to_string_ugly_with_options(&Value::Absent, opt).unwrap(), "(None)- null");
    let some = Value::Present(Box::new(Value::I32(7)));
    assert_eq!(to_string_ugly_with_options(&some, opt).unwrap(), "(Some)- 7");
    assert_eq!(to_string_with_options(&some, opt).unwrap(), "\n(Some)- 7");
    opt.newtype_as_tuple = true;
    assert_eq!(to_string_ugly_with_options(&some, opt).unwrap(), "(Some)- { - 7; }");
    opt.unit_as_tuple = true;
    assert_eq!(to_string_ugly_with_options(&Value::Absent, opt).unwrap(), "(None)- { }");
}

#[test]
fn unit_as_tuple() {
    let mut opt = options();
    opt.unit_as_tuple = true;
    assert_eq!(to_string_ugly_with_options(&Value::Unit, opt).unwrap(), "- { }");
    assert_eq!(to_string_ugly_with_options(&Value::UnitStruct("U"), opt).unwrap(), "- { }");
    assert_eq!(
        to_string_ugly_with_options(&Value::UnitVariant("E", 0, "A"), opt).unwrap(),
        "(A)- { }"
    );
    assert_eq!(to_string_ugly_with_options(&Value::Absent, opt).unwrap(), "- null");
    assert_eq!(to_string_with_options(&Value::Unit, opt).unwrap(), "\n");
    assert_eq!(
        to_string_with_options(&Value::UnitVariant("E", 0, "A"), opt).unwrap(),
        "\n(A)- {\n}"
    );
}

#[test]
fn newtype_as_tuple() {
    let mut opt = options();
    opt.newtype_as_tuple = true;
    let wrapped = Value::NewtypeStruct("Meters", Box::new(Value::U8(3)));
    assert_eq!(to_string_ugly_with_options(&wrapped, opt).unwrap(), "- { - 3; }");
    let variant = Value::NewtypeVariant("E", 1, "N", Box::new(Value::U8(3)));
    assert_eq!(to_string_ugly_with_options(&variant, opt).unwrap(), "(N)- { - 3; }");
    assert_eq!(to_string_with_options(&variant, opt).unwrap(), "\n(N)- {\n    - 3\n}");
}

#[test]
fn forced_root_node() {
    let mut opt = options();
    opt.force_root_node = true;
    let value = Value::Struct("S", vec![("field", Value::I32(0))]);
    assert_eq!(to_string_with_options(&value, opt).unwrap(), "\n- {\n    field 0\n}");
    assert_eq!(to_string_with_options(&Value::I32(0), opt).unwrap(), "\n- 0");
    assert_eq!(to_string_ugly_with_options(&value, opt).unwrap(), "- { field 0; }");
    opt.force_root_node = false;
    assert_eq!(to_string_with_options(&value, opt).unwrap(), "\nfield 0\n");
}

#[test]
fn integers_of_every_width() {
    assert_eq!(to_string_ugly(&Value::U8(255)).unwrap(), "- 255");
    assert_eq!(to_string_ugly(&Value::U16(65535)).unwrap(), "- 65535");
    assert_eq!(to_string_ugly(&Value::U32(4294967295)).unwrap(), "- 4294967295");
    assert_eq!(to_string_ugly(&Value::U64(u64::MAX)).unwrap(), "- 18446744073709551615");
    assert_eq!(
        to_string_ugly(&Value::U128(u128::MAX)).unwrap(),
        "- 340282366920938463463374607431768211455"
    );
    assert_eq!(to_string_ugly(&Value::I8(-128)).unwrap(), "- -128");
    assert_eq!(to_string_ugly(&Value::I16(-32768)).unwrap(), "- -32768");
    assert_eq!(to_string_ugly(&Value::I32(i32::MIN)).unwrap(), "- -2147483648");
    assert_eq!(to_string_ugly(&Value::I64(i64::MIN)).unwrap(), "- -9223372036854775808");
    assert_eq!(
        to_string_ugly(&Value::I128(i128::MIN)).unwrap(),
        "- -170141183460469231731687303715884105728"
    );
    assert_eq!(
        to_string_ugly(&Value::I128(i128::MAX)).unwrap(),
        "- 170141183460469231731687303715884105727"
    );
    assert_eq!(to_string_ugly(&Value::I64(-1)).unwrap(), "- -1");
    assert_eq!(to_string_ugly(&Value::U64(10)).unwrap(), "- 10");
    assert_eq!(to_string_ugly(&Value::U64(1009)).unwrap(), "- 1009");
    assert_eq!(to_string(&Value::I16(-40)).unwrap(), "\n- -40");
}

#[test]
fn floats_by_their_text() {
    assert_eq!(to_string_ugly(&Value::Float(format!("{}", 1.5f64))).unwrap(), "- 1.5");
    assert_eq!(to_string_ugly(&Value::Float(format!("{}", -0.25f32))).unwrap(), "- -0.25");
    assert_eq!(to_string(&Value::Float(format!("{}", 2f64))).unwrap(), "\n- 2");
}

#[test]
fn strings_get_the_fence_they_need() {
    assert_eq!(to_string_ugly(&text("")).unwrap(), "- r\"\"");
    assert_eq!(to_string_ugly(&text("say \"hi\"")).unwrap(), "- r#\"say \"hi\"\"#");
    assert_eq!(to_string_ugly(&text("a\"#b")).unwrap(), "- r##\"a\"#b\"##");
    assert_eq!(to_string_ugly(&text("###")).unwrap(), "- r\"###\"");
    assert_eq!(to_string_ugly(&text("back\\slash\n")).unwrap(), "- r\"back\\slash\n\"");
    assert_eq!(to_string_ugly(&Value::Char('"')).unwrap(), "- r#\"\"\"#");
    assert_eq!(to_string_ugly(&Value::Char('x')).unwrap(), "- r\"x\"");
}

#[test]
fn bytes_in_base64() {
    assert_eq!(to_string_ugly(&Value::Bytes(vec![])).unwrap(), "- \"\"");
    assert_eq!(to_string_ugly(&Value::Bytes(b"K".to_vec())).unwrap(), "- \"Sw==\"");
    assert_eq!(to_string_ugly(&Value::Bytes(b"KD".to_vec())).unwrap(), "- \"S0Q=\"");
    assert_eq!(to_string_ugly(&Value::Bytes(b"KDL".to_vec())).unwrap(), "- \"S0RM\"");
    assert_eq!(to_string_ugly(&Value::Bytes(vec![0xfb, 0xff, 0xfe])).unwrap(), "- \"+//+\"");
    assert_eq!(to_string(&Value::Bytes(b"hello world".to_vec())).unwrap(), "\n- \"aGVsbG8gd29ybGQ=\"");
}

#[test]
fn names_that_cannot_stand_bare_are_quoted() {
    let value = Value::Struct(
        "S",
        vec![("my field", Value::I32(1)), ("null", Value::I32(2)), ("9th", Value::I32(3))],
    );
    assert_eq!(
        to_string_ugly(&value).unwrap(),
        "- { r\"my field\" 1; r\"null\" 2; r\"9th\" 3; }"
    );
    let variant = Value::UnitVariant("E", 0, "a\"b");
    assert_eq!(to_string_ugly(&variant).unwrap(), "(r#\"a\"b\"#)- null");
    assert_eq!(to_string(&variant).unwrap(), "\n(r#\"a\"b\"#)- null");
}

#[test]
fn variant_names_are_always_written() {
    let tuple = Value::TupleVariant("Enum", 2, "Tuple", vec![Value::I32(1), Value::I32(2)]);
    let group = Value::StructVariant("Enum", 3, "Struct", vec![("field", Value::I32(1))]);
    assert_eq!(to_string_ugly(&tuple).unwrap(), "(Tuple)- { - 1; - 2; }");
    assert_eq!(to_string_ugly(&group).unwrap(), "(Struct)- { field 1; }");
    assert_eq!(to_string(&tuple).unwrap(), "\n(Tuple)- {\n    - 1\n    - 2\n}");
    assert_eq!(to_string(&group).unwrap(), "\n(Struct)- {\n    field 1\n}");
    let inside = Value::Struct("S", vec![("choice", tuple)]);
    assert_eq!(to_string_ugly(&inside).unwrap(), "- { (Tuple)choice { - 1; - 2; }; }");
    assert_eq!(
        to_string(&inside).unwrap(),
        "\n(Tuple)choice {\n    - 1\n    - 2\n}\n"
    );
}

#[test]
fn encoding_twice_gives_the_same_text() {
    let value = Value::Struct(
        "S",
        vec![("map", one_two()), ("bytes", Value::Bytes(vec![1, 2, 3])), ("n", Value::Absent)],
    );
    assert_eq!(to_string_ugly(&value).unwrap(), to_string_ugly(&value).unwrap());
    assert_eq!(to_string(&value).unwrap(), to_string(&value).unwrap());
    assert_eq!(to_vec_ugly(&value).unwrap(), to_vec_ugly(&value).unwrap());
}

#[test]
fn bytes_of_the_compact_text() {
    let value = Value::Tuple(vec![text("Kat March\u{e1}n"), Value::Char('\u{1F980}')]);
    assert_eq!(to_vec_ugly(&value).unwrap(), to_string_ugly(&value).unwrap().into_bytes());
    assert_eq!(to_vec_ugly(&Value::Bool(true)).unwrap(), b"- true".to_vec());
}

#[test]
fn variant_inside_transparent_newtype_variant_cannot_be_encoded() {
    let inner = Value::UnitVariant("E", 0, "A");
    let outer = Value::NewtypeVariant("F", 0, "B", Box::new(inner));
    let mut opt = options();
    assert!(!outer.is_encodable(&opt));
    assert!(outer.sets_annotation(&opt));
    opt.newtype_as_tuple = true;
    assert!(outer.is_encodable(&opt));
    assert_eq!(to_string_ugly_with_options(&outer, opt).unwrap(), "(B)- { (A)- null; }");
}

#[test]
fn encodable_looks_inside_groups_and_wrappers() {
    let bad = Value::NewtypeVariant(
        "F",
        0,
        "B",
        Box::new(Value::NewtypeStruct("N", Box::new(Value::UnitVariant("E", 0, "A")))),
    );
    let opt = options();
    assert!(!bad.is_encodable(&opt));
    assert!(!Value::Sequence(vec![Value::I32(1), bad]).is_encodable(&opt));
    let bad_key = Value::NewtypeVariant("F", 0, "B", Box::new(Value::UnitVariant("E", 0, "A")));
    assert!(!Value::Mapping(vec![(bad_key, Value::Unit)]).is_encodable(&opt));
    let bad_field = Value::NewtypeVariant("F", 0, "B", Box::new(Value::UnitVariant("E", 0, "A")));
    assert!(!Value::Struct("S", vec![("f", bad_field)]).is_encodable(&opt));
    let fine = Value::NewtypeVariant(
        "F",
        0,
        "B",
        Box::new(Value::Tuple(vec![Value::UnitVariant("E", 0, "A")])),
    );
    assert!(fine.is_encodable(&opt));
    assert_eq!(to_string_ugly(&fine).unwrap(), "(B)- { (A)- null; }");
}

#[test]
fn optional_variant_under_option_as_enum() {
    let value = Value::Present(Box::new(Value::UnitVariant("E", 0, "A")));
    let mut opt = options();
    assert!(value.is_encodable(&opt));
    assert!(value.sets_annotation(&opt));
    assert_eq!(to_string_ugly_with_options(&value, opt).unwrap(), "(A)- null");
    opt.option_as_enum = true;
    assert!(!value.is_encodable(&opt));
    assert!(Value::Absent.sets_annotation(&opt));
    assert!(!Value::Unit.sets_annotation(&opt));
}

#[test]
fn session_by_hand() {
    let ser = Serializer::new(String::from("node "), SimpleFormatter::new());
    assert!(ser.is_human_readable());
    let tuple = ser.serialize_tuple_struct("Pair", 2);
    let tuple = tuple.serialize_element(&Value::U8(1));
    let tuple = tuple.serialize_field(&text("x"));
    let ser = tuple.end();
    assert_eq!(ser.into_sink(), "node - { - 1; - r\"x\"; }");
}

#[test]
fn map_session_by_hand() {
    let mut opt = options();
    opt.map_format = MapFormat::Tuple;
    let ser = Serializer::new_with_options(String::new(), SimpleFormatter::default(), opt);
    let map = ser.serialize_map(Some(1));
    let map = map.serialize_key(&Value::U8(1));
    let map = map.serialize_value(&Value::U8(2));
    let ser = map.end();
    assert_eq!(ser.into_sink(), "- { - { - 1; - 2; }; }");
}

#[test]
fn struct_session_by_hand() {
    let ser = Serializer::new(String::new(), HumanFormatter::default());
    let group = ser.serialize_struct_variant("E", 0, "V", 1);
    let group = group.serialize_field("a", &Value::Bool(false));
    let ser = group.end();
    let ser = ser.serialize_str("after");
    assert_eq!(ser.into_sink(), "\n(V)- {\n    a false\n}\nr\"after\"");
}

#[test]
fn scalar_steps_of_a_session() {
    let ser = Serializer::new(String::new(), SimpleFormatter::new());
    let ser = ser.serialize_unit_variant("E", 0, "V");
    let ser = ser.serialize_none();
    let ser = ser.serialize_char('c');
    let ser = ser.serialize_bytes(b"KDL");
    let ser = ser.serialize_float("0.5");
    let ser = ser.serialize_i8(-1).serialize_i16(-2).serialize_i32(-3).serialize_i64(-4);
    let ser = ser.serialize_i128(-5).serialize_u8(1).serialize_u16(2).serialize_u32(3);
    let ser = ser.serialize_u64(4).serialize_u128(5).serialize_bool(true);
    let ser = ser.serialize_unit_struct("U").serialize_unit();
    assert_eq!(
        ser.into_sink(),
        "(V)- nullnullr\"c\"\"S0RM\"0.5-1-2-3-4-512345truenullnull"
    );
}

#[test]
fn compact_formatter_step_by_step() {
    let mut fmt = SimpleFormatter::new();
    let mut s = String::new();
    fmt.provide_type_annotation(&mut s, "Ignored");
    fmt.require_type_annotation(&mut s, "Shown");
    fmt.begin_map(&mut s);
    fmt.begin_key(&mut s);
    fmt.write_u8(&mut s, 1);
    fmt.end_key(&mut s);
    fmt.begin_value(&mut s);
    fmt.write_null(&mut s);
    fmt.end_value(&mut s);
    fmt.end_map(&mut s);
    assert_eq!(s, "(Shown)- { - { key 1; value null; }; }");
}

#[test]
fn compact_formatter_tuples_and_structs() {
    let mut fmt = SimpleFormatter::new();
    let mut s = String::new();
    fmt.begin_struct(&mut s);
    fmt.begin_field(&mut s, "pair");
    fmt.begin_tuple(&mut s);
    fmt.begin_element(&mut s);
    fmt.write_bool(&mut s, true);
    fmt.end_element(&mut s);
    fmt.begin_element(&mut s);
    fmt.write_i32(&mut s, -2);
    fmt.end_element(&mut s);
    fmt.end_tuple(&mut s);
    fmt.end_field(&mut s);
    fmt.end_struct(&mut s);
    assert_eq!(s, "- { pair { - true; - -2; }; }");
}

#[test]
fn human_formatter_step_by_step() {
    let mut fmt = HumanFormatter::new();
    let mut s = String::new();
    fmt.begin_struct(&mut s);
    assert_eq!(s, "");
    fmt.begin_field(&mut s, "a");
    fmt.begin_tuple(&mut s);
    assert_eq!(s, "\na {");
    fmt.begin_element(&mut s);
    fmt.write_string(&mut s, "x");
    fmt.end_element(&mut s);
    fmt.end_tuple(&mut s);
    assert_eq!(s, "\na {\n    - r\"x\"\n}");
    fmt.end_field(&mut s);
    fmt.end_struct(&mut s);
    assert_eq!(s, "\na {\n    - r\"x\"\n}\n");
}

#[test]
fn human_formatter_map_entry() {
    let mut fmt = HumanFormatter::with_root_node();
    let mut s = String::new();
    fmt.begin_map(&mut s);
    fmt.begin_key(&mut s);
    fmt.write_u8(&mut s, 1);
    fmt.end_key(&mut s);
    fmt.begin_value(&mut s);
    fmt.write_null(&mut s);
    fmt.end_value(&mut s);
    fmt.end_map(&mut s);
    assert_eq!(s, "\n- {\n    - {\n        key 1\n        value null\n    }\n}");
}

#[test]
fn indentation_stops_at_its_ceiling() {
    let mut value = Value::I32(0);
    for _ in 0..70 {
        value = Value::Tuple(vec![value]);
    }
    let out = to_string(&value).unwrap();
    let widest = out.lines().map(|l| l.len() - l.trim_start().len()).max();
    assert_eq!(widest, Some(255));
    let shallowest_brace = out
        .lines()
        .filter(|l| l.trim_start() == "}")
        .map(|l| l.len())
        .min();
    assert_eq!(shallowest_brace, Some(4));
}

#[test]
fn indentation_steps_by_four() {
    let value = Value::Tuple(vec![Value::Tuple(vec![Value::Tuple(vec![Value::I32(0)])])]);
    assert_eq!(
        to_string(&value).unwrap(),
        "\n- {\n    - {\n        - 0\n    }\n}\n"
    );
}

fn nested(levels: usize) -> Value {
    let mut value = Value::I32(0);
    for _ in 0..levels {
        value = Value::Tuple(vec![value]);
    }
    value
}

fn braces(out: &str) -> (usize, usize) {
    let opened = out.lines().filter(|l| l.ends_with('{')).count();
    let closed = out.lines().filter(|l| l.trim_start() == "}").count();
    (opened, closed)
}

#[test]
fn layout_holds_up_to_sixty_three_groups() {
    let mut opt = options();
    opt.force_root_node = true;
    let out = to_string_with_options(&nested(63), opt).unwrap();
    assert_eq!(braces(&out), (63, 63));
    assert!(out.ends_with("\n}"));
    assert!(out.contains(&format!("\n{}- 0\n", " ".repeat(252))));
    let out = to_string(&nested(63)).unwrap();
    assert_eq!(braces(&out), (62, 62));
    assert!(out.ends_with("\n}\n"));
}

#[test]
fn layout_breaks_beyond_the_ceiling() {
    let mut opt = options();
    opt.force_root_node = true;
    let out = to_string_with_options(&nested(64), opt).unwrap();
    assert_eq!(braces(&out), (64, 63));
    assert!(out.contains(&format!("\n{}- 0\n", " ".repeat(255))));
}

#[test]
fn nesting_is_counted_in_groups() {
    let mut opt = options();
    assert!(Value::I32(0).nests_within(&opt, 0));
    assert!(Value::Unit.nests_within(&opt, 0));
    assert!(!nested(1).nests_within(&opt, 0));
    assert!(nested(1).nests_within(&opt, 1));
    assert!(nested(63).nests_within(&opt, 63));
    assert!(!nested(64).nests_within(&opt, 63));
    let wrapped = Value::NewtypeStruct("N", Box::new(nested(2)));
    assert!(wrapped.nests_within(&opt, 2));
    let map = Value::Mapping(vec![(Value::I32(1), nested(1)), (nested(3), Value::I32(2))]);
    assert!(!map.nests_within(&opt, 4));
    assert!(map.nests_within(&opt, 5));
    let group = Value::Struct("S", vec![("a", nested(1)), ("b", Value::I32(0))]);
    assert!(group.nests_within(&opt, 2));
    assert!(!group.nests_within(&opt, 1));
    opt.newtype_as_tuple = true;
    assert!(!wrapped.nests_within(&opt, 2));
    assert!(wrapped.nests_within(&opt, 3));
    opt.unit_as_tuple = true;
    assert!(!Value::Unit.nests_within(&opt, 0));
    assert!(Value::Absent.nests_within(&opt, 0));
    opt.option_as_enum = true;
    assert!(!Value::Absent.nests_within(&opt, 0));
    assert!(Value::Present(Box::new(Value::I32(0))).nests_within(&opt, 1));
    opt.map_format = MapFormat::Struct;
    assert!(map.nests_within(&opt, 4));
    assert!(!map.nests_within(&opt, 3));
}
