use serde_kdl::text::{
    push_bytes, push_hashes, push_name, push_quoted, push_raw_string, push_signed, push_unsigned,
};

#[test]
fn unsigned_in_decimal() {
    let mut s = String::from("n=");
    push_unsigned(&mut s, 0);
    assert_eq!(s, "n=0");
    push_unsigned(&mut s, 9);
    push_unsigned(&mut s, 10);
    push_unsigned(&mut s, 120_034);
    assert_eq!(s, "n=0910120034");
    let mut t = String::new();
    push_unsigned(&mut t, u128::MAX);
    assert_eq!(t, "340282366920938463463374607431768211455");
}

#[test]
fn signed_in_decimal() {
    let mut s = String::new();
    push_signed(&mut s, 0);
    push_signed(&mut s, -1);
    push_signed(&mut s, 42);
    assert_eq!(s, "0-142");
    let mut t = String::new();
    push_signed(&mut t, i128::MIN);
    assert_eq!(t, "-170141183460469231731687303715884105728");
}

#[test]
fn hashes_are_appended() {
    let mut s = String::from("r");
    push_hashes(&mut s, 0);
    assert_eq!(s, "r");
    push_hashes(&mut s, 3);
    assert_eq!(s, "r###");
}

#[test]
fn raw_string_of_each_fence() {
    let mut s = String::new();
    push_raw_string(&mut s, "plain");
    assert_eq!(s, "r\"plain\"");
    let mut s = String::new();
    push_raw_string(&mut s, "a\"b");
    assert_eq!(s, "r#\"a\"b\"#");
    let mut s = String::new();
    push_raw_string(&mut s, "\"##");
    assert_eq!(s, "r###\"\"##\"###");
}

#[test]
fn name_bare_or_quoted() {
    let mut s = String::new();
    push_name(&mut s, "node");
    push_name(&mut s, "two words");
    push_name(&mut s, "true");
    assert_eq!(s, "noder\"two words\"r\"true\"");
}

#[test]
fn quoted_keeps_what_is_inside() {
    let mut s = String::from("x ");
    push_quoted(&mut s, "S0RM");
    assert_eq!(s, "x \"S0RM\"");
    push_quoted(&mut s, "");
    assert_eq!(s, "x \"S0RM\"\"\"");
}

#[test]
fn bytes_are_encoded_before_they_are_quoted() {
    let mut s = String::new();
    push_bytes(&mut s, b"KDL");
    assert_eq!(s, "\"S0RM\"");
    let mut s = String::new();
    push_bytes(&mut s, &[0u8; 4]);
    assert_eq!(s, "\"AAAAAA==\"");
    let mut s = String::new();
    push_bytes(&mut s, &[0xff, 0xef]);
    assert_eq!(s, "\"/+8=\"");
}
