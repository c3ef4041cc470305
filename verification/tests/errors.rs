use serde_kdl::error::Error;

#[test]
fn custom_error_carries_its_message() {
    let e = Error::custom("no such thing");
    assert!(matches!(&e, Error::Custom(m) if m == "no such thing"));
    assert_eq!(e.message(), "no such thing");
}

#[test]
fn io_error_is_wrapped() {
    let e = Error::from(std::io::Error::new(std::io::ErrorKind::Other, "disk full"));
    assert!(matches!(&e, Error::IO(inner) if inner.kind() == std::io::ErrorKind::Other));
    assert_eq!(e.message(), "IO error");
}

#[test]
fn empty_message_is_kept() {
    assert_eq!(Error::custom("").message(), "");
}
