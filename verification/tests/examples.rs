use serde_kdl::ser::to_string;
use serde_kdl::value::Value;

fn text(s: &str) -> Value {
    Value::Str(s.to_string())
}

#[test]
fn cargo() {
    let package = Value::Struct(
        "CargoPackage",
        vec![
            ("name", text("kdl")),
            ("version", text("0.0.0")),
            ("edition", text("2018")),
            ("authors", Value::Sequence(vec![text("Kat March\u{e1}n <kzm@zkat.tech>")])),
            ("description", text("kat's document language")),
            ("license-file", text("LICENSE.md")),
        ],
    );
    let dependencies = Value::Mapping(vec![
        (text("nom"), text("6.0.1")),
        (text("thiserror"), text("1.0.22")),
    ]);
    let manifest = Value::Struct(
        "CargoManifest",
        vec![("package", package), ("dependencies", dependencies)],
    );

    let expected = "
package {
    name r\"kdl\"
    version r\"0.0.0\"
    edition r\"2018\"
    authors {
        - r\"Kat March\u{e1}n <kzm@zkat.tech>\"
    }
    description r\"kat's document language\"
    license-file r\"LICENSE.md\"
}
dependencies {
    - {
        key r\"nom\"
        value r\"6.0.1\"
    }
    - {
        key r\"thiserror\"
        value r\"1.0.22\"
    }
}
";
    assert_eq!(to_string(&manifest).unwrap(), expected);
}
