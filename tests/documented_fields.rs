use documented::config::{Directive, OptionValue};
use documented::decl::{Attr, MemberDecl};
use documented::error::Error;
use documented::lookup::{documented_fields, Shape};

fn doc(s: &str) -> Attr {
    Attr::Doc(s.to_string())
}

fn field(name: &str, attrs: Vec<Attr>) -> MemberDecl {
    MemberDecl { name: Some(name.to_string()), attrs }
}

fn unnamed(attrs: Vec<Attr>) -> MemberDecl {
    MemberDecl { name: None, attrs }
}

fn trim(b: bool) -> Attr {
    Attr::Config(vec![Directive { key: "trim".to_string(), value: OptionValue::Bool(b) }])
}

fn default_text(s: &str) -> Attr {
    Attr::Config(vec![Directive {
        key: "default".to_string(),
        value: OptionValue::Str(s.to_string()),
    }])
}

fn ok(s: &str) -> Result<String, Error> {
    Ok(s.to_string())
}

#[test]
fn it_works() {
    let foo = documented_fields(
        Shape::Struct,
        &vec![],
        &vec![field("first", vec![doc(" 1")]), field("second", vec![doc(" 2")])],
    )
    .unwrap();

    assert_eq!(foo.field_docs().len(), 2);
    assert_eq!(foo.get_field_docs("first"), ok("1"));
    assert_eq!(foo.get_field_docs("second"), ok("2"));
    assert_eq!(foo.get_field_docs("third"), Err(Error::NoSuchField("third".into())));
}

#[test]
fn enum_works() {
    let bar = documented_fields(
        Shape::Enum,
        &vec![],
        &vec![field("First", vec![doc(" 1")]), field("Second", vec![doc(" 2")])],
    )
    .unwrap();

    assert_eq!(bar.field_docs().len(), 2);
    assert_eq!(bar.get_field_docs("First"), ok("1"));
    assert_eq!(bar.get_field_docs("Second"), ok("2"));
    assert_eq!(bar.get_field_docs("Third"), Err(Error::NoSuchField("Third".into())));
}

#[test]
fn union_works() {
    let foo_bar = documented_fields(
        Shape::Union,
        &vec![],
        &vec![field("first", vec![doc(" 1")]), field("second", vec![doc(" 2")])],
    )
    .unwrap();

    assert_eq!(foo_bar.field_docs().len(), 2);
    assert_eq!(foo_bar.get_field_docs("first"), ok("1"));
    assert_eq!(foo_bar.get_field_docs("second"), ok("2"));
}

#[test]
fn unnamed_fields() {
    let foo = documented_fields(
        Shape::Struct,
        &vec![],
        &vec![unnamed(vec![doc(" 0")]), unnamed(vec![doc(" 1")]), unnamed(vec![doc(" 2")])],
    )
    .unwrap();

    assert_eq!(foo.field_docs().len(), 3);
    assert_eq!(foo.field_docs()[0], Some("0".to_string()));
    assert_eq!(foo.field_docs()[1], Some("1".to_string()));
    assert_eq!(foo.field_docs()[2], Some("2".to_string()));
}

#[test]
fn generic_type_works() {
    let foo = documented_fields(Shape::Struct, &vec![], &vec![field("foo", vec![doc(" foo")])]).unwrap();

    assert_eq!(foo.get_field_docs("foo"), ok("foo"));
}

#[test]
fn generic_type_with_bounds_works() {
    let foo = documented_fields(Shape::Struct, &vec![], &vec![field("foo", vec![doc(" foo")])]).unwrap();

    assert_eq!(foo.get_field_docs("foo"), ok("foo"));
}

#[test]
fn const_generic_type_works() {
    let foo = documented_fields(Shape::Struct, &vec![], &vec![field("foo", vec![doc(" foo")])]).unwrap();

    assert_eq!(foo.get_field_docs("foo"), ok("foo"));
}

#[test]
fn lifetimed_type_works() {
    let foo = documented_fields(Shape::Struct, &vec![], &vec![field("foo", vec![doc(" foo")])]).unwrap();

    assert_eq!(foo.get_field_docs("foo"), ok("foo"));
}

#[test]
fn empty_customise_works() {
    let doge = documented_fields(
        Shape::Struct,
        &vec![Attr::Config(vec![])],
        &vec![field("coin", vec![doc(" Wow, much coin")])],
    )
    .unwrap();

    assert_eq!(doge.get_field_docs("coin"), ok("Wow, much coin"));
}

#[test]
fn multiple_attrs_works() {
    let doge = documented_fields(
        Shape::Struct,
        &vec![Attr::Config(vec![]), Attr::Config(vec![])],
        &vec![field(
            "coin",
            vec![doc(" Wow, much coin"), Attr::Config(vec![]), Attr::Config(vec![])],
        )],
    )
    .unwrap();

    assert_eq!(doge.get_field_docs("coin"), ok("Wow, much coin"));
}

#[test]
fn container_customise_works() {
    let doge = documented_fields(
        Shape::Struct,
        &vec![trim(false)],
        &vec![
            field("coin", vec![doc("     Wow, much coin")]),
            field("doge", vec![doc("     Wow, much doge")]),
        ],
    )
    .unwrap();

    assert_eq!(doge.get_field_docs("coin"), ok("     Wow, much coin"));
    assert_eq!(doge.get_field_docs("doge"), ok("     Wow, much doge"));
}

#[test]
fn field_customise_works() {
    let doge = documented_fields(
        Shape::Struct,
        &vec![],
        &vec![
            field("coin", vec![doc("     Wow, much coin"), trim(false)]),
            field("doge", vec![doc("     Wow, much doge")]),
        ],
    )
    .unwrap();

    assert_eq!(doge.get_field_docs("coin"), ok("     Wow, much coin"));
    assert_eq!(doge.get_field_docs("doge"), ok("Wow, much doge"));
}

#[test]
fn field_customise_override_works() {
    let doge = documented_fields(
        Shape::Struct,
        &vec![trim(false)],
        &vec![
            field("coin", vec![doc("     Wow, much coin"), trim(true)]),
            field("doge", vec![doc("     Wow, much doge")]),
        ],
    )
    .unwrap();

    assert_eq!(doge.get_field_docs("coin"), ok("Wow, much coin"));
    assert_eq!(doge.get_field_docs("doge"), ok("     Wow, much doge"));
}

#[test]
fn default_works() {
    let mission = documented_fields(
        Shape::Enum,
        &vec![default_text("Woosh")],
        &vec![
            field("Launch", vec![doc(" Rumble")]),
            field("Boost", vec![]),
            field("Touchdown", vec![default_text("Boom")]),
        ],
    )
    .unwrap();

    assert_eq!(mission.get_field_docs("Launch"), ok("Rumble"));
    assert_eq!(mission.get_field_docs("Boost"), ok("Woosh"));
    assert_eq!(mission.get_field_docs("Touchdown"), ok("Boom"));
}
