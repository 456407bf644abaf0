use documented::config::{resolve, Customisations, Directive, OptionValue, Visibility};
use documented::decl::{get_docs, member_docs, Attr, MemberDecl};
use documented::error::{AnalysisError, Error, ValueKind};
use documented::config::Config;
use documented::item::{binding_name_from, check_identifier, const_from_parts, docs_const, documented};
use documented::lookup::{documented_fields, documented_variants, Shape};
use documented::ordered::compare;
use documented::text::{collect, normalize, trim_line};

fn doc(s: &str) -> Attr {
    Attr::Doc(s.to_string())
}

fn field(name: &str, attrs: Vec<Attr>) -> MemberDecl {
    MemberDecl { name: Some(name.to_string()), attrs }
}

fn directive(key: &str, value: OptionValue) -> Directive {
    Directive { key: key.to_string(), value }
}

fn strings(v: &[&str]) -> Vec<String> {
    v.iter().map(|s| s.to_string()).collect()
}

#[test]
fn trimmed_lines_have_no_outer_whitespace() {
    let out = normalize(&strings(&["  a b \t", " x\n  y  \r", "\t"]), true).unwrap();
    assert_eq!(out, "a b\nx\ny\n");
    for line in out.split('\n') {
        assert_eq!(line, line.trim_matches(|c: char| c.is_ascii_whitespace()));
    }
}

#[test]
fn untrimmed_is_concatenation() {
    let frags = strings(&["  a ", "\tb\n c ", ""]);
    assert_eq!(normalize(&frags, false).unwrap(), "  a \n\tb\n c \n");
}

#[test]
fn no_fragment_gives_none() {
    assert_eq!(normalize(&vec![], true), None);
    assert_eq!(normalize(&vec![], false), None);
}

#[test]
fn trim_line_strips_both_ends_only() {
    assert_eq!(trim_line("  in  side \t"), "in  side");
    assert_eq!(trim_line(" \t "), "");
    assert_eq!(trim_line(""), "");
    assert_eq!(trim_line("x"), "x");
}

#[test]
fn collect_splits_on_newlines() {
    assert_eq!(collect(&strings(&["a\nb", "", "c\n"])), strings(&["a", "b", "", "c", ""]));
}

#[test]
fn member_scope_overrides_container() {
    let container = Customisations {
        trim: Some(false),
        default_text: Some("c".to_string()),
        custom_name: Some("N".to_string()),
        vis: None,
    };
    let member = Customisations {
        trim: Some(true),
        default_text: None,
        custom_name: Some("M".to_string()),
        vis: Some(Visibility::Public),
    };
    let cfg = resolve(&container, &member);
    assert!(cfg.trim);
    assert_eq!(cfg.default_text, Some("c".to_string()));
    assert_eq!(cfg.custom_name, Some("M".to_string()));
    assert_eq!(cfg.vis, Some(Visibility::Public));
    let none = resolve(&Customisations::new(), &Customisations::new());
    assert!(none.trim);
    assert_eq!(none.default_text, None);
}

#[test]
fn positional_lookup_three_outcomes() {
    let ix = documented_fields(
        Shape::Struct,
        &vec![],
        &vec![field("a", vec![doc(" A")]), field("b", vec![])],
    )
    .unwrap();
    assert_eq!(ix.get_field_docs("a"), Ok("A".to_string()));
    assert_eq!(ix.get_field_docs("b"), Err(Error::NoDocComments("b".to_string())));
    assert_eq!(ix.get_field_docs("c"), Err(Error::NoSuchField("c".to_string())));
    assert_eq!(ix.get_index("b"), Some(1));
    assert_eq!(ix.get_index("c"), None);
    assert_eq!(ix.field_docs(), &vec![Some("A".to_string()), None]);
}

#[test]
fn tagged_lookup_with_default() {
    let attrs = vec![Attr::Config(vec![directive("default", OptionValue::Str("D".to_string()))])];
    let table = documented_variants(
        Shape::Enum,
        &attrs,
        &vec![field("X", vec![doc(" x")]), field("Y", vec![])],
    )
    .unwrap();
    assert_eq!(table.get_variant_docs("X"), Ok("x".to_string()));
    assert_eq!(table.get_variant_docs("Y"), Ok("D".to_string()));
    assert_eq!(table.get_variant_docs("Z"), Err(Error::NoSuchField("Z".to_string())));

    let plain = documented_variants(Shape::Enum, &vec![], &vec![field("Y", vec![])]).unwrap();
    assert_eq!(plain.get_variant_docs("Y"), Err(Error::NoDocComments("Y".to_string())));
}

#[test]
fn variants_refuse_other_shapes() {
    let members = vec![field("a", vec![doc("a")])];
    assert!(matches!(
        documented_variants(Shape::Struct, &vec![], &members),
        Err(AnalysisError::UnsupportedShape)
    ));
    assert!(matches!(
        documented_variants(Shape::Union, &vec![], &members),
        Err(AnalysisError::UnsupportedShape)
    ));
}

#[test]
fn example_first_second() {
    let ix = documented_fields(
        Shape::Struct,
        &vec![],
        &vec![field("first", vec![doc("1")]), field("second", vec![doc("2")])],
    )
    .unwrap();
    assert_eq!(ix.get_field_docs("first"), Ok("1".to_string()));
    assert_eq!(ix.get_field_docs("third"), Err(Error::NoSuchField("third".to_string())));
}

#[test]
fn example_delicious_untrimmed() {
    let trim_off = Attr::Config(vec![directive("trim", OptionValue::Bool(false))]);
    let ix = documented_fields(
        Shape::Struct,
        &vec![trim_off],
        &vec![field("perrier", vec![doc("     Delicious.")])],
    )
    .unwrap();
    assert_eq!(ix.get_field_docs("perrier"), Ok("     Delicious.".to_string()));
}

#[test]
fn example_three_attachment_forms() {
    let expected = "Nice.\nLine two.\n\nBlock line.";
    let line_comments = vec![doc(" Nice."), doc(" Line two."), doc(""), doc(" Block line.")];
    let block = vec![doc(" Nice.\n    Line two.\n\n    Block line.")];
    let mixed = vec![
        doc(" Nice."),
        doc(" Line two.\n"),
        Attr::Other,
        doc("Block line."),
    ];
    assert_eq!(documented(&line_comments), Ok(expected.to_string()));
    assert_eq!(documented(&block), Ok(expected.to_string()));
    assert_eq!(documented(&mixed), Ok(expected.to_string()));
}

#[test]
fn resolution_is_repeatable() {
    let attrs = vec![doc("  a  "), doc(" b\n c")];
    let container = Customisations::new();
    let first = member_docs(&container, &attrs, false);
    let second = member_docs(&container, &attrs, false);
    assert_eq!(first, second);
    assert_eq!(first, Ok(Some("a\nb\nc".to_string())));
}

#[test]
fn missing_documentation_is_an_error() {
    assert_eq!(documented(&vec![Attr::Other]), Err(AnalysisError::MissingDocumentation));
}

#[test]
fn non_literal_doc_is_an_error() {
    assert_eq!(get_docs(&vec![doc("a"), Attr::DocExpr], true), Err(AnalysisError::NotAStringLiteral));
    assert_eq!(documented(&vec![Attr::DocExpr]), Err(AnalysisError::NotAStringLiteral));
}

#[test]
fn unknown_option_is_an_error() {
    let attrs = vec![doc("a"), Attr::Config(vec![directive("colour", OptionValue::Bool(true))])];
    assert_eq!(documented(&attrs), Err(AnalysisError::UnknownOption("colour".to_string())));
}

#[test]
fn duplicate_option_is_an_error() {
    let attrs = vec![
        doc("a"),
        Attr::Config(vec![
            directive("trim", OptionValue::Bool(true)),
            directive("trim", OptionValue::Bool(false)),
        ]),
    ];
    assert_eq!(documented(&attrs), Err(AnalysisError::DuplicateOption("trim".to_string())));
}

#[test]
fn same_key_in_two_annotations_overrides() {
    let attrs = vec![
        doc("  a"),
        Attr::Config(vec![directive("trim", OptionValue::Bool(true))]),
        Attr::Config(vec![directive("trim", OptionValue::Bool(false))]),
    ];
    assert_eq!(documented(&attrs), Ok("  a".to_string()));
}

#[test]
fn type_mismatch_is_an_error() {
    let attrs = vec![doc("a"), Attr::Config(vec![directive("trim", OptionValue::Str("no".to_string()))])];
    assert_eq!(
        documented(&attrs),
        Err(AnalysisError::TypeMismatch("trim".to_string(), ValueKind::Bool, ValueKind::Str))
    );
}

#[test]
fn field_error_aborts_container() {
    let members = vec![field("a", vec![doc("a")]), field("b", vec![Attr::DocExpr])];
    assert!(matches!(documented_fields(Shape::Struct, &vec![], &members), Err(AnalysisError::NotAStringLiteral)));
}

#[test]
fn docs_const_derives_name_from_case_conversion() {
    let k = docs_const(&vec![], "test_fn", &Visibility::Inherited, &vec![doc(" This is a test function")])
        .unwrap();
    assert_eq!(k.name, "TEST_FN_DOCS");
    assert_eq!(k.docs, "This is a test function");
    assert_eq!(k.vis, Visibility::Inherited);

    let k = docs_const(&vec![], "Wooooo", &Visibility::Crate, &vec![doc(" Boo!")]).unwrap();
    assert_eq!(k.name, "WOOOOO_DOCS");
    assert_eq!(k.vis, Visibility::Crate);
}

#[test]
fn docs_const_configured() {
    let args = vec![
        directive("vis", OptionValue::Vis(Visibility::Public)),
        directive("name", OptionValue::Str("DONT_RAISE_YOUR_HAND".to_string())),
        directive("trim", OptionValue::Bool(false)),
    ];
    let k = docs_const(&args, "whatever", &Visibility::Inherited, &vec![doc("     This is a test constant")])
        .unwrap();
    assert_eq!(k.name, "DONT_RAISE_YOUR_HAND");
    assert_eq!(k.vis, Visibility::Public);
    assert_eq!(k.docs, "     This is a test constant");
}

#[test]
fn docs_const_errors() {
    assert_eq!(
        docs_const(&vec![], "f", &Visibility::Inherited, &vec![]),
        Err(AnalysisError::MissingDocumentation)
    );
    let bad_name = vec![directive("name", OptionValue::Str("9 lives".to_string()))];
    assert_eq!(
        docs_const(&bad_name, "f", &Visibility::Inherited, &vec![doc("x")]),
        Err(AnalysisError::UnknownOption("9 lives".to_string()))
    );
}

#[test]
fn binding_name_and_identifiers() {
    assert_eq!(binding_name_from("ABC", &None), "ABC_DOCS");
    assert_eq!(binding_name_from("ABC", &Some("K".to_string())), "K");
    assert!(check_identifier("_a1"));
    assert!(!check_identifier(""));
    assert!(!check_identifier("1a"));
    assert!(!check_identifier("a-b"));
}

#[test]
fn positional_index_finds_every_name() {
    let names = ["delta", "alpha", "echo", "charlie", "bravo", "alph", "alpha2"];
    let members: Vec<MemberDecl> = names
        .iter()
        .map(|n| field(n, vec![doc(&format!(" doc of {}", n))]))
        .collect();
    let ix = documented_fields(Shape::Struct, &vec![], &members).unwrap();
    for (i, n) in names.iter().enumerate() {
        assert_eq!(ix.get_index(n), Some(i));
        assert_eq!(ix.get_field_docs(n), Ok(format!("doc of {}", n)));
    }
    assert_eq!(ix.get_index("al"), None);
    assert_eq!(ix.get_index("zulu"), None);
    assert_eq!(ix.get_index(""), None);
}

#[test]
fn compare_orders_lexicographically() {
    assert!(compare("a", "b") < 0);
    assert!(compare("b", "a") > 0);
    assert_eq!(compare("ab", "ab"), 0);
    assert!(compare("ab", "abc") < 0);
    assert!(compare("", "a") < 0);
}

#[test]
fn struct_fields_ignore_default() {
    let attrs = vec![Attr::Config(vec![directive("default", OptionValue::Str("D".to_string()))])];
    let members = vec![field("a", vec![]), field("b", vec![doc(" B")])];
    let ix = documented_fields(Shape::Struct, &attrs, &members).unwrap();
    assert_eq!(ix.field_docs(), &vec![None, Some("B".to_string())]);
    assert_eq!(ix.get_field_docs("a"), Err(Error::NoDocComments("a".to_string())));
    let ix = documented_fields(Shape::Union, &attrs, &members).unwrap();
    assert_eq!(ix.field_docs()[0], None);
    let ix = documented_fields(Shape::Enum, &attrs, &members).unwrap();
    assert_eq!(ix.field_docs()[0], Some("D".to_string()));
    assert_eq!(ix.get_field_docs("a"), Ok("D".to_string()));
}

#[test]
fn unicode_identifiers_are_legal() {
    assert!(check_identifier("café"));
    assert!(check_identifier("CAFÉ_DOCS"));
    assert!(check_identifier("_"));
    assert!(!check_identifier("123"));
    assert!(!check_identifier("a→b"));
    let k = docs_const(&vec![], "café", &Visibility::Inherited, &vec![doc(" Hot")]).unwrap();
    assert_eq!(k.name, "CAFÉ_DOCS");
}

#[test]
fn const_from_parts_builds_name_and_visibility() {
    let cfg = Config { trim: true, default_text: None, custom_name: None, vis: None };
    let k = const_from_parts("ITEM", &cfg, &Visibility::Crate, "d".to_string()).unwrap();
    assert_eq!(k.name, "ITEM_DOCS");
    assert_eq!(k.vis, Visibility::Crate);
    assert_eq!(k.docs, "d");
    let cfg = Config {
        trim: true,
        default_text: None,
        custom_name: Some("1x".to_string()),
        vis: Some(Visibility::Public),
    };
    assert_eq!(
        const_from_parts("ITEM", &cfg, &Visibility::Crate, "d".to_string()),
        Err(AnalysisError::UnknownOption("1x".to_string()))
    );
    let cfg = Config { custom_name: Some("K".to_string()), ..cfg };
    assert_eq!(const_from_parts("ITEM", &cfg, &Visibility::Crate, "d".to_string()).unwrap().vis, Visibility::Public);
}
