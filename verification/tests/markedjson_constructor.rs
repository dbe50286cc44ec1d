use powerliners::markedjson::constructor::{
    bool_of_text, construct_undefined, int_of_scalar_text, wrong_node_kind, BaseConstructor, Constructor,
    ConstructorKind,
};

#[test]
fn add_constructor_registers_tag() {
    let mut b = BaseConstructor::new();
    b.add_constructor(Some("custom"), ConstructorKind::Str);
    assert!(b.contains_key("custom"));
}

#[test]
fn add_constructor_none_maps_to_catchall_key() {
    let mut b = BaseConstructor::new();
    b.add_constructor(None, ConstructorKind::Undefined);
    assert!(b.contains_key("*"));
}

#[test]
fn constructor_new_registers_all_eight_tags() {
    let c = Constructor::new();
    for tag in [
        "tag:yaml.org,2002:null",
        "tag:yaml.org,2002:bool",
        "tag:yaml.org,2002:int",
        "tag:yaml.org,2002:float",
        "tag:yaml.org,2002:str",
        "tag:yaml.org,2002:seq",
        "tag:yaml.org,2002:map",
        "*",
    ] {
        assert!(c.base.contains_key(tag), "missing tag: {}", tag);
    }
}

#[test]
fn construct_undefined_always_errors() {
    let e = construct_undefined("custom:tag");
    assert!(e.to_string().contains("could not determine a constructor"));
    assert_eq!(e.to_string(), "could not determine a constructor for the tag custom:tag");
}

#[test]
fn unknown_tag_without_catch_all_has_no_constructor() {
    let b = BaseConstructor::new();
    let r = b.constructor_for("unknown-tag");
    assert_eq!(r.unwrap_err().to_string(), "no constructor for tag unknown-tag");
}

#[test]
fn unknown_tag_falls_back_to_catch_all() {
    let mut b = BaseConstructor::new();
    b.add_constructor(None, ConstructorKind::Undefined);
    assert_eq!(b.constructor_for("never-registered-tag").unwrap(), ConstructorKind::Undefined);
}

#[test]
fn registered_tag_gets_its_own_constructor() {
    let c = Constructor::new();
    assert_eq!(c.base.constructor_for("tag:yaml.org,2002:int").unwrap(), ConstructorKind::Int);
    assert_eq!(c.base.constructor_for("tag:yaml.org,2002:seq").unwrap(), ConstructorKind::Sequence);
    assert_eq!(c.base.constructor_for("other").unwrap(), ConstructorKind::Undefined);
}

#[test]
fn adding_again_replaces_the_constructor() {
    let mut b = BaseConstructor::new();
    b.add_constructor(Some("t"), ConstructorKind::Str);
    b.add_constructor(Some("t"), ConstructorKind::Int);
    assert_eq!(b.registered("t"), Some(ConstructorKind::Int));
    assert_eq!(b.yaml_constructors.len(), 1);
    assert_eq!(b.registered("u"), None);
}

#[test]
fn scalar_text_reads_as_integer() {
    assert_eq!(int_of_scalar_text("42"), 42);
    assert_eq!(int_of_scalar_text("-7"), -7);
    assert_eq!(int_of_scalar_text("0"), 0);
    assert_eq!(int_of_scalar_text("  +5\n"), 5);
    assert_eq!(int_of_scalar_text("--5"), 5);
    assert_eq!(int_of_scalar_text("-+5"), -5);
    assert_eq!(int_of_scalar_text("abc"), 0);
    assert_eq!(int_of_scalar_text(""), 0);
    assert_eq!(int_of_scalar_text("-"), 0);
    assert_eq!(int_of_scalar_text("9223372036854775807"), 9223372036854775807);
    assert_eq!(int_of_scalar_text("-9223372036854775807"), -9223372036854775807);
    assert_eq!(int_of_scalar_text("9223372036854775808"), 0);
    assert_eq!(int_of_scalar_text("99999999999999999999999"), 0);
    assert_eq!(int_of_scalar_text("1.5"), 0);
}

#[test]
fn scalar_text_reads_as_boolean() {
    assert!(bool_of_text("true"));
    assert!(bool_of_text("yes"));
    assert!(!bool_of_text("false"));
    assert!(!bool_of_text(""));
}

#[test]
fn wrong_node_kind_names_both_kinds() {
    assert_eq!(wrong_node_kind("scalar", "sequence").to_string(), "expected a scalar node, but found sequence");
}
