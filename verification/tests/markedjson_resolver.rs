use powerliners::markedjson::resolver::{BaseResolver, NodeKind, DEFAULT_MAPPING_TAG, DEFAULT_SCALAR_TAG, DEFAULT_SEQUENCE_TAG};

#[test]
fn resolve_bool_true() {
    let r = BaseResolver::new();
    assert_eq!(r.resolve(NodeKind::Scalar, "true", true), "tag:yaml.org,2002:bool");
}

#[test]
fn resolve_bool_false() {
    let r = BaseResolver::new();
    assert_eq!(r.resolve(NodeKind::Scalar, "false", true), "tag:yaml.org,2002:bool");
}

#[test]
fn resolve_int() {
    let r = BaseResolver::new();
    assert_eq!(r.resolve(NodeKind::Scalar, "42", true), "tag:yaml.org,2002:int");
    assert_eq!(r.resolve(NodeKind::Scalar, "-7", true), "tag:yaml.org,2002:int");
    assert_eq!(r.resolve(NodeKind::Scalar, "0", true), "tag:yaml.org,2002:int");
}

#[test]
fn resolve_float() {
    let r = BaseResolver::new();
    assert_eq!(r.resolve(NodeKind::Scalar, "3.14", true), "tag:yaml.org,2002:float");
    assert_eq!(r.resolve(NodeKind::Scalar, "1e10", true), "tag:yaml.org,2002:float");
    assert_eq!(r.resolve(NodeKind::Scalar, "-2.5e-3", true), "tag:yaml.org,2002:float");
}

#[test]
fn resolve_null() {
    let r = BaseResolver::new();
    assert_eq!(r.resolve(NodeKind::Scalar, "null", true), "tag:yaml.org,2002:null");
}

#[test]
fn resolve_unknown_scalar_falls_back_to_string() {
    let r = BaseResolver::new();
    assert_eq!(r.resolve(NodeKind::Scalar, "hello", true), DEFAULT_SCALAR_TAG);
}

#[test]
fn resolve_non_implicit_scalar_returns_str() {
    let r = BaseResolver::new();
    assert_eq!(r.resolve(NodeKind::Scalar, "true", false), DEFAULT_SCALAR_TAG);
}

#[test]
fn resolve_sequence_returns_seq_tag() {
    let r = BaseResolver::new();
    assert_eq!(r.resolve(NodeKind::Sequence, "", false), DEFAULT_SEQUENCE_TAG);
}

#[test]
fn resolve_mapping_returns_map_tag() {
    let r = BaseResolver::new();
    assert_eq!(r.resolve(NodeKind::Mapping, "", false), DEFAULT_MAPPING_TAG);
}

#[test]
fn add_implicit_resolver_appends_to_first_chars() {
    let mut r = BaseResolver::new();
    r.add_implicit_resolver("tag:custom", r"^X$", Some(&['X']));
    assert_eq!(r.resolve(NodeKind::Scalar, "X", true), "tag:custom");
}

#[test]
fn add_implicit_resolver_with_none_first_uses_null_bucket() {
    let mut r = BaseResolver::new();
    r.add_implicit_resolver("tag:catchall", r"^ZZZ$", None);
    assert_eq!(r.resolve(NodeKind::Scalar, "ZZZ", true), "tag:catchall");
}

#[test]
fn resolve_bool_with_lowercase_first_char_t() {
    let r = BaseResolver::new();
    assert_eq!(r.resolve(NodeKind::Scalar, "true", true), "tag:yaml.org,2002:bool");
}

#[test]
fn float_regex_rejects_plain_int() {
    let r = BaseResolver::new();
    let tag = r.resolve(NodeKind::Scalar, "42", true);
    assert_eq!(tag, "tag:yaml.org,2002:int");
    assert_ne!(tag, "tag:yaml.org,2002:float");
}

#[test]
fn int_regex_rejects_leading_zero_multi_digit() {
    let r = BaseResolver::new();
    assert_eq!(r.resolve(NodeKind::Scalar, "00", true), DEFAULT_SCALAR_TAG);
}

#[test]
fn resolver_registers_defaults_in_order() {
    let r = BaseResolver::new();
    assert_eq!(r.implicit_resolvers.len(), 10 + 11 + 11 + 1);
    assert_eq!(r.implicit_resolvers[0], (Some('y'), "tag:yaml.org,2002:bool".to_string(), "^(?:true|false)$".to_string()));
    assert_eq!(r.implicit_resolvers[32].0, Some('n'));
    assert_eq!(r.implicit_resolvers[32].1, "tag:yaml.org,2002:null");
}

#[test]
fn resolver_tries_first_character_bucket_before_catch_all() {
    let mut r = BaseResolver::new();
    r.add_implicit_resolver("tag:any", r"^.*$", None);
    assert_eq!(r.resolve(NodeKind::Scalar, "true", true), "tag:yaml.org,2002:bool");
    assert_eq!(r.resolve(NodeKind::Scalar, "hello", true), "tag:any");
    assert_eq!(r.resolve(NodeKind::Scalar, "", true), "tag:any");
    assert!(r.check_resolver_prefix());
}
