use powerliners::markedjson::constructor::ConstructorError;
use powerliners::markedjson::error::MarkedError;
use powerliners::markedjson::loader::Loader;
use powerliners::markedjson::marks::Mark;
use powerliners::markedjson::markedvalue::{MarkedInt, MarkedUnicode};
use powerliners::markedjson::resolver::{
    ResolverError, DEFAULT_MAPPING_TAG, DEFAULT_SCALAR_TAG, DEFAULT_SEQUENCE_TAG,
};

fn mk() -> Mark {
    Mark { line: 1, column: 0 }
}

#[test]
fn constructor_error_implements_error_traits() {
    let me = MarkedError::new(Some("ctx"), None, Some("prob"), None, None);
    let e = ConstructorError(me);
    assert!(e.to_string().contains("ctx"));
}

#[test]
fn new_loader_has_no_errors() {
    let l = Loader::new("{}");
    assert!(!l.haserrors);
    assert_eq!(l.stream, "{}");
}

#[test]
fn get_single_data_parses_valid_json() {
    let mut l = Loader::new(r#"{"a": 1}"#);
    let v = l.get_single_data().unwrap();
    assert_eq!(v["a"], 1);
    assert!(!l.haserrors);
}

#[test]
fn get_single_data_flips_haserrors_on_bad_json() {
    let mut l = Loader::new("{ this isn't json");
    let v = l.get_single_data();
    assert!(v.is_none());
    assert!(l.haserrors);
    assert_eq!(l.messages.len(), 1);
    assert!(l.messages[0].starts_with("powerline-lint: JSON parse error: "));
}

#[test]
fn echoerr_sets_haserrors() {
    let mut l = Loader::new("");
    l.echoerr("test error");
    assert!(l.haserrors);
    assert_eq!(l.messages, vec!["powerline-lint: test error".to_string()]);
}

#[test]
fn dispose_does_not_panic() {
    let mut l = Loader::new("{}");
    l.dispose();
}

#[test]
fn marked_unicode_carries_value_and_mark() {
    let m = MarkedUnicode::new("hello", mk());
    assert_eq!(m.value, "hello");
    assert_eq!(m.mark, mk());
}

#[test]
fn marked_unicode_partition_returns_three_parts() {
    let m = MarkedUnicode::new("a.b.c", mk());
    let (pre, sep, post) = m.partition(".");
    assert_eq!(pre.value, "a");
    assert_eq!(sep.value, ".");
    assert_eq!(post.value, "b.c");
}

#[test]
fn marked_unicode_rpartition_returns_three_parts() {
    let m = MarkedUnicode::new("a.b.c", mk());
    let (pre, sep, post) = m.rpartition(".");
    assert_eq!(pre.value, "a.b");
    assert_eq!(sep.value, ".");
    assert_eq!(post.value, "c");
}

#[test]
fn marked_unicode_partition_no_sep_returns_first_in_pre() {
    let m = MarkedUnicode::new("abc", mk());
    let (pre, sep, post) = m.partition(".");
    assert_eq!(pre.value, "abc");
    assert_eq!(sep.value, "");
    assert_eq!(post.value, "");
}

#[test]
fn marked_unicode_rpartition_no_sep_returns_all_in_post() {
    let m = MarkedUnicode::new("abc", mk());
    let (pre, sep, post) = m.rpartition(".");
    assert_eq!(pre.value, "");
    assert_eq!(sep.value, "");
    assert_eq!(post.value, "abc");
}

#[test]
fn marked_unicode_partition_parts_keep_the_mark() {
    let m = MarkedUnicode::new("key/value", Mark { line: 3, column: 7 });
    let (pre, sep, post) = m.partition("/");
    assert_eq!(pre.mark, Mark { line: 3, column: 7 });
    assert_eq!(sep.mark, Mark { line: 3, column: 7 });
    assert_eq!(post.mark, Mark { line: 3, column: 7 });
    assert_eq!(format!("{}{}{}", pre.value, sep.value, post.value), "key/value");
}

#[test]
fn marked_int_carries_i64() {
    let m = MarkedInt::new(42, mk());
    assert_eq!(m.value, 42);
}

#[test]
fn default_tags_match_upstream() {
    assert_eq!(DEFAULT_SCALAR_TAG, "tag:yaml.org,2002:str");
    assert_eq!(DEFAULT_SEQUENCE_TAG, "tag:yaml.org,2002:seq");
    assert_eq!(DEFAULT_MAPPING_TAG, "tag:yaml.org,2002:map");
}

#[test]
fn resolver_error_implements_error_traits() {
    let me = MarkedError::new(Some("ctx"), None, Some("prob"), None, None);
    let e = ResolverError(me);
    assert!(e.to_string().contains("ctx"));
}
