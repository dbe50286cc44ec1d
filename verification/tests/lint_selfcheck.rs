use powerliners::json_value::JsonValue;
use powerliners::lint_selfcheck::havemarks;
use powerliners::powerline::PDBPowerline;

fn num(s: &str) -> JsonValue {
    JsonValue::Number(s.to_string())
}

#[test]
fn havemarks_walks_nested_structure() {
    let v = JsonValue::Object(vec![
        (
            "a".to_string(),
            JsonValue::Array(vec![
                num("1"),
                num("2"),
                JsonValue::Object(vec![("b".to_string(), JsonValue::Array(vec![num("3"), num("4")]))]),
            ]),
        ),
        ("c".to_string(), JsonValue::Text("leaf".to_string())),
    ]);
    assert!(havemarks(&[&v], "").is_ok());
}

#[test]
fn havemarks_empty_input_ok() {
    assert!(havemarks(&[], "").is_ok());
}

#[test]
fn do_setup_does_not_panic() {
    let p = PDBPowerline::new();
    p.do_setup(&serde_json::Value::Null);
}
