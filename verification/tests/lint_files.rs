use powerliners::json_value::JsonValue;
use powerliners::lint_files::{dict2, load_json_file, updated_with_config, LoadJsonResult};

fn get<'a>(o: &'a [(String, JsonValue)], k: &str) -> Option<&'a JsonValue> {
    o.iter().find(|(key, _)| key == k).map(|(_, v)| v)
}

#[test]
fn load_json_file_missing_returns_error() {
    let r = load_json_file("/never/exists/x.json", None);
    assert!(r.hadproblem);
    assert!(r.config.is_none());
    assert_eq!(r.error.as_deref(), Some("Path not found: /never/exists/x.json"));
}

#[test]
fn load_json_file_passes_what_the_loader_gave() {
    let r = load_json_file("good.json", Some((Some(JsonValue::Object(vec![])), false)));
    assert!(!r.hadproblem);
    assert!(r.config.is_some());
    assert!(r.error.is_none());
    let r = load_json_file("bad.json", Some((None, true)));
    assert!(r.hadproblem);
    assert!(r.error.is_none());
}

#[test]
fn updated_with_config_merges_results_into_dict() {
    let mut d = vec![("path".to_string(), JsonValue::Text("/cfg/c.json".to_string()))];
    updated_with_config(&mut d, |p| {
        assert_eq!(p, "/cfg/c.json");
        LoadJsonResult {
            hadproblem: false,
            config: Some(JsonValue::Object(vec![("a".to_string(), JsonValue::Number("1".to_string()))])),
            error: None,
        }
    });
    assert_eq!(get(&d, "hadproblem"), Some(&JsonValue::Bool(false)));
    assert!(get(&d, "config").is_some());
    assert!(get(&d, "error").is_none());
}

#[test]
fn updated_with_config_sets_error_of_a_missing_file() {
    let mut d = vec![("path".to_string(), JsonValue::Text("/nope.json".to_string()))];
    updated_with_config(&mut d, |p| load_json_file(p, None));
    assert_eq!(get(&d, "hadproblem"), Some(&JsonValue::Bool(true)));
    assert_eq!(get(&d, "error"), Some(&JsonValue::Text("Path not found: /nope.json".to_string())));
    assert!(get(&d, "config").is_none());
}

#[test]
fn updated_with_config_no_path_no_op() {
    let mut d = vec![("k".to_string(), JsonValue::Number("1".to_string()))];
    updated_with_config(&mut d, |_| panic!("nothing to load"));
    assert!(get(&d, "hadproblem").is_none());
    assert!(get(&d, "config").is_none());
}

#[test]
fn dict2_shallow_copies_inner_dicts() {
    let inner = vec![("inner_k".to_string(), JsonValue::Number("42".to_string()))];
    let d = vec![("outer".to_string(), JsonValue::Object(inner))];
    let r = dict2(&d);
    match get(&r, "outer") {
        Some(JsonValue::Object(o)) => assert_eq!(get(o, "inner_k"), Some(&JsonValue::Number("42".to_string()))),
        other => panic!("outer is no object: {:?}", other),
    }
}

#[test]
fn dict2_passes_non_dict_values_through() {
    let d = vec![("scalar".to_string(), JsonValue::Number("7".to_string()))];
    let r = dict2(&d);
    assert_eq!(get(&r, "scalar"), Some(&JsonValue::Number("7".to_string())));
}

#[test]
fn load_json_result_struct_fields_accessible() {
    let r = LoadJsonResult { hadproblem: false, config: Some(JsonValue::Object(Vec::new())), error: None };
    assert!(!r.hadproblem);
    assert!(r.config.is_some());
    assert!(r.error.is_none());
}
