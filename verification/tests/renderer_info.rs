use powerliners::json_value::JsonValue;
use powerliners::render_segments::Renderer;

type Members = Vec<(String, JsonValue)>;

fn get<'a>(o: &'a [(String, JsonValue)], k: &str) -> Option<&'a JsonValue> {
    o.iter().find(|(key, _)| key == k).map(|(_, v)| v)
}

fn environ() -> Vec<(String, String)> {
    vec![("HOME".to_string(), "/home/u".to_string()), ("TERM".to_string(), "xterm".to_string())]
}

#[test]
fn segment_info_includes_environ_and_home() {
    let info = Renderer::segment_info(&environ());
    assert!(get(&info, "environ").is_some());
    assert_eq!(get(&info, "home"), Some(&JsonValue::Text("/home/u".to_string())));
    match get(&info, "environ") {
        Some(JsonValue::Object(env)) => assert_eq!(get(env, "TERM"), Some(&JsonValue::Text("xterm".to_string()))),
        other => panic!("environ is no object: {:?}", other),
    }
    let bare = Renderer::segment_info(&Vec::new());
    assert_eq!(get(&bare, "home"), Some(&JsonValue::Null));
}

#[test]
fn get_segment_info_merges_segment_info_over_base() {
    let base = Renderer::segment_info(&environ());
    let extra: Members = vec![("client_id".to_string(), JsonValue::Number("42".to_string()))];
    let info = Renderer::get_segment_info(&base, Some(&extra), Some("normal"));
    assert_eq!(get(&info, "mode"), Some(&JsonValue::Text("normal".to_string())));
    assert_eq!(get(&info, "client_id"), Some(&JsonValue::Number("42".to_string())));
}

#[test]
fn get_segment_info_sets_mode_null_when_none() {
    let base = Renderer::segment_info(&environ());
    let info = Renderer::get_segment_info(&base, None, None);
    assert_eq!(get(&info, "mode"), Some(&JsonValue::Null));
    assert!(get(&info, "getcwd").is_none());
}

#[test]
fn get_segment_info_overrides_getcwd_when_pwd_set() {
    let base = Renderer::segment_info(&environ());
    let extra: Members = vec![(
        "environ".to_string(),
        JsonValue::Object(vec![("PWD".to_string(), JsonValue::Text("/my/cwd".to_string()))]),
    )];
    let info = Renderer::get_segment_info(&base, Some(&extra), None);
    assert_eq!(get(&info, "getcwd"), Some(&JsonValue::Text("/my/cwd".to_string())));
    let with_pwd = Renderer::segment_info(&vec![("PWD".to_string(), "/w".to_string())]);
    let info = Renderer::get_segment_info(&with_pwd, None, Some("i"));
    assert_eq!(info.len(), 4);
    assert_eq!(get(&info, "getcwd"), Some(&JsonValue::Text("/w".to_string())));
}
