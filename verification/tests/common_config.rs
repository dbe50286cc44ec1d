use powerliners::common_config::finish_common_config;
use powerliners::json_value::JsonValue;

fn lookup<'a>(cfg: &'a [(String, JsonValue)], key: &str) -> &'a JsonValue {
    &cfg.iter().find(|(k, _)| k == key).expect("key present").1
}

fn text(s: &str) -> JsonValue {
    JsonValue::Text(s.to_string())
}

#[test]
fn finish_common_config_fills_default_top_theme_for_utf8() {
    let r = finish_common_config("UTF-8", &Vec::new(), "");
    assert_eq!(lookup(&r, "default_top_theme"), &text("powerline_terminus"));
}

#[test]
fn finish_common_config_fills_default_top_theme_for_ucs() {
    let r = finish_common_config("UCS-2", &Vec::new(), "");
    assert_eq!(lookup(&r, "default_top_theme"), &text("powerline_terminus"));
}

#[test]
fn finish_common_config_fills_default_top_theme_for_ascii() {
    let r = finish_common_config("latin-1", &Vec::new(), "");
    assert_eq!(lookup(&r, "default_top_theme"), &text("ascii"));
}

#[test]
fn finish_common_config_fills_all_defaults() {
    let r = finish_common_config("UTF-8", &Vec::new(), "");
    assert_eq!(lookup(&r, "watcher"), &text("auto"));
    assert_eq!(lookup(&r, "log_level"), &text("WARNING"));
    assert_eq!(lookup(&r, "term_truecolor"), &JsonValue::Bool(false));
    assert_eq!(lookup(&r, "term_escape_style"), &text("auto"));
    assert_eq!(lookup(&r, "ambiwidth"), &JsonValue::Number("1".to_string()));
    assert_eq!(lookup(&r, "additional_escapes"), &JsonValue::Null);
    assert_eq!(lookup(&r, "reload_config"), &JsonValue::Bool(true));
    assert_eq!(lookup(&r, "interval"), &JsonValue::Null);
}

#[test]
fn finish_common_config_log_file_defaults_to_list_with_null() {
    let r = finish_common_config("UTF-8", &Vec::new(), "");
    match lookup(&r, "log_file") {
        JsonValue::Array(lf) => {
            assert_eq!(lf.len(), 1);
            assert_eq!(lf[0], JsonValue::Null);
        }
        other => panic!("log_file is no list: {:?}", other),
    }
}

#[test]
fn finish_common_config_wraps_non_list_log_file() {
    let input = vec![("log_file".to_string(), text("/var/log/p.log"))];
    let r = finish_common_config("UTF-8", &input, "");
    match lookup(&r, "log_file") {
        JsonValue::Array(lf) => {
            assert_eq!(lf.len(), 1);
            assert_eq!(lf[0], text("/var/log/p.log"));
        }
        other => panic!("log_file is no list: {:?}", other),
    }
}

#[test]
fn finish_common_config_preserves_supplied_values() {
    let input = vec![
        ("watcher".to_string(), text("inotify")),
        ("term_truecolor".to_string(), JsonValue::Bool(true)),
    ];
    let r = finish_common_config("UTF-8", &input, "");
    assert_eq!(lookup(&r, "watcher"), &text("inotify"));
    assert_eq!(lookup(&r, "term_truecolor"), &JsonValue::Bool(true));
}

#[test]
fn finish_common_config_expands_tilde_in_paths() {
    let input = vec![("paths".to_string(), JsonValue::Array(vec![text("~/custom")]))];
    let r = finish_common_config("UTF-8", &input, "/home/alice");
    match lookup(&r, "paths") {
        JsonValue::Array(paths) => assert_eq!(paths[0], text("/home/alice/custom")),
        other => panic!("paths is no list: {:?}", other),
    }
}

#[test]
fn finish_common_config_gives_every_key_once() {
    let input = vec![
        ("interval".to_string(), JsonValue::Number("2".to_string())),
        ("extra".to_string(), JsonValue::Object(vec![("a".to_string(), JsonValue::Null)])),
    ];
    let r = finish_common_config("utf-8", &input, "/h");
    assert_eq!(r.len(), 13);
    assert_eq!(r[0].0, "interval");
    assert_eq!(r[0].1, JsonValue::Number("2".to_string()));
    assert_eq!(r[1].0, "extra");
    let mut keys: Vec<&str> = r.iter().map(|(k, _)| k.as_str()).collect();
    keys.sort();
    keys.dedup();
    assert_eq!(keys.len(), 13);
}

#[test]
fn finish_common_config_encoding_case_and_prefix() {
    let r = finish_common_config("Utf8", &Vec::new(), "");
    assert_eq!(lookup(&r, "default_top_theme"), &text("powerline_terminus"));
    let r = finish_common_config("xutf-8", &Vec::new(), "");
    assert_eq!(lookup(&r, "default_top_theme"), &text("ascii"));
    let r = finish_common_config("ut", &Vec::new(), "");
    assert_eq!(lookup(&r, "default_top_theme"), &text("ascii"));
}

#[test]
fn finish_common_config_expands_only_leading_tilde_of_texts() {
    let input = vec![(
        "paths".to_string(),
        JsonValue::Array(vec![text("/a/~b"), JsonValue::Bool(true), text("~"), text("")]),
    )];
    let r = finish_common_config("UTF-8", &input, "/home/bob");
    assert_eq!(
        lookup(&r, "paths"),
        &JsonValue::Array(vec![text("/a/~b"), JsonValue::Bool(true), text("/home/bob"), text("")])
    );
}

#[test]
fn finish_common_config_keeps_list_log_file_and_non_list_paths() {
    let input = vec![
        ("log_file".to_string(), JsonValue::Array(vec![text("a"), text("b")])),
        ("paths".to_string(), text("~/x")),
    ];
    let r = finish_common_config("UTF-8", &input, "/h");
    assert_eq!(lookup(&r, "log_file"), &JsonValue::Array(vec![text("a"), text("b")]));
    assert_eq!(lookup(&r, "paths"), &text("~/x"));
}

#[test]
fn finish_common_config_appends_missing_defaults_in_order() {
    let given = vec![("watcher".to_string(), text("stat")), ("interval".to_string(), JsonValue::Null)];
    let r = finish_common_config("ascii", &given, "/h");
    let keys: Vec<&str> = r.iter().map(|(k, _)| k.as_str()).collect();
    assert_eq!(
        keys,
        vec![
            "watcher",
            "interval",
            "default_top_theme",
            "paths",
            "log_level",
            "log_format",
            "term_truecolor",
            "term_escape_style",
            "ambiwidth",
            "additional_escapes",
            "reload_config",
            "log_file",
        ]
    );
    assert_eq!(lookup(&r, "watcher"), &text("stat"));
    assert_eq!(lookup(&r, "default_top_theme"), &text("ascii"));
}
