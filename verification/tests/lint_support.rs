use powerliners::lint_checks::common_names;
use powerliners::lint_config::{
    check, check_either, find_all_ext_config_files, register_common_names, strip_json_suffix,
    CheckResult, Cmp, ConfigFileInfo, ExtDirInfo, SearchRootInfo, SpecType,
};
use powerliners::lint_context::{key_sep, list_themes, theme_lint_data, Context, JStr, ThemeLintData};
use powerliners::lint_imp::{import_function, import_segment, ImportError, ImportedFunction, MarkedName, WithPath};
use powerliners::lint_inspect::{formatconfigargspec, getconfigargspec};
use powerliners::markedjson::marks::Mark;
use powerliners::json_value::JsonValue;
use serde_json::Value;

fn strings(v: &[&str]) -> Vec<String> {
    v.iter().map(|s| s.to_string()).collect()
}

#[test]
fn jstr_joins_with_separator() {
    let sep = JStr("/".to_string());
    assert_eq!(sep.join(&strings(&["a", "b", "c"])), "a/b/c");
    let nums: Vec<String> = vec![1, 2, 3].iter().map(|x: &i32| x.to_string()).collect();
    assert_eq!(sep.join(&nums), "1/2/3");
}

#[test]
fn key_sep_is_slash() {
    assert_eq!(key_sep().0, "/");
}

#[test]
fn context_starts_empty() {
    let c = Context::new();
    assert!(c.0.is_empty());
    assert_eq!(c.key(), "");
}

#[test]
fn context_enter_appends_one_entry() {
    let c = Context::new();
    let c1 = c.enter("ext".into(), Value::String("shell".into()));
    assert_eq!(c1.0.len(), 1);
    assert_eq!(c1.key(), "ext");
    let c2 = c1.enter("theme".into(), Value::String("default".into()));
    assert_eq!(c2.0.len(), 2);
    assert_eq!(c2.key(), "ext/theme");
}

#[test]
fn context_enter_does_not_mutate_parent() {
    let c = Context::new();
    let _c1 = c.enter("ext".into(), Value::String("shell".into()));
    assert!(c.0.is_empty(), "parent context should be unchanged");
}

#[test]
fn context_enter_key_pulls_value_from_obj() {
    let c = Context::new();
    let mut obj = serde_json::Map::new();
    obj.insert("colorscheme".to_string(), Value::String("default".into()));
    let v = Value::Object(obj);
    let c1 = c.enter_key(&v, "colorscheme");
    assert_eq!(c1.0.last().unwrap().0, "colorscheme");
    assert_eq!(c1.0.last().unwrap().1, Value::String("default".into()));
    let c2 = c1.enter_key(&v, "missing");
    assert_eq!(c2.0.last().unwrap().1, Value::Null);
    assert_eq!(c2.key(), "colorscheme/missing");
}

#[test]
fn context_enter_item_keeps_item() {
    let c = Context::new().enter_item("segment 1", &Value::from(5));
    assert_eq!(c.key(), "segment 1");
    assert_eq!(c.0[0].1, Value::from(5));
}

fn theme(k: &str) -> Value {
    let mut m = serde_json::Map::new();
    m.insert("k".to_string(), Value::String(k.to_string()));
    Value::Object(m)
}

#[test]
fn list_themes_top_returns_every_theme() {
    let data = ThemeLintData {
        theme_type: "top".into(),
        ext: "shell".into(),
        theme: Some("default".into()),
        main_theme: None,
        theme_configs: vec![
            ("shell".into(), vec![theme("v2"), theme("v1")]),
            ("tmux".into(), vec![theme("v3")]),
        ],
        ext_theme_configs: vec![],
    };
    let c = Context::new();
    let r = list_themes(&data, &c);
    assert_eq!(r.len(), 3);
    assert_eq!(r[0].0, "shell");
    assert_eq!(r[2], ("tmux".to_string(), theme("v3")));
}

#[test]
fn list_themes_main_returns_ext_themes() {
    let data = ThemeLintData {
        theme_type: "main".into(),
        ext: "shell".into(),
        theme: Some("default".into()),
        main_theme: None,
        theme_configs: vec![],
        ext_theme_configs: vec![theme("w"), theme("v")],
    };
    let c = Context::new();
    let r = list_themes(&data, &c);
    assert_eq!(r.len(), 2);
    assert!(r.iter().all(|(ext, _)| ext == "shell"));
}

#[test]
fn list_themes_main_theme_by_name_returns_ext_themes() {
    let data = ThemeLintData {
        theme_type: "regular".into(),
        ext: "vim".into(),
        theme: Some("default".into()),
        main_theme: Some("default".into()),
        theme_configs: vec![],
        ext_theme_configs: vec![theme("a")],
    };
    let r = list_themes(&data, &Context::new());
    assert_eq!(r, vec![("vim".to_string(), theme("a"))]);
}

#[test]
fn list_themes_other_returns_context_theme() {
    let data = ThemeLintData {
        theme_type: "regular".into(),
        ext: "vim".into(),
        theme: Some("cmdwin".into()),
        main_theme: Some("default".into()),
        theme_configs: vec![],
        ext_theme_configs: vec![theme("a")],
    };
    assert!(list_themes(&data, &Context::new()).is_empty());
    let c = Context::new().enter("theme".into(), theme("ctx"));
    assert_eq!(list_themes(&data, &c), vec![("vim".to_string(), theme("ctx"))]);
}

#[test]
fn with_path_enter_prepends_import_paths() {
    let mut wp = WithPath::new(vec!["/extra".to_string(), "/more".to_string()]);
    let original = vec!["/usr/lib/python".to_string()];
    let new_path = wp.enter(&original);
    assert_eq!(
        new_path,
        vec!["/extra".to_string(), "/more".to_string(), "/usr/lib/python".to_string()]
    );
}

#[test]
fn with_path_enter_snapshots_old_path() {
    let mut wp = WithPath::new(vec!["/extra".to_string()]);
    let original = vec!["/a".to_string(), "/b".to_string()];
    wp.enter(&original);
    assert_eq!(wp.oldpath, original);
}

#[test]
fn with_path_exit_returns_old_path() {
    let mut wp = WithPath::new(vec!["/extra".to_string()]);
    let original = vec!["/orig".to_string()];
    wp.enter(&original);
    assert_eq!(wp.exit(), original);
}

#[test]
fn with_path_empty_import_paths_passthrough() {
    let mut wp = WithPath::new(Vec::new());
    let original = vec!["/a".to_string()];
    let new_path = wp.enter(&original);
    assert_eq!(new_path, original);
}

fn mk_marked(s: &str) -> MarkedName {
    MarkedName { value: s.to_string(), mark: Some(Mark { line: 0, column: 0 }) }
}

#[test]
fn marked_name_carries_mark() {
    let m = mk_marked("foo");
    assert!(m.mark.is_some());
    assert_eq!(m.value, "foo");
}

#[test]
fn import_function_returns_qualified_for_valid_input() {
    let name = mk_marked("server_load");
    let module = mk_marked("powerline.segments.common.sys");
    let (result, calls) = import_function("segment", &name, &Vec::new(), &Context::new(), &module);
    match result {
        ImportedFunction::Qualified(q) => assert_eq!(q, "powerline.segments.common.sys.server_load"),
        ImportedFunction::NotFound => panic!("expected a qualified name"),
    }
    assert!(calls.is_empty());
}

#[test]
fn import_function_emits_deprecation_for_i3wm_workspaces() {
    let name = mk_marked("workspaces");
    let module = mk_marked("powerline.segments.i3wm");
    let context = Context::new().enter("ctx-key".to_string(), Value::Null);
    let (_, calls) = import_function("segment", &name, &Vec::new(), &context, &module);
    assert_eq!(calls.len(), 1);
    match &calls[0] {
        ImportError::Deprecation { context_key, module, name, .. } => {
            assert_eq!(context_key, "ctx-key");
            assert_eq!(module, "powerline.segments.i3wm");
            assert_eq!(name, "workspaces");
        }
        _ => panic!("expected Deprecation"),
    }
}

#[test]
fn import_function_does_not_warn_for_other_i3wm_segments() {
    let name = mk_marked("mode");
    let module = mk_marked("powerline.segments.i3wm");
    let (_, calls) = import_function("segment", &name, &Vec::new(), &Context::new(), &module);
    assert!(calls.is_empty());
}

#[test]
fn import_segment_pins_function_type() {
    let name = mk_marked("date");
    let module = mk_marked("powerline.segments.common.time");
    let (result, _) = import_segment(&name, &Vec::new(), &Context::new(), &module);
    match result {
        ImportedFunction::Qualified(q) => assert_eq!(q, "powerline.segments.common.time.date"),
        ImportedFunction::NotFound => panic!("expected a qualified name"),
    }
}

#[test]
fn formatconfigargspec_empty_args() {
    assert_eq!(formatconfigargspec(&[], &[]), "()");
}

#[test]
fn formatconfigargspec_args_without_defaults() {
    let args = strings(&["a", "b", "c"]);
    assert_eq!(formatconfigargspec(&args, &[]), "(a, b, c)");
}

#[test]
fn formatconfigargspec_args_with_trailing_defaults() {
    let args = strings(&["a", "b", "c"]);
    let defaults = strings(&["1", "2"]);
    assert_eq!(formatconfigargspec(&args, &defaults), "(a, b=1, c=2)");
}

#[test]
fn formatconfigargspec_all_args_default() {
    let args = strings(&["x", "y"]);
    let defaults = strings(&["10", "20"]);
    assert_eq!(formatconfigargspec(&args, &defaults), "(x=10, y=20)");
}

#[test]
fn formatconfigargspec_one_arg_one_default() {
    let args = strings(&["only"]);
    let defaults = strings(&["'hello'"]);
    assert_eq!(formatconfigargspec(&args, &defaults), "(only='hello')");
}

#[test]
fn formatconfigargspec_more_defaults_than_args() {
    let args = strings(&["a"]);
    let defaults = strings(&["1", "2"]);
    assert_eq!(formatconfigargspec(&args, &defaults), "(a=1)");
}

#[test]
fn getconfigargspec_returns_empty_until_registry_lands() {
    let spec = getconfigargspec("dummy");
    assert!(spec.args.is_empty());
    assert!(spec.defaults.is_empty());
}

#[test]
fn strip_json_suffix_removes_suffix() {
    assert_eq!(strip_json_suffix("powerline.json"), "powerline");
    assert_eq!(strip_json_suffix("default.json"), "default");
}

#[test]
fn strip_json_suffix_passes_through_when_absent() {
    assert_eq!(strip_json_suffix("powerline"), "powerline");
    assert_eq!(strip_json_suffix(""), "");
    assert_eq!(strip_json_suffix(".json"), "");
    assert_eq!(strip_json_suffix("json"), "json");
}

#[test]
fn register_common_names_inserts_player_alias() {
    let mut names = common_names();
    register_common_names(&mut names);
    assert!(names.contains_key("player"));
    let entries = names.get("player");
    assert!(entries
        .iter()
        .any(|(m, n)| m == "powerline.segments.common.players" && n == "_player"));
}

#[test]
fn check_reports_no_problem() {
    assert!(!check());
}

#[test]
fn check_result_ok_is_proceed_true_no_problem() {
    let r = CheckResult::ok();
    assert!(r.proceed);
    assert!(!r.hadproblem);
}

#[test]
fn check_result_failed_is_proceed_false_with_problem() {
    let r = CheckResult::failed();
    assert!(!r.proceed);
    assert!(r.hadproblem);
}

#[test]
fn check_either_short_circuits_on_first_success() {
    let r = check_either(3, |i| if i == 0 { CheckResult::ok() } else { CheckResult::failed() });
    assert!(r.proceed);
}

#[test]
fn check_either_all_fail_returns_failed() {
    let r = check_either(3, |_| CheckResult::failed());
    assert!(r.hadproblem);
}

#[test]
fn check_either_succeeds_on_a_later_alternative() {
    let r = check_either(3, |i| if i == 2 { CheckResult::ok() } else { CheckResult::failed() });
    assert_eq!(r, CheckResult::ok());
    assert_eq!(check_either(0, |_| CheckResult::ok()), CheckResult::failed());
}

#[test]
fn cmp_enum_variants_match_python_operators() {
    let ops = [Cmp::Lt, Cmp::Le, Cmp::Eq, Cmp::Ge, Cmp::Gt, Cmp::Ne];
    assert_eq!(ops.len(), 6);
    let types = [SpecType::Dict, SpecType::List, SpecType::Unicode, SpecType::Bool, SpecType::Float, SpecType::Null];
    assert_eq!(types.len(), 6);
}

fn file(name: &str, path: &str, is_file: bool) -> ConfigFileInfo {
    ConfigFileInfo { name: name.into(), path: path.into(), is_file }
}

#[test]
fn find_all_ext_config_files_yields_ext_scoped_and_top_entries() {
    let roots = vec![SearchRootInfo {
        subpath: "/cfg/themes".into(),
        exists: true,
        is_dir: true,
        exts: vec![
            ExtDirInfo { name: "powerline.json".into(), path: "/cfg/themes/powerline.json".into(), is_dir: false, is_file: true, files: vec![] },
            ExtDirInfo {
                name: "shell".into(),
                path: "/cfg/themes/shell".into(),
                is_dir: true,
                is_file: false,
                files: vec![
                    file("default.json", "/cfg/themes/shell/default.json", true),
                    file("notes.txt", "/cfg/themes/shell/notes.txt", true),
                ],
            },
            ExtDirInfo { name: "README".into(), path: "/cfg/themes/README".into(), is_dir: false, is_file: true, files: vec![] },
        ],
    }];
    let r = find_all_ext_config_files(&roots, "themes");
    assert_eq!(r.len(), 4);
    assert_eq!(r[0].error, None);
    assert_eq!(r[0].name.as_deref(), Some("powerline"));
    assert_eq!(r[0].ext, None);
    assert_eq!(r[0].kind.as_deref(), Some("top_themes"));
    assert_eq!(r[1].name.as_deref(), Some("default"));
    assert_eq!(r[1].ext.as_deref(), Some("shell"));
    assert_eq!(r[1].kind.as_deref(), Some("themes"));
    assert_eq!(r[2].error.as_deref(), Some("Path /cfg/themes/shell/notes.txt is not a configuration file"));
    assert_eq!(r[3].error.as_deref(), Some("Path /cfg/themes/README is not a directory or configuration file"));
}

#[test]
fn find_all_ext_config_files_yields_error_for_non_directory_and_skips_missing() {
    let roots = vec![
        SearchRootInfo { subpath: "/a/themes".into(), exists: true, is_dir: false, exts: vec![] },
        SearchRootInfo { subpath: "/b/themes".into(), exists: false, is_dir: false, exts: vec![] },
    ];
    let r = find_all_ext_config_files(&roots, "themes");
    assert_eq!(r.len(), 1);
    assert_eq!(r[0].error.as_deref(), Some("Path /a/themes is not a directory"));
    assert_eq!(r[0].path, "/a/themes");
}

#[test]
fn import_paths_field_passed_through_data() {
    let name = mk_marked("x");
    let module = mk_marked("y");
    let data = vec![(
        "import_paths".to_string(),
        JsonValue::Array(vec![
            JsonValue::Text("/a".to_string()),
            JsonValue::Text("/b".to_string()),
            JsonValue::Text("/c".to_string()),
        ]),
    )];
    let (_, calls) = import_function("segment", &name, &data, &Context::new(), &module);
    assert!(calls.is_empty());
}

fn obj(members: Vec<(&str, Value)>) -> Value {
    Value::Object(members.into_iter().map(|(k, v)| (k.to_string(), v)).collect())
}

#[test]
fn theme_lint_data_reads_the_lint_data() {
    let data = obj(vec![
        ("theme_type", Value::String("regular".into())),
        ("ext", Value::String("vim".into())),
        ("theme", Value::String("default".into())),
        (
            "main_config",
            obj(vec![("ext", obj(vec![("vim", obj(vec![("theme", Value::String("default".into()))]))]))]),
        ),
        (
            "theme_configs",
            obj(vec![("shell", obj(vec![("a", theme("x")), ("b", theme("y"))])), ("bad", Value::Null)]),
        ),
        ("ext_theme_configs", obj(vec![("default", theme("z"))])),
    ]);
    let d = theme_lint_data(&data);
    assert_eq!(d.theme_type, "regular");
    assert_eq!(d.ext, "vim");
    assert_eq!(d.theme.as_deref(), Some("default"));
    assert_eq!(d.main_theme.as_deref(), Some("default"));
    assert_eq!(d.theme_configs, vec![("shell".to_string(), vec![theme("x"), theme("y")])]);
    assert_eq!(d.ext_theme_configs, vec![theme("z")]);
    let r = list_themes(&d, &Context::new());
    assert_eq!(r, vec![("vim".to_string(), theme("z"))]);
}

#[test]
fn theme_lint_data_defaults_when_keys_are_missing() {
    let d = theme_lint_data(&obj(vec![]));
    assert_eq!(d.theme_type, "");
    assert_eq!(d.ext, "");
    assert_eq!(d.theme, None);
    assert_eq!(d.main_theme, None);
    assert!(d.theme_configs.is_empty());
    assert!(d.ext_theme_configs.is_empty());
}
