use powerliners::lint_checks::{
    check_color, check_config, check_exinclude_function, check_ext, check_group,
    check_highlight_group, check_highlight_groups, check_hl_group_name, check_key_compatibility,
    check_log_file_level, check_logging_handler, check_matcher_func, check_segment_module,
    check_top_theme, check_translated_group_name, common_names, generic_keys, get_function_strings,
    get_one_segment_function, highlight_keys, register_common_name, required_keys,
    required_keys_for, type_keys, type_keys_for, LintResult, LIST_SEP,
};

#[test]
fn list_sep_matches_upstream() {
    assert_eq!(LIST_SEP, ", ");
}

#[test]
fn generic_keys_has_13_entries() {
    let g = generic_keys();
    assert_eq!(g.len(), 13);
    assert!(g.contains(&"exclude_modes"));
    assert!(g.contains(&"priority"));
    assert!(g.contains(&"display"));
}

#[test]
fn type_keys_function_includes_args() {
    let function_keys = type_keys_for("function").unwrap();
    assert!(function_keys.contains(&"function"));
    assert!(function_keys.contains(&"args"));
    assert!(function_keys.contains(&"draw_inner_divider"));
    let t = type_keys();
    assert_eq!(t[0].0, "function");
    assert_eq!(t[0].1, function_keys);
}

#[test]
fn type_keys_string_includes_contents() {
    let string_keys = type_keys_for("string").unwrap();
    assert!(string_keys.contains(&"contents"));
    assert!(string_keys.contains(&"highlight_groups"));
    assert!(string_keys.contains(&"divider_highlight_group"));
}

#[test]
fn type_keys_segment_list_includes_segments() {
    let sl_keys = type_keys_for("segment_list").unwrap();
    assert!(sl_keys.contains(&"function"));
    assert!(sl_keys.contains(&"segments"));
    assert!(type_keys_for("bogus").is_none());
}

#[test]
fn required_keys_function_requires_function() {
    let fn_req = required_keys_for("function").unwrap();
    assert!(fn_req.contains(&"function"));
    assert_eq!(fn_req.len(), 1);
}

#[test]
fn required_keys_string_has_no_required() {
    let str_req = required_keys_for("string").unwrap();
    assert!(str_req.is_empty());
}

#[test]
fn required_keys_segment_list_requires_function_and_segments() {
    let r = required_keys();
    let sl_req = &r[2].1;
    assert_eq!(r[2].0, "segment_list");
    assert!(sl_req.contains(&"function"));
    assert!(sl_req.contains(&"segments"));
    assert_eq!(sl_req.len(), 2);
}

#[test]
fn highlight_keys_contains_highlight_groups_and_name() {
    let h = highlight_keys();
    assert!(h.contains(&"highlight_groups"));
    assert!(h.contains(&"name"));
}

#[test]
fn get_function_strings_dotted_name_splits() {
    let (m, f) = get_function_strings("foo.bar.baz", "powerline.segments.shell");
    assert_eq!(m, "foo.bar");
    assert_eq!(f, "baz");
}

#[test]
fn get_function_strings_undotted_uses_default_module() {
    let (m, f) = get_function_strings("plain", "powerline.segments.shell");
    assert_eq!(m, "powerline.segments.shell");
    assert_eq!(f, "plain");
}

#[test]
fn get_function_strings_leading_dot_gives_empty_module() {
    let (m, f) = get_function_strings(".x", "d");
    assert_eq!(m, "");
    assert_eq!(f, "x");
}

#[test]
fn lint_result_ok_is_proceed_true_no_echo_no_problem() {
    let r = LintResult::ok();
    assert!(r.proceed);
    assert!(!r.echo);
    assert!(!r.hadproblem);
}

#[test]
fn lint_result_failed_is_proceed_false_echo_true_problem() {
    let r = LintResult::failed();
    assert!(!r.proceed);
    assert!(r.echo);
    assert!(r.hadproblem);
}

#[test]
fn lint_result_warned_proceeds_but_echoes_problem() {
    let r = LintResult::warned();
    assert!(r.proceed);
    assert!(r.echo);
    assert!(r.hadproblem);
}

#[test]
fn register_common_name_inserts_into_registry() {
    let mut names = common_names();
    register_common_name(&mut names, "uptime", "powerline.segments.common.sys", "uptime");
    assert!(names.contains_key("uptime"));
    let entries = names.get("uptime");
    assert_eq!(entries.len(), 1);
    assert_eq!(entries[0].0, "powerline.segments.common.sys");
    assert_eq!(entries[0].1, "uptime");
}

#[test]
fn register_common_name_dedupes_duplicates() {
    let mut names = common_names();
    register_common_name(&mut names, "x", "a", "b");
    register_common_name(&mut names, "x", "a", "b");
    assert_eq!(names.get("x").len(), 1);
}

#[test]
fn register_common_name_supports_multiple_aliases() {
    let mut names = common_names();
    register_common_name(&mut names, "x", "mod1", "fn_a");
    register_common_name(&mut names, "x", "mod2", "fn_b");
    assert_eq!(names.get("x").len(), 2);
    assert!(!names.contains_key("y"));
}

#[test]
fn check_log_file_level_below_top_warns() {
    let r = check_log_file_level("DEBUG", "WARNING");
    assert!(r.hadproblem);
    assert!(r.proceed);
}

#[test]
fn check_log_file_level_at_or_above_top_is_ok() {
    let r = check_log_file_level("ERROR", "WARNING");
    assert!(!r.hadproblem);
    let r = check_log_file_level("WARNING", "WARNING");
    assert!(!r.hadproblem);
}

#[test]
fn check_log_file_level_invalid_level_is_ok() {
    let r = check_log_file_level("BOGUS", "WARNING");
    assert!(!r.hadproblem);
    let r = check_log_file_level("DEBUG", "BOGUS");
    assert!(!r.hadproblem);
}

#[test]
fn check_logging_handler_known_handler_is_ok() {
    let r = check_logging_handler("StreamHandler");
    assert!(r.proceed);
    assert!(!r.hadproblem);
}

#[test]
fn check_logging_handler_unknown_handler_fails() {
    let r = check_logging_handler("BogusHandler");
    assert!(r.hadproblem);
    assert_eq!(r, LintResult::failed());
}

#[test]
fn check_color_accepts_simple_name() {
    let r = check_color("solarized_red");
    assert!(!r.hadproblem);
}

#[test]
fn check_color_rejects_empty() {
    let r = check_color("");
    assert!(r.hadproblem);
}

#[test]
fn check_color_rejects_whitespace() {
    let r = check_color("red blue");
    assert!(r.hadproblem);
    let r = check_color("red\t");
    assert!(r.hadproblem);
}

#[test]
fn check_color_rejects_unicode_whitespace() {
    assert!(check_color("red\u{3000}").hadproblem);
    assert!(!check_color("r\u{e9}d").hadproblem);
}

#[test]
fn check_hl_group_name_accepts_identifier() {
    let r = check_hl_group_name("branch_clean");
    assert!(!r.hadproblem);
}

#[test]
fn check_hl_group_name_accepts_colon() {
    let r = check_hl_group_name("workspace:focused");
    assert!(!r.hadproblem);
}

#[test]
fn check_hl_group_name_rejects_empty() {
    let r = check_hl_group_name("");
    assert!(r.hadproblem);
}

#[test]
fn check_hl_group_name_rejects_leading_digit() {
    let r = check_hl_group_name("123foo");
    assert!(r.hadproblem);
}

#[test]
fn check_hl_group_name_accepts_underscore_prefix() {
    let r = check_hl_group_name("_private");
    assert!(!r.hadproblem);
}

#[test]
fn check_ext_known_ext_with_themes_is_ok() {
    let exts = ["shell", "tmux", "vim"];
    let (had_dirs, had_problem) = check_ext("shell", &exts, true, true, false, false);
    assert!(had_dirs);
    assert!(!had_problem);
}

#[test]
fn check_ext_unknown_ext_returns_problem() {
    let exts = ["shell"];
    let (had_dirs, had_problem) = check_ext("bogus", &exts, false, false, false, false);
    assert!(!had_dirs);
    assert!(had_problem);
}

#[test]
fn check_ext_falls_back_to_top_themes() {
    let exts = ["shell"];
    let (had_dirs, _) = check_ext("shell", &exts, false, false, true, true);
    assert!(had_dirs);
}

#[test]
fn check_ext_themes_without_colorschemes_is_problem() {
    let exts = ["shell"];
    assert_eq!(check_ext("shell", &exts, true, false, false, false), (true, true));
}

#[test]
fn check_config_known_ext_with_theme_ok() {
    let exts = ["shell"];
    let r = check_config("themes", "default", "shell", &exts, true, false);
    assert!(!r.hadproblem);
}

#[test]
fn check_config_unknown_ext_warns() {
    let exts = ["shell"];
    let r = check_config("themes", "default", "bogus", &exts, false, false);
    assert!(r.hadproblem);
}

#[test]
fn check_config_missing_theme_emits_problem() {
    let exts = ["shell"];
    let r = check_config("themes", "missing", "shell", &exts, false, false);
    assert!(r.hadproblem);
    assert!(r.proceed);
    assert!(!r.echo);
}

#[test]
fn check_top_theme_known_theme_is_ok() {
    let themes = ["default", "tmux"];
    let r = check_top_theme("default", &themes);
    assert!(!r.hadproblem);
}

#[test]
fn check_top_theme_unknown_theme_has_problem() {
    let themes = ["default"];
    let r = check_top_theme("bogus", &themes);
    assert!(r.hadproblem);
}

#[test]
fn check_group_known_group_is_ok() {
    let groups = ["branch", "background"];
    let r = check_group("branch", &groups);
    assert!(!r.hadproblem);
}

#[test]
fn check_group_unknown_group_has_problem() {
    let groups = ["branch"];
    let r = check_group("nonexistent", &groups);
    assert!(r.hadproblem);
}

#[test]
fn check_translated_group_name_delegates_to_check_group() {
    let groups = ["foo"];
    let r1 = check_translated_group_name("foo", &groups);
    let r2 = check_group("foo", &groups);
    assert_eq!(r1, r2);
}

#[test]
fn check_key_compatibility_function_segment_with_valid_keys() {
    let keys = ["function", "args", "name", "priority"];
    let r = check_key_compatibility(&keys, "function");
    assert!(!r.hadproblem);
}

#[test]
fn check_key_compatibility_string_segment_requires_highlight() {
    let keys = ["contents"];
    let r = check_key_compatibility(&keys, "string");
    assert!(r.hadproblem);
}

#[test]
fn check_key_compatibility_string_segment_with_name_ok() {
    let keys = ["contents", "name"];
    let r = check_key_compatibility(&keys, "string");
    assert!(!r.hadproblem);
}

#[test]
fn check_key_compatibility_function_missing_function_key() {
    let keys = ["args"];
    let r = check_key_compatibility(&keys, "function");
    assert!(r.hadproblem);
}

#[test]
fn check_key_compatibility_unknown_segment_type_fails() {
    let keys = ["function"];
    let r = check_key_compatibility(&keys, "bogus_type");
    assert!(!r.proceed);
    assert!(r.hadproblem);
}

#[test]
fn check_key_compatibility_unknown_key_emits_problem() {
    let keys = ["function", "bogus_key"];
    let r = check_key_compatibility(&keys, "function");
    assert!(r.hadproblem);
}

#[test]
fn check_key_compatibility_segment_list_needs_segments() {
    assert!(check_key_compatibility(&["function", "name"], "segment_list").hadproblem);
    assert!(!check_key_compatibility(&["function", "segments", "name"], "segment_list").hadproblem);
}

#[test]
fn check_segment_module_importable_is_ok() {
    let r = check_segment_module("powerline.segments.shell", |_| true);
    assert!(!r.hadproblem);
}

#[test]
fn check_segment_module_unimportable_has_problem() {
    let r = check_segment_module("definitely.not.a.real.module", |_| false);
    assert!(r.hadproblem);
}

#[test]
fn check_exinclude_function_dotted_name_splits() {
    let (m, n) = check_exinclude_function("powerline.selectors.vim.in_help", "vim");
    assert_eq!(m, "powerline.selectors.vim");
    assert_eq!(n, "in_help");
}

#[test]
fn check_exinclude_function_undotted_defaults_module() {
    let (m, n) = check_exinclude_function("in_help", "vim");
    assert_eq!(m, "powerline.selectors.vim");
    assert_eq!(n, "in_help");
}

#[test]
fn check_exinclude_function_leading_dot_defaults_module() {
    let (m, n) = check_exinclude_function(".in_help", "vim");
    assert_eq!(m, "powerline.selectors.vim");
    assert_eq!(n, "in_help");
}

#[test]
fn get_one_segment_function_returns_pair_when_set() {
    let r = get_one_segment_function(Some("powerline.segments.shell.uptime"), "shell");
    assert_eq!(
        r,
        Some(("powerline.segments.shell".to_string(), "uptime".to_string()))
    );
}

#[test]
fn get_one_segment_function_returns_none_when_unset() {
    assert_eq!(get_one_segment_function(None, "shell"), None);
}

#[test]
fn get_one_segment_function_undotted_defaults_module() {
    let r = get_one_segment_function(Some("uptime"), "shell");
    assert_eq!(
        r,
        Some(("powerline.segments.shell".to_string(), "uptime".to_string()))
    );
}

#[test]
fn check_matcher_func_dotted_name_splits() {
    let (m, n) = check_matcher_func("vim", "powerline.matchers.vim.help");
    assert_eq!(m, "powerline.matchers.vim");
    assert_eq!(n, "help");
}

#[test]
fn check_matcher_func_undotted_defaults_module() {
    let (m, n) = check_matcher_func("vim", "help");
    assert_eq!(m, "powerline.matchers.vim");
    assert_eq!(n, "help");
}

#[test]
fn check_highlight_group_known_group_ok() {
    let groups = ["background", "branch"];
    let r = check_highlight_group("background", &groups);
    assert!(!r.hadproblem);
}

#[test]
fn check_highlight_group_unknown_group_has_problem() {
    let groups = ["background"];
    let r = check_highlight_group("nonexistent", &groups);
    assert!(r.hadproblem);
}

#[test]
fn check_highlight_groups_all_known_is_ok() {
    let groups = ["a", "b", "c"];
    let r = check_highlight_groups(&["a", "b"], &groups);
    assert!(!r.hadproblem);
}

#[test]
fn check_highlight_groups_any_missing_has_problem() {
    let groups = ["a"];
    let r = check_highlight_groups(&["a", "b"], &groups);
    assert!(r.hadproblem);
}
