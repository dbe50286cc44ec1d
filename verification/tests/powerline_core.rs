use powerliners::powerline::{
    _config_loader_condition, _find_config_files, config_file_candidates, get_default_theme,
    get_config_paths, NotInterceptedError, PDBPowerline, PowerlineLogger,
};

#[test]
fn not_intercepted_error_implements_error() {
    let e = NotInterceptedError("boom".to_string());
    assert!(e.to_string().contains("boom"));
}

#[test]
fn config_loader_condition_returns_path_when_exists() {
    let r = _config_loader_condition(Some("/etc/powerline/config.json"), true);
    assert_eq!(r, Some("/etc/powerline/config.json".to_string()));
}

#[test]
fn config_loader_condition_returns_none_when_missing() {
    let r = _config_loader_condition(Some("/never_exists_path_xyz_99"), false);
    assert!(r.is_none());
}

#[test]
fn config_loader_condition_returns_none_when_none() {
    let r = _config_loader_condition(None, false);
    assert!(r.is_none());
}

#[test]
fn find_config_files_error_when_not_found() {
    let paths = vec!["/nowhere".to_string()];
    let r = _find_config_files(&paths, "missing", &[false]);
    assert!(r.is_err());
    assert!(r.unwrap_err().contains("Config file not found"));
}

#[test]
fn find_config_files_appends_json_suffix_to_message() {
    let paths = vec!["/nowhere".to_string()];
    let r = _find_config_files(&paths, "powerline", &[false]);
    let msg = r.unwrap_err();
    assert!(msg.contains("powerline.json"));
    assert_eq!(msg, "Config file not found in search paths (/nowhere): powerline.json");
}

#[test]
fn find_config_files_keeps_found_candidates_in_order() {
    let paths = vec!["/a".to_string(), "/b/".to_string(), "/c".to_string()];
    assert_eq!(
        config_file_candidates(&paths, "config"),
        vec!["/a/config.json".to_string(), "/b/config.json".to_string(), "/c/config.json".to_string()]
    );
    let r = _find_config_files(&paths, "config", &[true, false, true]).unwrap();
    assert_eq!(r, vec!["/a/config.json".to_string(), "/c/config.json".to_string()]);
}

#[test]
fn get_default_theme_unicode_returns_powerline_terminus() {
    assert_eq!(get_default_theme(true), "powerline_terminus");
}

#[test]
fn get_default_theme_non_unicode_returns_ascii() {
    assert_eq!(get_default_theme(false), "ascii");
}

#[test]
fn powerline_logger_format_includes_ext_prefix_message() {
    let l = PowerlineLogger::new("vim", "powerline");
    let s = l.format_message("hello", None);
    assert_eq!(s, "vim:powerline:hello");
}

#[test]
fn powerline_logger_format_overrides_prefix() {
    let l = PowerlineLogger::new("vim", "default");
    let s = l.format_message("hi", Some("seg"));
    assert_eq!(s, "vim:seg:hi");
}

#[test]
fn powerline_logger_log_captures_message() {
    let mut l = PowerlineLogger::new("shell", "p");
    l.debug("d");
    l.info("i");
    l.warn("w");
    l.error("e");
    l.critical("c");
    l.exception("ex");
    let msgs = &l.messages;
    assert_eq!(msgs.len(), 6);
    assert_eq!(msgs[0].0, "DEBUG");
    assert_eq!(msgs[2], ("WARNING".to_string(), "shell:p:w".to_string()));
    assert_eq!(msgs[5].0, "EXCEPTION");
    assert_eq!(msgs[5].1, "shell:p:ex");
}

#[test]
fn init_pins_ext_and_renderer_module_to_pdb() {
    let _p = PDBPowerline::new();
    let (ext, renderer) = PDBPowerline::init();
    assert_eq!(ext, "pdb");
    assert_eq!(renderer, "pdb");
}

#[test]
fn get_config_paths_reads_colon_separated_env() {
    let paths = PDBPowerline::get_config_paths(Some("/a:/b:/c"));
    assert_eq!(paths, vec!["/a", "/b", "/c"]);
}

#[test]
fn get_config_paths_filters_empty_entries() {
    let paths = PDBPowerline::get_config_paths(Some("::/a::/b:"));
    assert_eq!(paths, vec!["/a", "/b"]);
}

#[test]
fn get_config_paths_empty_returns_empty_vec() {
    let paths = PDBPowerline::get_config_paths(None);
    assert!(paths.is_empty());
}

#[test]
fn get_config_paths_empty_env_string_returns_empty() {
    let paths = PDBPowerline::get_config_paths(Some(""));
    assert!(paths.is_empty());
}

#[test]
fn get_config_paths_includes_plugin_path_first() {
    let paths = get_config_paths("/home/u", None, None, None);
    assert_eq!(paths[0], "config_files");
    assert_eq!(paths, vec!["config_files", "/home/u/.config/powerline"]);
}

#[test]
fn get_config_paths_includes_xdg_config_home() {
    let paths = get_config_paths("/home/u", Some("/custom/cfg"), None, None);
    assert!(paths.iter().any(|p| p.starts_with("/custom/cfg")));
    assert_eq!(paths.last().unwrap(), "/custom/cfg/powerline");
}

#[test]
fn get_config_paths_puts_config_dirs_last_entry_first() {
    let paths = get_config_paths("/h", None, Some("/etc/xdg::/opt/x"), Some("/ignored"));
    assert_eq!(
        paths,
        vec!["config_files", "/opt/x/powerline", "/etc/xdg/powerline", "/h/.config/powerline"]
    );
    let paths = get_config_paths("/h", None, None, Some("/sys"));
    assert_eq!(paths, vec!["config_files", "/sys/powerline", "/h/.config/powerline"]);
}
