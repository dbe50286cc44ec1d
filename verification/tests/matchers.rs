use powerliners::matchers::{
    basename_of, buffer_name, cmdwin, commandt, gundo, gundo_preview, help, nerdtree, quickfix,
    vim_getbufoption, MatcherInfo,
};

fn info_with_buftype(buftype: &str) -> MatcherInfo {
    MatcherInfo {
        buffer_options: vec![("buftype".to_string(), buftype.to_string())],
        ..Default::default()
    }
}

fn named(name: &[u8]) -> MatcherInfo {
    MatcherInfo { buffer_name: Some(name.to_vec()), ..Default::default() }
}

#[test]
fn help_matches_help_buftype() {
    assert!(help(&info_with_buftype("help")));
    assert!(!help(&info_with_buftype("")));
    assert!(!help(&info_with_buftype("quickfix")));
}

#[test]
fn quickfix_matches_quickfix_buftype() {
    assert!(quickfix(&info_with_buftype("quickfix")));
    assert!(!quickfix(&info_with_buftype("")));
    assert!(!quickfix(&info_with_buftype("help")));
}

#[test]
fn cmdwin_matches_command_line_buffer() {
    assert!(cmdwin(&named(b"[Command Line]")));
}

#[test]
fn cmdwin_matches_path_prefixed_buffer() {
    assert!(cmdwin(&named(b"/some/path/[Command Line]")));
}

#[test]
fn cmdwin_rejects_other_buffers() {
    assert!(!cmdwin(&named(b"main.rs")));
}

#[test]
fn cmdwin_returns_false_for_empty_name() {
    let info = MatcherInfo::default();
    assert!(!cmdwin(&info));
}

#[test]
fn commandt_matches_filetype() {
    let info = MatcherInfo {
        buffer_options: vec![("filetype".into(), "command-t".into())],
        ..Default::default()
    };
    assert!(commandt(&info));
}

#[test]
fn commandt_matches_gotofile_buffer() {
    assert!(commandt(&named(b"/path/to/GoToFile")));
}

#[test]
fn commandt_rejects_other_buffer() {
    assert!(!commandt(&named(b"main.rs")));
}

#[test]
fn gundo_matches_gundo_buffer() {
    let info = named(b"__Gundo__");
    assert!(gundo(&info));
    assert!(!gundo_preview(&info));
}

#[test]
fn gundo_preview_matches_preview_buffer() {
    let info = named(b"__Gundo_Preview__");
    assert!(gundo_preview(&info));
    assert!(!gundo(&info));
}

#[test]
fn gundo_rejects_other_buffer() {
    let info = named(b"main.rs");
    assert!(!gundo(&info));
    assert!(!gundo_preview(&info));
}

#[test]
fn nerdtree_matches_nerd_tree_buffer() {
    assert!(nerdtree(&named(b"NERD_tree_1")));
}

#[test]
fn nerdtree_matches_path_prefixed_buffer() {
    assert!(nerdtree(&named(b"/tmp/NERD_tree_42")));
}

#[test]
fn nerdtree_rejects_regular_buffer() {
    assert!(!nerdtree(&named(b"main.rs")));
}

#[test]
fn nerdtree_returns_false_for_empty_name() {
    let info = MatcherInfo::default();
    assert!(!nerdtree(&info));
    assert!(!nerdtree(&named(b"")));
}

#[test]
fn nerdtree_needs_digits_after_prefix() {
    assert!(!nerdtree(&named(b"NERD_tree_")));
    assert!(!nerdtree(&named(b"/NERD_tree_1/file")));
}

#[test]
fn getbufoption_takes_first_value_and_defaults_to_empty() {
    let info = MatcherInfo {
        buffer_options: vec![
            ("buftype".into(), "help".into()),
            ("buftype".into(), "quickfix".into()),
        ],
        buffer_name: None,
    };
    assert_eq!(vim_getbufoption(&info, "buftype"), "help");
    assert_eq!(vim_getbufoption(&info, "filetype"), "");
}

#[test]
fn basename_takes_part_after_last_slash() {
    assert_eq!(basename_of(&b"/a/b/c".to_vec()), b"c".to_vec());
    assert_eq!(basename_of(&b"plain".to_vec()), b"plain".to_vec());
    assert_eq!(basename_of(&b"dir/".to_vec()), b"".to_vec());
    assert_eq!(buffer_name(&named(b"x/y")), Some(b"x/y".to_vec()));
}
