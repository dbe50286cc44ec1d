use powerliners::renderer::{
    construct_returned_value, np_character_translations, np_control_character_translations,
    np_invalid_character_translations, strwidth, translate_np, width_data, RenderReturn, NBSP,
};

#[test]
fn nbsp_constant_matches_upstream() {
    assert_eq!(NBSP, "\u{a0}");
}

#[test]
fn np_control_character_translations_has_32_entries() {
    let m = np_control_character_translations();
    assert_eq!(m.len(), 32);
}

#[test]
fn np_control_character_translations_maps_null_to_caret_at() {
    let m = np_control_character_translations();
    assert_eq!(m.get(&'\u{00}'), Some(&"^@".to_string()));
}

#[test]
fn np_control_character_translations_maps_a_to_caret_a() {
    let m = np_control_character_translations();
    assert_eq!(m.get(&'\u{01}'), Some(&"^A".to_string()));
}

#[test]
fn np_control_character_translations_maps_tab_to_caret_i() {
    let m = np_control_character_translations();
    assert_eq!(m.get(&'\t'), Some(&"^I".to_string()));
}

#[test]
fn np_control_character_translations_maps_newline_to_caret_j() {
    let m = np_control_character_translations();
    assert_eq!(m.get(&'\n'), Some(&"^J".to_string()));
}

#[test]
fn np_invalid_character_translations_has_128_entries() {
    let m = np_invalid_character_translations();
    assert_eq!(m.len(), 128);
}

#[test]
fn np_invalid_character_translations_first_entry_is_80() {
    let m = np_invalid_character_translations();
    assert_eq!(m.get(&0xDC80), Some(&"<80>".to_string()));
}

#[test]
fn np_invalid_character_translations_last_entry_is_ff() {
    let m = np_invalid_character_translations();
    assert_eq!(m.get(&0xDCFF), Some(&"<ff>".to_string()));
}

#[test]
fn np_character_translations_contains_both_control_and_invalid() {
    let m = np_character_translations();
    assert!(m.len() >= 32);
    assert!(m.contains_key(&'\u{00}'));
    assert!(!m.contains_key(&' '));
}

#[test]
fn translate_np_replaces_control_chars() {
    let r = translate_np("abc\x01def");
    assert_eq!(r, "abc^Adef");
}

#[test]
fn translate_np_passes_printable_chars_through() {
    let r = translate_np("hello world");
    assert_eq!(r, "hello world");
}

#[test]
fn translate_np_handles_multiple_control_chars() {
    let r = translate_np("\x00\x01\x02");
    assert_eq!(r, "^@^A^B");
}

#[test]
fn translate_np_keeps_non_ascii_and_maps_unit_separator() {
    assert_eq!(translate_np("é\u{1f}\u{7f}"), "é^_\u{7f}");
}

#[test]
fn construct_returned_value_plain_when_no_flags() {
    let r = construct_returned_value("hi".to_string(), None, 5, false, false);
    match r {
        RenderReturn::Plain(s) => assert_eq!(s, "hi"),
        _ => panic!("expected Plain"),
    }
}

#[test]
fn construct_returned_value_tuple_with_width_only() {
    let r = construct_returned_value("hi".to_string(), None, 5, false, true);
    match r {
        RenderReturn::Tuple { highlighted, raw, width } => {
            assert_eq!(highlighted, "hi");
            assert!(raw.is_none());
            assert_eq!(width, Some(5));
        }
        _ => panic!("expected Tuple"),
    }
}

#[test]
fn construct_returned_value_tuple_with_raw_only() {
    let r = construct_returned_value("hi".to_string(), Some("hi-raw".to_string()), 5, true, false);
    match r {
        RenderReturn::Tuple { highlighted, raw, width } => {
            assert_eq!(highlighted, "hi");
            assert_eq!(raw, Some("hi-raw".to_string()));
            assert!(width.is_none());
        }
        _ => panic!("expected Tuple"),
    }
}

#[test]
fn construct_returned_value_tuple_with_both() {
    let r = construct_returned_value("hi".to_string(), Some("hi-raw".to_string()), 5, true, true);
    match r {
        RenderReturn::Tuple { highlighted, raw, width } => {
            assert_eq!(highlighted, "hi");
            assert_eq!(raw, Some("hi-raw".to_string()));
            assert_eq!(width, Some(5));
        }
        _ => panic!("expected Tuple"),
    }
}

#[test]
fn width_data_default_ambiwidth_is_1() {
    let w = width_data(1);
    assert_eq!(w.get(&'N'), Some(&1));
    assert_eq!(w.get(&'A'), Some(&1));
    assert_eq!(w.get(&'W'), Some(&2));
    assert_eq!(w.get(&'F'), Some(&2));
}

#[test]
fn width_data_ambiwidth_overrides_ambiguous() {
    let w = width_data(2);
    assert_eq!(w.get(&'A'), Some(&2));
    assert_eq!(w.get(&'H'), Some(&1));
    assert_eq!(w.len(), 6);
}

#[test]
fn strwidth_counts_chars() {
    assert_eq!(strwidth("hello"), 5);
    assert_eq!(strwidth(""), 0);
    assert_eq!(strwidth("café"), 4);
}
