use powerliners::char_map::CharMap;
use powerliners::json_value::JsonValue;
use powerliners::render_segments::{
    _render_length, compute_divider_widths, priority_order, Highlight, Renderer, Segment, Side,
    ThemeInfo,
};
use powerliners::renderer::RenderReturn;

fn no_nbsp() -> Vec<(String, JsonValue)> {
    vec![("use_non_breaking_spaces".to_string(), JsonValue::Bool(false))]
}

fn theme() -> ThemeInfo {
    ThemeInfo {
        spaces: 1,
        outer_padding: 1,
        empty_highlight: Highlight { fg: 0, bg: 0, attrs: 0 },
        left_soft: ">".into(),
        left_hard: "|".into(),
        right_soft: "<".into(),
        right_hard: "/".into(),
    }
}

fn seg(contents: &str, side: Side, fg: u64, bg: u64) -> Segment {
    Segment {
        contents: contents.to_string(),
        literal_width: 0,
        literal_text: String::new(),
        contents_len: contents.chars().count(),
        side,
        highlight: Highlight { fg, bg, attrs: 0 },
        divider_highlight: None,
        draw_soft_divider: true,
        draw_hard_divider: true,
        priority: None,
        has_truncate: false,
        has_expand: false,
        len: 0,
        rendered_raw: String::new(),
        rendered_hl: String::new(),
    }
}

fn three() -> Vec<Segment> {
    vec![seg("ab", Side::Left, 10, 1), seg("c", Side::Left, 11, 1), seg("d", Side::Right, 12, 2)]
}

fn hl(t: &str, fg: u64, bg: u64, a: Option<u64>) -> String {
    match a {
        Some(x) => format!("<{}/{}/{}>{}", fg, bg, x, t),
        None => format!("<{}/{}>{}", fg, bg, t),
    }
}

#[test]
fn divider_widths_count_characters() {
    let mut t = theme();
    t.left_soft = "\u{e0b1}".into();
    t.right_hard = "<<".into();
    let w = compute_divider_widths(&t);
    assert_eq!((w.left_soft, w.left_hard, w.right_soft, w.right_hard), (1, 1, 1, 2));
}

#[test]
fn render_length_measures_dividers_and_padding() {
    let t = theme();
    let mut segs = three();
    let total = _render_length(&t, &mut segs, &compute_divider_widths(&t));
    assert_eq!(segs.iter().map(|s| s.len).collect::<Vec<_>>(), vec![5, 3, 4]);
    assert_eq!(total, 12);
}

#[test]
fn render_length_gives_literal_segments_their_width_only() {
    let t = theme();
    let mut segs = three();
    segs[1].literal_text = "LIT".into();
    segs[1].contents_len = 7;
    let total = _render_length(&t, &mut segs, &compute_divider_widths(&t));
    assert_eq!(segs[1].len, 7);
    // "ab" is now compared with "d" (different background): a hard divider.
    assert_eq!(segs[0].len, 5);
    assert_eq!(total, 5 + 7 + 4);
}

#[test]
fn prepare_segments_translates_and_measures() {
    let mut segs = vec![seg("a\u{1}", Side::Left, 1, 1), seg("zz", Side::Left, 1, 1)];
    segs[1].literal_width = 9;
    segs[1].literal_text = "x".into();
    Renderer::_prepare_segments(&mut segs, true);
    assert_eq!(segs[0].contents, "a^A");
    assert_eq!(segs[0].contents_len, 3);
    assert_eq!(segs[1].contents_len, 9);
    let mut again = vec![seg("b\u{2}", Side::Left, 1, 1)];
    again[0].contents_len = 42;
    Renderer::_prepare_segments(&mut again, false);
    assert_eq!(again[0].contents, "b^B");
    assert_eq!(again[0].contents_len, 42);
}

#[test]
fn escape_uses_non_breaking_spaces_when_asked() {
    let r = Renderer::new(Vec::new(), Vec::new(), 1);
    assert_eq!(r.escape("a b"), "a\u{a0}b");
    let plain = Renderer::new(no_nbsp(), Vec::new(), 1);
    assert_eq!(plain.escape("a b"), "a b");
    assert_eq!(Renderer::hl(Some("x"), "S"), "Sx");
    assert_eq!(Renderer::hl(None, "S"), "S");
}

#[test]
fn priority_order_is_highest_first_and_stable() {
    let mut segs = three();
    segs[0].priority = Some(1);
    segs[1].priority = Some(5);
    segs[2].priority = Some(1);
    assert_eq!(priority_order(&segs), vec![1, 0, 2]);
    segs[1].priority = None;
    assert_eq!(priority_order(&segs), vec![0, 2]);
}

#[test]
fn render_segments_builds_raw_and_highlighted_text() {
    let r = Renderer::new(no_nbsp(), Vec::new(), 1);
    let t = theme();
    let mut segs = three();
    let out = r._render_segments(&t, &mut segs, true, &hl);
    assert_eq!(out[0].rendered_raw, " ab >");
    assert_eq!(out[0].rendered_hl, "<10/1/0> ab <10/1>>");
    assert_eq!(out[1].rendered_raw, "c |");
    assert_eq!(out[1].rendered_hl, "<11/1/0>c <1/2>|");
    assert_eq!(out[2].rendered_raw, "/ d ");
    assert_eq!(out[2].rendered_hl, "<2/1>/<12/2/0> d ");
    assert_eq!(segs[2].rendered_raw, "/ d ");
}

#[test]
fn do_render_without_width_renders_everything() {
    let r = Renderer::new(no_nbsp(), Vec::new(), 1);
    let t = theme();
    match r.do_render(None, true, true, &t, three(), "R", &hl) {
        RenderReturn::Tuple { highlighted, raw, width } => {
            assert_eq!(highlighted, "<10/1/0> ab <10/1>><11/1/0>c <1/2>|<2/1>/<12/2/0> d R");
            assert_eq!(raw.as_deref(), Some(" ab >c |/ d "));
            assert_eq!(width, Some(12));
        }
        RenderReturn::Plain(_) => panic!("expected the raw text and the width"),
    }
    match r.do_render(None, false, false, &t, vec![], "R", &hl) {
        RenderReturn::Plain(h) => assert_eq!(h, "R"),
        RenderReturn::Tuple { .. } => panic!("expected plain text"),
    }
}

#[test]
fn do_render_drops_by_priority_until_it_fits() {
    let r = Renderer::new(no_nbsp(), Vec::new(), 1);
    let t = theme();
    let mut segs = three();
    segs[0].priority = Some(1);
    segs[1].priority = Some(5);
    match r.do_render(Some(10), true, true, &t, segs, "R", &hl) {
        RenderReturn::Tuple { raw, width, .. } => {
            assert_eq!(raw.as_deref(), Some(" ab |/ d "));
            assert_eq!(width, Some(9));
        }
        RenderReturn::Plain(_) => panic!("expected the raw text and the width"),
    }
}

#[test]
fn do_render_spreads_room_on_spacers() {
    let r = Renderer::new(no_nbsp(), Vec::new(), 1);
    let t = theme();
    let mut segs = three();
    segs[1].has_expand = true;
    match r.do_render(Some(15), true, true, &t, segs, "R", &hl) {
        RenderReturn::Tuple { raw, width, .. } => {
            assert_eq!(raw.as_deref(), Some(" ab >c    |/ d "));
            assert_eq!(width, Some(15));
        }
        RenderReturn::Plain(_) => panic!("expected the raw text and the width"),
    }
}

#[test]
fn do_render_plain_without_output_flags_and_empty_line_has_no_reset() {
    let r = Renderer::new(no_nbsp(), Vec::new(), 1);
    let t = theme();
    match r.do_render(Some(10), false, false, &t, vec![], "R", &hl) {
        RenderReturn::Plain(h) => assert_eq!(h, ""),
        RenderReturn::Tuple { .. } => panic!("expected plain text"),
    }
}

fn raw_of(r: &RenderReturn) -> Option<String> {
    match r {
        RenderReturn::Tuple { raw, .. } => raw.clone(),
        RenderReturn::Plain(_) => None,
    }
}

#[test]
fn render_above_lines_renders_lines_above_the_last_from_the_bottom() {
    let r = Renderer::new(no_nbsp(), Vec::new(), 1);
    let t = theme();
    let lines = vec![
        vec![seg("top", Side::Left, 1, 1)],
        vec![seg("mid", Side::Left, 1, 1)],
        vec![seg("low", Side::Left, 1, 1)],
    ];
    let out = r.render_above_lines(None, true, false, &t, lines, "R", &hl);
    assert_eq!(out.len(), 2);
    assert_eq!(raw_of(&out[0]).as_deref(), Some(" low |"));
    assert_eq!(raw_of(&out[1]).as_deref(), Some(" mid |"));
    assert!(r.render_above_lines(None, true, false, &t, vec![three()], "R", &hl).is_empty());
    assert!(r.render_above_lines(None, true, false, &t, Vec::new(), "R", &hl).is_empty());
}

#[test]
fn compute_divider_widths_emits_both_sides_and_kinds() {
    let mut t = theme();
    t.left_hard = " ".into();
    t.left_soft = " ".into();
    t.right_hard = " ".into();
    t.right_soft = " ".into();
    let w = compute_divider_widths(&t);
    assert_eq!(w.left_hard, 1);
    assert_eq!(w.left_soft, 1);
    assert_eq!(w.right_hard, 1);
    assert_eq!(w.right_soft, 1);
}

#[test]
fn renderer_init_use_nbsp_default_adds_space_translation() {
    let r = Renderer::new(Vec::new(), Vec::new(), 1);
    assert_eq!(r.character_translations.get(&' '), Some(&"\u{a0}".to_string()));
}

#[test]
fn renderer_init_use_nbsp_false_omits_space_translation() {
    let r = Renderer::new(no_nbsp(), Vec::new(), 1);
    assert!(!r.character_translations.contains_key(&' '));
}

#[test]
fn renderer_init_uses_ambiwidth_for_width_data() {
    let r = Renderer::new(Vec::new(), Vec::new(), 2);
    assert_eq!(r.width_data.get(&'A'), Some(&2));
}

#[test]
fn escape_translates_chars_via_character_translations() {
    let mut r = Renderer::new(Vec::new(), Vec::new(), 1);
    r.character_translations = CharMap::new();
    r.character_translations.insert_new('%', "%%".to_string());
    assert_eq!(r.escape("100% done"), "100%% done");
}

#[test]
fn escape_passes_untranslated_chars_through() {
    let r = Renderer::new(Vec::new(), Vec::new(), 1);
    assert_eq!(r.escape("abc"), "abc");
}

#[test]
fn escape_default_translates_space_to_nbsp() {
    let r = Renderer::new(Vec::new(), Vec::new(), 1);
    let result = r.escape("hi there");
    assert!(result.contains('\u{a0}'));
    assert!(!result.contains(' '));
}

#[test]
fn escape_use_non_breaking_spaces_false_keeps_spaces() {
    let r = Renderer::new(no_nbsp(), Vec::new(), 1);
    assert_eq!(r.escape("hi there"), "hi there");
}

#[test]
fn hl_concatenates_hlstyle_output_and_contents() {
    assert_eq!(Renderer::hl(Some("text"), "\x1b[1m"), "\x1b[1mtext");
}

#[test]
fn hl_none_contents_becomes_empty_string() {
    assert_eq!(Renderer::hl(None, "\x1b[1m"), "\x1b[1m");
}

#[test]
fn _prepare_segments_translates_non_printable_contents() {
    let mut segments = vec![seg("hello\x01world", Side::Left, 0, 0)];
    Renderer::_prepare_segments(&mut segments, false);
    assert!(!segments[0].contents.contains('\x01'));
}

#[test]
fn _prepare_segments_calculates_contents_len_from_strwidth_when_no_literal() {
    let mut segments = vec![seg("hello", Side::Left, 0, 0)];
    segments[0].contents_len = 0;
    segments[0].literal_width = 0;
    segments[0].literal_text = String::new();
    Renderer::_prepare_segments(&mut segments, true);
    assert_eq!(segments[0].contents_len, 5);
}

#[test]
fn _prepare_segments_uses_literal_contents_len_when_literal_non_empty() {
    let mut segments = vec![seg("ignored", Side::Left, 0, 0)];
    segments[0].literal_width = 42;
    segments[0].literal_text = "raw text".to_string();
    Renderer::_prepare_segments(&mut segments, true);
    assert_eq!(segments[0].contents_len, 42);
}

#[test]
fn _prepare_segments_skips_contents_len_when_not_requested() {
    let mut segments = vec![seg("hello", Side::Left, 0, 0)];
    segments[0].contents_len = 0;
    Renderer::_prepare_segments(&mut segments, false);
    assert_eq!(segments[0].contents_len, 0);
}

#[test]
fn get_theme_returns_self_theme() {
    let mut r = Renderer::new(Vec::new(), Vec::new(), 1);
    r.theme = JsonValue::Object(vec![("name".to_string(), JsonValue::Text("default".to_string()))]);
    let t = r.get_theme(None);
    assert_eq!(t, JsonValue::Object(vec![("name".to_string(), JsonValue::Text("default".to_string()))]));
}

#[test]
fn get_theme_ignores_matcher_info() {
    let mut r = Renderer::new(Vec::new(), Vec::new(), 1);
    r.theme = JsonValue::Object(vec![("name".to_string(), JsonValue::Text("default".to_string()))]);
    let info = JsonValue::Object(vec![("foo".to_string(), JsonValue::Text("bar".to_string()))]);
    let t = r.get_theme(Some(&info));
    assert_eq!(t, JsonValue::Object(vec![("name".to_string(), JsonValue::Text("default".to_string()))]));
}

#[test]
fn shutdown_records_theme() {
    let mut r = Renderer::new(Vec::new(), Vec::new(), 1);
    r.shutdown();
    assert_eq!(r.shutdown_called, vec!["theme".to_string()]);
}

#[test]
fn renderer_keeps_theme_config_and_starts_with_null_theme() {
    let r = Renderer::new(vec![("use_non_breaking_spaces".to_string(), JsonValue::Text("no".to_string()))], Vec::new(), 1);
    assert_eq!(r.escape("a b"), "a\u{a0}b");
    assert_eq!(r.theme, JsonValue::Null);
    assert_eq!(r.theme_config.len(), 1);
}

#[test]
fn do_render_keeps_segments_without_priority_past_the_width() {
    let r = Renderer::new(no_nbsp(), Vec::new(), 1);
    let t = theme();
    let mut segs = three();
    segs[2].priority = Some(3);
    match r.do_render(Some(3), true, true, &t, segs, "R", &hl) {
        RenderReturn::Tuple { raw, width, .. } => {
            assert_eq!(raw.as_deref(), Some(" ab >c |"));
            assert_eq!(width, Some(8));
        }
        RenderReturn::Plain(_) => panic!("expected the raw text and the width"),
    }
}

#[test]
fn render_gives_what_do_render_gives() {
    let r = Renderer::new(no_nbsp(), Vec::new(), 1);
    let t = theme();
    let mut segs = three();
    segs[0].priority = Some(1);
    segs[1].priority = Some(5);
    match r.render(Some(10), true, true, None, &t, segs, "R", &hl) {
        RenderReturn::Tuple { raw, width, .. } => {
            assert_eq!(raw.as_deref(), Some(" ab |/ d "));
            assert_eq!(width, Some(9));
        }
        RenderReturn::Plain(_) => panic!("expected the raw text and the width"),
    }
}
