use std::collections::HashMap;

use powerliners::markedjson::error::MarkedError;
use powerliners::markedjson::scanner::{
    check_plain, dispatch_fetch_for, hexdigits_set, stale_possible_simple_keys, FetchKind, Scanner,
    ScannerError, SimpleKey,
};

#[test]
fn hexdigits_set_contains_all_hex_chars() {
    let s = hexdigits_set();
    for c in "0123456789abcdefABCDEF".chars() {
        assert!(s.contains(&c), "missing: {}", c);
    }
    assert!(!s.contains(&'g'));
}

#[test]
fn hexdigits_set_has_22_entries() {
    let s = hexdigits_set();
    assert_eq!(s.len(), 22);
}

#[test]
fn scanner_error_implements_error_traits() {
    let me = MarkedError::new(Some("ctx"), None, Some("prob"), None, None);
    let e = ScannerError(me);
    assert!(e.to_string().contains("ctx"));
}

#[test]
fn simple_key_stores_state() {
    let k = SimpleKey::new(5, 10, 2, 3, None);
    assert_eq!(k.token_number, 5);
    assert_eq!(k.index, 10);
    assert_eq!(k.line, 2);
    assert_eq!(k.column, 3);
}

#[test]
fn dispatch_fetch_for_null_returns_stream_end() {
    assert_eq!(dispatch_fetch_for('\0', 0), Some(FetchKind::StreamEnd));
}

#[test]
fn dispatch_fetch_for_bracket_returns_flow_sequence_start() {
    assert_eq!(dispatch_fetch_for('[', 0), Some(FetchKind::FlowSequenceStart));
}

#[test]
fn dispatch_fetch_for_brace_returns_flow_mapping_start() {
    assert_eq!(dispatch_fetch_for('{', 0), Some(FetchKind::FlowMappingStart));
}

#[test]
fn dispatch_fetch_for_close_bracket_returns_flow_sequence_end() {
    assert_eq!(dispatch_fetch_for(']', 1), Some(FetchKind::FlowSequenceEnd));
}

#[test]
fn dispatch_fetch_for_close_brace_returns_flow_mapping_end() {
    assert_eq!(dispatch_fetch_for('}', 1), Some(FetchKind::FlowMappingEnd));
}

#[test]
fn dispatch_fetch_for_comma_returns_flow_entry() {
    assert_eq!(dispatch_fetch_for(',', 1), Some(FetchKind::FlowEntry));
}

#[test]
fn dispatch_fetch_for_colon_in_flow_returns_value() {
    assert_eq!(dispatch_fetch_for(':', 1), Some(FetchKind::Value));
}

#[test]
fn dispatch_fetch_for_colon_outside_flow_returns_plain() {
    assert_eq!(dispatch_fetch_for(':', 0), None);
}

#[test]
fn dispatch_fetch_for_quote_returns_double() {
    assert_eq!(dispatch_fetch_for('"', 0), Some(FetchKind::Double));
}

#[test]
fn dispatch_fetch_for_alpha_returns_plain() {
    assert_eq!(dispatch_fetch_for('a', 0), Some(FetchKind::Plain));
    assert_eq!(dispatch_fetch_for('1', 0), Some(FetchKind::Plain));
}

#[test]
fn check_plain_excludes_structural_chars() {
    assert!(!check_plain('\0'));
    assert!(!check_plain('['));
    assert!(!check_plain(']'));
    assert!(!check_plain('{'));
    assert!(!check_plain('}'));
    assert!(!check_plain(','));
    assert!(!check_plain(':'));
    assert!(!check_plain('"'));
}

#[test]
fn check_plain_accepts_alphanumeric() {
    assert!(check_plain('a'));
    assert!(check_plain('Z'));
    assert!(check_plain('5'));
    assert!(check_plain('_'));
}

#[test]
fn scanner_new_emits_stream_start_token() {
    let s = Scanner::new();
    assert_eq!(s.tokens.len(), 1);
    assert_eq!(s.tokens[0], "StreamStartToken");
    assert_eq!(s.flow_level, 0);
    assert_eq!(s.tokens_taken, 0);
    assert!(!s.done);
    assert!(s.allow_simple_key);
}

#[test]
fn fetch_stream_end_sets_done_and_appends_token() {
    let mut s = Scanner::new();
    s.fetch_stream_end();
    assert!(s.done);
    assert_eq!(s.tokens[1], "StreamEndToken");
}

#[test]
fn fetch_stream_end_clears_simple_keys() {
    let mut s = Scanner::new();
    s.save_possible_simple_key(1, 0, 1);
    s.fetch_stream_end();
    assert!(s.possible_simple_keys.is_empty());
}

#[test]
fn check_token_no_choices_returns_true_when_token_available() {
    let s = Scanner::new();
    assert!(s.check_token(&[]));
}

#[test]
fn check_token_matches_specific_name() {
    let s = Scanner::new();
    assert!(s.check_token(&["StreamStartToken"]));
    assert!(!s.check_token(&["StreamEndToken"]));
}

#[test]
fn check_token_returns_false_when_no_tokens() {
    let mut s = Scanner {
        done: false,
        flow_level: 0,
        tokens: Vec::new(),
        tokens_taken: 0,
        allow_simple_key: true,
        possible_simple_keys: HashMap::new(),
    };
    s.tokens.clear();
    assert!(!s.check_token(&[]));
}

#[test]
fn peek_token_returns_first_without_consuming() {
    let s = Scanner::new();
    assert_eq!(s.peek_token(), Some("StreamStartToken"));
    assert_eq!(s.tokens_taken, 0);
}

#[test]
fn get_token_pops_and_increments_taken() {
    let mut s = Scanner::new();
    let t = s.get_token();
    assert_eq!(t.as_deref(), Some("StreamStartToken"));
    assert_eq!(s.tokens_taken, 1);
    assert!(s.tokens.is_empty());
    assert_eq!(s.get_token(), None);
    assert_eq!(s.tokens_taken, 1);
}

#[test]
fn need_more_tokens_false_when_done() {
    let mut s = Scanner::new();
    s.done = true;
    s.tokens.clear();
    assert!(!s.need_more_tokens());
}

#[test]
fn need_more_tokens_true_when_queue_empty_and_not_done() {
    let mut s = Scanner::new();
    s.tokens.clear();
    assert!(s.need_more_tokens());
}

#[test]
fn need_more_tokens_true_when_head_may_be_key() {
    let mut s = Scanner::new();
    s.save_possible_simple_key(0, 0, 0);
    assert!(!s.need_more_tokens());
    s.possible_simple_keys.insert(0, SimpleKey::new(0, 0, 0, 0, None));
    assert!(s.need_more_tokens());
}

#[test]
fn save_possible_simple_key_records_when_allowed() {
    let mut s = Scanner::new();
    s.save_possible_simple_key(10, 1, 2);
    assert!(s.possible_simple_keys.contains_key(&0));
    let k = &s.possible_simple_keys[&0];
    assert_eq!(k.index, 10);
    assert_eq!(k.line, 1);
    assert_eq!(k.column, 2);
    assert_eq!(k.token_number, 1);
}

#[test]
fn save_possible_simple_key_skipped_when_disallowed() {
    let mut s = Scanner::new();
    s.allow_simple_key = false;
    s.save_possible_simple_key(10, 1, 2);
    assert!(s.possible_simple_keys.is_empty());
}

#[test]
fn remove_possible_simple_key_clears_current_level() {
    let mut s = Scanner::new();
    s.save_possible_simple_key(10, 1, 2);
    s.remove_possible_simple_key();
    assert!(s.possible_simple_keys.is_empty());
}

#[test]
fn fetch_flow_collection_start_increments_level() {
    let mut s = Scanner::new();
    s.fetch_flow_collection_start("FlowSequenceStartToken");
    assert_eq!(s.flow_level, 1);
    assert_eq!(s.tokens.last().unwrap(), "FlowSequenceStartToken");
}

#[test]
fn fetch_flow_collection_end_decrements_level() {
    let mut s = Scanner::new();
    s.fetch_flow_collection_start("FlowSequenceStartToken");
    s.fetch_flow_collection_end("FlowSequenceEndToken");
    assert_eq!(s.flow_level, 0);
    assert_eq!(s.tokens.last().unwrap(), "FlowSequenceEndToken");
}

#[test]
fn fetch_flow_collection_end_does_not_underflow() {
    let mut s = Scanner::new();
    s.fetch_flow_collection_end("FlowSequenceEndToken");
    assert_eq!(s.flow_level, 0);
}

#[test]
fn fetch_value_appends_value_token() {
    let mut s = Scanner::new();
    s.fetch_value();
    assert_eq!(s.tokens.last().unwrap(), "ValueToken");
}

#[test]
fn fetch_flow_entry_appends_entry_token() {
    let mut s = Scanner::new();
    s.fetch_flow_entry();
    assert_eq!(s.tokens.last().unwrap(), "FlowEntryToken");
}

#[test]
fn next_possible_simple_key_returns_min_token_number() {
    let mut s = Scanner::new();
    s.possible_simple_keys.insert(0, SimpleKey::new(5, 0, 0, 0, None));
    s.possible_simple_keys.insert(1, SimpleKey::new(3, 0, 0, 0, None));
    assert_eq!(s.next_possible_simple_key(), Some(3));
}

#[test]
fn next_possible_simple_key_none_when_empty() {
    let s = Scanner::new();
    assert!(s.next_possible_simple_key().is_none());
}

#[test]
fn stale_possible_simple_keys_filters_keys_below_current_line() {
    let mut keys = HashMap::new();
    keys.insert(0, SimpleKey::new(1, 0, 1, 0, None));
    keys.insert(1, SimpleKey::new(2, 0, 5, 0, None));
    let stale = stale_possible_simple_keys(3, &keys);
    assert_eq!(stale, vec![0]);
}
