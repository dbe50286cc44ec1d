use powerliners::markedjson::composer::{AnyEvent, ComposerError, EventKind};
use powerliners::markedjson::error::MarkedError;
use powerliners::markedjson::events::{
    DocumentEndEvent, DocumentStartEvent, MappingEndEvent, MappingStartEvent, ScalarEvent,
    SequenceEndEvent, SequenceStartEvent, StreamEndEvent, StreamStartEvent,
};
use powerliners::markedjson::marks::Mark;
use powerliners::markedjson::parser::{AnyToken, Parser, ParserError, State, TokenKind, TokenQueue};
use serde_json::Value;

fn ss() -> AnyToken {
    AnyToken::StreamStart { start_mark: None, end_mark: None, encoding: None }
}

fn se() -> AnyToken {
    AnyToken::StreamEnd { start_mark: None, end_mark: None }
}

fn scalar(v: Value) -> AnyToken {
    AnyToken::Scalar { start_mark: None, end_mark: None, value: v, plain: true, style: None }
}

fn marked(kind: &str, line: usize, column: usize) -> AnyToken {
    let start_mark = Some(Mark { line, column });
    let end_mark = Some(Mark { line, column: column + 1 });
    match kind {
        "[" => AnyToken::FlowSequenceStart { start_mark, end_mark },
        "]" => AnyToken::FlowSequenceEnd { start_mark, end_mark },
        "{" => AnyToken::FlowMappingStart { start_mark, end_mark },
        "}" => AnyToken::FlowMappingEnd { start_mark, end_mark },
        "?" => AnyToken::Key { start_mark, end_mark },
        ":" => AnyToken::Value { start_mark, end_mark },
        "," => AnyToken::FlowEntry { start_mark, end_mark },
        _ => panic!("unknown token"),
    }
}

#[test]
fn parser_error_implements_error_traits() {
    let me = MarkedError::new(Some("ctx"), None, Some("prob"), None, None);
    let e = ParserError(me);
    assert!(e.to_string().contains("ctx"));
    assert!(e.to_string().contains("prob"));
}

#[test]
fn parser_starts_at_stream_start_state() {
    let p = Parser::new();
    assert_eq!(p.state, State::StreamStart);
    assert!(p.current_event.is_none());
    assert!(p.states.is_empty());
    assert!(p.marks.is_empty());
}

#[test]
fn dispose_clears_state_machine() {
    let mut p = Parser::new();
    p.states.push(State::DocumentEnd);
    p.dispose();
    assert_eq!(p.state, State::Done);
    assert!(p.states.is_empty());
}

#[test]
fn check_event_with_no_choices_returns_true() {
    let mut p = Parser::new();
    let mut s = TokenQueue::new(vec![ss(), se()]);
    assert!(p.check_event(&mut s, &[]));
}

#[test]
fn check_event_matches_stream_start() {
    let mut p = Parser::new();
    let mut s = TokenQueue::new(vec![ss(), se()]);
    assert!(p.check_event(&mut s, &[EventKind::StreamStart]));
}

#[test]
fn check_event_rejects_wrong_kind() {
    let mut p = Parser::new();
    let mut s = TokenQueue::new(vec![ss(), se()]);
    assert!(!p.check_event(&mut s, &[EventKind::Scalar]));
}

#[test]
fn get_event_drains_stream_start_then_stream_end() {
    let mut p = Parser::new();
    let mut s = TokenQueue::new(vec![ss(), se()]);
    assert_eq!(p.get_event(&mut s).kind(), EventKind::StreamStart);
    let ev = p.get_event(&mut s);
    assert_eq!(ev.kind(), EventKind::StreamEnd);
}

#[test]
fn parse_node_scalar_emits_scalar_event() {
    let mut p = Parser::new();
    let mut s = TokenQueue::new(vec![scalar(Value::String("hello".to_string()))]);
    let ev = p.parse_node(&mut s, false);
    match ev {
        AnyEvent::Scalar(se) => {
            assert_eq!(se.value, Value::String("hello".to_string()));
        }
        _ => panic!("expected ScalarEvent"),
    }
}

#[test]
fn parse_node_flow_seq_emits_sequence_start() {
    let mut p = Parser::new();
    let mut s = TokenQueue::new(vec![AnyToken::FlowSequenceStart { start_mark: None, end_mark: None }]);
    let ev = p.parse_node(&mut s, false);
    assert_eq!(ev.kind(), EventKind::SequenceStart);
    assert_eq!(p.state, State::FlowSequenceFirstEntry);
}

#[test]
fn parse_node_flow_map_emits_mapping_start() {
    let mut p = Parser::new();
    let mut s = TokenQueue::new(vec![AnyToken::FlowMappingStart { start_mark: None, end_mark: None }]);
    let ev = p.parse_node(&mut s, false);
    assert_eq!(ev.kind(), EventKind::MappingStart);
    assert_eq!(p.state, State::FlowMappingFirstKey);
}

#[test]
fn any_token_kind_dispatches_correctly() {
    assert_eq!(ss().token_kind(), TokenKind::StreamStart);
    assert_eq!(se().token_kind(), TokenKind::StreamEnd);
    assert_eq!(scalar(Value::from(0)).token_kind(), TokenKind::Scalar);
}

#[test]
fn any_token_id_strings_match_upstream() {
    assert_eq!(ss().token_id(), "<stream start>");
    assert_eq!(se().token_id(), "<stream end>");
    assert_eq!(scalar(Value::from(0)).token_id(), "<scalar>");
    assert_eq!(AnyToken::FlowSequenceStart { start_mark: None, end_mark: None }.token_id(), "[");
    assert_eq!(AnyToken::FlowMappingEnd { start_mark: None, end_mark: None }.token_id(), "}");
}

#[test]
fn parse_simple_scalar_stream_end_to_end() {
    let mut p = Parser::new();
    let mut s = TokenQueue::new(vec![ss(), scalar(Value::String("v".to_string())), se()]);
    assert_eq!(p.get_event(&mut s).kind(), EventKind::StreamStart);
    assert_eq!(p.get_event(&mut s).kind(), EventKind::DocumentStart);
    assert_eq!(p.get_event(&mut s).kind(), EventKind::Scalar);
    assert_eq!(p.get_event(&mut s).kind(), EventKind::DocumentEnd);
    assert_eq!(p.get_event(&mut s).kind(), EventKind::StreamEnd);
}

#[test]
fn token_marks_round_trip() {
    let t = AnyToken::Key { start_mark: Some(Mark { line: 1, column: 2 }), end_mark: Some(Mark { line: 1, column: 3 }) };
    assert_eq!(t.token_start_mark().unwrap().line, 1);
    assert_eq!(t.token_end_mark().unwrap().column, 3);
}

#[test]
fn typed_events_constructable_from_events_module() {
    let _ = StreamStartEvent::new(None, None, None);
    let _ = StreamEndEvent::new(None, None);
    let _ = DocumentStartEvent::new(None, None, Some(false), None, None);
    let _ = DocumentEndEvent::new(None, None, Some(false));
    let _ = SequenceEndEvent::new(None, None);
    let _ = MappingEndEvent::new(None, None);
}

#[test]
fn any_event_kind_dispatches_correctly() {
    assert_eq!(AnyEvent::StreamStart.kind(), EventKind::StreamStart);
    assert_eq!(AnyEvent::StreamEnd.kind(), EventKind::StreamEnd);
    assert_eq!(AnyEvent::DocumentStart.kind(), EventKind::DocumentStart);
    assert_eq!(AnyEvent::DocumentEnd.kind(), EventKind::DocumentEnd);
    assert_eq!(AnyEvent::Alias.kind(), EventKind::Alias);
    assert_eq!(
        AnyEvent::Scalar(ScalarEvent::new(true, Value::Null, None, None, None)).kind(),
        EventKind::Scalar
    );
    assert_eq!(
        AnyEvent::SequenceStart(SequenceStartEvent::new(true, None, None, None)).kind(),
        EventKind::SequenceStart
    );
    assert_eq!(AnyEvent::SequenceEnd.kind(), EventKind::SequenceEnd);
    assert_eq!(
        AnyEvent::MappingStart(MappingStartEvent::new(true, None, None, None)).kind(),
        EventKind::MappingStart
    );
    assert_eq!(AnyEvent::MappingEnd.kind(), EventKind::MappingEnd);
}

#[test]
fn composer_error_implements_error_traits() {
    let me = MarkedError::new(Some("ctx"), None, Some("prob"), None, None);
    let e = ComposerError(me);
    assert!(e.to_string().contains("ctx"));
}

#[test]
fn scalar_event_default_tag_is_none() {
    let e = ScalarEvent::new(false, Value::String("x".to_string()), None, None, Some('"'));
    assert!(e.tag.is_none());
    assert!(!e.implicit);
    assert_eq!(e.value, Value::String("x".to_string()));
    assert_eq!(e.style, Some('"'));
}

#[test]
fn peek_event_keeps_the_event_for_get_event() {
    let mut p = Parser::new();
    let mut s = TokenQueue::new(vec![ss(), scalar(Value::from(7)), se()]);
    let peeked = p.peek_event(&mut s).unwrap();
    assert_eq!(peeked.kind(), EventKind::StreamStart);
    assert_eq!(p.get_event(&mut s).kind(), EventKind::StreamStart);
    assert!(p.current_event.is_none());
}

#[test]
fn flow_sequence_of_two_scalars_in_order() {
    let mut p = Parser::new();
    let mut s = TokenQueue::new(vec![
        ss(),
        marked("[", 0, 0),
        scalar(Value::from(1)),
        marked(",", 0, 2),
        scalar(Value::from(2)),
        marked("]", 0, 4),
        se(),
    ]);
    let mut kinds = Vec::new();
    let mut values = Vec::new();
    for _ in 0..8 {
        let ev = p.get_event(&mut s);
        kinds.push(ev.kind());
        if let AnyEvent::Scalar(e) = ev {
            values.push(e.value);
        }
    }
    assert_eq!(
        kinds,
        vec![
            EventKind::StreamStart,
            EventKind::DocumentStart,
            EventKind::SequenceStart,
            EventKind::Scalar,
            EventKind::Scalar,
            EventKind::SequenceEnd,
            EventKind::DocumentEnd,
            EventKind::StreamEnd,
        ]
    );
    assert_eq!(values, vec![Value::from(1), Value::from(2)]);
    assert_eq!(p.state, State::Done);
    assert!(p.states.is_empty());
    assert!(p.marks.is_empty());
    assert!(s.tokens.is_empty());
}

#[test]
fn flow_mapping_with_one_pair() {
    let mut p = Parser::new();
    let mut s = TokenQueue::new(vec![
        ss(),
        marked("{", 2, 4),
        marked("?", 2, 5),
        scalar(Value::String("k".to_string())),
        marked(":", 2, 8),
        scalar(Value::Bool(true)),
        marked("}", 2, 14),
        se(),
    ]);
    assert_eq!(p.get_event(&mut s).kind(), EventKind::StreamStart);
    assert_eq!(p.get_event(&mut s).kind(), EventKind::DocumentStart);
    match p.get_event(&mut s) {
        AnyEvent::MappingStart(m) => {
            assert_eq!(m.collection.node.event.start_mark, Some(Mark { line: 2, column: 4 }));
            assert_eq!(m.collection.node.event.end_mark, Some(Mark { line: 2, column: 5 }));
            assert_eq!(m.collection.flow_style, Some(true));
            assert!(m.collection.implicit);
        }
        _ => panic!("expected a mapping start"),
    }
    assert_eq!(p.get_event(&mut s).kind(), EventKind::Scalar);
    assert_eq!(p.marks.len(), 1);
    assert_eq!(p.get_event(&mut s).kind(), EventKind::Scalar);
    assert_eq!(p.get_event(&mut s).kind(), EventKind::MappingEnd);
    assert!(p.marks.is_empty());
    assert_eq!(p.get_event(&mut s).kind(), EventKind::DocumentEnd);
    assert_eq!(p.get_event(&mut s).kind(), EventKind::StreamEnd);
}

#[test]
fn parsing_done_gives_stream_end_forever() {
    let mut p = Parser::new();
    let mut s = TokenQueue::new(vec![ss(), se()]);
    while p.state != State::Done {
        p.get_event(&mut s);
    }
    for _ in 0..3 {
        assert_eq!(p.get_event(&mut s).kind(), EventKind::StreamEnd);
        assert_eq!(p.state, State::Done);
    }
}

#[test]
fn stray_token_at_node_gives_stream_end_and_stays() {
    let mut p = Parser::new();
    let mut s = TokenQueue::new(vec![ss(), marked(",", 0, 0), se()]);
    assert_eq!(p.get_event(&mut s).kind(), EventKind::StreamStart);
    assert_eq!(p.get_event(&mut s).kind(), EventKind::DocumentStart);
    assert_eq!(p.get_event(&mut s).kind(), EventKind::StreamEnd);
    assert_eq!(p.state, State::Node);
    assert_eq!(s.tokens.len(), 2);
}
