use powerliners::markedjson::events::{
    CollectionEndEvent, CollectionStartEvent, DocumentEndEvent, DocumentStartEvent, Event,
    MappingEndEvent, MappingStartEvent, NodeEvent, SequenceEndEvent, SequenceStartEvent,
    StreamEndEvent, StreamStartEvent, AliasEvent,
};
use powerliners::markedjson::marks::Mark;
use powerliners::markedjson::tokens::{
    FlowEntryToken, FlowMappingEndToken, FlowMappingStartToken, FlowSequenceEndToken,
    FlowSequenceStartToken, KeyToken, ScalarToken, StreamEndToken, StreamStartToken, Token,
    ValueToken,
};

#[test]
fn token_carries_marks() {
    let s = Mark { line: 1, column: 0 };
    let e = Mark { line: 1, column: 5 };
    let t = Token::new(Some(s.clone()), Some(e.clone()));
    assert_eq!(t.start_mark, Some(s));
    assert_eq!(t.end_mark, Some(e));
}

#[test]
fn stream_start_id_matches_upstream() {
    assert_eq!(StreamStartToken::ID, "<stream start>");
}

#[test]
fn stream_end_id_matches_upstream() {
    assert_eq!(StreamEndToken::ID, "<stream end>");
    let t = StreamEndToken::new(None, Some(Mark { line: 2, column: 0 }));
    assert_eq!(t.token.end_mark, Some(Mark { line: 2, column: 0 }));
}

#[test]
fn flow_token_ids_match_upstream() {
    assert_eq!(FlowSequenceStartToken::ID, "[");
    assert_eq!(FlowMappingStartToken::ID, "{");
    assert_eq!(FlowSequenceEndToken::ID, "]");
    assert_eq!(FlowMappingEndToken::ID, "}");
    assert!(FlowSequenceStartToken::new(None, None).token.start_mark.is_none());
    assert!(FlowMappingStartToken::new(None, None).token.end_mark.is_none());
    assert!(FlowSequenceEndToken::new(None, None).token.end_mark.is_none());
    assert!(FlowMappingEndToken::new(None, None).token.end_mark.is_none());
}

#[test]
fn key_value_flow_entry_ids_match_upstream() {
    assert_eq!(KeyToken::ID, "?");
    assert_eq!(ValueToken::ID, ":");
    assert_eq!(FlowEntryToken::ID, ",");
    let m = Some(Mark { line: 0, column: 3 });
    assert_eq!(KeyToken::new(m.clone(), None).token.start_mark, m);
    assert_eq!(ValueToken::new(m.clone(), None).token.start_mark, m);
    assert_eq!(FlowEntryToken::new(None, m.clone()).token.end_mark, m);
}

#[test]
fn scalar_token_carries_value_and_style() {
    let t = ScalarToken::new("hello", true, None, None, Some('"'));
    assert_eq!(t.value, "hello");
    assert!(t.plain);
    assert_eq!(t.style, Some('"'));
    assert_eq!(ScalarToken::ID, "<scalar>");
}

#[test]
fn stream_start_token_carries_encoding() {
    let t = StreamStartToken::new(None, None, Some("utf-8".to_string()));
    assert_eq!(t.encoding.as_deref(), Some("utf-8"));
}

#[test]
fn event_carries_marks() {
    let s = Mark { line: 1, column: 0 };
    let e = Mark { line: 1, column: 5 };
    let ev = Event::new(Some(s.clone()), Some(e.clone()));
    assert_eq!(ev.start_mark, Some(s));
    assert_eq!(ev.end_mark, Some(e));
    assert_eq!(Event::repr("ScalarEvent"), "ScalarEvent()");
}

#[test]
fn stream_start_event_carries_encoding() {
    let e = StreamStartEvent::new(None, None, Some("utf-8".to_string()));
    assert_eq!(e.encoding.as_deref(), Some("utf-8"));
    assert!(StreamEndEvent::new(None, None).event.start_mark.is_none());
}

#[test]
fn document_start_event_carries_version_and_tags() {
    let e = DocumentStartEvent::new(
        None,
        None,
        Some(true),
        Some((1, 2)),
        Some(vec![("!".into(), "tag:yaml.org,2002:".into())]),
    );
    assert_eq!(e.explicit, Some(true));
    assert_eq!(e.version, Some((1, 2)));
    assert_eq!(e.tags.unwrap().len(), 1);
    assert_eq!(DocumentEndEvent::new(None, None, Some(false)).explicit, Some(false));
}

#[test]
fn collection_start_event_default_tag_is_none() {
    let e = CollectionStartEvent::new(true, None, None, Some(true));
    assert!(e.tag.is_none());
    assert!(e.implicit);
    assert_eq!(e.flow_style, Some(true));
    assert!(CollectionEndEvent::new(None, None).event.end_mark.is_none());
    assert!(NodeEvent::new(None, None).event.start_mark.is_none());
    assert!(AliasEvent::new(None, None).node.event.start_mark.is_none());
}

#[test]
fn sequence_mapping_inherit_collection_shape() {
    let s = SequenceStartEvent::new(true, None, None, Some(false));
    assert!(s.collection.implicit);
    assert_eq!(s.collection.flow_style, Some(false));

    let m = MappingStartEvent::new(false, None, None, None);
    assert!(!m.collection.implicit);
    let mk = Some(Mark { line: 4, column: 4 });
    assert_eq!(SequenceEndEvent::new(mk.clone(), None).collection.event.start_mark, mk);
    assert_eq!(MappingEndEvent::new(None, mk.clone()).collection.event.end_mark, mk);
}
