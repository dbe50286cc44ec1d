use powerliners::markedjson::composer::{value_key_text, AnyEvent, ComposedNode, Composer, EventKind, EventQueue, ParserBackend};
use powerliners::markedjson::events::{MappingStartEvent, ScalarEvent, SequenceStartEvent};
use powerliners::markedjson::marks::Mark;
use powerliners::markedjson::nodes::{CollectionNode, MappingNode, Node, ScalarNode, SequenceNode};
use powerliners::markedjson::resolver::BaseResolver;
use serde_json::Value;

fn queue(events: Vec<AnyEvent>) -> EventQueue {
    EventQueue::new(events, BaseResolver { implicit_resolvers: Vec::new() })
}

fn scalar(v: Value) -> AnyEvent {
    AnyEvent::Scalar(ScalarEvent::new(true, v, None, None, None))
}

#[test]
fn check_node_drops_stream_start_and_returns_true_if_doc_remaining() {
    let mut b = queue(vec![
        AnyEvent::StreamStart,
        AnyEvent::DocumentStart,
        scalar(Value::from("x")),
        AnyEvent::DocumentEnd,
        AnyEvent::StreamEnd,
    ]);
    assert!(Composer::check_node(&mut b));
    assert_eq!(b.get_event().kind(), EventKind::DocumentStart);
}

#[test]
fn check_node_returns_false_at_stream_end() {
    let mut b = queue(vec![AnyEvent::StreamEnd]);
    assert!(!Composer::check_node(&mut b));
}

#[test]
fn compose_document_returns_scalar_node() {
    let mut b = queue(vec![AnyEvent::DocumentStart, scalar(Value::from("hello")), AnyEvent::DocumentEnd]);
    let n = Composer::compose_document(&mut b);
    match n {
        ComposedNode::Scalar(s) => {
            assert_eq!(s.node.value, Value::from("hello"));
            assert_eq!(s.node.tag, "tag:yaml.org,2002:str");
        }
        _ => panic!("expected ScalarNode"),
    }
    assert!(b.events.is_empty());
}

#[test]
fn compose_node_dispatches_scalar() {
    let mut b = queue(vec![scalar(Value::from("x"))]);
    let n = Composer::compose_node(&mut b, None, None);
    assert!(matches!(n, ComposedNode::Scalar(_)));
}

#[test]
fn compose_node_dispatches_sequence() {
    let mut b = queue(vec![
        AnyEvent::SequenceStart(SequenceStartEvent::new(true, None, None, None)),
        scalar(Value::from(1)),
        scalar(Value::from(2)),
        AnyEvent::SequenceEnd,
    ]);
    let n = Composer::compose_node(&mut b, None, None);
    match n {
        ComposedNode::Sequence(s) => {
            let arr = s.collection.node.value.as_array().unwrap();
            assert_eq!(arr.len(), 2);
            assert_eq!(arr[0], Value::from(1));
            assert_eq!(arr[1], Value::from(2));
            assert_eq!(s.collection.node.tag, "tag:yaml.org,2002:seq");
        }
        _ => panic!("expected SequenceNode"),
    }
}

#[test]
fn compose_node_dispatches_mapping() {
    let mut b = queue(vec![
        AnyEvent::MappingStart(MappingStartEvent::new(true, None, None, None)),
        scalar(Value::from("a")),
        scalar(Value::from(1)),
        scalar(Value::from("b")),
        scalar(Value::from(2)),
        AnyEvent::MappingEnd,
    ]);
    let n = Composer::compose_node(&mut b, None, None);
    match n {
        ComposedNode::Mapping(m) => {
            let obj = m.collection.node.value.as_object().unwrap();
            assert_eq!(obj.get("a"), Some(&Value::from(1)));
            assert_eq!(obj.get("b"), Some(&Value::from(2)));
            assert_eq!(m.collection.node.tag, "tag:yaml.org,2002:map");
        }
        _ => panic!("expected MappingNode"),
    }
}

#[test]
fn compose_node_nests_collections_and_writes_non_text_keys_as_json() {
    let mut b = queue(vec![
        AnyEvent::MappingStart(MappingStartEvent::new(true, None, None, Some(true))),
        scalar(Value::from(7)),
        AnyEvent::SequenceStart(SequenceStartEvent::new(true, None, None, None)),
        scalar(Value::from(true)),
        AnyEvent::SequenceEnd,
        AnyEvent::MappingEnd,
        scalar(Value::from("after")),
    ]);
    let n = Composer::compose_node(&mut b, None, None);
    match n {
        ComposedNode::Mapping(m) => {
            let obj = m.collection.node.value.as_object().unwrap();
            assert_eq!(obj.get("7"), Some(&Value::Array(vec![Value::from(true)])));
            assert_eq!(m.collection.flow_style, Some(true));
        }
        _ => panic!("expected MappingNode"),
    }
    assert_eq!(b.events.len(), 1);
}

#[test]
fn compose_scalar_node_resolves_tag_when_none() {
    let mut b = queue(vec![scalar(Value::from(42))]);
    let s = Composer::compose_scalar_node(&mut b);
    assert_eq!(s.node.tag, "tag:yaml.org,2002:str");
}

#[test]
fn compose_scalar_node_resolves_with_the_resolver() {
    let mut b = EventQueue::new(vec![scalar(Value::from(42))], BaseResolver::new());
    let s = Composer::compose_scalar_node(&mut b);
    assert_eq!(s.node.tag, "tag:yaml.org,2002:int");
    let mut tagged = ScalarEvent::new(true, Value::from(1), Some(Mark { line: 2, column: 3 }), None, Some('"'));
    tagged.tag = Some("!custom".to_string());
    let mut b = queue(vec![AnyEvent::Scalar(tagged)]);
    let s = Composer::compose_scalar_node(&mut b);
    assert_eq!(s.node.tag, "!custom");
    assert_eq!(s.style, Some('"'));
    assert_eq!(s.node.start_mark, Some(Mark { line: 2, column: 3 }));
}

#[test]
fn get_single_node_errors_on_two_documents() {
    let mut b = queue(vec![
        AnyEvent::StreamStart,
        AnyEvent::DocumentStart,
        scalar(Value::from(1)),
        AnyEvent::DocumentEnd,
        AnyEvent::DocumentStart,
        scalar(Value::from(2)),
        AnyEvent::DocumentEnd,
        AnyEvent::StreamEnd,
    ]);
    let r = Composer::get_single_node(&mut b);
    assert!(r.is_err());
}

#[test]
fn get_single_node_returns_single_document() {
    let mut b = queue(vec![
        AnyEvent::StreamStart,
        AnyEvent::DocumentStart,
        scalar(Value::from("only")),
        AnyEvent::DocumentEnd,
        AnyEvent::StreamEnd,
    ]);
    let r = Composer::get_single_node(&mut b).unwrap();
    assert!(r.is_some());
    match r.unwrap() {
        ComposedNode::Scalar(s) => assert_eq!(s.node.value, Value::from("only")),
        _ => panic!("expected scalar"),
    }
}

#[test]
fn get_single_node_returns_none_on_empty_stream() {
    let mut b = queue(vec![AnyEvent::StreamStart, AnyEvent::StreamEnd]);
    let r = Composer::get_single_node(&mut b).unwrap();
    assert!(r.is_none());
}

#[test]
fn get_node_composes_the_next_document() {
    let mut b = queue(vec![AnyEvent::DocumentStart, scalar(Value::from(3)), AnyEvent::DocumentEnd, AnyEvent::StreamEnd]);
    assert!(Composer::get_node(&mut b).is_some());
    assert!(Composer::get_node(&mut b).is_none());
}

#[test]
fn composed_node_start_mark_returns_underlying_mark() {
    let m = Some(Mark { line: 4, column: 9 });
    let s = ScalarNode::new("t", Value::from(0), m, None, None);
    let c = ComposedNode::Scalar(s);
    assert_eq!(c.start_mark().unwrap().line, 4);
    assert_eq!(c.start_mark().unwrap().column, 9);
}

#[test]
fn node_carries_tag_value_and_marks() {
    let start = Mark { line: 1, column: 0 };
    let end = Mark { line: 1, column: 5 };
    let n = Node::new("!str", Value::from("hello"), Some(start), Some(end));
    assert_eq!(n.tag, "!str");
    assert_eq!(n.value, Value::from("hello"));
    assert_eq!(n.start_mark, Some(start));
    assert_eq!(n.end_mark, Some(end));
}

#[test]
fn scalar_node_id_matches_upstream() {
    assert_eq!(ScalarNode::ID, "scalar");
}

#[test]
fn scalar_node_carries_style() {
    let s = ScalarNode::new("!str", Value::from("x"), None, None, Some('"'));
    assert_eq!(s.style, Some('"'));
}

#[test]
fn sequence_node_id_matches_upstream() {
    assert_eq!(SequenceNode::ID, "sequence");
}

#[test]
fn mapping_node_id_matches_upstream() {
    assert_eq!(MappingNode::ID, "mapping");
}

#[test]
fn collection_node_carries_flow_style() {
    let c = CollectionNode::new("!seq", Value::Array(Vec::new()), None, None, Some(true));
    assert_eq!(c.flow_style, Some(true));
}

#[test]
fn key_text_is_string_text_or_compact_json() {
    assert_eq!(value_key_text(&Value::String("a b".into())), "a b");
    assert_eq!(value_key_text(&Value::from(12)), "12");
    assert_eq!(value_key_text(&Value::Bool(true)), "true");
    assert_eq!(value_key_text(&Value::Null), "null");
    assert_eq!(value_key_text(&Value::Array(vec![Value::from(1), Value::String("x".into())])), "[1,\"x\"]");
}
