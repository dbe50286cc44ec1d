//! The events the parser produces from the token stream.

use vstd::prelude::*;
use crate::markedjson::marks::Mark;

verus! {

/// The marks common to every event.
#[derive(Debug, Clone, Copy, PartialEq, Eq, Structural)]
pub struct Event {
    pub start_mark: Option<Mark>,
    pub end_mark: Option<Mark>,
}

impl Event {
    /// An event spanning the two marks.
    pub fn new(start_mark: Option<Mark>, end_mark: Option<Mark>) -> (r: Self)
        ensures
            r.start_mark == start_mark,
            r.end_mark == end_mark,
    {
        Event { start_mark, end_mark }
    }

    /// The printed form of an event of the given class: `Name()`.
    pub fn repr(class_name: &str) -> (r: String)
        ensures
            r@ == class_name@ + "()"@,
    {
        let mut v = crate::text::chars_of(class_name);
        crate::text::append_str(&mut v, "()");
        crate::text::string_of(&v)
    }
}

/// An event that stands for a node.
#[derive(Debug, Clone, Copy, PartialEq, Eq, Structural)]
pub struct NodeEvent {
    pub event: Event,
}

impl NodeEvent {
    /// A node event spanning the two marks.
    pub fn new(start_mark: Option<Mark>, end_mark: Option<Mark>) -> (r: Self)
        ensures
            r.event == (Event { start_mark, end_mark }),
    {
        NodeEvent { event: Event::new(start_mark, end_mark) }
    }
}

/// The start of a sequence or mapping.
#[derive(Debug)]
pub struct CollectionStartEvent {
    pub node: NodeEvent,
    pub tag: Option<String>,
    pub implicit: bool,
    pub flow_style: Option<bool>,
}

impl CollectionStartEvent {
    /// A collection start without a tag.
    pub fn new(implicit: bool, start_mark: Option<Mark>, end_mark: Option<Mark>, flow_style: Option<bool>) -> (r: Self)
        ensures
            r.node == (NodeEvent { event: Event { start_mark, end_mark } }),
            r.tag is None,
            r.implicit == implicit,
            r.flow_style == flow_style,
    {
        CollectionStartEvent { node: NodeEvent::new(start_mark, end_mark), tag: None, implicit, flow_style }
    }
}

/// The end of a sequence or mapping.
#[derive(Debug, Clone, Copy, PartialEq, Eq, Structural)]
pub struct CollectionEndEvent {
    pub event: Event,
}

impl CollectionEndEvent {
    /// A collection end spanning the two marks.
    pub fn new(start_mark: Option<Mark>, end_mark: Option<Mark>) -> (r: Self)
        ensures
            r.event == (Event { start_mark, end_mark }),
    {
        CollectionEndEvent { event: Event::new(start_mark, end_mark) }
    }
}

/// The start of the input, with its encoding.
#[derive(Debug, Clone)]
pub struct StreamStartEvent {
    pub event: Event,
    pub encoding: Option<String>,
}

impl StreamStartEvent {
    /// The stream start between two marks.
    pub fn new(start_mark: Option<Mark>, end_mark: Option<Mark>, encoding: Option<String>) -> (r: Self)
        ensures
            r.event == (Event { start_mark, end_mark }),
            r.encoding == encoding,
    {
        StreamStartEvent { event: Event::new(start_mark, end_mark), encoding }
    }
}

/// The end of the input.
#[derive(Debug, Clone, Copy, PartialEq, Eq, Structural)]
pub struct StreamEndEvent {
    pub event: Event,
}

impl StreamEndEvent {
    /// The stream end between two marks.
    pub fn new(start_mark: Option<Mark>, end_mark: Option<Mark>) -> (r: Self)
        ensures
            r.event == (Event { start_mark, end_mark }),
    {
        StreamEndEvent { event: Event::new(start_mark, end_mark) }
    }
}

/// The start of a document, with its version and tag directives.
#[derive(Debug, Clone)]
pub struct DocumentStartEvent {
    pub event: Event,
    pub explicit: Option<bool>,
    pub version: Option<(i32, i32)>,
    pub tags: Option<Vec<(String, String)>>,
}

impl DocumentStartEvent {
    /// A document start with the given directives.
    pub fn new(
        start_mark: Option<Mark>,
        end_mark: Option<Mark>,
        explicit: Option<bool>,
        version: Option<(i32, i32)>,
        tags: Option<Vec<(String, String)>>,
    ) -> (r: Self)
        ensures
            r.event == (Event { start_mark, end_mark }),
            r.explicit == explicit,
            r.version == version,
            r.tags == tags,
    {
        DocumentStartEvent { event: Event::new(start_mark, end_mark), explicit, version, tags }
    }
}

/// The end of a document.
#[derive(Debug, Clone, Copy, PartialEq, Eq, Structural)]
pub struct DocumentEndEvent {
    pub event: Event,
    pub explicit: Option<bool>,
}

impl DocumentEndEvent {
    /// A document end between two marks.
    pub fn new(start_mark: Option<Mark>, end_mark: Option<Mark>, explicit: Option<bool>) -> (r: Self)
        ensures
            r.event == (Event { start_mark, end_mark }),
            r.explicit == explicit,
    {
        DocumentEndEvent { event: Event::new(start_mark, end_mark), explicit }
    }
}

/// A reference to an anchored node.
#[derive(Debug, Clone, Copy, PartialEq, Eq, Structural)]
pub struct AliasEvent {
    pub node: NodeEvent,
}

impl AliasEvent {
    /// An alias between two marks.
    pub fn new(start_mark: Option<Mark>, end_mark: Option<Mark>) -> (r: Self)
        ensures
            r.node == (NodeEvent { event: Event { start_mark, end_mark } }),
    {
        AliasEvent { node: NodeEvent::new(start_mark, end_mark) }
    }
}

/// The start of a sequence.
#[derive(Debug)]
pub struct SequenceStartEvent {
    pub collection: CollectionStartEvent,
}

impl SequenceStartEvent {
    /// A sequence start without a tag.
    pub fn new(implicit: bool, start_mark: Option<Mark>, end_mark: Option<Mark>, flow_style: Option<bool>) -> (r: Self)
        ensures
            r.collection.node == (NodeEvent { event: Event { start_mark, end_mark } }),
            r.collection.tag is None,
            r.collection.implicit == implicit,
            r.collection.flow_style == flow_style,
    {
        SequenceStartEvent { collection: CollectionStartEvent::new(implicit, start_mark, end_mark, flow_style) }
    }
}

/// The end of a sequence.
#[derive(Debug, Clone, Copy, PartialEq, Eq, Structural)]
pub struct SequenceEndEvent {
    pub collection: CollectionEndEvent,
}

impl SequenceEndEvent {
    /// A sequence end between two marks.
    pub fn new(start_mark: Option<Mark>, end_mark: Option<Mark>) -> (r: Self)
        ensures
            r.collection.event == (Event { start_mark, end_mark }),
    {
        SequenceEndEvent { collection: CollectionEndEvent::new(start_mark, end_mark) }
    }
}

/// The start of a mapping.
#[derive(Debug)]
pub struct MappingStartEvent {
    pub collection: CollectionStartEvent,
}

impl MappingStartEvent {
    /// A mapping start without a tag.
    pub fn new(implicit: bool, start_mark: Option<Mark>, end_mark: Option<Mark>, flow_style: Option<bool>) -> (r: Self)
        ensures
            r.collection.node == (NodeEvent { event: Event { start_mark, end_mark } }),
            r.collection.tag is None,
            r.collection.implicit == implicit,
            r.collection.flow_style == flow_style,
    {
        MappingStartEvent { collection: CollectionStartEvent::new(implicit, start_mark, end_mark, flow_style) }
    }
}

/// The end of a mapping.
#[derive(Debug, Clone, Copy, PartialEq, Eq, Structural)]
pub struct MappingEndEvent {
    pub collection: CollectionEndEvent,
}

impl MappingEndEvent {
    /// A mapping end between two marks.
    pub fn new(start_mark: Option<Mark>, end_mark: Option<Mark>) -> (r: Self)
        ensures
            r.collection.event == (Event { start_mark, end_mark }),
    {
        MappingEndEvent { collection: CollectionEndEvent::new(start_mark, end_mark) }
    }
}

/// A copy of an optional string.
pub(crate) fn copy_opt_string(s: &Option<String>) -> (r: Option<String>)
    ensures
        r == *s,
{
    match s {
        Some(t) => Some(t.clone()),
        None => None,
    }
}

/// A scalar value, with the way it was written.
#[derive(Debug)]
pub struct ScalarEvent {
    pub node: NodeEvent,
    pub tag: Option<String>,
    pub implicit: bool,
    pub value: serde_json::Value,
    pub style: Option<char>,
}

impl ScalarEvent {
    /// A scalar without a tag.
    pub fn new(implicit: bool, value: serde_json::Value, start_mark: Option<Mark>, end_mark: Option<Mark>, style: Option<char>) -> (r: Self)
        ensures
            r.node == (NodeEvent { event: Event { start_mark, end_mark } }),
            r.tag is None,
            r.implicit == implicit,
            r.value == value,
            r.style == style,
    {
        ScalarEvent { node: NodeEvent::new(start_mark, end_mark), tag: None, implicit, value, style }
    }
}

impl Clone for ScalarEvent {
    fn clone(&self) -> (r: Self)
        ensures
            r == *self,
    {
        ScalarEvent {
            node: self.node,
            tag: copy_opt_string(&self.tag),
            implicit: self.implicit,
            value: crate::markedjson::json::copy_value(&self.value),
            style: self.style,
        }
    }
}

impl Clone for CollectionStartEvent {
    fn clone(&self) -> (r: Self)
        ensures
            r == *self,
    {
        CollectionStartEvent { node: self.node, tag: copy_opt_string(&self.tag), implicit: self.implicit, flow_style: self.flow_style }
    }
}

impl Clone for SequenceStartEvent {
    fn clone(&self) -> (r: Self)
        ensures
            r == *self,
    {
        SequenceStartEvent { collection: self.collection.clone() }
    }
}

impl Clone for MappingStartEvent {
    fn clone(&self) -> (r: Self)
        ensures
            r == *self,
    {
        MappingStartEvent { collection: self.collection.clone() }
    }
}

} // verus!
