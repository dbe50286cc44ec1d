//! The nodes the composer builds: a tag, a value and the marks around it,
//! with the quoting style of a scalar or the flow style of a collection.

use vstd::prelude::*;
use crate::markedjson::marks::Mark;

verus! {

/// A node: its tag, its value, and where it starts and ends.
#[derive(Debug)]
pub struct Node {
    pub tag: String,
    pub value: serde_json::Value,
    pub start_mark: Option<Mark>,
    pub end_mark: Option<Mark>,
}

impl Node {
    /// A node with the given tag, value and marks.
    pub fn new(tag: &str, value: serde_json::Value, start_mark: Option<Mark>, end_mark: Option<Mark>) -> (r: Self)
        ensures
            r.tag@ == tag@,
            r.value == value,
            r.start_mark == start_mark,
            r.end_mark == end_mark,
    {
        Node { tag: crate::text::string_from(tag), value, start_mark, end_mark }
    }
}

/// A scalar node, with the quote it was written with, if any.
#[derive(Debug)]
pub struct ScalarNode {
    pub node: Node,
    pub style: Option<char>,
}

impl ScalarNode {
    /// The name of the kind of node.
    pub const ID: &'static str = "scalar";

    /// A scalar node with the given tag, value, marks and style.
    pub fn new(tag: &str, value: serde_json::Value, start_mark: Option<Mark>, end_mark: Option<Mark>, style: Option<char>) -> (r: Self)
        ensures
            r.node.tag@ == tag@,
            r.node.value == value,
            r.node.start_mark == start_mark,
            r.node.end_mark == end_mark,
            r.style == style,
    {
        ScalarNode { node: Node::new(tag, value, start_mark, end_mark), style }
    }
}

/// A sequence or mapping node, with whether it was written inline.
#[derive(Debug)]
pub struct CollectionNode {
    pub node: Node,
    pub flow_style: Option<bool>,
}

impl CollectionNode {
    /// A collection node with the given tag, value, marks and flow style.
    pub fn new(tag: &str, value: serde_json::Value, start_mark: Option<Mark>, end_mark: Option<Mark>, flow_style: Option<bool>) -> (r: Self)
        ensures
            r.node.tag@ == tag@,
            r.node.value == value,
            r.node.start_mark == start_mark,
            r.node.end_mark == end_mark,
            r.flow_style == flow_style,
    {
        CollectionNode { node: Node::new(tag, value, start_mark, end_mark), flow_style }
    }
}

/// A sequence node.
#[derive(Debug)]
pub struct SequenceNode {
    pub collection: CollectionNode,
}

impl SequenceNode {
    /// The name of the kind of node.
    pub const ID: &'static str = "sequence";

    /// A sequence node with the given tag, value, marks and flow style.
    pub fn new(tag: &str, value: serde_json::Value, start_mark: Option<Mark>, end_mark: Option<Mark>, flow_style: Option<bool>) -> (r: Self)
        ensures
            r.collection.node.tag@ == tag@,
            r.collection.node.value == value,
            r.collection.node.start_mark == start_mark,
            r.collection.node.end_mark == end_mark,
            r.collection.flow_style == flow_style,
    {
        SequenceNode { collection: CollectionNode::new(tag, value, start_mark, end_mark, flow_style) }
    }
}

/// A mapping node.
#[derive(Debug)]
pub struct MappingNode {
    pub collection: CollectionNode,
}

impl MappingNode {
    /// The name of the kind of node.
    pub const ID: &'static str = "mapping";

    /// A mapping node with the given tag, value, marks and flow style.
    pub fn new(tag: &str, value: serde_json::Value, start_mark: Option<Mark>, end_mark: Option<Mark>, flow_style: Option<bool>) -> (r: Self)
        ensures
            r.collection.node.tag@ == tag@,
            r.collection.node.value == value,
            r.collection.node.start_mark == start_mark,
            r.collection.node.end_mark == end_mark,
            r.collection.flow_style == flow_style,
    {
        MappingNode { collection: CollectionNode::new(tag, value, start_mark, end_mark, flow_style) }
    }
}

} // verus!
