//! The events as the composer consumes them, and the composer's error.

use vstd::prelude::*;
use crate::markedjson::error::MarkedError;
use crate::markedjson::events::{MappingStartEvent, ScalarEvent, SequenceStartEvent};
use crate::markedjson::json::{copy_value, json_array, json_array_of, json_display, json_display_of, json_members_view, json_object, json_object_of, json_string_of, json_string_text};
use crate::markedjson::marks::Mark;
use crate::markedjson::nodes::{MappingNode, Node, ScalarNode, SequenceNode};
use crate::markedjson::resolver::{resolved_tag, resolvers_view, BaseResolver, NodeKind};
use crate::text::str_eq;

verus! {

/// An error met while composing nodes from events.
#[derive(Debug, Clone)]
pub struct ComposerError(pub MarkedError);

impl ComposerError {
    /// The error's message.
    pub fn to_string(&self) -> (r: String)
        ensures
            r@ == self.0.message@,
    {
        self.0.to_string()
    }
}

/// The kinds of event, without their contents.
#[derive(Debug, Clone, Copy, PartialEq, Eq, Structural)]
pub enum EventKind {
    StreamStart,
    StreamEnd,
    DocumentStart,
    DocumentEnd,
    Alias,
    Scalar,
    SequenceStart,
    SequenceEnd,
    MappingStart,
    MappingEnd,
}

/// An event of any kind, with the contents that its kind carries.
#[derive(Debug)]
pub enum AnyEvent {
    StreamStart,
    StreamEnd,
    DocumentStart,
    DocumentEnd,
    Alias,
    Scalar(ScalarEvent),
    SequenceStart(SequenceStartEvent),
    SequenceEnd,
    MappingStart(MappingStartEvent),
    MappingEnd,
}

impl AnyEvent {
    /// The kind of this event.
    pub open spec fn kind_of(&self) -> EventKind {
        match self {
            AnyEvent::StreamStart => EventKind::StreamStart,
            AnyEvent::StreamEnd => EventKind::StreamEnd,
            AnyEvent::DocumentStart => EventKind::DocumentStart,
            AnyEvent::DocumentEnd => EventKind::DocumentEnd,
            AnyEvent::Alias => EventKind::Alias,
            AnyEvent::Scalar(_) => EventKind::Scalar,
            AnyEvent::SequenceStart(_) => EventKind::SequenceStart,
            AnyEvent::SequenceEnd => EventKind::SequenceEnd,
            AnyEvent::MappingStart(_) => EventKind::MappingStart,
            AnyEvent::MappingEnd => EventKind::MappingEnd,
        }
    }

    /// The kind of this event.
    pub fn kind(&self) -> (k: EventKind)
        ensures
            k == self.kind_of(),
    {
        match self {
            AnyEvent::StreamStart => EventKind::StreamStart,
            AnyEvent::StreamEnd => EventKind::StreamEnd,
            AnyEvent::DocumentStart => EventKind::DocumentStart,
            AnyEvent::DocumentEnd => EventKind::DocumentEnd,
            AnyEvent::Alias => EventKind::Alias,
            AnyEvent::Scalar(_) => EventKind::Scalar,
            AnyEvent::SequenceStart(_) => EventKind::SequenceStart,
            AnyEvent::SequenceEnd => EventKind::SequenceEnd,
            AnyEvent::MappingStart(_) => EventKind::MappingStart,
            AnyEvent::MappingEnd => EventKind::MappingEnd,
        }
    }
}

impl Clone for AnyEvent {
    fn clone(&self) -> (r: Self)
        ensures
            r == *self,
    {
        match self {
            AnyEvent::StreamStart => AnyEvent::StreamStart,
            AnyEvent::StreamEnd => AnyEvent::StreamEnd,
            AnyEvent::DocumentStart => AnyEvent::DocumentStart,
            AnyEvent::DocumentEnd => AnyEvent::DocumentEnd,
            AnyEvent::Alias => AnyEvent::Alias,
            AnyEvent::Scalar(e) => AnyEvent::Scalar(e.clone()),
            AnyEvent::SequenceStart(e) => AnyEvent::SequenceStart(e.clone()),
            AnyEvent::SequenceEnd => AnyEvent::SequenceEnd,
            AnyEvent::MappingStart(e) => AnyEvent::MappingStart(e.clone()),
            AnyEvent::MappingEnd => AnyEvent::MappingEnd,
        }
    }
}

/// Whether `kind` is one of `kinds`.
pub(crate) fn kind_listed(kinds: &[EventKind], kind: EventKind) -> (r: bool)
    ensures
        r == kinds@.contains(kind),
{
    let mut i: usize = 0;
    while i < kinds.len()
        invariant
            i <= kinds.len(),
            forall|j: int| 0 <= j < i ==> kinds@[j] != kind,
        decreases kinds.len() - i,
    {
        if kinds[i] == kind {
            return true;
        }
        i = i + 1;
    }
    false
}

/// A composed node of any kind.
#[derive(Debug)]
pub enum ComposedNode {
    Scalar(ScalarNode),
    Sequence(SequenceNode),
    Mapping(MappingNode),
}

/// The node under a composed node of any kind.
pub open spec fn node_of(n: ComposedNode) -> Node {
    match n {
        ComposedNode::Scalar(s) => s.node,
        ComposedNode::Sequence(q) => q.collection.node,
        ComposedNode::Mapping(m) => m.collection.node,
    }
}

/// The name of the kind of a composed node.
pub open spec fn node_id(n: ComposedNode) -> Seq<char> {
    match n {
        ComposedNode::Scalar(_) => "scalar"@,
        ComposedNode::Sequence(_) => "sequence"@,
        ComposedNode::Mapping(_) => "mapping"@,
    }
}

impl ComposedNode {
    /// The name of the node's kind.
    pub fn id(&self) -> (r: &'static str)
        ensures
            r@ == node_id(*self),
    {
        match self {
            ComposedNode::Scalar(_) => "scalar",
            ComposedNode::Sequence(_) => "sequence",
            ComposedNode::Mapping(_) => "mapping",
        }
    }

    /// The node, whatever its kind.
    pub fn node(&self) -> (r: &Node)
        ensures
            *r == node_of(*self),
    {
        match self {
            ComposedNode::Scalar(s) => &s.node,
            ComposedNode::Sequence(q) => &q.collection.node,
            ComposedNode::Mapping(m) => &m.collection.node,
        }
    }

    /// Where the node starts.
    pub fn start_mark(&self) -> (r: Option<Mark>)
        ensures
            r == node_of(*self).start_mark,
    {
        self.node().start_mark
    }
}

/// The events and tags that a composer reads: a parser's events, in order,
/// and the tag its resolver gives a node.
pub trait ParserBackend: Sized {
    /// The events not yet taken, in order.
    spec fn pending(&self) -> Seq<AnyEvent>;

    /// The tag the resolver gives a node of `kind` with `value`.
    spec fn tag_for(&self, kind: NodeKind, value: Option<serde_json::Value>, implicit: bool) -> Seq<char>;

    /// Whether the next event is of one of the kinds `kinds`.
    fn check_event(&mut self, kinds: &[EventKind]) -> (r: bool)
        ensures
            final(self).pending() == old(self).pending(),
            forall|k: NodeKind, v: Option<serde_json::Value>, i: bool| #![trigger final(self).tag_for(k, v, i)] #![trigger old(self).tag_for(k, v, i)] final(self).tag_for(k, v, i) == old(self).tag_for(k, v, i),
            r == (old(self).pending().len() > 0 && kinds@.contains(old(self).pending()[0].kind_of())),
    ;

    /// The next event, taken.
    fn get_event(&mut self) -> (r: AnyEvent)
        requires
            old(self).pending().len() > 0,
        ensures
            r == old(self).pending()[0],
            final(self).pending() == old(self).pending().drop_first(),
            forall|k: NodeKind, v: Option<serde_json::Value>, i: bool| #![trigger final(self).tag_for(k, v, i)] #![trigger old(self).tag_for(k, v, i)] final(self).tag_for(k, v, i) == old(self).tag_for(k, v, i),
    ;

    /// Steps into the child `index` of `parent`.
    fn descend_resolver(&mut self, parent: Option<&ComposedNode>, index: Option<&ComposedNode>)
        ensures
            final(self).pending() == old(self).pending(),
            forall|k: NodeKind, v: Option<serde_json::Value>, i: bool| #![trigger final(self).tag_for(k, v, i)] #![trigger old(self).tag_for(k, v, i)] final(self).tag_for(k, v, i) == old(self).tag_for(k, v, i),
    ;

    /// Steps back out of a child.
    fn ascend_resolver(&mut self)
        ensures
            final(self).pending() == old(self).pending(),
            forall|k: NodeKind, v: Option<serde_json::Value>, i: bool| #![trigger final(self).tag_for(k, v, i)] #![trigger old(self).tag_for(k, v, i)] final(self).tag_for(k, v, i) == old(self).tag_for(k, v, i),
    ;

    /// The tag of a node of `kind` with `value`.
    fn resolve(&mut self, kind: NodeKind, value: Option<&serde_json::Value>, implicit: bool) -> (r: String)
        ensures
            r@ == old(self).tag_for(kind, match value { Some(v) => Some(*v), None => None }, implicit),
            final(self).pending() == old(self).pending(),
            forall|k: NodeKind, v: Option<serde_json::Value>, i: bool| #![trigger final(self).tag_for(k, v, i)] #![trigger old(self).tag_for(k, v, i)] final(self).tag_for(k, v, i) == old(self).tag_for(k, v, i),
    ;
}

/// The two states give every node the same tag.
pub open spec fn same_tags<B: ParserBackend>(a: B, b: B) -> bool {
    forall|k: NodeKind, v: Option<serde_json::Value>, i: bool| #![trigger a.tag_for(k, v, i)] #![trigger b.tag_for(k, v, i)] a.tag_for(k, v, i) == b.tag_for(k, v, i)
}

/// The tag a node gets: the event's own, unless it has none or it is `!`,
/// in which case the resolved one.
pub open spec fn tag_of(event_tag: Option<String>, resolved: Seq<char>) -> Seq<char> {
    match event_tag {
        Some(t) => if t@ == "!"@ { resolved } else { t@ },
        None => resolved,
    }
}

/// The kind of event that ends a sequence or a mapping.
pub open spec fn end_kind(mapping: bool) -> EventKind {
    if mapping { EventKind::MappingEnd } else { EventKind::SequenceEnd }
}

/// How many of the events `ev` make the node they start with: a scalar,
/// or a collection start, its nodes (key and value nodes in turn for a
/// mapping) and its end. None when they make no complete node.
pub open spec fn node_len(ev: Seq<AnyEvent>) -> Option<nat>
    decreases ev.len(), 0nat,
{
    if ev.len() == 0 {
        None
    } else {
        match ev[0].kind_of() {
            EventKind::Scalar => Some(1),
            EventKind::SequenceStart => match items_len(ev.drop_first(), false) {
                Some(n) => Some(n + 1),
                None => None,
            },
            EventKind::MappingStart => match items_len(ev.drop_first(), true) {
                Some(n) => Some(n + 1),
                None => None,
            },
            _ => None,
        }
    }
}

/// How many of the events `ev` make the nodes of a collection and its
/// end.
pub open spec fn items_len(ev: Seq<AnyEvent>, mapping: bool) -> Option<nat>
    decreases ev.len(), 1nat,
{
    if ev.len() == 0 {
        None
    } else if ev[0].kind_of() == end_kind(mapping) {
        Some(1)
    } else {
        match node_len(ev) {
            Some(n) => if n == 0 || n > ev.len() {
                None
            } else if mapping {
                match node_len(ev.skip(n as int)) {
                    Some(m) => if m == 0 || n + m > ev.len() {
                        None
                    } else {
                        match items_len(ev.skip((n + m) as int), mapping) {
                            Some(k) => Some(n + m + k),
                            None => None,
                        }
                    },
                    None => None,
                }
            } else {
                match items_len(ev.skip(n as int), mapping) {
                    Some(k) => Some(n + k),
                    None => None,
                }
            },
            None => None,
        }
    }
}

/// The value of the node that the events `ev` start with: a scalar's own
/// value, the array of the items' values, or the object of the members.
pub open spec fn node_value(ev: Seq<AnyEvent>) -> serde_json::Value
    decreases ev.len(), 0nat,
{
    if ev.len() == 0 {
        arbitrary()
    } else {
        match ev[0] {
            AnyEvent::Scalar(s) => s.value,
            AnyEvent::SequenceStart(_) => json_array_of(items_values(ev.drop_first())),
            AnyEvent::MappingStart(_) => json_object_of(members_values(ev.drop_first())),
            _ => arbitrary(),
        }
    }
}

/// The values of the nodes of a sequence, in order.
pub open spec fn items_values(ev: Seq<AnyEvent>) -> Seq<serde_json::Value>
    decreases ev.len(), 1nat,
{
    if ev.len() == 0 || ev[0].kind_of() == EventKind::SequenceEnd {
        Seq::empty()
    } else {
        match node_len(ev) {
            Some(n) => if n == 0 || n > ev.len() {
                Seq::empty()
            } else {
                seq![node_value(ev)] + items_values(ev.skip(n as int))
            },
            None => Seq::empty(),
        }
    }
}

/// The members of a mapping, in order: each key node's value as text, with
/// the value node's value.
pub open spec fn members_values(ev: Seq<AnyEvent>) -> Seq<(Seq<char>, serde_json::Value)>
    decreases ev.len(), 1nat,
{
    if ev.len() == 0 || ev[0].kind_of() == EventKind::MappingEnd {
        Seq::empty()
    } else {
        match node_len(ev) {
            Some(n) => if n == 0 || n > ev.len() {
                Seq::empty()
            } else {
                match node_len(ev.skip(n as int)) {
                    Some(m) => if m == 0 || n + m > ev.len() {
                        Seq::empty()
                    } else {
                        seq![(key_text(node_value(ev)), node_value(ev.skip(n as int)))] + members_values(ev.skip((n + m) as int))
                    },
                    None => Seq::empty(),
                }
            },
            None => Seq::empty(),
        }
    }
}

/// `n` is the node that the events `ev` start with, its tag given by
/// `b`: a scalar node with the event's value, marks and style, or a
/// sequence or mapping node with the value of its items and the start
/// event's start mark and flow style (and no end mark).
pub open spec fn composes<B: ParserBackend>(b: B, ev: Seq<AnyEvent>, n: ComposedNode) -> bool {
    &&& ev.len() > 0
    &&& node_of(n).value == node_value(ev)
    &&& match ev[0] {
        AnyEvent::Scalar(s) => n matches ComposedNode::Scalar(sn) && {
            &&& sn.node.tag@ == tag_of(s.tag, b.tag_for(NodeKind::Scalar, Some(s.value), s.implicit))
            &&& sn.node.start_mark == s.node.event.start_mark
            &&& sn.node.end_mark == s.node.event.end_mark
            &&& sn.style == s.style
        },
        AnyEvent::SequenceStart(c) => n matches ComposedNode::Sequence(q) && {
            &&& q.collection.node.tag@ == tag_of(c.collection.tag, b.tag_for(NodeKind::Sequence, None, c.collection.implicit))
            &&& q.collection.node.start_mark == c.collection.node.event.start_mark
            &&& q.collection.node.end_mark is None
            &&& q.collection.flow_style == c.collection.flow_style
        },
        AnyEvent::MappingStart(c) => n matches ComposedNode::Mapping(m) && {
            &&& m.collection.node.tag@ == tag_of(c.collection.tag, b.tag_for(NodeKind::Mapping, None, c.collection.implicit))
            &&& m.collection.node.start_mark == c.collection.node.event.start_mark
            &&& m.collection.node.end_mark is None
            &&& m.collection.flow_style == c.collection.flow_style
        },
        _ => false,
    }
}

/// Builds nodes from the events of a parser.
#[derive(Debug, Clone, Copy)]
pub struct Composer;

/// The value of a composed node, moved out of it.
fn into_value(n: ComposedNode) -> (v: serde_json::Value)
    ensures
        v == node_of(n).value,
{
    match n {
        ComposedNode::Scalar(s) => s.node.value,
        ComposedNode::Sequence(q) => q.collection.node.value,
        ComposedNode::Mapping(m) => m.collection.node.value,
    }
}

/// The tag of a node: the event's own unless it has none or it is `!`,
/// else the one the backend resolves.
fn node_tag<B: ParserBackend>(backend: &mut B, event_tag: &Option<String>, kind: NodeKind, value: Option<&serde_json::Value>, implicit: bool) -> (r: String)
    ensures
        r@ == tag_of(*event_tag, old(backend).tag_for(kind, match value { Some(v) => Some(*v), None => None }, implicit)),
        final(backend).pending() == old(backend).pending(),
        same_tags(*old(backend), *final(backend)),
{
    proof {
        reveal_strlit("!");
    }
    match event_tag {
        Some(t) => {
            if str_eq(t.as_str(), "!") {
                backend.resolve(kind, value, implicit)
            } else {
                crate::text::string_from(t.as_str())
            }
        },
        None => backend.resolve(kind, value, implicit),
    }
}

/// The events of a document: its start, a node and its end.
pub open spec fn document_len(ev: Seq<AnyEvent>) -> Option<nat> {
    if ev.len() > 0 {
        match node_len(ev.drop_first()) {
            Some(n) => if n + 2 <= ev.len() { Some(n + 2) } else { None },
            None => None,
        }
    } else {
        None
    }
}

/// How many events the document that may come first in `ev` takes: none
/// when the stream ends first.
pub open spec fn single_document_len(ev: Seq<AnyEvent>) -> nat {
    if at_stream_end(ev) { 0 } else { document_len(ev)->0 }
}

/// The events `ev` after the stream start, when they begin with one.
pub open spec fn after_stream_start(ev: Seq<AnyEvent>) -> Seq<AnyEvent> {
    if ev.len() > 0 && ev[0].kind_of() == EventKind::StreamStart { ev.drop_first() } else { ev }
}

/// The events `ev` begin with the end of the stream.
pub open spec fn at_stream_end(ev: Seq<AnyEvent>) -> bool {
    ev.len() > 0 && ev[0].kind_of() == EventKind::StreamEnd
}

impl Composer {
    /// Drops the start of the stream, if it comes next; whether a document
    /// follows (the stream does not end next).
    pub fn check_node<B: ParserBackend>(backend: &mut B) -> (r: bool)
        ensures
            final(backend).pending() == after_stream_start(old(backend).pending()),
            same_tags(*old(backend), *final(backend)),
            r == !at_stream_end(after_stream_start(old(backend).pending())),
    {
        if backend.check_event(&[EventKind::StreamStart]) {
            let _ = backend.get_event();
        }
        !backend.check_event(&[EventKind::StreamEnd])
    }

    /// The root node of the next document, unless the stream ends next.
    pub fn get_node<B: ParserBackend>(backend: &mut B) -> (r: Option<ComposedNode>)
        requires
            !at_stream_end(old(backend).pending()) ==> document_len(old(backend).pending()) is Some,
        ensures
            same_tags(*old(backend), *final(backend)),
            at_stream_end(old(backend).pending()) ==> r is None && final(backend).pending() == old(backend).pending(),
            !at_stream_end(old(backend).pending()) ==> (r matches Some(n) && composes(*old(backend), old(backend).pending().drop_first(), n)
                && final(backend).pending() == old(backend).pending().skip(document_len(old(backend).pending())->0 as int)),
    {
        if !backend.check_event(&[EventKind::StreamEnd]) {
            return Some(Self::compose_document(backend));
        }
        None
    }

    /// The one document of the stream: drops the start of the stream,
    /// composes a document unless the stream ends there, and then fails
    /// when another document follows instead of the end of the stream,
    /// which it drops.
    pub fn get_single_node<B: ParserBackend>(backend: &mut B) -> (r: Result<Option<ComposedNode>, ComposerError>)
        requires
            old(backend).pending().len() > 0,
            !at_stream_end(old(backend).pending().drop_first()) ==> document_len(old(backend).pending().drop_first()) is Some,
            old(backend).pending().drop_first().skip(single_document_len(old(backend).pending().drop_first()) as int).len() > 0,
        ensures
            same_tags(*old(backend), *final(backend)),
            ({
                let q = old(backend).pending().drop_first();
                let rest = q.skip(single_document_len(q) as int);
                &&& (r is Ok) == at_stream_end(rest)
                &&& r matches Ok(d) ==> (d is None <==> at_stream_end(q)) && (d matches Some(n) ==> composes(*old(backend), q.drop_first(), n))
                &&& final(backend).pending() == rest.drop_first()
            }),
    {
        let _ = backend.get_event();
        let document = if !backend.check_event(&[EventKind::StreamEnd]) {
            Some(Self::compose_document(backend))
        } else {
            None
        };
        if !backend.check_event(&[EventKind::StreamEnd]) {
            let _ = backend.get_event();
            return Err(ComposerError(MarkedError::new(
                Some("expected a single document in the stream"),
                None,
                Some("but found another document"),
                None,
                None,
            )));
        }
        let _ = backend.get_event();
        Ok(document)
    }

    /// The root node of the document whose start comes next; drops the
    /// document's start and end.
    pub fn compose_document<B: ParserBackend>(backend: &mut B) -> (r: ComposedNode)
        requires
            document_len(old(backend).pending()) is Some,
        ensures
            same_tags(*old(backend), *final(backend)),
            composes(*old(backend), old(backend).pending().drop_first(), r),
            final(backend).pending() == old(backend).pending().skip(document_len(old(backend).pending())->0 as int),
    {
        let ghost ev = backend.pending();
        let _ = backend.get_event();
        let node = Self::compose_node(backend, None, None);
        proof {
            let n = node_len(ev.drop_first())->0;
            assert(backend.pending() =~= ev.skip((n + 1) as int));
        }
        let _ = backend.get_event();
        proof {
            let n = node_len(ev.drop_first())->0;
            assert(backend.pending() =~= ev.skip((n + 2) as int));
        }
        node
    }

    /// The node whose events come next.
    pub fn compose_node<B: ParserBackend>(backend: &mut B, parent: Option<&ComposedNode>, index: Option<&ComposedNode>) -> (r: ComposedNode)
        requires
            node_len(old(backend).pending()) is Some,
        ensures
            same_tags(*old(backend), *final(backend)),
            composes(*old(backend), old(backend).pending(), r),
            final(backend).pending() == old(backend).pending().skip(node_len(old(backend).pending())->0 as int),
        decreases old(backend).pending().len(), 1nat,
    {
        backend.descend_resolver(parent, index);
        let node = if backend.check_event(&[EventKind::Scalar]) {
            ComposedNode::Scalar(Self::compose_scalar_node(backend))
        } else if backend.check_event(&[EventKind::SequenceStart]) {
            ComposedNode::Sequence(Self::compose_sequence_node(backend))
        } else if backend.check_event(&[EventKind::MappingStart]) {
            ComposedNode::Mapping(Self::compose_mapping_node(backend))
        } else {
            vstd::pervasive::unreached()
        };
        backend.ascend_resolver();
        node
    }

    /// The sequence node whose events come next: its start, its items
    /// and its end.
    pub fn compose_sequence_node<B: ParserBackend>(backend: &mut B) -> (r: SequenceNode)
        requires
            old(backend).pending().len() > 0,
            old(backend).pending()[0].kind_of() == EventKind::SequenceStart,
            node_len(old(backend).pending()) is Some,
        ensures
            same_tags(*old(backend), *final(backend)),
            composes(*old(backend), old(backend).pending(), ComposedNode::Sequence(r)),
            final(backend).pending() == old(backend).pending().skip(node_len(old(backend).pending())->0 as int),
        decreases old(backend).pending().len(), 0nat,
    {
        let ghost b0 = *backend;
        let ghost ev0 = backend.pending();
        let start = backend.get_event();
        let seq_start = match start {
            AnyEvent::SequenceStart(q) => q,
            _ => vstd::pervasive::unreached(),
        };
        let tag = node_tag(backend, &seq_start.collection.tag, NodeKind::Sequence, None, seq_start.collection.implicit);
        let ghost items_ev = ev0.drop_first();
        let ghost mut consumed: int = 0;
        let mut values: Vec<serde_json::Value> = Vec::new();
        assert(items_ev.skip(0) =~= items_ev);
        let mut at_end = backend.check_event(&[EventKind::SequenceEnd]);
        while !at_end
            invariant
                same_tags(b0, *backend),
                0 <= consumed <= items_ev.len(),
                backend.pending() == items_ev.skip(consumed),
                backend.pending().len() <= items_ev.len(),
                items_len(backend.pending(), false) is Some,
                items_len(items_ev, false) == Some((items_len(backend.pending(), false)->0 + consumed) as nat),
                items_values(items_ev) == values@ + items_values(backend.pending()),
                backend.pending().len() > 0,
                at_end == (backend.pending()[0].kind_of() == EventKind::SequenceEnd),
                items_ev.len() < ev0.len(),
                ev0 == old(backend).pending(),
            decreases backend.pending().len(),
        {
            let ghost cur = backend.pending();
            let ghost n = node_len(cur)->0;
            let child = Self::compose_node(backend, None, None);
            proof {
                assert(cur.skip(n as int) =~= items_ev.skip(consumed + n));
                consumed = consumed + n;
            }
            let v = into_value(child);
            let ghost before = values@;
            values.push(v);
            assert(values@ + items_values(backend.pending()) =~= before + (seq![node_value(cur)] + items_values(cur.skip(n as int))));
            at_end = backend.check_event(&[EventKind::SequenceEnd]);
        }
        let ghost last = backend.pending();
        let _ = backend.get_event();
        proof {
            assert(backend.pending() =~= ev0.skip(consumed + 2));
            assert(values@ =~= items_values(items_ev));
        }
        let value = json_array(values);
        SequenceNode::new(tag.as_str(), value, seq_start.collection.node.event.start_mark, None, seq_start.collection.flow_style)
    }

    /// The mapping node whose events come next: its start, its key and
    /// value nodes in turn, and its end. Each key is the text of its
    /// node's value.
    #[verifier::rlimit(40)]
    pub fn compose_mapping_node<B: ParserBackend>(backend: &mut B) -> (r: MappingNode)
        requires
            old(backend).pending().len() > 0,
            old(backend).pending()[0].kind_of() == EventKind::MappingStart,
            node_len(old(backend).pending()) is Some,
        ensures
            same_tags(*old(backend), *final(backend)),
            composes(*old(backend), old(backend).pending(), ComposedNode::Mapping(r)),
            final(backend).pending() == old(backend).pending().skip(node_len(old(backend).pending())->0 as int),
        decreases old(backend).pending().len(), 0nat,
    {
        let ghost b0 = *backend;
        let ghost ev0 = backend.pending();
        let start = backend.get_event();
        let map_start = match start {
            AnyEvent::MappingStart(m) => m,
            _ => vstd::pervasive::unreached(),
        };
        let tag = node_tag(backend, &map_start.collection.tag, NodeKind::Mapping, None, map_start.collection.implicit);
        let ghost items_ev = ev0.drop_first();
        let ghost mut consumed: int = 0;
        let mut members: Vec<(String, serde_json::Value)> = Vec::new();
        assert(items_ev.skip(0) =~= items_ev);
        assert(json_members_view(members@) =~= Seq::<(Seq<char>, serde_json::Value)>::empty());
        let mut at_end = backend.check_event(&[EventKind::MappingEnd]);
        while !at_end
            invariant
                same_tags(b0, *backend),
                0 <= consumed <= items_ev.len(),
                backend.pending() == items_ev.skip(consumed),
                backend.pending().len() <= items_ev.len(),
                items_len(backend.pending(), true) is Some,
                items_len(items_ev, true) == Some((items_len(backend.pending(), true)->0 + consumed) as nat),
                members_values(items_ev) == json_members_view(members@) + members_values(backend.pending()),
                backend.pending().len() > 0,
                at_end == (backend.pending()[0].kind_of() == EventKind::MappingEnd),
                items_ev.len() < ev0.len(),
                ev0 == old(backend).pending(),
            decreases backend.pending().len(),
        {
            let ghost cur = backend.pending();
            let ghost n = node_len(cur)->0;
            let ghost m = node_len(cur.skip(n as int))->0;
            let key = Self::compose_node(backend, None, None);
            let value = Self::compose_node(backend, None, None);
            proof {
                assert(cur.skip(n as int).skip(m as int) =~= cur.skip((n + m) as int));
                assert(cur.skip((n + m) as int) =~= items_ev.skip(consumed + n + m));
                consumed = consumed + n + m;
            }
            let key_value = into_value(key);
            let text_of_key = value_key_text(&key_value);
            let v = into_value(value);
            let ghost before = json_members_view(members@);
            members.push((text_of_key, v));
            assert(json_members_view(members@) =~= before.push((key_text(node_value(cur)), node_value(cur.skip(n as int)))));
            assert(json_members_view(members@) + members_values(backend.pending()) =~= before + (seq![(key_text(node_value(cur)), node_value(cur.skip(n as int)))] + members_values(cur.skip((n + m) as int))));
            at_end = backend.check_event(&[EventKind::MappingEnd]);
        }
        let _ = backend.get_event();
        proof {
            assert(backend.pending() =~= ev0.skip(consumed + 2));
            assert(json_members_view(members@) =~= members_values(items_ev));
        }
        let value = json_object(members);
        MappingNode::new(tag.as_str(), value, map_start.collection.node.event.start_mark, None, map_start.collection.flow_style)
    }

    /// The scalar node whose event comes next.
    pub fn compose_scalar_node<B: ParserBackend>(backend: &mut B) -> (r: ScalarNode)
        requires
            old(backend).pending().len() > 0,
            old(backend).pending()[0].kind_of() == EventKind::Scalar,
        ensures
            same_tags(*old(backend), *final(backend)),
            composes(*old(backend), old(backend).pending(), ComposedNode::Scalar(r)),
            final(backend).pending() == old(backend).pending().drop_first(),
    {
        let event = backend.get_event();
        let scalar = match event {
            AnyEvent::Scalar(s) => s,
            _ => vstd::pervasive::unreached(),
        };
        let tag = node_tag(backend, &scalar.tag, NodeKind::Scalar, Some(&scalar.value), scalar.implicit);
        ScalarNode::new(tag.as_str(), scalar.value, scalar.node.event.start_mark, scalar.node.event.end_mark, scalar.style)
    }
}

/// Events held in memory, in order, with a resolver that gives the tags.
#[derive(Debug)]
pub struct EventQueue {
    pub events: Vec<AnyEvent>,
    pub resolver: BaseResolver,
}

impl EventQueue {
    /// A queue that yields `events` in order, tagging nodes with
    /// `resolver`.
    pub fn new(events: Vec<AnyEvent>, resolver: BaseResolver) -> (r: Self)
        ensures
            r.events@ == events@,
            r.resolver == resolver,
    {
        EventQueue { events, resolver }
    }
}

/// The text that stands for a JSON value as an object key, and that a
/// resolver reads: a string's own text, any other value written as compact
/// JSON.
#[verifier::opaque]
pub open spec fn key_text(v: serde_json::Value) -> Seq<char> {
    match json_string_of(v) {
        Some(s) => s,
        None => json_display_of(v),
    }
}

/// The text that stands for `v` as an object key (see `key_text`).
pub fn value_key_text(v: &serde_json::Value) -> (r: String)
    ensures
        r@ == key_text(*v),
{
    reveal(key_text);
    match json_string_text(v) {
        Some(s) => s,
        None => json_display(v),
    }
}

/// The text a resolver reads of a node's value: a scalar's text, nothing
/// for a collection.
pub open spec fn resolved_text(value: Option<serde_json::Value>) -> Seq<char> {
    match value {
        Some(v) => key_text(v),
        None => Seq::empty(),
    }
}

impl ParserBackend for EventQueue {
    open spec fn pending(&self) -> Seq<AnyEvent> {
        self.events@
    }

    open spec fn tag_for(&self, kind: NodeKind, value: Option<serde_json::Value>, implicit: bool) -> Seq<char> {
        resolved_tag(resolvers_view(self.resolver.implicit_resolvers@), kind, resolved_text(value), implicit)
    }

    fn check_event(&mut self, kinds: &[EventKind]) -> (r: bool) {
        if self.events.len() == 0 {
            false
        } else {
            let k = self.events[0].kind();
            kind_listed(kinds, k)
        }
    }

    fn get_event(&mut self) -> (r: AnyEvent) {
        self.events.remove(0)
    }

    fn descend_resolver(&mut self, parent: Option<&ComposedNode>, index: Option<&ComposedNode>) {
    }

    fn ascend_resolver(&mut self) {
    }

    fn resolve(&mut self, kind: NodeKind, value: Option<&serde_json::Value>, implicit: bool) -> (r: String) {
        let text = match value {
            Some(v) => value_key_text(v),
            None => crate::text::string_of(&Vec::new()),
        };
        self.resolver.resolve(kind, text.as_str(), implicit)
    }
}

} // verus!
