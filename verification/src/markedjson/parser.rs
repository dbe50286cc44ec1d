//! The parser: a state machine that turns the token stream into events.
//!
//! Each call of the parser takes the step that its current state names: it
//! reads tokens, emits one event and picks the next state, keeping a stack of
//! states to return to and a stack of the marks where open collections began.
//! `step` states one such step over plain values; the parser's methods are
//! proved to take exactly that step.

use vstd::prelude::*;
use crate::markedjson::composer::{kind_listed, AnyEvent, EventKind};
use crate::markedjson::error::MarkedError;
use crate::markedjson::events::{
    copy_opt_string, CollectionStartEvent, Event, MappingStartEvent, NodeEvent, ScalarEvent,
    SequenceStartEvent,
};
use crate::markedjson::marks::Mark;

verus! {

/// An error met while parsing the token stream.
#[derive(Debug, Clone)]
pub struct ParserError(pub MarkedError);

impl ParserError {
    /// The error's message.
    pub fn to_string(&self) -> (r: String)
        ensures
            r@ == self.0.message@,
    {
        self.0.to_string()
    }
}

/// The kinds of token, without their contents.
#[derive(Debug, Clone, Copy, PartialEq, Eq, Structural)]
pub enum TokenKind {
    StreamStart,
    StreamEnd,
    FlowSequenceStart,
    FlowSequenceEnd,
    FlowMappingStart,
    FlowMappingEnd,
    Key,
    Value,
    FlowEntry,
    Scalar,
}

/// A token of any kind, with the contents that the parser reads.
#[derive(Debug)]
pub enum AnyToken {
    StreamStart { start_mark: Option<Mark>, end_mark: Option<Mark>, encoding: Option<String> },
    StreamEnd { start_mark: Option<Mark>, end_mark: Option<Mark> },
    FlowSequenceStart { start_mark: Option<Mark>, end_mark: Option<Mark> },
    FlowSequenceEnd { start_mark: Option<Mark>, end_mark: Option<Mark> },
    FlowMappingStart { start_mark: Option<Mark>, end_mark: Option<Mark> },
    FlowMappingEnd { start_mark: Option<Mark>, end_mark: Option<Mark> },
    Key { start_mark: Option<Mark>, end_mark: Option<Mark> },
    Value { start_mark: Option<Mark>, end_mark: Option<Mark> },
    FlowEntry { start_mark: Option<Mark>, end_mark: Option<Mark> },
    Scalar {
        start_mark: Option<Mark>,
        end_mark: Option<Mark>,
        value: serde_json::Value,
        plain: bool,
        style: Option<char>,
    },
}

/// The text by which a token of the given kind is named in messages.
pub open spec fn token_id_text(k: TokenKind) -> Seq<char> {
    match k {
        TokenKind::StreamStart => "<stream start>"@,
        TokenKind::StreamEnd => "<stream end>"@,
        TokenKind::FlowSequenceStart => "["@,
        TokenKind::FlowSequenceEnd => "]"@,
        TokenKind::FlowMappingStart => "{"@,
        TokenKind::FlowMappingEnd => "}"@,
        TokenKind::Key => "?"@,
        TokenKind::Value => ":"@,
        TokenKind::FlowEntry => ","@,
        TokenKind::Scalar => "<scalar>"@,
    }
}

impl AnyToken {
    /// The kind of this token.
    pub open spec fn kind_of(&self) -> TokenKind {
        match self {
            AnyToken::StreamStart { .. } => TokenKind::StreamStart,
            AnyToken::StreamEnd { .. } => TokenKind::StreamEnd,
            AnyToken::FlowSequenceStart { .. } => TokenKind::FlowSequenceStart,
            AnyToken::FlowSequenceEnd { .. } => TokenKind::FlowSequenceEnd,
            AnyToken::FlowMappingStart { .. } => TokenKind::FlowMappingStart,
            AnyToken::FlowMappingEnd { .. } => TokenKind::FlowMappingEnd,
            AnyToken::Key { .. } => TokenKind::Key,
            AnyToken::Value { .. } => TokenKind::Value,
            AnyToken::FlowEntry { .. } => TokenKind::FlowEntry,
            AnyToken::Scalar { .. } => TokenKind::Scalar,
        }
    }

    /// Where this token starts.
    pub open spec fn start_mark_of(&self) -> Option<Mark> {
        match self {
            AnyToken::StreamStart { start_mark, .. } => *start_mark,
            AnyToken::StreamEnd { start_mark, .. } => *start_mark,
            AnyToken::FlowSequenceStart { start_mark, .. } => *start_mark,
            AnyToken::FlowSequenceEnd { start_mark, .. } => *start_mark,
            AnyToken::FlowMappingStart { start_mark, .. } => *start_mark,
            AnyToken::FlowMappingEnd { start_mark, .. } => *start_mark,
            AnyToken::Key { start_mark, .. } => *start_mark,
            AnyToken::Value { start_mark, .. } => *start_mark,
            AnyToken::FlowEntry { start_mark, .. } => *start_mark,
            AnyToken::Scalar { start_mark, .. } => *start_mark,
        }
    }

    /// Where this token ends.
    pub open spec fn end_mark_of(&self) -> Option<Mark> {
        match self {
            AnyToken::StreamStart { end_mark, .. } => *end_mark,
            AnyToken::StreamEnd { end_mark, .. } => *end_mark,
            AnyToken::FlowSequenceStart { end_mark, .. } => *end_mark,
            AnyToken::FlowSequenceEnd { end_mark, .. } => *end_mark,
            AnyToken::FlowMappingStart { end_mark, .. } => *end_mark,
            AnyToken::FlowMappingEnd { end_mark, .. } => *end_mark,
            AnyToken::Key { end_mark, .. } => *end_mark,
            AnyToken::Value { end_mark, .. } => *end_mark,
            AnyToken::FlowEntry { end_mark, .. } => *end_mark,
            AnyToken::Scalar { end_mark, .. } => *end_mark,
        }
    }

    /// The kind of this token.
    pub fn token_kind(&self) -> (k: TokenKind)
        ensures
            k == self.kind_of(),
    {
        match self {
            AnyToken::StreamStart { .. } => TokenKind::StreamStart,
            AnyToken::StreamEnd { .. } => TokenKind::StreamEnd,
            AnyToken::FlowSequenceStart { .. } => TokenKind::FlowSequenceStart,
            AnyToken::FlowSequenceEnd { .. } => TokenKind::FlowSequenceEnd,
            AnyToken::FlowMappingStart { .. } => TokenKind::FlowMappingStart,
            AnyToken::FlowMappingEnd { .. } => TokenKind::FlowMappingEnd,
            AnyToken::Key { .. } => TokenKind::Key,
            AnyToken::Value { .. } => TokenKind::Value,
            AnyToken::FlowEntry { .. } => TokenKind::FlowEntry,
            AnyToken::Scalar { .. } => TokenKind::Scalar,
        }
    }

    /// Where this token starts.
    pub fn token_start_mark(&self) -> (m: Option<Mark>)
        ensures
            m == self.start_mark_of(),
    {
        match self {
            AnyToken::StreamStart { start_mark, .. } => *start_mark,
            AnyToken::StreamEnd { start_mark, .. } => *start_mark,
            AnyToken::FlowSequenceStart { start_mark, .. } => *start_mark,
            AnyToken::FlowSequenceEnd { start_mark, .. } => *start_mark,
            AnyToken::FlowMappingStart { start_mark, .. } => *start_mark,
            AnyToken::FlowMappingEnd { start_mark, .. } => *start_mark,
            AnyToken::Key { start_mark, .. } => *start_mark,
            AnyToken::Value { start_mark, .. } => *start_mark,
            AnyToken::FlowEntry { start_mark, .. } => *start_mark,
            AnyToken::Scalar { start_mark, .. } => *start_mark,
        }
    }

    /// Where this token ends.
    pub fn token_end_mark(&self) -> (m: Option<Mark>)
        ensures
            m == self.end_mark_of(),
    {
        match self {
            AnyToken::StreamStart { end_mark, .. } => *end_mark,
            AnyToken::StreamEnd { end_mark, .. } => *end_mark,
            AnyToken::FlowSequenceStart { end_mark, .. } => *end_mark,
            AnyToken::FlowSequenceEnd { end_mark, .. } => *end_mark,
            AnyToken::FlowMappingStart { end_mark, .. } => *end_mark,
            AnyToken::FlowMappingEnd { end_mark, .. } => *end_mark,
            AnyToken::Key { end_mark, .. } => *end_mark,
            AnyToken::Value { end_mark, .. } => *end_mark,
            AnyToken::FlowEntry { end_mark, .. } => *end_mark,
            AnyToken::Scalar { end_mark, .. } => *end_mark,
        }
    }

    /// The name of this token in messages.
    pub fn token_id(&self) -> (s: &'static str)
        ensures
            s@ == token_id_text(self.kind_of()),
    {
        let s = match self {
            AnyToken::StreamStart { .. } => "<stream start>",
            AnyToken::StreamEnd { .. } => "<stream end>",
            AnyToken::FlowSequenceStart { .. } => "[",
            AnyToken::FlowSequenceEnd { .. } => "]",
            AnyToken::FlowMappingStart { .. } => "{",
            AnyToken::FlowMappingEnd { .. } => "}",
            AnyToken::Key { .. } => "?",
            AnyToken::Value { .. } => ":",
            AnyToken::FlowEntry { .. } => ",",
            AnyToken::Scalar { .. } => "<scalar>",
        };
        proof {
            reveal_strlit("<stream start>");
            reveal_strlit("<stream end>");
            reveal_strlit("[");
            reveal_strlit("]");
            reveal_strlit("{");
            reveal_strlit("}");
            reveal_strlit("?");
            reveal_strlit(":");
            reveal_strlit(",");
            reveal_strlit("<scalar>");
        }
        s
    }
}

impl Clone for AnyToken {
    fn clone(&self) -> (r: Self)
        ensures
            r == *self,
    {
        match self {
            AnyToken::StreamStart { start_mark, end_mark, encoding } => AnyToken::StreamStart {
                start_mark: *start_mark,
                end_mark: *end_mark,
                encoding: copy_opt_string(encoding),
            },
            AnyToken::StreamEnd { start_mark, end_mark } => AnyToken::StreamEnd { start_mark: *start_mark, end_mark: *end_mark },
            AnyToken::FlowSequenceStart { start_mark, end_mark } => AnyToken::FlowSequenceStart { start_mark: *start_mark, end_mark: *end_mark },
            AnyToken::FlowSequenceEnd { start_mark, end_mark } => AnyToken::FlowSequenceEnd { start_mark: *start_mark, end_mark: *end_mark },
            AnyToken::FlowMappingStart { start_mark, end_mark } => AnyToken::FlowMappingStart { start_mark: *start_mark, end_mark: *end_mark },
            AnyToken::FlowMappingEnd { start_mark, end_mark } => AnyToken::FlowMappingEnd { start_mark: *start_mark, end_mark: *end_mark },
            AnyToken::Key { start_mark, end_mark } => AnyToken::Key { start_mark: *start_mark, end_mark: *end_mark },
            AnyToken::Value { start_mark, end_mark } => AnyToken::Value { start_mark: *start_mark, end_mark: *end_mark },
            AnyToken::FlowEntry { start_mark, end_mark } => AnyToken::FlowEntry { start_mark: *start_mark, end_mark: *end_mark },
            AnyToken::Scalar { start_mark, end_mark, value, plain, style } => AnyToken::Scalar {
                start_mark: *start_mark,
                end_mark: *end_mark,
                value: crate::markedjson::json::copy_value(value),
                plain: *plain,
                style: *style,
            },
        }
    }
}

/// Whether the next of the tokens `p` is of one of the kinds `kinds`.
pub open spec fn head_in(p: Seq<AnyToken>, kinds: Seq<TokenKind>) -> bool {
    p.len() > 0 && kinds.contains(p[0].kind_of())
}

/// Whether the next of the tokens `p` is of kind `k`.
pub open spec fn head_is(p: Seq<AnyToken>, k: TokenKind) -> bool {
    p.len() > 0 && p[0].kind_of() == k
}

/// The next of the tokens `p`, if there is one.
pub open spec fn head_of(p: Seq<AnyToken>) -> Option<AnyToken> {
    if p.len() > 0 {
        Some(p[0])
    } else {
        None
    }
}

/// A source of tokens, read in order.
pub trait TokenStream {
    /// The tokens not yet taken, in order.
    spec fn pending(&self) -> Seq<AnyToken>;

    /// Whether the next token is of one of the kinds `kinds`.
    fn check_token(&mut self, kinds: &[TokenKind]) -> (r: bool)
        ensures
            final(self).pending() == old(self).pending(),
            r == head_in(old(self).pending(), kinds@),
    ;

    /// The next token, left in place.
    fn peek_token(&mut self) -> (r: Option<AnyToken>)
        ensures
            final(self).pending() == old(self).pending(),
            r == head_of(old(self).pending()),
    ;

    /// The next token, taken.
    fn get_token(&mut self) -> (r: AnyToken)
        requires
            old(self).pending().len() > 0,
        ensures
            r == old(self).pending()[0],
            final(self).pending() == old(self).pending().drop_first(),
    ;
}

/// Whether `kind` is one of `kinds`.
fn token_kind_listed(kinds: &[TokenKind], kind: TokenKind) -> (r: bool)
    ensures
        r == kinds@.contains(kind),
{
    let mut i: usize = 0;
    while i < kinds.len()
        invariant
            i <= kinds.len(),
            forall|j: int| 0 <= j < i ==> kinds@[j] != kind,
        decreases kinds.len() - i,
    {
        if kinds[i] == kind {
            return true;
        }
        i = i + 1;
    }
    false
}

/// A stream over a list of tokens held in memory.
#[derive(Debug)]
pub struct TokenQueue {
    pub tokens: Vec<AnyToken>,
}

impl TokenQueue {
    /// A stream that yields `tokens` in order.
    pub fn new(tokens: Vec<AnyToken>) -> (r: Self)
        ensures
            r.pending() == tokens@,
    {
        TokenQueue { tokens }
    }
}

impl TokenStream for TokenQueue {
    open spec fn pending(&self) -> Seq<AnyToken> {
        self.tokens@
    }

    fn check_token(&mut self, kinds: &[TokenKind]) -> (r: bool) {
        if self.tokens.len() == 0 {
            false
        } else {
            let k = self.tokens[0].token_kind();
            token_kind_listed(kinds, k)
        }
    }

    fn peek_token(&mut self) -> (r: Option<AnyToken>) {
        if self.tokens.len() == 0 {
            None
        } else {
            Some(self.tokens[0].clone())
        }
    }

    fn get_token(&mut self) -> (r: AnyToken) {
        self.tokens.remove(0)
    }
}

/// The states of the parser: each names the step that the next call takes.
#[derive(Debug, Clone, Copy, PartialEq, Eq, Structural)]
pub enum State {
    StreamStart,
    ImplicitDocumentStart,
    DocumentStart,
    DocumentEnd,
    DocumentContent,
    Node,
    FlowSequenceFirstEntry,
    FlowSequenceEntry,
    FlowSequenceEntryMappingEnd,
    FlowMappingFirstKey,
    FlowMappingKey,
    FlowMappingValue,
    Done,
}

/// The outcome of one step: the event, the next state, the stack of states,
/// the stack of marks and the tokens left.
pub type Step = (AnyEvent, State, Seq<State>, Seq<Option<Mark>>, Seq<AnyToken>);

/// The state on top of `states`, or `Done` when there is none.
pub open spec fn top_state(states: Seq<State>) -> State {
    if states.len() == 0 {
        State::Done
    } else {
        states.last()
    }
}

/// `s` without its last element, if it has one.
pub open spec fn without_last<T>(s: Seq<T>) -> Seq<T> {
    if s.len() == 0 {
        s
    } else {
        s.drop_last()
    }
}

/// The states whose step takes a token before it looks at any.
pub open spec fn takes_token(state: State) -> bool {
    state == State::StreamStart || state == State::FlowSequenceFirstEntry || state == State::FlowMappingFirstKey
}

/// The scalar event for the scalar token `t`, which started at `start_mark`.
pub open spec fn scalar_event_of(start_mark: Option<Mark>, t: AnyToken) -> AnyEvent {
    match t {
        AnyToken::Scalar { end_mark, value, plain, style, .. } => AnyEvent::Scalar(
            ScalarEvent {
                node: NodeEvent { event: Event { start_mark, end_mark } },
                tag: None,
                implicit: plain,
                value,
                style,
            },
        ),
        _ => AnyEvent::StreamEnd,
    }
}

/// The start of a flow collection between two marks.
pub open spec fn flow_collection_start(start_mark: Option<Mark>, end_mark: Option<Mark>) -> CollectionStartEvent {
    CollectionStartEvent {
        node: NodeEvent { event: Event { start_mark, end_mark } },
        tag: None,
        implicit: true,
        flow_style: Some(true),
    }
}

/// Parsing a node: a scalar, or the start of a sequence or a mapping.
/// Anything else gives the end of the stream and leaves all as it was.
pub open spec fn node_step(state: State, states: Seq<State>, marks: Seq<Option<Mark>>, p: Seq<AnyToken>) -> Step {
    let start_mark = if p.len() > 0 { p[0].start_mark_of() } else { None };
    if head_is(p, TokenKind::Scalar) {
        (scalar_event_of(start_mark, p[0]), top_state(states), without_last(states), marks, p.drop_first())
    } else if head_is(p, TokenKind::FlowSequenceStart) {
        (
            AnyEvent::SequenceStart(SequenceStartEvent { collection: flow_collection_start(start_mark, p[0].end_mark_of()) }),
            State::FlowSequenceFirstEntry,
            states,
            marks,
            p,
        )
    } else if head_is(p, TokenKind::FlowMappingStart) {
        (
            AnyEvent::MappingStart(MappingStartEvent { collection: flow_collection_start(start_mark, p[0].end_mark_of()) }),
            State::FlowMappingFirstKey,
            states,
            marks,
            p,
        )
    } else {
        (AnyEvent::StreamEnd, state, states, marks, p)
    }
}

/// Closing a flow collection: the closing token is taken, the state and the
/// mark saved when it opened are popped.
pub open spec fn close_step(event: AnyEvent, states: Seq<State>, marks: Seq<Option<Mark>>, p: Seq<AnyToken>) -> Step {
    (event, top_state(states), without_last(states), without_last(marks), p.drop_first())
}

/// Parsing the next entry of a flow sequence, or its end.
pub open spec fn sequence_entry_step(first: bool, state: State, states: Seq<State>, marks: Seq<Option<Mark>>, p: Seq<AnyToken>) -> Step {
    if !head_is(p, TokenKind::FlowSequenceEnd) {
        if !first && !head_is(p, TokenKind::FlowEntry) {
            (AnyEvent::SequenceEnd, state, states, marks, p)
        } else {
            let q = if first { p } else { p.drop_first() };
            if !head_is(q, TokenKind::FlowSequenceEnd) {
                node_step(state, states.push(State::FlowSequenceEntry), marks, q)
            } else {
                close_step(AnyEvent::SequenceEnd, states, marks, q)
            }
        }
    } else {
        close_step(AnyEvent::SequenceEnd, states, marks, p)
    }
}

/// Parsing the next key of a flow mapping, or its end.
pub open spec fn mapping_key_step(first: bool, state: State, states: Seq<State>, marks: Seq<Option<Mark>>, p: Seq<AnyToken>) -> Step {
    if !head_is(p, TokenKind::FlowMappingEnd) {
        if !first && !head_is(p, TokenKind::FlowEntry) {
            (AnyEvent::MappingEnd, state, states, marks, p)
        } else {
            let q = if first { p } else { p.drop_first() };
            if head_is(q, TokenKind::Key) {
                let r = q.drop_first();
                if !head_in(r, seq![TokenKind::Value, TokenKind::FlowEntry, TokenKind::FlowMappingEnd]) {
                    node_step(state, states.push(State::FlowMappingValue), marks, r)
                } else {
                    close_step(AnyEvent::MappingEnd, states, marks, r)
                }
            } else if !head_is(q, TokenKind::FlowMappingEnd) {
                (AnyEvent::MappingEnd, state, states, marks, q)
            } else {
                close_step(AnyEvent::MappingEnd, states, marks, q)
            }
        }
    } else {
        close_step(AnyEvent::MappingEnd, states, marks, p)
    }
}

/// Parsing the value of a flow mapping's entry.
pub open spec fn mapping_value_step(state: State, states: Seq<State>, marks: Seq<Option<Mark>>, p: Seq<AnyToken>) -> Step {
    if head_is(p, TokenKind::Value) {
        let q = p.drop_first();
        if !head_in(q, seq![TokenKind::FlowEntry, TokenKind::FlowMappingEnd]) {
            node_step(state, states.push(State::FlowMappingKey), marks, q)
        } else {
            (AnyEvent::MappingEnd, state, states, marks, q)
        }
    } else {
        (AnyEvent::MappingEnd, state, states, marks, p)
    }
}

/// Parsing the end of the stream: the end token is taken and parsing is
/// done; any other token gives the end of the stream and is left in place.
pub open spec fn document_start_step(state: State, states: Seq<State>, marks: Seq<Option<Mark>>, p: Seq<AnyToken>) -> Step {
    if !head_is(p, TokenKind::StreamEnd) {
        (AnyEvent::StreamEnd, state, states, marks, p)
    } else {
        (AnyEvent::StreamEnd, State::Done, states, marks, p.drop_first())
    }
}

/// The step that `state` names, on the stacks `states` and `marks` and the
/// tokens `p`.
pub open spec fn step(state: State, states: Seq<State>, marks: Seq<Option<Mark>>, p: Seq<AnyToken>) -> Step {
    match state {
        State::StreamStart => (AnyEvent::StreamStart, State::ImplicitDocumentStart, states, marks, p.drop_first()),
        State::ImplicitDocumentStart => if !head_is(p, TokenKind::StreamEnd) {
            (AnyEvent::DocumentStart, State::Node, states.push(State::DocumentEnd), marks, p)
        } else {
            document_start_step(state, states, marks, p)
        },
        State::DocumentStart => document_start_step(state, states, marks, p),
        State::DocumentEnd => (AnyEvent::DocumentEnd, State::DocumentStart, states, marks, p),
        State::DocumentContent => node_step(state, states, marks, p),
        State::Node => node_step(state, states, marks, p),
        State::FlowSequenceFirstEntry => sequence_entry_step(true, state, states, marks.push(p[0].start_mark_of()), p.drop_first()),
        State::FlowSequenceEntry => sequence_entry_step(false, state, states, marks, p),
        State::FlowSequenceEntryMappingEnd => (AnyEvent::MappingEnd, State::FlowSequenceEntry, states, marks, p),
        State::FlowMappingFirstKey => mapping_key_step(true, state, states, marks.push(p[0].start_mark_of()), p.drop_first()),
        State::FlowMappingKey => mapping_key_step(false, state, states, marks, p),
        State::FlowMappingValue => mapping_value_step(state, states, marks, p),
        State::Done => (AnyEvent::StreamEnd, State::Done, states, marks, p),
    }
}

/// The parser's state between calls.
#[derive(Debug)]
pub struct Parser {
    pub current_event: Option<AnyEvent>,
    pub yaml_version: Option<String>,
    pub states: Vec<State>,
    pub marks: Vec<Option<Mark>>,
    pub state: State,
}

/// Whether `after` is `before` having taken step `s`, emitting `ev` and
/// leaving the tokens `left`.
pub open spec fn took(before: Parser, after: Parser, ev: AnyEvent, left: Seq<AnyToken>, s: Step) -> bool {
    &&& ev == s.0
    &&& after.state == s.1
    &&& after.states@ == s.2
    &&& after.marks@ == s.3
    &&& left == s.4
    &&& after.current_event == before.current_event
    &&& after.yaml_version == before.yaml_version
}

impl Parser {
    /// A parser at the start of a stream.
    pub fn new() -> (r: Self)
        ensures
            r.current_event is None,
            r.yaml_version is None,
            r.states@ == Seq::<State>::empty(),
            r.marks@ == Seq::<Option<Mark>>::empty(),
            r.state == State::StreamStart,
    {
        Parser { current_event: None, yaml_version: None, states: Vec::new(), marks: Vec::new(), state: State::StreamStart }
    }

    /// Whether a call can take its step on the tokens `p`: a state that takes
    /// a token first needs one to be there.
    pub open spec fn can_step(&self, p: Seq<AnyToken>) -> bool {
        self.current_event is None && takes_token(self.state) ==> p.len() > 0
    }

    /// The event that the next call has ready, its state and stacks, and the
    /// tokens left: the cached event if there is one, else the outcome of the
    /// step that the state names (none once parsing is done).
    pub open spec fn filled(&self, p: Seq<AnyToken>) -> (Option<AnyEvent>, State, Seq<State>, Seq<Option<Mark>>, Seq<AnyToken>) {
        if self.current_event is None && self.state != State::Done {
            let s = step(self.state, self.states@, self.marks@, p);
            (Some(s.0), s.1, s.2, s.3, s.4)
        } else {
            (self.current_event, self.state, self.states@, self.marks@, p)
        }
    }

    /// Whether `after` and the tokens `left` are what filling `before` from
    /// the tokens `p` gives.
    pub open spec fn filled_into(before: Parser, p: Seq<AnyToken>, after: Parser, left: Seq<AnyToken>) -> bool {
        let f = before.filled(p);
        &&& after.current_event == f.0
        &&& after.state == f.1
        &&& after.states@ == f.2
        &&& after.marks@ == f.3
        &&& left == f.4
        &&& after.yaml_version == before.yaml_version
    }

    /// Drops the stack of states and ends parsing.
    pub fn dispose(&mut self)
        ensures
            final(self).states@ == Seq::<State>::empty(),
            final(self).state == State::Done,
            final(self).marks@ == old(self).marks@,
            final(self).current_event == old(self).current_event,
            final(self).yaml_version == old(self).yaml_version,
    {
        self.states.clear();
        self.state = State::Done;
    }

    /// Whether the next event is of one of the kinds `choices` (of any kind,
    /// when `choices` is empty). The event is kept for the next call.
    pub fn check_event<S: TokenStream>(&mut self, scanner: &mut S, choices: &[EventKind]) -> (r: bool)
        requires
            old(self).can_step(old(scanner).pending()),
        ensures
            Parser::filled_into(*old(self), old(scanner).pending(), *final(self), final(scanner).pending()),
            r == (final(self).current_event matches Some(e) && (choices@.len() == 0 || choices@.contains(e.kind_of()))),
    {
        self.fill(scanner);
        match &self.current_event {
            Some(ev) => {
                if choices.len() == 0 {
                    true
                } else {
                    kind_listed(choices, ev.kind())
                }
            },
            None => false,
        }
    }

    /// The next event, kept for the next call.
    pub fn peek_event<S: TokenStream>(&mut self, scanner: &mut S) -> (r: Option<AnyEvent>)
        requires
            old(self).can_step(old(scanner).pending()),
        ensures
            Parser::filled_into(*old(self), old(scanner).pending(), *final(self), final(scanner).pending()),
            r == final(self).current_event,
    {
        self.fill(scanner);
        self.current_event.clone()
    }

    /// The next event, taken; the end of the stream once parsing is done.
    pub fn get_event<S: TokenStream>(&mut self, scanner: &mut S) -> (r: AnyEvent)
        requires
            old(self).can_step(old(scanner).pending()),
        ensures
            ({
                let f = old(self).filled(old(scanner).pending());
                &&& r == (match f.0 {
                    Some(e) => e,
                    None => AnyEvent::StreamEnd,
                })
                &&& final(self).current_event is None
                &&& final(self).state == f.1
                &&& final(self).states@ == f.2
                &&& final(self).marks@ == f.3
                &&& final(scanner).pending() == f.4
                &&& final(self).yaml_version == old(self).yaml_version
            }),
    {
        self.fill(scanner);
        match self.current_event.take() {
            Some(e) => e,
            None => AnyEvent::StreamEnd,
        }
    }

    /// Takes a step if no event is ready and parsing is not done.
    fn fill<S: TokenStream>(&mut self, scanner: &mut S)
        requires
            old(self).can_step(old(scanner).pending()),
        ensures
            Parser::filled_into(*old(self), old(scanner).pending(), *final(self), final(scanner).pending()),
    {
        if self.current_event.is_none() && self.state != State::Done {
            let ev = self.dispatch_state(scanner);
            self.current_event = Some(ev);
        }
    }

    /// Takes the step that the current state names.
    fn dispatch_state<S: TokenStream>(&mut self, scanner: &mut S) -> (ev: AnyEvent)
        requires
            takes_token(old(self).state) ==> old(scanner).pending().len() > 0,
        ensures
            took(*old(self), *final(self), ev, final(scanner).pending(), step(old(self).state, old(self).states@, old(self).marks@, old(scanner).pending())),
    {
        match self.state {
            State::StreamStart => self.parse_stream_start(scanner),
            State::ImplicitDocumentStart => self.parse_implicit_document_start(scanner),
            State::DocumentStart => self.parse_document_start(scanner),
            State::DocumentEnd => self.parse_document_end(scanner),
            State::DocumentContent => self.parse_node(scanner, false),
            State::Node => self.parse_node(scanner, false),
            State::FlowSequenceFirstEntry => self.parse_flow_sequence_first_entry(scanner),
            State::FlowSequenceEntry => self.parse_flow_sequence_entry(scanner, false),
            State::FlowSequenceEntryMappingEnd => self.parse_flow_sequence_entry_mapping_end(scanner),
            State::FlowMappingFirstKey => self.parse_flow_mapping_first_key(scanner),
            State::FlowMappingKey => self.parse_flow_mapping_key(scanner, false),
            State::FlowMappingValue => self.parse_flow_mapping_value(scanner),
            State::Done => AnyEvent::StreamEnd,
        }
    }

    fn parse_stream_start<S: TokenStream>(&mut self, scanner: &mut S) -> (ev: AnyEvent)
        requires
            old(scanner).pending().len() > 0,
        ensures
            took(*old(self), *final(self), ev, final(scanner).pending(), (AnyEvent::StreamStart, State::ImplicitDocumentStart, old(self).states@, old(self).marks@, old(scanner).pending().drop_first())),
    {
        let _token = scanner.get_token();
        self.state = State::ImplicitDocumentStart;
        AnyEvent::StreamStart
    }

    fn parse_implicit_document_start<S: TokenStream>(&mut self, scanner: &mut S) -> (ev: AnyEvent)
        requires
            old(self).state == State::ImplicitDocumentStart,
        ensures
            took(*old(self), *final(self), ev, final(scanner).pending(), step(State::ImplicitDocumentStart, old(self).states@, old(self).marks@, old(scanner).pending())),
    {
        if !scanner.check_token(&[TokenKind::StreamEnd]) {
            let _ = scanner.peek_token();
            self.states.push(State::DocumentEnd);
            self.state = State::Node;
            AnyEvent::DocumentStart
        } else {
            self.parse_document_start(scanner)
        }
    }

    fn parse_document_start<S: TokenStream>(&mut self, scanner: &mut S) -> (ev: AnyEvent)
        ensures
            took(*old(self), *final(self), ev, final(scanner).pending(), document_start_step(old(self).state, old(self).states@, old(self).marks@, old(scanner).pending())),
    {
        if !scanner.check_token(&[TokenKind::StreamEnd]) {
            let _ = scanner.peek_token();
            return AnyEvent::StreamEnd;
        }
        let _ = scanner.get_token();
        self.state = State::Done;
        AnyEvent::StreamEnd
    }

    fn parse_document_end<S: TokenStream>(&mut self, scanner: &mut S) -> (ev: AnyEvent)
        ensures
            took(*old(self), *final(self), ev, final(scanner).pending(), (AnyEvent::DocumentEnd, State::DocumentStart, old(self).states@, old(self).marks@, old(scanner).pending())),
    {
        let _ = scanner.peek_token();
        self.state = State::DocumentStart;
        AnyEvent::DocumentEnd
    }

    /// Parses a node: a scalar, or the start of a flow sequence or mapping;
    /// anything else gives the end of the stream and changes nothing.
    pub fn parse_node<S: TokenStream>(&mut self, scanner: &mut S, indentless_sequence: bool) -> (ev: AnyEvent)
        ensures
            took(*old(self), *final(self), ev, final(scanner).pending(), node_step(old(self).state, old(self).states@, old(self).marks@, old(scanner).pending())),
    {
        let start_mark = match scanner.peek_token() {
            Some(t) => t.token_start_mark(),
            None => None,
        };
        if scanner.check_token(&[TokenKind::Scalar]) {
            let token = scanner.get_token();
            match token {
                AnyToken::Scalar { end_mark, value, plain, style, .. } => {
                    self.state = match self.states.pop() {
                        Some(s) => s,
                        None => State::Done,
                    };
                    return AnyEvent::Scalar(ScalarEvent::new(plain, value, start_mark, end_mark, style));
                },
                _ => {
                    proof {
                        assert(false);
                    }
                    return AnyEvent::StreamEnd;
                },
            }
        }
        if scanner.check_token(&[TokenKind::FlowSequenceStart]) {
            let end_mark = match scanner.peek_token() {
                Some(t) => t.token_end_mark(),
                None => None,
            };
            self.state = State::FlowSequenceFirstEntry;
            return AnyEvent::SequenceStart(SequenceStartEvent::new(true, start_mark, end_mark, Some(true)));
        }
        if scanner.check_token(&[TokenKind::FlowMappingStart]) {
            let end_mark = match scanner.peek_token() {
                Some(t) => t.token_end_mark(),
                None => None,
            };
            self.state = State::FlowMappingFirstKey;
            return AnyEvent::MappingStart(MappingStartEvent::new(true, start_mark, end_mark, Some(true)));
        }
        AnyEvent::StreamEnd
    }

    fn parse_flow_sequence_first_entry<S: TokenStream>(&mut self, scanner: &mut S) -> (ev: AnyEvent)
        requires
            old(scanner).pending().len() > 0,
            old(self).state == State::FlowSequenceFirstEntry,
        ensures
            took(*old(self), *final(self), ev, final(scanner).pending(), step(State::FlowSequenceFirstEntry, old(self).states@, old(self).marks@, old(scanner).pending())),
    {
        let token = scanner.get_token();
        self.marks.push(token.token_start_mark());
        self.parse_flow_sequence_entry(scanner, true)
    }

    fn parse_flow_sequence_entry<S: TokenStream>(&mut self, scanner: &mut S, first: bool) -> (ev: AnyEvent)
        ensures
            took(*old(self), *final(self), ev, final(scanner).pending(), sequence_entry_step(first, old(self).state, old(self).states@, old(self).marks@, old(scanner).pending())),
    {
        if !scanner.check_token(&[TokenKind::FlowSequenceEnd]) {
            if !first {
                if scanner.check_token(&[TokenKind::FlowEntry]) {
                    let _ = scanner.get_token();
                } else {
                    return AnyEvent::SequenceEnd;
                }
            }
            if !scanner.check_token(&[TokenKind::FlowSequenceEnd]) {
                self.states.push(State::FlowSequenceEntry);
                return self.parse_node(scanner, false);
            }
        }
        let _ = scanner.get_token();
        self.state = match self.states.pop() {
            Some(s) => s,
            None => State::Done,
        };
        let _ = self.marks.pop();
        AnyEvent::SequenceEnd
    }

    fn parse_flow_sequence_entry_mapping_end<S: TokenStream>(&mut self, scanner: &mut S) -> (ev: AnyEvent)
        ensures
            took(*old(self), *final(self), ev, final(scanner).pending(), (AnyEvent::MappingEnd, State::FlowSequenceEntry, old(self).states@, old(self).marks@, old(scanner).pending())),
    {
        self.state = State::FlowSequenceEntry;
        let _ = scanner.peek_token();
        AnyEvent::MappingEnd
    }

    fn parse_flow_mapping_first_key<S: TokenStream>(&mut self, scanner: &mut S) -> (ev: AnyEvent)
        requires
            old(scanner).pending().len() > 0,
            old(self).state == State::FlowMappingFirstKey,
        ensures
            took(*old(self), *final(self), ev, final(scanner).pending(), step(State::FlowMappingFirstKey, old(self).states@, old(self).marks@, old(scanner).pending())),
    {
        let token = scanner.get_token();
        self.marks.push(token.token_start_mark());
        self.parse_flow_mapping_key(scanner, true)
    }

    fn parse_flow_mapping_key<S: TokenStream>(&mut self, scanner: &mut S, first: bool) -> (ev: AnyEvent)
        ensures
            took(*old(self), *final(self), ev, final(scanner).pending(), mapping_key_step(first, old(self).state, old(self).states@, old(self).marks@, old(scanner).pending())),
    {
        if !scanner.check_token(&[TokenKind::FlowMappingEnd]) {
            if !first {
                if scanner.check_token(&[TokenKind::FlowEntry]) {
                    let _ = scanner.get_token();
                } else {
                    return AnyEvent::MappingEnd;
                }
            }
            if scanner.check_token(&[TokenKind::Key]) {
                let _ = scanner.get_token();
                if !scanner.check_token(&[TokenKind::Value, TokenKind::FlowEntry, TokenKind::FlowMappingEnd]) {
                    self.states.push(State::FlowMappingValue);
                    return self.parse_node(scanner, false);
                }
            } else if !scanner.check_token(&[TokenKind::FlowMappingEnd]) {
                return AnyEvent::MappingEnd;
            }
        }
        let _ = scanner.get_token();
        self.state = match self.states.pop() {
            Some(s) => s,
            None => State::Done,
        };
        let _ = self.marks.pop();
        AnyEvent::MappingEnd
    }

    fn parse_flow_mapping_value<S: TokenStream>(&mut self, scanner: &mut S) -> (ev: AnyEvent)
        ensures
            took(*old(self), *final(self), ev, final(scanner).pending(), mapping_value_step(old(self).state, old(self).states@, old(self).marks@, old(scanner).pending())),
    {
        if scanner.check_token(&[TokenKind::Value]) {
            let _ = scanner.get_token();
            if !scanner.check_token(&[TokenKind::FlowEntry, TokenKind::FlowMappingEnd]) {
                self.states.push(State::FlowMappingKey);
                return self.parse_node(scanner, false);
            }
        }
        AnyEvent::MappingEnd
    }
}

/// Once parsing is done and no event is waiting, every call gives the end
/// of the stream, takes no token and leaves the parser as it is.
pub proof fn law_done_is_final(p: Parser, tokens: Seq<AnyToken>)
    requires
        p.current_event is None,
        p.state == State::Done,
    ensures
        p.can_step(tokens),
        p.filled(tokens) == (None::<AnyEvent>, State::Done, p.states@, p.marks@, tokens),
{
}

/// Looking at the next event does not use it up: once an event is ready,
/// asking again gives the same event and takes no further token.
pub proof fn law_peek_keeps_event(before: Parser, tokens: Seq<AnyToken>, after: Parser, left: Seq<AnyToken>)
    requires
        Parser::filled_into(before, tokens, after, left),
    ensures
        after.can_step(left),
        after.filled(left) == before.filled(tokens),
{
}

} // verus!
