//! The tokens the scanner produces, each with its start and end marks.

use vstd::prelude::*;
use crate::markedjson::marks::Mark;

verus! {

/// The marks common to every token.
#[derive(Debug, Clone, PartialEq, Eq, Structural)]
pub struct Token {
    pub start_mark: Option<Mark>,
    pub end_mark: Option<Mark>,
}

impl Token {
    /// A token spanning the two marks.
    pub fn new(start_mark: Option<Mark>, end_mark: Option<Mark>) -> (r: Self)
        ensures
            r.start_mark == start_mark,
            r.end_mark == end_mark,
    {
        Token { start_mark, end_mark }
    }
}

/// The token for the start of the input, with the input's encoding.
#[derive(Debug, Clone)]
pub struct StreamStartToken {
    pub token: Token,
    pub encoding: Option<String>,
}

impl StreamStartToken {
    /// The token's display name.
    pub const ID: &'static str = "<stream start>";

    /// The token between two marks.
    pub fn new(start_mark: Option<Mark>, end_mark: Option<Mark>, encoding: Option<String>) -> (r: Self)
        ensures
            r.token == (Token { start_mark, end_mark }),
            r.encoding == encoding,
    {
        StreamStartToken { token: Token::new(start_mark, end_mark), encoding }
    }
}

/// The token for the end of the input.
#[derive(Debug, Clone, PartialEq, Eq, Structural)]
pub struct StreamEndToken {
    pub token: Token,
}

impl StreamEndToken {
    /// The token's display name.
    pub const ID: &'static str = "<stream end>";

    /// The token between two marks.
    pub fn new(start_mark: Option<Mark>, end_mark: Option<Mark>) -> (r: Self)
        ensures
            r.token == (Token { start_mark, end_mark }),
    {
        StreamEndToken { token: Token::new(start_mark, end_mark) }
    }
}

/// The token for `[`.
#[derive(Debug, Clone, PartialEq, Eq, Structural)]
pub struct FlowSequenceStartToken {
    pub token: Token,
}

impl FlowSequenceStartToken {
    /// The token's display name.
    pub const ID: &'static str = "[";

    /// The token between two marks.
    pub fn new(start_mark: Option<Mark>, end_mark: Option<Mark>) -> (r: Self)
        ensures
            r.token == (Token { start_mark, end_mark }),
    {
        FlowSequenceStartToken { token: Token::new(start_mark, end_mark) }
    }
}

/// The token for `{`.
#[derive(Debug, Clone, PartialEq, Eq, Structural)]
pub struct FlowMappingStartToken {
    pub token: Token,
}

impl FlowMappingStartToken {
    /// The token's display name.
    pub const ID: &'static str = "{";

    /// The token between two marks.
    pub fn new(start_mark: Option<Mark>, end_mark: Option<Mark>) -> (r: Self)
        ensures
            r.token == (Token { start_mark, end_mark }),
    {
        FlowMappingStartToken { token: Token::new(start_mark, end_mark) }
    }
}

/// The token for `]`.
#[derive(Debug, Clone, PartialEq, Eq, Structural)]
pub struct FlowSequenceEndToken {
    pub token: Token,
}

impl FlowSequenceEndToken {
    /// The token's display name.
    pub const ID: &'static str = "]";

    /// The token between two marks.
    pub fn new(start_mark: Option<Mark>, end_mark: Option<Mark>) -> (r: Self)
        ensures
            r.token == (Token { start_mark, end_mark }),
    {
        FlowSequenceEndToken { token: Token::new(start_mark, end_mark) }
    }
}

/// The token for `}`.
#[derive(Debug, Clone, PartialEq, Eq, Structural)]
pub struct FlowMappingEndToken {
    pub token: Token,
}

impl FlowMappingEndToken {
    /// The token's display name.
    pub const ID: &'static str = "}";

    /// The token between two marks.
    pub fn new(start_mark: Option<Mark>, end_mark: Option<Mark>) -> (r: Self)
        ensures
            r.token == (Token { start_mark, end_mark }),
    {
        FlowMappingEndToken { token: Token::new(start_mark, end_mark) }
    }
}

/// The token for a mapping key.
#[derive(Debug, Clone, PartialEq, Eq, Structural)]
pub struct KeyToken {
    pub token: Token,
}

impl KeyToken {
    /// The token's display name.
    pub const ID: &'static str = "?";

    /// The token between two marks.
    pub fn new(start_mark: Option<Mark>, end_mark: Option<Mark>) -> (r: Self)
        ensures
            r.token == (Token { start_mark, end_mark }),
    {
        KeyToken { token: Token::new(start_mark, end_mark) }
    }
}

/// The token for `:`.
#[derive(Debug, Clone, PartialEq, Eq, Structural)]
pub struct ValueToken {
    pub token: Token,
}

impl ValueToken {
    /// The token's display name.
    pub const ID: &'static str = ":";

    /// The token between two marks.
    pub fn new(start_mark: Option<Mark>, end_mark: Option<Mark>) -> (r: Self)
        ensures
            r.token == (Token { start_mark, end_mark }),
    {
        ValueToken { token: Token::new(start_mark, end_mark) }
    }
}

/// The token for `,`.
#[derive(Debug, Clone, PartialEq, Eq, Structural)]
pub struct FlowEntryToken {
    pub token: Token,
}

impl FlowEntryToken {
    /// The token's display name.
    pub const ID: &'static str = ",";

    /// The token between two marks.
    pub fn new(start_mark: Option<Mark>, end_mark: Option<Mark>) -> (r: Self)
        ensures
            r.token == (Token { start_mark, end_mark }),
    {
        FlowEntryToken { token: Token::new(start_mark, end_mark) }
    }
}

/// A scalar: its text, whether it was written plain, and its quoting style.
#[derive(Debug, Clone)]
pub struct ScalarToken {
    pub token: Token,
    pub value: String,
    pub plain: bool,
    pub style: Option<char>,
}

impl ScalarToken {
    /// The token's display name.
    pub const ID: &'static str = "<scalar>";

    /// The scalar token with the given text and style.
    pub fn new(value: &str, plain: bool, start_mark: Option<Mark>, end_mark: Option<Mark>, style: Option<char>) -> (r: Self)
        ensures
            r.token == (Token { start_mark, end_mark }),
            r.value@ == value@,
            r.plain == plain,
            r.style == style,
    {
        ScalarToken { token: Token::new(start_mark, end_mark), value: crate::text::string_from(value), plain, style }
    }
}

} // verus!
