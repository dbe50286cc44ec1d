//! The tags given to nodes by their kind.

use vstd::prelude::*;
use crate::markedjson::error::MarkedError;
use crate::regex_calls::{regex_is_match, regex_match};
use crate::text::{chars_of, string_from};

verus! {

/// The tag of a scalar node.
pub const DEFAULT_SCALAR_TAG: &'static str = "tag:yaml.org,2002:str";

/// The tag of a sequence node.
pub const DEFAULT_SEQUENCE_TAG: &'static str = "tag:yaml.org,2002:seq";

/// The tag of a mapping node.
pub const DEFAULT_MAPPING_TAG: &'static str = "tag:yaml.org,2002:map";

/// The kinds of node.
#[derive(Debug, Clone, Copy, PartialEq, Eq, Structural)]
pub enum NodeKind {
    Scalar,
    Sequence,
    Mapping,
}

/// An error met while resolving tags.
#[derive(Debug, Clone)]
pub struct ResolverError(pub MarkedError);

impl ResolverError {
    /// The error's message.
    pub fn to_string(&self) -> (r: String)
        ensures
            r@ == self.0.message@,
    {
        self.0.to_string()
    }
}

/// The pattern of the values tagged `bool`.
pub const BOOL_PATTERN: &'static str = "^(?:true|false)$";

/// The pattern of the values tagged `float`: a number with a fraction or
/// an exponent.
pub const FLOAT_PATTERN: &'static str = "^-?(?:0|[1-9]\\d*)(?:\\.\\d+(?:[eE][-+]?\\d+)?|[eE][-+]?\\d+)$";

/// The pattern of the values tagged `int`.
pub const INT_PATTERN: &'static str = "^(?:0|-?[1-9]\\d*)$";

/// The pattern of the value tagged `null`.
pub const NULL_PATTERN: &'static str = "^null$";

/// A registered implicit resolver as plain values: the first character of
/// the values it is tried for (`None`: every value), its tag and its
/// pattern.
pub open spec fn resolver_view(e: (Option<char>, String, String)) -> (Option<char>, Seq<char>, Seq<char>) {
    (e.0, e.1@, e.2@)
}

/// The registered implicit resolvers as plain values.
pub open spec fn resolvers_view(v: Seq<(Option<char>, String, String)>) -> Seq<(Option<char>, Seq<char>, Seq<char>)> {
    v.map_values(|e: (Option<char>, String, String)| resolver_view(e))
}

/// The resolvers that one registration adds: one for each of the first
/// characters, or one tried for every value when there are none.
pub open spec fn registrations(tag: Seq<char>, pattern: Seq<char>, first: Option<Seq<char>>) -> Seq<(Option<char>, Seq<char>, Seq<char>)> {
    match first {
        Some(cs) => cs.map_values(|c: char| (Some(c), tag, pattern)),
        None => seq![(None::<char>, tag, pattern)],
    }
}

/// The resolvers every resolver starts with: `bool`, `float`, `int` and
/// `null`, each for the characters its values can start with.
pub open spec fn default_resolvers() -> Seq<(Option<char>, Seq<char>, Seq<char>)> {
    registrations("tag:yaml.org,2002:bool"@, BOOL_PATTERN@, Some(seq!['y', 'Y', 'n', 'N', 't', 'T', 'f', 'F', 'o', 'O']))
        + registrations("tag:yaml.org,2002:float"@, FLOAT_PATTERN@, Some(seq!['-', '0', '1', '2', '3', '4', '5', '6', '7', '8', '9']))
        + registrations("tag:yaml.org,2002:int"@, INT_PATTERN@, Some(seq!['-', '0', '1', '2', '3', '4', '5', '6', '7', '8', '9']))
        + registrations("tag:yaml.org,2002:null"@, NULL_PATTERN@, Some(seq!['n']))
}

/// The tag of the first resolver registered for `key` whose pattern
/// matches `value`.
pub open spec fn first_matching(rs: Seq<(Option<char>, Seq<char>, Seq<char>)>, key: Option<char>, value: Seq<char>) -> Option<Seq<char>>
    decreases rs.len(),
{
    if rs.len() == 0 {
        None
    } else if rs[0].0 == key && regex_is_match(rs[0].2, value) {
        Some(rs[0].1)
    } else {
        first_matching(rs.drop_first(), key, value)
    }
}

/// The tag that `rs` gives a node of `kind` with `value`: for a plain
/// scalar, the first resolver registered for the value's first character
/// that matches, else the first one registered for every value that
/// matches, else the scalar tag; otherwise the default tag of the kind.
pub open spec fn resolved_tag(rs: Seq<(Option<char>, Seq<char>, Seq<char>)>, kind: NodeKind, value: Seq<char>, implicit: bool) -> Seq<char> {
    match kind {
        NodeKind::Scalar => if implicit {
            let by_first = if value.len() > 0 { first_matching(rs, Some(value[0]), value) } else { None };
            match by_first {
                Some(t) => t,
                None => match first_matching(rs, None, value) {
                    Some(t) => t,
                    None => DEFAULT_SCALAR_TAG@,
                },
            }
        } else {
            DEFAULT_SCALAR_TAG@
        },
        NodeKind::Sequence => DEFAULT_SEQUENCE_TAG@,
        NodeKind::Mapping => DEFAULT_MAPPING_TAG@,
    }
}

/// Gives the nodes of a document their implicit tags.
#[derive(Debug, Clone)]
pub struct BaseResolver {
    /// The registered implicit resolvers, in the order of registration:
    /// the first character of the values each is tried for (`None`:
    /// every value), its tag and the pattern a value must match.
    pub implicit_resolvers: Vec<(Option<char>, String, String)>,
}

impl BaseResolver {
    /// A resolver with the `bool`, `float`, `int` and `null` resolvers.
    pub fn new() -> (r: Self)
        ensures
            resolvers_view(r.implicit_resolvers@) == default_resolvers(),
    {
        let mut r = BaseResolver { implicit_resolvers: Vec::new() };
        r.register_defaults();
        r
    }

    /// Registers `tag` for the values that match `regexp`, tried for the
    /// values that start with one of `first`, or for every value when
    /// `first` is `None`.
    pub fn add_implicit_resolver(&mut self, tag: &str, regexp: &str, first: Option<&[char]>)
        ensures
            resolvers_view(final(self).implicit_resolvers@) == resolvers_view(old(self).implicit_resolvers@)
                + registrations(tag@, regexp@, match first { Some(cs) => Some(cs@), None => None }),
    {
        let ghost before = resolvers_view(self.implicit_resolvers@);
        match first {
            Some(cs) => {
                let mut i: usize = 0;
                while i < cs.len()
                    invariant
                        i <= cs@.len(),
                        resolvers_view(self.implicit_resolvers@) == before + registrations(tag@, regexp@, Some(cs@.take(i as int))),
                    decreases cs@.len() - i,
                {
                    let ghost prev = self.implicit_resolvers@;
                    self.implicit_resolvers.push((Some(cs[i]), string_from(tag), string_from(regexp)));
                    assert(cs@.take(i + 1) =~= cs@.take(i as int).push(cs@[i as int]));
                    assert(resolvers_view(self.implicit_resolvers@) =~= resolvers_view(prev).push((Some(cs@[i as int]), tag@, regexp@)));
                    assert(registrations(tag@, regexp@, Some(cs@.take(i + 1))) =~= registrations(tag@, regexp@, Some(cs@.take(i as int))).push((Some(cs@[i as int]), tag@, regexp@)));
                    i = i + 1;
                }
                assert(cs@.take(cs@.len() as int) =~= cs@);
            },
            None => {
                let ghost prev = self.implicit_resolvers@;
                self.implicit_resolvers.push((None, string_from(tag), string_from(regexp)));
                assert(resolvers_view(self.implicit_resolvers@) =~= resolvers_view(prev).push((None::<char>, tag@, regexp@)));
            },
        }
    }

    /// Registers the `bool`, `float`, `int` and `null` resolvers.
    fn register_defaults(&mut self)
        requires
            old(self).implicit_resolvers@.len() == 0,
        ensures
            resolvers_view(final(self).implicit_resolvers@) == default_resolvers(),
    {
        let bool_first: Vec<char> = vec!['y', 'Y', 'n', 'N', 't', 'T', 'f', 'F', 'o', 'O'];
        let number_first: Vec<char> = vec!['-', '0', '1', '2', '3', '4', '5', '6', '7', '8', '9'];
        let null_first: Vec<char> = vec!['n'];
        assert(resolvers_view(self.implicit_resolvers@) =~= Seq::empty());
        self.add_implicit_resolver("tag:yaml.org,2002:bool", BOOL_PATTERN, Some(bool_first.as_slice()));
        self.add_implicit_resolver("tag:yaml.org,2002:float", FLOAT_PATTERN, Some(number_first.as_slice()));
        self.add_implicit_resolver("tag:yaml.org,2002:int", INT_PATTERN, Some(number_first.as_slice()));
        self.add_implicit_resolver("tag:yaml.org,2002:null", NULL_PATTERN, Some(null_first.as_slice()));
        assert(bool_first@ =~= seq!['y', 'Y', 'n', 'N', 't', 'T', 'f', 'F', 'o', 'O']);
        assert(number_first@ =~= seq!['-', '0', '1', '2', '3', '4', '5', '6', '7', '8', '9']);
        assert(null_first@ =~= seq!['n']);
        assert(resolvers_view(self.implicit_resolvers@) =~= default_resolvers());
    }

    /// The tag of the first resolver registered for `key` whose pattern
    /// matches `value`.
    fn first_matching_tag(&self, key: Option<char>, value: &str) -> (r: Option<String>)
        ensures
            match r {
                Some(t) => first_matching(resolvers_view(self.implicit_resolvers@), key, value@) == Some(t@),
                None => first_matching(resolvers_view(self.implicit_resolvers@), key, value@) is None,
            },
    {
        let ghost rs = resolvers_view(self.implicit_resolvers@);
        let mut i: usize = 0;
        assert(rs.skip(0) =~= rs);
        while i < self.implicit_resolvers.len()
            invariant
                rs == resolvers_view(self.implicit_resolvers@),
                i <= rs.len(),
                first_matching(rs, key, value@) == first_matching(rs.skip(i as int), key, value@),
            decreases rs.len() - i,
        {
            let e = &self.implicit_resolvers[i];
            assert(rs.skip(i as int)[0] == resolver_view(self.implicit_resolvers@[i as int]));
            assert(rs.skip(i as int).drop_first() =~= rs.skip(i + 1));
            let same_key = match (e.0, key) {
                (Some(a), Some(b)) => a == b,
                (None, None) => true,
                _ => false,
            };
            if same_key && regex_match(e.2.as_str(), value) {
                return Some(string_from(e.1.as_str()));
            }
            i = i + 1;
        }
        None
    }

    /// The tag of a node of `kind` with `value`; `implicit_first` says
    /// whether a plain scalar's tag is resolved from its value.
    pub fn resolve(&self, kind: NodeKind, value: &str, implicit_first: bool) -> (r: String)
        ensures
            r@ == resolved_tag(resolvers_view(self.implicit_resolvers@), kind, value@, implicit_first),
    {
        match kind {
            NodeKind::Scalar => {
                if implicit_first {
                    let cs = chars_of(value);
                    if cs.len() > 0 {
                        match self.first_matching_tag(Some(cs[0]), value) {
                            Some(t) => return t,
                            None => {},
                        }
                    }
                    match self.first_matching_tag(None, value) {
                        Some(t) => t,
                        None => string_from(DEFAULT_SCALAR_TAG),
                    }
                } else {
                    string_from(DEFAULT_SCALAR_TAG)
                }
            },
            NodeKind::Sequence => string_from(DEFAULT_SEQUENCE_TAG),
            NodeKind::Mapping => string_from(DEFAULT_MAPPING_TAG),
        }
    }

    /// Steps into a child node; path resolvers are never registered, so
    /// there is nothing to track.
    pub fn descend_resolver(&self) {
    }

    /// Steps back out of a child node; nothing to track.
    pub fn ascend_resolver(&self) {
    }

    /// Whether a path resolver applies at the current node: with none
    /// registered, every check passes.
    pub fn check_resolver_prefix(&self) -> (r: bool)
        ensures
            r,
    {
        true
    }
}

} // verus!
