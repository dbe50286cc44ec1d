//! The specifications the lint checks configuration values against: a
//! builder that records what a value must be (its type, length, pattern,
//! the keys of an object and their own specifications), and the walks
//! that run checks over lists, tuples and objects.

use vstd::prelude::*;
use crate::json_value::{find_member, key_index, lemma_key_index, member_index, member_keys, JsonValue};
use crate::lint_config::{CheckResult, Cmp, SpecType};
use crate::markedjson::error::NON_PRINTABLE_PATTERN;
use crate::regex_calls::{has_non_printable, regex_match};
use crate::text::{str_eq, string_from};

verus! {

/// The type of a JSON value among those a specification can allow.
pub open spec fn type_of(v: JsonValue) -> SpecType {
    match v {
        JsonValue::Object(_) => SpecType::Dict,
        JsonValue::Array(_) => SpecType::List,
        JsonValue::Text(_) => SpecType::Unicode,
        JsonValue::Bool(_) => SpecType::Bool,
        JsonValue::Number(_) => SpecType::Float,
        JsonValue::Null => SpecType::Null,
    }
}

/// Passes when the value's type is one of `types`, fails otherwise.
pub fn check_type(value: &JsonValue, types: &[SpecType]) -> (r: CheckResult)
    ensures
        r == (if types@.contains(type_of(*value)) {
            CheckResult { proceed: true, hadproblem: false }
        } else {
            CheckResult { proceed: false, hadproblem: true }
        }),
{
    let actual = match value {
        JsonValue::Object(_) => SpecType::Dict,
        JsonValue::Array(_) => SpecType::List,
        JsonValue::Text(_) => SpecType::Unicode,
        JsonValue::Bool(_) => SpecType::Bool,
        JsonValue::Number(_) => SpecType::Float,
        JsonValue::Null => SpecType::Null,
    };
    let mut i: usize = 0;
    while i < types.len()
        invariant
            i <= types@.len(),
            actual == type_of(*value),
            forall|j: int| 0 <= j < i ==> types@[j] != actual,
        decreases types@.len() - i,
    {
        if types[i] == actual {
            return CheckResult::ok();
        }
        i = i + 1;
    }
    CheckResult::failed()
}

/// Whether some call of `check` on `item` may give a result that does not
/// go on.
pub open spec fn may_stop<F: Fn(&JsonValue) -> CheckResult>(check: F, item: JsonValue) -> bool {
    exists|x: CheckResult| call_ensures(check, (&item,), x) && !x.proceed
}

/// Whether some call of `check` on `item` may find a problem.
pub open spec fn may_fail<F: Fn(&JsonValue) -> CheckResult>(check: F, item: JsonValue) -> bool {
    exists|x: CheckResult| call_ensures(check, (&item,), x) && x.hadproblem
}

/// Whether some call of `check` on `item` may give a result that goes on.
pub open spec fn may_go_on<F: Fn(&JsonValue) -> CheckResult>(check: F, item: JsonValue) -> bool {
    exists|x: CheckResult| call_ensures(check, (&item,), x) && x.proceed
}

/// Whether some call of `check` on `item` may find no problem.
pub open spec fn may_pass<F: Fn(&JsonValue) -> CheckResult>(check: F, item: JsonValue) -> bool {
    exists|x: CheckResult| call_ensures(check, (&item,), x) && !x.hadproblem
}

/// Runs `item_check` on every item of `items`: goes on when every item
/// does, and finds a problem when any item does.
pub fn check_list<F: Fn(&JsonValue) -> CheckResult>(items: &[JsonValue], item_check: F) -> (r: CheckResult)
    requires
        forall|i: int| 0 <= i < items@.len() ==> call_requires(item_check, (&items@[i],)),
    ensures
        !r.proceed ==> exists|i: int| 0 <= i < items@.len() && #[trigger] may_stop(item_check, items@[i]),
        r.proceed ==> forall|i: int| 0 <= i < items@.len() ==> #[trigger] may_go_on(item_check, items@[i]),
        r.hadproblem ==> exists|i: int| 0 <= i < items@.len() && #[trigger] may_fail(item_check, items@[i]),
        !r.hadproblem ==> forall|i: int| 0 <= i < items@.len() ==> #[trigger] may_pass(item_check, items@[i]),
{
    let mut proceed = true;
    let mut had_problem = false;
    let mut i: usize = 0;
    while i < items.len()
        invariant
            i <= items@.len(),
            forall|j: int| 0 <= j < items@.len() ==> call_requires(item_check, (&items@[j],)),
            !proceed ==> exists|j: int| 0 <= j < i && #[trigger] may_stop(item_check, items@[j]),
            proceed ==> forall|j: int| 0 <= j < i ==> #[trigger] may_go_on(item_check, items@[j]),
            had_problem ==> exists|j: int| 0 <= j < i && #[trigger] may_fail(item_check, items@[j]),
            !had_problem ==> forall|j: int| 0 <= j < i ==> #[trigger] may_pass(item_check, items@[j]),
        decreases items@.len() - i,
    {
        let r = item_check(&items[i]);
        assert(call_ensures(item_check, (&items@[i as int],), r));
        proof {
            if r.proceed {
                assert(may_go_on(item_check, items@[i as int]));
            } else {
                assert(may_stop(item_check, items@[i as int]));
            }
            if r.hadproblem {
                assert(may_fail(item_check, items@[i as int]));
            } else {
                assert(may_pass(item_check, items@[i as int]));
            }
        }
        proceed = proceed && r.proceed;
        had_problem = had_problem || r.hadproblem;
        i = i + 1;
    }
    CheckResult { proceed, hadproblem: had_problem }
}

/// What a specification records, as plain values.
pub struct SpecView {
    pub specs: Seq<SpecView>,
    pub keys: Seq<(Seq<char>, SpecView)>,
    pub cmsg: Seq<char>,
    pub isoptional: bool,
    pub did_type: bool,
    pub allowed_types: Seq<SpecType>,
    pub regex: Option<Seq<char>>,
    pub oneof: Option<Seq<Seq<char>>>,
    pub len_constraint: Option<(Cmp, i64)>,
    pub cmp_constraint: Option<(Cmp, Seq<char>)>,
    pub unsigned_flag: bool,
    pub printable_flag: bool,
    pub ident_flag: bool,
    pub error_msg: Option<Seq<char>>,
}

/// What a JSON value must be for the lint to accept it.
pub struct Spec {
    /// The specifications of list items, tuple members and alternatives.
    pub specs: Vec<Spec>,
    /// The specifications of an object's known keys, in the order they were
    /// given.
    pub keys: Vec<(String, Spec)>,
    /// The context message shown with a problem.
    pub cmsg: String,
    pub isoptional: bool,
    pub did_type: bool,
    /// The types the value may have.
    pub allowed_types: Vec<SpecType>,
    /// A pattern the value must match.
    pub regex: Option<String>,
    /// The values the value must be one of.
    pub oneof: Option<Vec<String>>,
    /// A comparison the value's length must pass.
    pub len_constraint: Option<(Cmp, i64)>,
    /// A comparison the value must pass, against a number as it is
    /// written.
    pub cmp_constraint: Option<(Cmp, String)>,
    pub unsigned_flag: bool,
    pub printable_flag: bool,
    pub ident_flag: bool,
    pub error_msg: Option<String>,
}

/// An optional text as a plain value.
pub open spec fn opt_text(s: Option<String>) -> Option<Seq<char>> {
    match s {
        Some(t) => Some(t@),
        None => None,
    }
}

/// A specification as plain values.
pub open spec fn view_of_spec(s: Spec) -> SpecView
    decreases s, 1nat,
{
    SpecView {
        specs: specs_view(s.specs@),
        keys: keyed_specs_view(s.keys@),
        cmsg: s.cmsg@,
        isoptional: s.isoptional,
        did_type: s.did_type,
        allowed_types: s.allowed_types@,
        regex: opt_text(s.regex),
        oneof: match s.oneof {
            Some(v) => Some(crate::text::string_views(v@)),
            None => None,
        },
        len_constraint: s.len_constraint,
        cmp_constraint: match s.cmp_constraint {
            Some(c) => Some((c.0, c.1@)),
            None => None,
        },
        unsigned_flag: s.unsigned_flag,
        printable_flag: s.printable_flag,
        ident_flag: s.ident_flag,
        error_msg: opt_text(s.error_msg),
    }
}

/// A list of specifications as plain values.
pub open spec fn specs_view(s: Seq<Spec>) -> Seq<SpecView>
    decreases s, 0nat,
{
    if s.len() == 0 {
        Seq::empty()
    } else {
        specs_view(s.drop_last()).push(view_of_spec(s.last()))
    }
}

/// The specifications of keys as plain values.
pub open spec fn keyed_specs_view(s: Seq<(String, Spec)>) -> Seq<(Seq<char>, SpecView)>
    decreases s, 0nat,
{
    if s.len() == 0 {
        Seq::empty()
    } else {
        keyed_specs_view(s.drop_last()).push((s.last().0@, view_of_spec(s.last().1)))
    }
}

impl View for Spec {
    type V = SpecView;

    open spec fn view(&self) -> SpecView {
        view_of_spec(*self)
    }
}

/// The names of the keys that have specifications, in order.
pub open spec fn key_names(keys: Seq<(String, Spec)>) -> Seq<Seq<char>> {
    keys.map_values(|e: (String, Spec)| e.0@)
}

/// A specification that records nothing: no types, keys or checks, and
/// required.
pub open spec fn is_empty_spec(s: Spec) -> bool {
    &&& s.specs@.len() == 0
    &&& s.keys@.len() == 0
    &&& s.cmsg@.len() == 0
    &&& !s.isoptional
    &&& !s.did_type
    &&& s.allowed_types@.len() == 0
    &&& s.regex is None
    &&& s.oneof is None
    &&& s.len_constraint is None
    &&& s.cmp_constraint is None
    &&& !s.unsigned_flag
    &&& !s.printable_flag
    &&& !s.ident_flag
    &&& s.error_msg is None
}

/// A copy of a list of specifications.
fn copy_specs(whole: &Spec, v: &Vec<Spec>) -> (r: Vec<Spec>)
    requires
        whole.specs == *v,
    ensures
        specs_view(r@) == specs_view(v@),
    decreases whole, 0nat,
{
    let mut out: Vec<Spec> = Vec::new();
    let mut i: usize = 0;
    assert(v@.take(0) =~= Seq::<Spec>::empty());
    while i < v.len()
        invariant
            whole.specs == *v,
            i <= v@.len(),
            specs_view(out@) == specs_view(v@.take(i as int)),
        decreases v@.len() - i,
    {
        proof {
            vstd::std_specs::vec::axiom_vec_index_decreases(*v, i as int);
            assert(decreases_to!(*whole => whole.specs));
            assert(decreases_to!(*whole => v[i as int]));
        }
        let c = v[i].copy();
        let ghost before = out@;
        out.push(c);
        assert(out@.drop_last() =~= before);
        assert(v@.take(i + 1).drop_last() =~= v@.take(i as int));
        i = i + 1;
    }
    assert(v@.take(v@.len() as int) =~= v@);
    out
}

/// A copy of the specifications of keys.
fn copy_keyed_specs(whole: &Spec, v: &Vec<(String, Spec)>) -> (r: Vec<(String, Spec)>)
    requires
        whole.keys == *v,
    ensures
        keyed_specs_view(r@) == keyed_specs_view(v@),
    decreases whole, 0nat,
{
    let mut out: Vec<(String, Spec)> = Vec::new();
    let mut i: usize = 0;
    assert(v@.take(0) =~= Seq::<(String, Spec)>::empty());
    while i < v.len()
        invariant
            whole.keys == *v,
            i <= v@.len(),
            keyed_specs_view(out@) == keyed_specs_view(v@.take(i as int)),
        decreases v@.len() - i,
    {
        proof {
            vstd::std_specs::vec::axiom_vec_index_decreases(*v, i as int);
            assert(decreases_to!(*whole => whole.keys));
            assert(decreases_to!(*whole => v[i as int]));
            assert(decreases_to!(*whole => v[i as int].1));
        }
        let c = v[i].1.copy();
        let ghost before = out@;
        out.push((string_from(v[i].0.as_str()), c));
        assert(out@.drop_last() =~= before);
        assert(v@.take(i + 1).drop_last() =~= v@.take(i as int));
        i = i + 1;
    }
    assert(v@.take(v@.len() as int) =~= v@);
    out
}

/// A copy of a list of texts.
fn copy_texts(v: &Vec<String>) -> (r: Vec<String>)
    ensures
        crate::text::string_views(r@) == crate::text::string_views(v@),
{
    crate::text::copy_strings(v.as_slice())
}

/// A copy of an optional text.
fn copy_opt_text(s: &Option<String>) -> (r: Option<String>)
    ensures
        opt_text(r) == opt_text(*s),
{
    match s {
        Some(t) => Some(string_from(t.as_str())),
        None => None,
    }
}

impl Spec {
    /// A specification that records nothing yet.
    pub fn new() -> (r: Self)
        ensures
            is_empty_spec(r),
    {
        proof {
            reveal_strlit("");
        }
        Spec {
            specs: Vec::new(),
            keys: Vec::new(),
            cmsg: string_from(""),
            isoptional: false,
            did_type: false,
            allowed_types: Vec::new(),
            regex: None,
            oneof: None,
            len_constraint: None,
            cmp_constraint: None,
            unsigned_flag: false,
            printable_flag: false,
            ident_flag: false,
            error_msg: None,
        }
    }

    /// The specification with `spec` as that of the key `key`: the key
    /// keeps its place when it has one, else it is added at the end.
    pub fn update(self, key: &str, spec: Spec) -> (r: Self)
        ensures
            r == (Spec { keys: r.keys, ..self }),
            keyed_set(self.keys@, r.keys@, key@, spec),
    {
        let mut this = self;
        this.set(key, spec);
        this
    }

    /// The specification with the value marked optional.
    pub fn optional(self) -> (r: Self)
        ensures
            r == (Spec { isoptional: true, ..self }),
    {
        let mut this = self;
        this.isoptional = true;
        this
    }

    /// The specification with the value marked required.
    pub fn required(self) -> (r: Self)
        ensures
            r == (Spec { isoptional: false, ..self }),
    {
        let mut this = self;
        this.isoptional = false;
        this
    }

    /// The specification with `msg` as its context message.
    pub fn context_message(self, msg: &str) -> (r: Self)
        ensures
            r == (Spec { cmsg: r.cmsg, ..self }),
            r.cmsg@ == msg@,
    {
        let mut this = self;
        this.cmsg = string_from(msg);
        this
    }

    /// The specification with the value required to be printable.
    pub fn printable(self) -> (r: Self)
        ensures
            r == (Spec { printable_flag: true, ..self }),
    {
        let mut this = self;
        this.printable_flag = true;
        this
    }

    /// The specification with the value required to be unsigned.
    pub fn unsigned(self) -> (r: Self)
        ensures
            r == (Spec { unsigned_flag: true, ..self }),
    {
        let mut this = self;
        this.unsigned_flag = true;
        this
    }

    /// The specification with the value required to be an identifier:
    /// a letter or `_`, then letters, digits and `_`.
    pub fn ident(self) -> (r: Self)
        ensures
            r == (Spec { ident_flag: true, regex: r.regex, ..self }),
            opt_text(r.regex) == Some(IDENT_PATTERN@),
    {
        let mut this = self;
        this.ident_flag = true;
        this.regex = Some(string_from(IDENT_PATTERN));
        this
    }

    /// The specification with `types` added to the types the value may
    /// have.
    pub fn type_check(self, types: &[SpecType]) -> (r: Self)
        ensures
            r == (Spec { did_type: true, allowed_types: r.allowed_types, ..self }),
            r.allowed_types@ == self.allowed_types@ + types@,
    {
        let mut this = self;
        this.did_type = true;
        let mut i: usize = 0;
        let ghost before = this.allowed_types@;
        let ghost start = this;
        while i < types.len()
            invariant
                this == (Spec { allowed_types: this.allowed_types, ..start }),
                i <= types@.len(),
                this.allowed_types@ == before + types@.take(i as int),
            decreases types@.len() - i,
        {
            this.allowed_types.push(types[i]);
            assert(before + types@.take(i + 1) =~= (before + types@.take(i as int)).push(types@[i as int]));
            i = i + 1;
        }
        assert(types@.take(types@.len() as int) =~= types@);
        this
    }

    /// The specification with the value required to match `pattern`.
    pub fn regex(self, pattern: &str) -> (r: Self)
        ensures
            r == (Spec { regex: r.regex, ..self }),
            opt_text(r.regex) == Some(pattern@),
    {
        let mut this = self;
        this.regex = Some(string_from(pattern));
        this
    }

    /// The specification with the value required to be one of `values`.
    pub fn oneof(self, values: &[&str]) -> (r: Self)
        ensures
            r == (Spec { oneof: r.oneof, ..self }),
            r.oneof matches Some(v) && crate::text::string_views(v@) == crate::text::strs_view(values@),
    {
        let mut this = self;
        let mut v: Vec<String> = Vec::new();
        let mut i: usize = 0;
        while i < values.len()
            invariant
                i <= values@.len(),
                v@.len() == i,
                crate::text::string_views(v@) == crate::text::strs_view(values@.take(i as int)),
            decreases values@.len() - i,
        {
            let ghost prev = v@;
            let t = string_from(values[i]);
            assert(t@ == values@[i as int]@);
            v.push(t);
            assert(v@[i as int] == t);
            assert(crate::text::string_views(v@)[i as int] == t@);
            assert(crate::text::strs_view(values@.take(i + 1))[i as int] == values@[i as int]@);
            assert forall|j: int| 0 <= j < i + 1 implies #[trigger] crate::text::string_views(v@)[j] == crate::text::strs_view(values@.take(i + 1))[j] by {
                if j < i {
                    assert(crate::text::string_views(prev)[j] == crate::text::strs_view(values@.take(i as int))[j]);
                }
            }
            assert(crate::text::string_views(v@) =~= crate::text::strs_view(values@.take(i + 1)));
            i = i + 1;
        }
        assert(values@.take(values@.len() as int) =~= values@);
        this.oneof = Some(v);
        this
    }

    /// The specification with `msg` as the message of a problem.
    pub fn error(self, msg: &str) -> (r: Self)
        ensures
            r == (Spec { error_msg: r.error_msg, ..self }),
            opt_text(r.error_msg) == Some(msg@),
    {
        let mut this = self;
        this.error_msg = Some(string_from(msg));
        this
    }

    /// The specification with the value's length required to pass
    /// `comparison` against `value`.
    pub fn len(self, comparison: Cmp, value: i64) -> (r: Self)
        ensures
            r == (Spec { len_constraint: Some((comparison, value)), ..self }),
    {
        let mut this = self;
        this.len_constraint = Some((comparison, value));
        this
    }

    /// The specification with the value required to pass `comparison`
    /// against the number `value` (as it is written).
    pub fn cmp(self, comparison: Cmp, value: &str) -> (r: Self)
        ensures
            r == (Spec { cmp_constraint: r.cmp_constraint, ..self }),
            r.cmp_constraint matches Some(c) && c.0 == comparison && c.1@ == value@,
    {
        let mut this = self;
        this.cmp_constraint = Some((comparison, string_from(value)));
        this
    }

    /// The specification with the value required to be a list whose items
    /// match `item_spec`.
    pub fn list(self, item_spec: Spec) -> (r: Self)
        ensures
            r == (Spec { did_type: true, allowed_types: r.allowed_types, specs: r.specs, ..self }),
            r.allowed_types@ == self.allowed_types@.push(SpecType::List),
            r.specs@ == self.specs@.push(item_spec),
    {
        let mut this = self;
        this.allowed_types.push(SpecType::List);
        this.did_type = true;
        this.specs.push(item_spec);
        this
    }

    /// The specification with the value required to be a list whose items
    /// match `specs` one by one: as long as `specs` when none of them is
    /// optional, else at most that long.
    pub fn tuple(self, specs: Vec<Spec>) -> (r: Self)
        requires
            specs@.len() <= i64::MAX,
        ensures
            r == (Spec { did_type: true, allowed_types: r.allowed_types, specs: r.specs, len_constraint: r.len_constraint, ..self }),
            r.allowed_types@ == self.allowed_types@.push(SpecType::List),
            r.specs@ == self.specs@ + specs@,
            r.len_constraint == Some((
                if trailing_optional(specs@) == 0 { Cmp::Eq } else { Cmp::Le },
                specs@.len() as i64,
            )),
    {
        let mut this = self;
        this.allowed_types.push(SpecType::List);
        this.did_type = true;
        let max_len = specs.len();
        let mut min_len = max_len;
        while min_len > 0 && specs[min_len - 1].isoptional
            invariant
                min_len <= max_len == specs@.len(),
                forall|j: int| min_len <= j < max_len ==> (#[trigger] specs@[j]).isoptional,
            decreases min_len,
        {
            min_len = min_len - 1;
        }
        proof {
            lemma_trailing_optional(specs@, (max_len - min_len) as nat);
        }
        if max_len == min_len {
            this.len_constraint = Some((Cmp::Eq, max_len as i64));
        } else {
            this.len_constraint = Some((Cmp::Le, max_len as i64));
        }
        let ghost before = this.specs@;
        let ghost start = this;
        let mut rest = specs;
        let ghost all = rest@;
        let total: usize = rest.len();
        let mut i: usize = 0;
        assert(all.take(0) =~= Seq::<Spec>::empty());
        assert(all.skip(0) =~= all);
        while rest.len() > 0
            invariant
                this == (Spec { specs: this.specs, ..start }),
                i + rest@.len() == all.len(),
                all.len() == total,
                this.specs@ == before + all.take(i as int),
                rest@ == all.skip(i as int),
                i <= all.len(),
            decreases rest@.len(),
        {
            let s = rest.remove(0);
            this.specs.push(s);
            assert(before + all.take(i + 1) =~= (before + all.take(i as int)).push(all[i as int]));
            assert(rest@ =~= all.skip(i + 1));
            i = i + 1;
        }
        assert(all.take(all.len() as int) =~= all);
        this
    }

    /// The specification with `specs` as alternatives the value may match.
    pub fn either(self, specs: Vec<Spec>) -> (r: Self)
        ensures
            r == (Spec { specs: r.specs, ..self }),
            r.specs@ == self.specs@ + specs@,
    {
        let mut this = self;
        let ghost before = this.specs@;
        let ghost start = this;
        let mut rest = specs;
        let ghost all = rest@;
        let total: usize = rest.len();
        let mut i: usize = 0;
        assert(all.take(0) =~= Seq::<Spec>::empty());
        assert(all.skip(0) =~= all);
        while rest.len() > 0
            invariant
                this == (Spec { specs: this.specs, ..start }),
                i + rest@.len() == all.len(),
                all.len() == total,
                this.specs@ == before + all.take(i as int),
                rest@ == all.skip(i as int),
                i <= all.len(),
            decreases rest@.len(),
        {
            let s = rest.remove(0);
            this.specs.push(s);
            assert(before + all.take(i + 1) =~= (before + all.take(i as int)).push(all[i as int]));
            assert(rest@ =~= all.skip(i + 1));
            i = i + 1;
        }
        assert(all.take(all.len() as int) =~= all);
        this
    }

    /// The specification unchanged: the message for unknown keys is not
    /// kept.
    pub fn unknown_msg(self, msg: &str) -> (r: Self)
        ensures
            r == self,
    {
        self
    }

    /// The specification with `key_spec` and `value_spec` added for keys
    /// that have no specification of their own.
    pub fn unknown_spec(self, key_spec: Spec, value_spec: Spec) -> (r: Self)
        ensures
            r == (Spec { specs: r.specs, ..self }),
            r.specs@ == self.specs@.push(key_spec).push(value_spec),
    {
        let mut this = self;
        this.specs.push(key_spec);
        this.specs.push(value_spec);
        this
    }

    /// The specification with the check named `name` recorded in the
    /// place of the error message.
    pub fn func(self, name: &str) -> (r: Self)
        ensures
            r == (Spec { error_msg: r.error_msg, ..self }),
            opt_text(r.error_msg) == Some(name@),
    {
        let mut this = self;
        this.error_msg = Some(string_from(name));
        this
    }

    /// The specification of the key `key`, if it has one.
    pub fn get(&self, key: &str) -> (r: Option<&Spec>)
        ensures
            match key_index(key_names(self.keys@), key@) {
                Some(i) => r == Some(&self.keys@[i].1),
                None => r is None,
            },
    {
        proof {
            lemma_key_index(key_names(self.keys@), key@);
        }
        match find_key(&self.keys, key) {
            Some(i) => Some(&self.keys[i].1),
            None => None,
        }
    }

    /// Gives the key `key` the specification `spec`: the key keeps its
    /// place when it has one, else it is added at the end.
    pub fn set(&mut self, key: &str, spec: Spec)
        ensures
            *final(self) == (Spec { keys: final(self).keys, ..*old(self) }),
            keyed_set(old(self).keys@, final(self).keys@, key@, spec),
    {
        proof {
            lemma_key_index(key_names(self.keys@), key@);
        }
        match find_key(&self.keys, key) {
            Some(i) => {
                let ghost before = self.keys@;
                let (k, _old) = self.keys.remove(i);
                self.keys.insert(i, (k, spec));
                assert(self.keys@ =~= before.update(i as int, (before[i as int].0, spec)));
            },
            None => {
                self.keys.push((string_from(key), spec));
                assert(self.keys@.drop_last() =~= old(self).keys@);
            },
        }
    }

    /// Makes this specification a copy of `other`.
    pub fn _update(&mut self, other: &Spec)
        ensures
            final(self)@ == other@,
    {
        *self = other.copy();
    }

    /// Fails when `value` holds a character that is not printable (a
    /// control character other than tab, newline and carriage return, or
    /// DEL), passes otherwise.
    pub fn check_printable(value: &str) -> (r: CheckResult)
        ensures
            r == (if has_non_printable(value@) {
                CheckResult { proceed: false, hadproblem: true }
            } else {
                CheckResult { proceed: true, hadproblem: false }
            }),
    {
        if regex_match(NON_PRINTABLE_PATTERN, value) {
            CheckResult::failed()
        } else {
            CheckResult::ok()
        }
    }

    /// Runs `checks` in order until one does not go on: goes on when the
    /// last one run does (or none ran), and finds a problem when any of
    /// them does.
    pub fn match_checks<F: Fn() -> (bool, bool)>(checks: &[F]) -> (r: (bool, bool))
        requires
            forall|i: int| 0 <= i < checks@.len() ==> call_requires(#[trigger] checks@[i], ()),
        ensures
            exists|outs: Seq<(bool, bool)>| {
                &&& is_run(outs, checks@.len())
                &&& forall|i: int| 0 <= i < outs.len() ==> call_ensures(#[trigger] checks@[i], (), outs[i])
                &&& r == run_result(outs)
            },
    {
        let ghost mut outs: Seq<(bool, bool)> = Seq::empty();
        let mut hadproblem = false;
        let mut i: usize = 0;
        while i < checks.len()
            invariant
                i <= checks@.len(),
                forall|j: int| 0 <= j < checks@.len() ==> call_requires(#[trigger] checks@[j], ()),
                outs.len() == i,
                forall|j: int| 0 <= j < outs.len() ==> (#[trigger] outs[j]).0,
                forall|j: int| 0 <= j < outs.len() ==> call_ensures(#[trigger] checks@[j], (), outs[j]),
                hadproblem == any_problem(outs),
            decreases checks@.len() - i,
        {
            let (proceed, chadproblem) = (checks[i])();
            proof {
                let prev = outs;
                outs = outs.push((proceed, chadproblem));
                assert(outs.drop_last() =~= prev);
            }
            if chadproblem {
                hadproblem = true;
            }
            if !proceed {
                assert(is_run(outs, checks@.len()));
                assert((false, hadproblem) == run_result(outs));
                return (false, hadproblem);
            }
            i = i + 1;
        }
        assert(is_run(outs, checks@.len()));
        assert((true, hadproblem) == run_result(outs));
        (true, hadproblem)
    }

    /// Runs `func` on `value` and gives whether to go on and whether it
    /// found a problem.
    pub fn check_func<F: Fn(&str) -> (bool, bool, bool)>(value: &str, func: F) -> (r: (bool, bool))
        requires
            call_requires(func, (value,)),
        ensures
            exists|x: (bool, bool, bool)| call_ensures(func, (value,), x) && r == (x.0, x.2),
    {
        let (proceed, _echo, hadproblem) = func(value);
        (proceed, hadproblem)
    }

    /// Runs `match_one` on the items of `values` in order, each with the
    /// index of the specification it is checked against (from `start`, up
    /// to `end` and the number of specifications) and its own index, until
    /// one does not go on or the items or specifications run out.
    pub fn check_tuple<F: Fn(usize, usize, &JsonValue) -> (bool, bool)>(
        &self,
        values: &[JsonValue],
        start: usize,
        end: usize,
        match_one: F,
    ) -> (r: (bool, bool))
        requires
            forall|i: int| 0 <= i < tuple_pairs(values@.len(), start as nat, end as nat, self.specs@.len()) ==>
                call_requires(match_one, ((start + i) as usize, i as usize, &values@[i])),
        ensures
            exists|outs: Seq<(bool, bool)>| {
                &&& is_run(outs, tuple_pairs(values@.len(), start as nat, end as nat, self.specs@.len()))
                &&& forall|i: int| 0 <= i < outs.len() ==> call_ensures(match_one, ((start + i) as usize, i as usize, &values@[i]), #[trigger] outs[i])
                &&& r == run_result(outs)
            },
    {
        let limit: usize = if end < self.specs.len() { end } else { self.specs.len() };
        let n: usize = if limit > start { limit - start } else { 0 };
        let count: usize = if values.len() < n { values.len() } else { n };
        let ghost mut outs: Seq<(bool, bool)> = Seq::empty();
        let mut hadproblem = false;
        let mut i: usize = 0;
        while i < count
            invariant
                count == tuple_pairs(values@.len(), start as nat, end as nat, self.specs@.len()),
                count <= values@.len(),
                start + count <= usize::MAX,
                i <= count,
                forall|j: int| 0 <= j < count ==> call_requires(match_one, ((start + j) as usize, j as usize, &values@[j])),
                outs.len() == i,
                forall|j: int| 0 <= j < outs.len() ==> (#[trigger] outs[j]).0,
                forall|j: int| 0 <= j < outs.len() ==> call_ensures(match_one, ((start + j) as usize, j as usize, &values@[j]), #[trigger] outs[j]),
                hadproblem == any_problem(outs),
            decreases count - i,
        {
            let (proceed, ihadproblem) = match_one(start + i, i, &values[i]);
            proof {
                let prev = outs;
                outs = outs.push((proceed, ihadproblem));
                assert(outs.drop_last() =~= prev);
            }
            if ihadproblem {
                hadproblem = true;
            }
            if !proceed {
                assert(is_run(outs, count as nat));
                assert((false, hadproblem) == run_result(outs));
                return (false, hadproblem);
            }
            i = i + 1;
        }
        assert(is_run(outs, count as nat));
        assert((true, hadproblem) == run_result(outs));
        (true, hadproblem)
    }

    /// Runs `item_match` on the items of `values` in order, each with its
    /// index, until one does not go on.
    pub fn check_list_walk<F: Fn(usize, &JsonValue) -> (bool, bool)>(values: &[JsonValue], item_match: F) -> (r: (bool, bool))
        requires
            forall|i: int| 0 <= i < values@.len() ==> call_requires(item_match, (i as usize, &values@[i])),
        ensures
            exists|outs: Seq<(bool, bool)>| {
                &&& is_run(outs, values@.len())
                &&& forall|i: int| 0 <= i < outs.len() ==> call_ensures(item_match, (i as usize, &values@[i]), #[trigger] outs[i])
                &&& r == run_result(outs)
            },
    {
        let ghost mut outs: Seq<(bool, bool)> = Seq::empty();
        let mut hadproblem = false;
        let mut i: usize = 0;
        while i < values.len()
            invariant
                i <= values@.len(),
                forall|j: int| 0 <= j < values@.len() ==> call_requires(item_match, (j as usize, &values@[j])),
                outs.len() == i,
                forall|j: int| 0 <= j < outs.len() ==> (#[trigger] outs[j]).0,
                forall|j: int| 0 <= j < outs.len() ==> call_ensures(item_match, (j as usize, &values@[j]), #[trigger] outs[j]),
                hadproblem == any_problem(outs),
            decreases values@.len() - i,
        {
            let (proceed, ihadproblem) = item_match(i, &values[i]);
            proof {
                let prev = outs;
                outs = outs.push((proceed, ihadproblem));
                assert(outs.drop_last() =~= prev);
            }
            if ihadproblem {
                hadproblem = true;
            }
            if !proceed {
                assert(is_run(outs, values@.len()));
                assert((false, hadproblem) == run_result(outs));
                return (false, hadproblem);
            }
            i = i + 1;
        }
        assert(is_run(outs, values@.len()));
        assert((true, hadproblem) == run_result(outs));
        (true, hadproblem)
    }

    /// Runs `match_top_checks` on `value`; when that goes on and `value`
    /// is an object and the specification has keys, runs `match_key` on
    /// each key with a specification that `value` has, in the order the
    /// keys were given, until one does not go on. A required key that
    /// `value` lacks is a problem.
    pub fn match_dispatch<TC: Fn(&JsonValue) -> (bool, bool), KM: Fn(&str, &JsonValue) -> (bool, bool)>(
        &self,
        value: &JsonValue,
        match_top_checks: TC,
        match_key: KM,
    ) -> (r: (bool, bool))
        requires
            call_requires(match_top_checks, (value,)),
            forall|k: &str, v: &JsonValue| call_requires(match_key, (k, v)),
        ensures
            exists|top: (bool, bool), outs: Seq<(bool, bool)>|
                call_ensures(match_top_checks, (value,), top) && #[trigger] dispatched(self.keys@, *value, match_key, top, outs, r),
    {
        let (proceed, top_problem) = match_top_checks(value);
        let ghost top = (proceed, top_problem);
        let ghost mut outs: Seq<(bool, bool)> = Seq::empty();
        if !proceed {
            assert(dispatched(self.keys@, *value, match_key, top, outs, (false, top_problem)));
            return (false, top_problem);
        }
        let mut hadproblem = top_problem;
        match value {
            JsonValue::Object(obj) => {
                if self.keys.len() == 0 {
                    assert(dispatched(self.keys@, *value, match_key, top, outs, (true, hadproblem)));
                    return (true, hadproblem);
                }
                let mut j: usize = 0;
                while j < self.keys.len()
                    invariant
                        *value == JsonValue::Object(*obj),
                        top == (true, top_problem),
                        call_ensures(match_top_checks, (value,), top),
                        self.keys@.len() > 0,
                        forall|k: &str, v: &JsonValue| call_requires(match_key, (k, v)),
                        j <= self.keys@.len(),
                        outs.len() == j,
                        forall|i: int| 0 <= i < outs.len() ==> (#[trigger] outs[i]).0,
                        forall|i: int| 0 <= i < outs.len() ==> #[trigger] key_outcome_ok(match_key, self.keys@[i].0@, self.keys@[i].1.isoptional, obj@, outs[i]),
                        hadproblem == (top_problem || any_problem(outs)),
                    decreases self.keys@.len() - j,
                {
                    let key = &self.keys[j];
                    let ghost prev = outs;
                    proof {
                        lemma_key_index(member_keys(obj@), key.0@);
                    }
                    match find_member(obj, key.0.as_str()) {
                        Some(i) => {
                            let (kproceed, khadproblem) = match_key(key.0.as_str(), &obj[i].1);
                            proof {
                                outs = outs.push((kproceed, khadproblem));
                                assert(outs.drop_last() =~= prev);
                                assert(key_outcome_ok(match_key, self.keys@[j as int].0@, self.keys@[j as int].1.isoptional, obj@, outs[j as int]));
                            }
                            if khadproblem {
                                hadproblem = true;
                            }
                            if !kproceed {
                                assert forall|q: int| 0 <= q < outs.len() - 1 implies (#[trigger] outs[q]).0 by {
                                    assert(outs[q] == prev[q]);
                                }
                                assert forall|q: int| 0 <= q < outs.len() implies #[trigger] key_outcome_ok(match_key, self.keys@[q].0@, self.keys@[q].1.isoptional, obj@, outs[q]) by {
                                    if q < prev.len() {
                                        assert(outs[q] == prev[q]);
                                    }
                                }
                                assert(is_run(outs, self.keys@.len()));
                                assert(dispatched(self.keys@, *value, match_key, top, outs, (false, hadproblem)));
                                return (false, hadproblem);
                            }
                        },
                        None => {
                            proof {
                                outs = outs.push((true, !key.1.isoptional));
                                assert(outs.drop_last() =~= prev);
                                assert(key_outcome_ok(match_key, self.keys@[j as int].0@, self.keys@[j as int].1.isoptional, obj@, outs[j as int]));
                            }
                            if !key.1.isoptional {
                                hadproblem = true;
                            }
                        },
                    }
                    j = j + 1;
                }
                assert(dispatched(self.keys@, *value, match_key, top, outs, (true, hadproblem)));
                (true, hadproblem)
            },
            _ => {
                assert(dispatched(self.keys@, *value, match_key, top, outs, (true, hadproblem)));
                (true, hadproblem)
            },
        }
    }

    /// A copy of the specification, with copies of the specifications it
    /// holds.
    pub fn copy(&self) -> (r: Spec)
        ensures
            r@ == self@,
        decreases self, 1nat,
    {
        let specs = copy_specs(self, &self.specs);
        let keys = copy_keyed_specs(self, &self.keys);
        let oneof = match &self.oneof {
            Some(v) => Some(copy_texts(v)),
            None => None,
        };
        let cmp_constraint = match &self.cmp_constraint {
            Some(c) => Some((c.0, string_from(c.1.as_str()))),
            None => None,
        };
        Spec {
            specs,
            keys,
            cmsg: string_from(self.cmsg.as_str()),
            isoptional: self.isoptional,
            did_type: self.did_type,
            allowed_types: crate::lint_spec::copy_types(&self.allowed_types),
            regex: copy_opt_text(&self.regex),
            oneof,
            len_constraint: self.len_constraint,
            cmp_constraint,
            unsigned_flag: self.unsigned_flag,
            printable_flag: self.printable_flag,
            ident_flag: self.ident_flag,
            error_msg: copy_opt_text(&self.error_msg),
        }
    }
}

/// A copy of a list of types.
fn copy_types(v: &Vec<SpecType>) -> (r: Vec<SpecType>)
    ensures
        r@ == v@,
{
    let mut out: Vec<SpecType> = Vec::new();
    let mut i: usize = 0;
    while i < v.len()
        invariant
            i <= v@.len(),
            out@ == v@.take(i as int),
        decreases v@.len() - i,
    {
        out.push(v[i]);
        assert(out@ =~= v@.take(i + 1));
        i = i + 1;
    }
    assert(v@.take(v@.len() as int) =~= v@);
    out
}

/// The pattern of an identifier.
pub const IDENT_PATTERN: &'static str = "^[a-zA-Z_]\\w*$";

/// How many specifications at the end of `specs` are optional.
pub open spec fn trailing_optional(specs: Seq<Spec>) -> nat
    decreases specs.len(),
{
    if specs.len() > 0 && specs.last().isoptional {
        1 + trailing_optional(specs.drop_last())
    } else {
        0
    }
}

/// When the last `n` specifications are optional and the one before them
/// (if any) is not, exactly `n` are optional at the end; when they are
/// optional, at least `n` are.
proof fn lemma_trailing_optional(specs: Seq<Spec>, n: nat)
    requires
        n <= specs.len(),
        forall|j: int| specs.len() - n <= j < specs.len() ==> (#[trigger] specs[j]).isoptional,
    ensures
        trailing_optional(specs) >= n,
        (n == specs.len() || !specs[specs.len() - n - 1].isoptional) ==> trailing_optional(specs) == n,
    decreases n,
{
    if n > 0 {
        assert forall|j: int| specs.drop_last().len() - (n - 1) <= j < specs.drop_last().len() implies (#[trigger] specs.drop_last()[j]).isoptional by {
            assert(specs.drop_last()[j] == specs[j]);
        }
        lemma_trailing_optional(specs.drop_last(), (n - 1) as nat);
        if n == specs.len() || !specs[specs.len() - n - 1].isoptional {
            if n - 1 < specs.drop_last().len() {
                assert(specs.drop_last()[specs.drop_last().len() - (n - 1) - 1] == specs[specs.len() - n - 1]);
            }
        }
    }
}

/// `after` is `before` with `key` given `spec`: the key keeps its place
/// when it has one, else it is added at the end.
pub open spec fn keyed_set(before: Seq<(String, Spec)>, after: Seq<(String, Spec)>, key: Seq<char>, spec: Spec) -> bool {
    match key_index(key_names(before), key) {
        Some(i) => after == before.update(i, (before[i].0, spec)),
        None => after.len() == before.len() + 1 && after.drop_last() == before && after.last().0@ == key && after.last().1 == spec,
    }
}

/// The index of the first key named `key`, if there is one.
fn find_key(keys: &Vec<(String, Spec)>, key: &str) -> (r: Option<usize>)
    ensures
        match r {
            Some(i) => key_index(key_names(keys@), key@) == Some(i as int),
            None => key_index(key_names(keys@), key@) is None,
        },
{
    let ghost names = key_names(keys@);
    let mut i: usize = 0;
    assert(names.skip(0) =~= names);
    while i < keys.len()
        invariant
            names == key_names(keys@),
            i <= keys@.len(),
            key_index(names, key@) == match key_index(names.skip(i as int), key@) {
                Some(j) => Some(j + i),
                None => None,
            },
        decreases keys@.len() - i,
    {
        assert(names.skip(i as int).drop_first() =~= names.skip(i + 1));
        assert(names.skip(i as int)[0] == keys@[i as int].0@);
        if str_eq(keys[i].0.as_str(), key) {
            return Some(i);
        }
        i = i + 1;
    }
    None
}

/// Checks run one after another over `n` candidates: each outcome but the
/// last goes on, and a run of fewer than `n` ends with one that does not.
pub open spec fn is_run(outs: Seq<(bool, bool)>, n: nat) -> bool {
    &&& outs.len() <= n
    &&& forall|i: int| 0 <= i < outs.len() - 1 ==> (#[trigger] outs[i]).0
    &&& outs.len() < n ==> outs.len() > 0 && !outs.last().0
}

/// Some outcome of the run found a problem.
pub open spec fn any_problem(outs: Seq<(bool, bool)>) -> bool
    decreases outs.len(),
{
    outs.len() > 0 && (any_problem(outs.drop_last()) || outs.last().1)
}

/// What a run gives: whether to go on (the last outcome does, or nothing
/// ran) and whether any outcome found a problem.
pub open spec fn run_result(outs: Seq<(bool, bool)>) -> (bool, bool) {
    (outs.len() == 0 || outs.last().0, any_problem(outs))
}

/// How many items a tuple check pairs with specifications: the items, and
/// the specifications from `start` up to `end` and the number there are.
pub open spec fn tuple_pairs(items: nat, start: nat, end: nat, specs: nat) -> nat {
    let limit = if end < specs { end } else { specs };
    let n: nat = if limit > start { (limit - start) as nat } else { 0 };
    if items < n { items } else { n }
}

/// The outcome of the check of one key: what `match_key` gave on the
/// key's value when the object has the key, else going on with a problem
/// exactly when the key is required.
pub open spec fn key_outcome_ok<KM: Fn(&str, &JsonValue) -> (bool, bool)>(
    match_key: KM,
    key: Seq<char>,
    optional: bool,
    obj: Seq<(String, JsonValue)>,
    out: (bool, bool),
) -> bool {
    match member_index(obj, key) {
        Some(i) => exists|k: &str| k@ == key && call_ensures(match_key, (k, &obj[i].1), out),
        None => out == (true, !optional),
    }
}

/// `r` is what dispatching gives after the top checks gave `top` and the
/// key checks gave `outs`: stop at once when the top checks stop; go on
/// with their problem when `value` is no object or there are no keys;
/// else the run of key checks, with a problem when the top checks or any
/// key check had one.
pub open spec fn dispatched<KM: Fn(&str, &JsonValue) -> (bool, bool)>(
    keys: Seq<(String, Spec)>,
    value: JsonValue,
    match_key: KM,
    top: (bool, bool),
    outs: Seq<(bool, bool)>,
    r: (bool, bool),
) -> bool {
    if !top.0 {
        r == (false, top.1)
    } else {
        match value {
            JsonValue::Object(obj) => if keys.len() == 0 {
                r == (true, top.1)
            } else {
                &&& is_run(outs, keys.len())
                &&& forall|j: int| 0 <= j < outs.len() ==> #[trigger] key_outcome_ok(match_key, keys[j].0@, keys[j].1.isoptional, obj@, outs[j])
                &&& r == (run_result(outs).0, top.1 || any_problem(outs))
            },
            _ => r == (true, top.1),
        }
    }
}

impl Default for Spec {
    fn default() -> (r: Self)
        ensures
            is_empty_spec(r),
    {
        Spec::new()
    }
}

} // verus!
