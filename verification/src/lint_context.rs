//! The lint context: the path of keys that leads to the value being checked,
//! used to name that place in messages, and the list of themes a check
//! walks.

use vstd::prelude::*;
use crate::markedjson::json::{
    copy_value, is_json_null, json_member, json_member_of, json_members_view, json_null, json_object_entries, json_object_entries_of,
    json_string_of, json_string_text,
};
use crate::text::{join_seqs, join_strings, str_eq, string_from, string_views};

verus! {

/// A separator that joins the text of its items.
#[derive(Debug, Clone)]
pub struct JStr(pub String);

impl JStr {
    /// The items, with this separator between consecutive ones.
    pub fn join(&self, items: &Vec<String>) -> (r: String)
        ensures
            r@ == join_seqs(string_views(items@), self.0@),
    {
        join_strings(items, self.0.as_str())
    }
}

/// The separator of the keys in a context's path: `/`.
pub fn key_sep() -> (r: JStr)
    ensures
        r.0@ == "/"@,
{
    JStr(string_from("/"))
}

/// The keys of a context's entries, in order.
pub open spec fn entry_keys(entries: Seq<(String, serde_json::Value)>) -> Seq<Seq<char>> {
    entries.map_values(|e: (String, serde_json::Value)| e.0@)
}

/// Whether `after` is `before` with one entry added, keyed `key` and
/// holding `value`.
pub open spec fn entered(before: Seq<(String, serde_json::Value)>, after: Seq<(String, serde_json::Value)>, key: Seq<char>, value: serde_json::Value) -> bool {
    &&& after.len() == before.len() + 1
    &&& after.take(before.len() as int) == before
    &&& after.last().0@ == key
    &&& after.last().1 == value
}

/// The path of (key, value) entries that leads to the value being checked.
#[derive(Debug)]
pub struct Context(pub Vec<(String, serde_json::Value)>);

/// A copy of a list of entries.
fn copy_entries(entries: &Vec<(String, serde_json::Value)>) -> (r: Vec<(String, serde_json::Value)>)
    ensures
        r@ == entries@,
{
    let mut out: Vec<(String, serde_json::Value)> = Vec::new();
    let mut i: usize = 0;
    while i < entries.len()
        invariant
            i <= entries.len(),
            out@ == entries@.take(i as int),
        decreases entries.len() - i,
    {
        let k = entries[i].0.clone();
        let v = copy_value(&entries[i].1);
        out.push((k, v));
        i = i + 1;
        assert(out@ =~= entries@.take(i as int));
    }
    assert(entries@.take(entries.len() as int) =~= entries@);
    out
}

impl Context {
    /// The empty context.
    pub fn new() -> (r: Self)
        ensures
            r.0@ == Seq::<(String, serde_json::Value)>::empty(),
    {
        Context(Vec::new())
    }

    /// This context with one more entry; this one is left as it is.
    pub fn enter(&self, context_key: String, context_value: serde_json::Value) -> (r: Self)
        ensures
            r.0@ == self.0@.push((context_key, context_value)),
    {
        let mut entries = copy_entries(&self.0);
        entries.push((context_key, context_value));
        Context(entries)
    }

    /// The path of keys, joined by `/`.
    pub fn key(&self) -> (r: String)
        ensures
            r@ == join_seqs(entry_keys(self.0@), "/"@),
    {
        let mut keys: Vec<String> = Vec::new();
        let mut i: usize = 0;
        while i < self.0.len()
            invariant
                i <= self.0.len(),
                keys@.len() == i,
                forall|j: int| 0 <= j < i ==> #[trigger] keys@[j]@ == self.0@[j].0@,
            decreases self.0.len() - i,
        {
            let k = self.0[i].0.clone();
            keys.push(k);
            i = i + 1;
        }
        assert(string_views(keys@) =~= entry_keys(self.0@));
        key_sep().join(&keys)
    }

    /// This context entered at member `key` of the mapping `value`; where
    /// `value` has no such member, at null.
    pub fn enter_key(&self, value: &serde_json::Value, key: &str) -> (r: Self)
        ensures
            match json_member_of(*value, key@) {
                Some(m) => entered(self.0@, r.0@, key@, m),
                None => entered(self.0@, r.0@, key@, r.0@.last().1) && is_json_null(r.0@.last().1),
            },
    {
        let inner = match json_member(value, key) {
            Some(m) => m,
            None => json_null(),
        };
        let r = self.enter(string_from(key), inner);
        assert(r.0@.take(self.0@.len() as int) =~= self.0@);
        r
    }

    /// This context entered at the item `item`, named `name`.
    pub fn enter_item(&self, name: &str, item: &serde_json::Value) -> (r: Self)
        ensures
            entered(self.0@, r.0@, name@, *item),
    {
        let r = self.enter(string_from(name), copy_value(item));
        assert(r.0@.take(self.0@.len() as int) =~= self.0@);
        r
    }
}

/// Entering a context adds its key at the end of the path: after `/`
/// when the path was not empty.
pub proof fn law_key_extends(entries: Seq<(String, serde_json::Value)>, key: String, value: serde_json::Value)
    ensures
        join_seqs(entry_keys(entries.push((key, value))), "/"@) == if entries.len() == 0 {
            key@
        } else {
            join_seqs(entry_keys(entries), "/"@) + "/"@ + key@
        },
{
    let ks = entry_keys(entries.push((key, value)));
    assert(ks.drop_last() =~= entry_keys(entries));
    assert(ks.last() == key@);
    if entries.len() == 0 {
        assert(ks.len() == 1);
    }
}

/// What the theme checks read of the lint data: the kind of theme being
/// checked, its extension and name, the name of the extension's main theme,
/// and the theme configurations, per extension and for this extension,
/// each in the order of their names.
#[derive(Debug)]
pub struct ThemeLintData {
    pub theme_type: String,
    pub ext: String,
    pub theme: Option<String>,
    pub main_theme: Option<String>,
    pub theme_configs: Vec<(String, Vec<serde_json::Value>)>,
    pub ext_theme_configs: Vec<serde_json::Value>,
}

/// Every theme configuration, paired with its extension, extension by
/// extension.
pub open spec fn all_themes(tc: Seq<(String, Vec<serde_json::Value>)>) -> Seq<(Seq<char>, serde_json::Value)>
    decreases tc.len(),
{
    if tc.len() == 0 {
        Seq::empty()
    } else {
        all_themes(tc.drop_last()) + tc.last().1@.map_values(|v: serde_json::Value| (tc.last().0@, v))
    }
}

/// The themes `configs`, each paired with the extension `ext`.
pub open spec fn ext_themes(ext: Seq<char>, configs: Seq<serde_json::Value>) -> Seq<(Seq<char>, serde_json::Value)> {
    configs.map_values(|v: serde_json::Value| (ext, v))
}

/// The themes that a check walks: all of them for the top theme; those of
/// the extension for its main theme (or the theme named as the extension's
/// main one); else the theme that the context last entered.
pub open spec fn themes_to_check(data: ThemeLintData, context: Seq<(String, serde_json::Value)>) -> Seq<(Seq<char>, serde_json::Value)> {
    let is_main = data.theme is Some && data.main_theme is Some && data.theme->0@ == data.main_theme->0@;
    if data.theme_type@ == "top"@ {
        all_themes(data.theme_configs@)
    } else if data.theme_type@ == "main"@ || is_main {
        ext_themes(data.ext@, data.ext_theme_configs@)
    } else if context.len() == 0 {
        Seq::empty()
    } else {
        seq![(data.ext@, context.last().1)]
    }
}

/// The view of a list of (name, value) pairs.
pub open spec fn pair_views(v: Seq<(String, serde_json::Value)>) -> Seq<(Seq<char>, serde_json::Value)> {
    v.map_values(|e: (String, serde_json::Value)| (e.0@, e.1))
}

/// Appends each of `configs` to `out`, paired with `ext`.
fn push_themes(out: &mut Vec<(String, serde_json::Value)>, ext: &String, configs: &Vec<serde_json::Value>)
    ensures
        pair_views(final(out)@) == pair_views(old(out)@) + ext_themes(ext@, configs@),
{
    let ghost start = pair_views(out@);
    let mut i: usize = 0;
    while i < configs.len()
        invariant
            i <= configs.len(),
            pair_views(out@) == start + ext_themes(ext@, configs@.take(i as int)),
        decreases configs.len() - i,
    {
        let ghost before = out@;
        let e = ext.clone();
        let v = copy_value(&configs[i]);
        out.push((e, v));
        assert(out@ == before.push((e, v)));
        i = i + 1;
        let ghost lhs = pair_views(out@);
        let ghost rhs = start + ext_themes(ext@, configs@.take(i as int));
        assert(pair_views(before) == start + ext_themes(ext@, configs@.take(i - 1)));
        assert forall|j: int| 0 <= j < lhs.len() implies #[trigger] lhs[j] == rhs[j] by {
            if j < lhs.len() - 1 {
                assert(lhs[j] == pair_views(before)[j]);
            }
        }
        assert(lhs =~= rhs);
    }
    assert(configs@.take(configs.len() as int) =~= configs@);
}

/// The (extension, theme configuration) pairs that a theme check walks.
pub fn list_themes(data: &ThemeLintData, context: &Context) -> (r: Vec<(String, serde_json::Value)>)
    ensures
        pair_views(r@) == themes_to_check(*data, context.0@),
{
    proof {
        reveal_strlit("top");
        reveal_strlit("main");
    }
    let is_main_theme = match (&data.theme, &data.main_theme) {
        (Some(t), Some(m)) => str_eq(t.as_str(), m.as_str()),
        _ => false,
    };
    let mut out: Vec<(String, serde_json::Value)> = Vec::new();
    if str_eq(data.theme_type.as_str(), "top") {
        let mut i: usize = 0;
        while i < data.theme_configs.len()
            invariant
                i <= data.theme_configs.len(),
                pair_views(out@) == all_themes(data.theme_configs@.take(i as int)),
            decreases data.theme_configs.len() - i,
        {
            push_themes(&mut out, &data.theme_configs[i].0, &data.theme_configs[i].1);
            i = i + 1;
            assert(data.theme_configs@.take(i as int).drop_last() =~= data.theme_configs@.take(i - 1));
        }
        assert(data.theme_configs@.take(data.theme_configs.len() as int) =~= data.theme_configs@);
        out
    } else if str_eq(data.theme_type.as_str(), "main") || is_main_theme {
        push_themes(&mut out, &data.ext, &data.ext_theme_configs);
        assert(pair_views(out@) =~= ext_themes(data.ext@, data.ext_theme_configs@));
        out
    } else if context.0.len() == 0 {
        assert(pair_views(out@) =~= Seq::empty());
        out
    } else {
        let last = context.0.len() - 1;
        out.push((data.ext.clone(), copy_value(&context.0[last].1)));
        assert(pair_views(out@) =~= seq![(data.ext@, context.0@.last().1)]);
        out
    }
}


/// The member `key` of `v`, when there is a `v` and it has one.
pub open spec fn member_in(v: Option<serde_json::Value>, key: Seq<char>) -> Option<serde_json::Value> {
    match v {
        Some(x) => json_member_of(x, key),
        None => None,
    }
}

/// The text of `v`, when there is a `v` and it is a string.
pub open spec fn text_in(v: Option<serde_json::Value>) -> Option<Seq<char>> {
    match v {
        Some(x) => json_string_of(x),
        None => None,
    }
}

/// The text of `v`, or the empty text.
pub open spec fn text_or_empty(v: Option<serde_json::Value>) -> Seq<char> {
    match text_in(v) {
        Some(t) => t,
        None => Seq::empty(),
    }
}

/// The values of the members of `v`, when there is a `v` and it is an
/// object; none otherwise.
pub open spec fn values_in(v: Option<serde_json::Value>) -> Seq<serde_json::Value> {
    match v {
        Some(x) => match json_object_entries_of(x) {
            Some(ms) => ms.map_values(|m: (Seq<char>, serde_json::Value)| m.1),
            None => Seq::empty(),
        },
        None => Seq::empty(),
    }
}

/// The extensions of `ms` whose value is an object, each with the values of
/// that object's members.
pub open spec fn ext_theme_tables(ms: Seq<(Seq<char>, serde_json::Value)>) -> Seq<(Seq<char>, Seq<serde_json::Value>)>
    decreases ms.len(),
{
    if ms.len() == 0 {
        Seq::empty()
    } else {
        let rest = ext_theme_tables(ms.drop_last());
        let (k, v) = ms.last();
        if json_object_entries_of(v) is Some {
            rest.push((k, values_in(Some(v))))
        } else {
            rest
        }
    }
}

/// The per-extension theme tables as plain values.
pub open spec fn theme_tables_view(t: Seq<(String, Vec<serde_json::Value>)>) -> Seq<(Seq<char>, Seq<serde_json::Value>)> {
    t.map_values(|e: (String, Vec<serde_json::Value>)| (e.0@, e.1@))
}

/// The text of `v` if it is a string.
fn text_of(v: &Option<serde_json::Value>) -> (r: Option<String>)
    ensures
        match r {
            Some(t) => text_in(*v) == Some(t@),
            None => text_in(*v) is None,
        },
{
    match v {
        Some(x) => json_string_text(x),
        None => None,
    }
}

/// The member `key` of `v`, if there is a `v` and it has one.
fn member_of(v: &Option<serde_json::Value>, key: &str) -> (r: Option<serde_json::Value>)
    ensures
        r == member_in(*v, key@),
{
    match v {
        Some(x) => json_member(x, key),
        None => None,
    }
}

/// The values of the members of `v`, if it is an object.
fn values_of(v: &serde_json::Value) -> (r: Vec<serde_json::Value>)
    ensures
        r@ == values_in(Some(*v)),
{
    let mut out: Vec<serde_json::Value> = Vec::new();
    match json_object_entries(v) {
        Some(ms) => {
            let ghost mv = json_members_view(ms@);
            let mut i: usize = 0;
            while i < ms.len()
                invariant
                    i <= ms@.len(),
                    mv == json_members_view(ms@),
                    out@ == mv.map_values(|m: (Seq<char>, serde_json::Value)| m.1).take(i as int),
                decreases ms@.len() - i,
            {
                out.push(copy_value(&ms[i].1));
                i = i + 1;
                assert(out@ =~= mv.map_values(|m: (Seq<char>, serde_json::Value)| m.1).take(i as int));
            }
            assert(out@ =~= mv.map_values(|m: (Seq<char>, serde_json::Value)| m.1));
            out
        },
        None => out,
    }
}

/// What the theme checks read of the lint data `data`: its `theme_type`
/// and `ext` texts (empty when they are no text), its `theme` text, the
/// `theme` of its extension in `main_config` (`main_config.ext.<ext>.theme`),
/// the themes of each extension in `theme_configs` whose value is an object,
/// and the themes in `ext_theme_configs`.
pub fn theme_lint_data(data: &serde_json::Value) -> (r: ThemeLintData)
    ensures
        r.theme_type@ == text_or_empty(json_member_of(*data, "theme_type"@)),
        r.ext@ == text_or_empty(json_member_of(*data, "ext"@)),
        match r.theme {
            Some(t) => text_in(json_member_of(*data, "theme"@)) == Some(t@),
            None => text_in(json_member_of(*data, "theme"@)) is None,
        },
        match r.main_theme {
            Some(t) => text_in(member_in(member_in(member_in(json_member_of(*data, "main_config"@), "ext"@), r.ext@), "theme"@)) == Some(t@),
            None => text_in(member_in(member_in(member_in(json_member_of(*data, "main_config"@), "ext"@), r.ext@), "theme"@)) is None,
        },
        theme_tables_view(r.theme_configs@) == match json_member_of(*data, "theme_configs"@) {
            Some(tc) => match json_object_entries_of(tc) {
                Some(ms) => ext_theme_tables(ms),
                None => Seq::empty(),
            },
            None => Seq::empty(),
        },
        r.ext_theme_configs@ == values_in(json_member_of(*data, "ext_theme_configs"@)),
{
    let theme_type = match text_of(&json_member(data, "theme_type")) {
        Some(t) => t,
        None => string_from(""),
    };
    let ext = match text_of(&json_member(data, "ext")) {
        Some(t) => t,
        None => string_from(""),
    };
    proof {
        reveal_strlit("");
    }
    let theme = text_of(&json_member(data, "theme"));
    let main_config = json_member(data, "main_config");
    let exts = member_of(&main_config, "ext");
    let this_ext = member_of(&exts, ext.as_str());
    let main_theme = text_of(&member_of(&this_ext, "theme"));
    let mut theme_configs: Vec<(String, Vec<serde_json::Value>)> = Vec::new();
    let tc = json_member(data, "theme_configs");
    match &tc {
        Some(tcv) => match json_object_entries(tcv) {
            Some(ms) => {
                let ghost mv = json_members_view(ms@);
                let mut i: usize = 0;
                while i < ms.len()
                    invariant
                        i <= ms@.len(),
                        mv == json_members_view(ms@),
                        theme_tables_view(theme_configs@) == ext_theme_tables(mv.take(i as int)),
                    decreases ms@.len() - i,
                {
                    let ghost before = theme_configs@;
                    assert(mv.take(i + 1).drop_last() =~= mv.take(i as int));
                    assert(mv.take(i + 1).last() == mv[i as int]);
                    if json_object_entries(&ms[i].1).is_some() {
                        let vals = values_of(&ms[i].1);
                        theme_configs.push((ms[i].0.clone(), vals));
                        assert(theme_tables_view(theme_configs@) =~= theme_tables_view(before).push((ms@[i as int].0@, vals@)));
                    }
                    i = i + 1;
                }
                assert(mv.take(ms@.len() as int) =~= mv);
            },
            None => {
                assert(theme_tables_view(theme_configs@) =~= Seq::empty());
            },
        },
        None => {
            assert(theme_tables_view(theme_configs@) =~= Seq::empty());
        },
    }
    let ext_theme_configs = match json_member(data, "ext_theme_configs") {
        Some(v) => values_of(&v),
        None => Vec::new(),
    };
    ThemeLintData { theme_type, ext, theme, main_theme, theme_configs, ext_theme_configs }
}

} // verus!
