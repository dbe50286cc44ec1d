//! The common part of the configuration: every known key gets its default
//! value, a log file becomes a list of them, and `~` at the start of a
//! search path becomes the home directory.

use vstd::prelude::*;
use crate::powerline::get_default_theme;
use crate::json_value::{copy_members, items_view, json_view, keys_unique, member_keys, members_view, JsonValue, JsonView};
use crate::text::{append_chars, chars_of, slice_chars, str_eq, string_from, string_of};

verus! {

/// The keys that always get a value, in the order they get it.
pub open spec fn default_keys() -> Seq<Seq<char>> {
    seq![
        "default_top_theme"@,
        "paths"@,
        "watcher"@,
        "log_level"@,
        "log_format"@,
        "term_truecolor"@,
        "term_escape_style"@,
        "ambiwidth"@,
        "additional_escapes"@,
        "reload_config"@,
        "interval"@,
        "log_file"@,
    ]
}

/// `s` starts with `lower`, each of whose characters may also stand as
/// the one at the same place in `upper`.
pub open spec fn starts_with_either_case(s: Seq<char>, lower: Seq<char>, upper: Seq<char>) -> bool {
    s.len() >= lower.len() && forall|i: int| 0 <= i < lower.len() ==> (#[trigger] s[i] == lower[i] || s[i] == upper[i])
}

/// An encoding of Unicode: one whose name starts with `utf` or `ucs`, in
/// either case.
pub open spec fn is_unicode_encoding(encoding: Seq<char>) -> bool {
    starts_with_either_case(encoding, "utf"@, "UTF"@) || starts_with_either_case(encoding, "ucs"@, "UCS"@)
}

/// The default value of `key`.
pub open spec fn default_view(key: Seq<char>, unicode: bool) -> JsonView {
    if key == "default_top_theme"@ {
        JsonView::Text(if unicode { "powerline_terminus"@ } else { "ascii"@ })
    } else if key == "paths"@ {
        JsonView::Array(Seq::empty())
    } else if key == "watcher"@ || key == "term_escape_style"@ {
        JsonView::Text("auto"@)
    } else if key == "log_level"@ {
        JsonView::Text("WARNING"@)
    } else if key == "log_format"@ {
        JsonView::Text("%(asctime)s:%(levelname)s:%(message)s"@)
    } else if key == "term_truecolor"@ {
        JsonView::Bool(false)
    } else if key == "ambiwidth"@ {
        JsonView::Number("1"@)
    } else if key == "reload_config"@ {
        JsonView::Bool(true)
    } else if key == "log_file"@ {
        JsonView::Array(seq![JsonView::Null])
    } else {
        JsonView::Null
    }
}

/// A path with a leading `~` replaced by `home`.
pub open spec fn expanded_path(s: Seq<char>, home: Seq<char>) -> Seq<char> {
    if s.len() > 0 && s[0] == '~' {
        home + s.skip(1)
    } else {
        s
    }
}

/// An entry of `paths` once expanded: a text is expanded, anything else
/// stays.
pub open spec fn expanded_item(item: JsonView, home: Seq<char>) -> JsonView {
    match item {
        JsonView::Text(s) => JsonView::Text(expanded_path(s, home)),
        _ => item,
    }
}

/// The value of `key` once the configuration is finished: a `log_file`
/// that is no list becomes a list of one, the texts of a `paths` list are
/// expanded, and everything else stays.
pub open spec fn finished_view(key: Seq<char>, v: JsonView, home: Seq<char>) -> JsonView {
    if key == "log_file"@ {
        match v {
            JsonView::Array(_) => v,
            _ => JsonView::Array(seq![v]),
        }
    } else if key == "paths"@ {
        match v {
            JsonView::Array(items) => JsonView::Array(items.map_values(|it: JsonView| expanded_item(it, home))),
            _ => v,
        }
    } else {
        v
    }
}

/// The lengths and first characters of the keys, by which any two of
/// them differ.
proof fn lemma_key_literals()
    ensures
        "default_top_theme"@.len() == 17,
        "default_top_theme"@[0] == 'd',
        "paths"@.len() == 5,
        "paths"@[0] == 'p',
        "watcher"@.len() == 7,
        "watcher"@[0] == 'w',
        "log_level"@.len() == 9,
        "log_level"@[0] == 'l',
        "log_format"@.len() == 10,
        "log_format"@[0] == 'l',
        "term_truecolor"@.len() == 14,
        "term_truecolor"@[0] == 't',
        "term_escape_style"@.len() == 17,
        "term_escape_style"@[0] == 't',
        "ambiwidth"@.len() == 9,
        "ambiwidth"@[0] == 'a',
        "additional_escapes"@.len() == 18,
        "additional_escapes"@[0] == 'a',
        "reload_config"@.len() == 13,
        "reload_config"@[0] == 'r',
        "interval"@.len() == 8,
        "interval"@[0] == 'i',
        "log_file"@.len() == 8,
        "log_file"@[0] == 'l',
{
        reveal_strlit("default_top_theme");
        reveal_strlit("paths");
        reveal_strlit("watcher");
        reveal_strlit("log_level");
        reveal_strlit("log_format");
        reveal_strlit("term_truecolor");
        reveal_strlit("term_escape_style");
        reveal_strlit("ambiwidth");
        reveal_strlit("additional_escapes");
        reveal_strlit("reload_config");
        reveal_strlit("interval");
        reveal_strlit("log_file");
}

/// The keys of `keys` that `present` does not hold, in order.
pub open spec fn missing_keys(keys: Seq<Seq<char>>, present: Seq<Seq<char>>) -> Seq<Seq<char>>
    decreases keys.len(),
{
    if keys.len() == 0 {
        Seq::empty()
    } else {
        let init = missing_keys(keys.drop_last(), present);
        if present.contains(keys.last()) {
            init
        } else {
            init.push(keys.last())
        }
    }
}

/// A missing key is one of the keys.
proof fn lemma_missing_keys_from(keys: Seq<Seq<char>>, present: Seq<Seq<char>>, k: Seq<char>)
    requires
        missing_keys(keys, present).contains(k),
    ensures
        keys.contains(k),
    decreases keys.len(),
{
    if keys.len() > 0 {
        let init = missing_keys(keys.drop_last(), present);
        if init.contains(k) {
            lemma_missing_keys_from(keys.drop_last(), present, k);
            let i = choose|i: int| 0 <= i < keys.drop_last().len() && keys.drop_last()[i] == k;
            assert(keys[i] == k);
        } else {
            assert(k == keys.last());
            assert(keys[keys.len() - 1] == k);
        }
    }
}

/// No two of the default keys are the same.
proof fn lemma_default_keys_distinct()
    ensures
        default_keys().no_duplicates(),
{
    lemma_key_literals();
    let d = default_keys();
    assert forall|i: int, j: int| 0 <= i < d.len() && 0 <= j < d.len() && i != j implies d[i] != d[j] by {
        if d[i] == d[j] {
            assert(d[i].len() == d[j].len());
            assert(d[i][0] == d[j][0]);
        }
    }
}

/// Whether `key` is among the keys of `cfg`.
fn has_key(cfg: &Vec<(String, JsonValue)>, key: &str) -> (r: bool)
    ensures
        r == member_keys(cfg@).contains(key@),
{
    let mut i: usize = 0;
    while i < cfg.len()
        invariant
            i <= cfg@.len(),
            forall|j: int| 0 <= j < i ==> cfg@[j].0@ != key@,
        decreases cfg@.len() - i,
    {
        if str_eq(cfg[i].0.as_str(), key) {
            assert(member_keys(cfg@)[i as int] == key@);
            return true;
        }
        i = i + 1;
    }
    assert forall|j: int| 0 <= j < member_keys(cfg@).len() implies member_keys(cfg@)[j] != key@ by {}
    false
}

/// Whether `s` starts with `lower`, each of whose characters may also
/// stand as the one at the same place in `upper`.
fn starts_with_either(s: &str, lower: &str, upper: &str) -> (r: bool)
    requires
        upper@.len() == lower@.len(),
    ensures
        r == starts_with_either_case(s@, lower@, upper@),
{
    let sc = chars_of(s);
    let lc = chars_of(lower);
    let uc = chars_of(upper);
    if sc.len() < lc.len() {
        return false;
    }
    let mut i: usize = 0;
    while i < lc.len()
        invariant
            sc@ == s@,
            lc@ == lower@,
            uc@ == upper@,
            uc@.len() == lc@.len(),
            sc@.len() >= lc@.len(),
            i <= lc@.len(),
            forall|j: int| 0 <= j < i ==> (#[trigger] sc@[j] == lc@[j] || sc@[j] == uc@[j]),
        decreases lc@.len() - i,
    {
        if !(sc[i] == lc[i] || sc[i] == uc[i]) {
            return false;
        }
        i = i + 1;
    }
    true
}

/// The default of every key, in the order of `default_keys`.
fn default_entries(unicode: bool) -> (r: Vec<(String, JsonValue)>)
    ensures
        member_keys(r@) == default_keys(),
        forall|i: int| 0 <= i < r@.len() ==> (#[trigger] r@[i]).1@ == default_view(r@[i].0@, unicode),
{
    proof {
        lemma_key_literals();
    }
    let theme = get_default_theme(unicode);
    let mut r: Vec<(String, JsonValue)> = Vec::new();
    r.push((string_from("default_top_theme"), JsonValue::Text(string_from(theme))));
    let no_paths: Vec<JsonValue> = Vec::new();
    assert(items_view(no_paths@) =~= Seq::<JsonView>::empty());
    r.push((string_from("paths"), JsonValue::Array(no_paths)));
    r.push((string_from("watcher"), JsonValue::Text(string_from("auto"))));
    r.push((string_from("log_level"), JsonValue::Text(string_from("WARNING"))));
    r.push((string_from("log_format"), JsonValue::Text(string_from("%(asctime)s:%(levelname)s:%(message)s"))));
    r.push((string_from("term_truecolor"), JsonValue::Bool(false)));
    r.push((string_from("term_escape_style"), JsonValue::Text(string_from("auto"))));
    r.push((string_from("ambiwidth"), JsonValue::Number(string_from("1"))));
    r.push((string_from("additional_escapes"), JsonValue::Null));
    r.push((string_from("reload_config"), JsonValue::Bool(true)));
    r.push((string_from("interval"), JsonValue::Null));
    let mut log_files: Vec<JsonValue> = Vec::new();
    log_files.push(JsonValue::Null);
    r.push((string_from("log_file"), JsonValue::Array(log_files)));
    assert(log_files@ =~= seq![JsonValue::Null]);
    assert(log_files@.drop_last() =~= Seq::<JsonValue>::empty());
    assert(items_view(log_files@.drop_last()) =~= Seq::<JsonView>::empty());
    assert(json_view(JsonValue::Null) == JsonView::Null);
    assert(items_view(log_files@) =~= seq![JsonView::Null]);
    assert(member_keys(r@) =~= default_keys());
    assert forall|i: int| 0 <= i < r@.len() implies (#[trigger] r@[i]).1@ == default_view(r@[i].0@, unicode) by {
        assert(r@[i].0@ == default_keys()[i]);
    }
    r
}

/// A default value stays what it is when the configuration is finished.
proof fn lemma_default_stays(key: Seq<char>, home: Seq<char>, unicode: bool)
    ensures
        finished_view(key, default_view(key, unicode), home) == default_view(key, unicode),
{
    lemma_key_literals();
    assert(Seq::<JsonView>::empty().map_values(|it: JsonView| expanded_item(it, home)) =~= Seq::<JsonView>::empty());
}

/// `path` with a leading `~` replaced by `home`.
fn expand_user(path: &String, home: &str) -> (r: String)
    ensures
        r@ == expanded_path(path@, home@),
{
    let cs = chars_of(path.as_str());
    if cs.len() > 0 && cs[0] == '~' {
        let mut out = chars_of(home);
        let rest = slice_chars(&cs, 1, cs.len());
        append_chars(&mut out, &rest);
        assert(rest@ == path@.skip(1));
        string_of(&out)
    } else {
        string_from(path.as_str())
    }
}

/// The entries of a `paths` list, each text expanded.
fn expand_paths(items: Vec<JsonValue>, home: &str) -> (r: Vec<JsonValue>)
    ensures
        items_view(r@) == items_view(items@).map_values(|it: JsonView| expanded_item(it, home@)),
{
    let ghost orig = items@;
    let mut rest = items;
    let mut out: Vec<JsonValue> = Vec::new();
    assert(orig.take(0) =~= Seq::<JsonValue>::empty());
    assert(orig.skip(0) =~= orig);
    while rest.len() > 0
        invariant
            out@.len() + rest@.len() == orig.len(),
            rest@ == orig.skip(out@.len() as int),
            items_view(out@) == items_view(orig.take(out@.len() as int)).map_values(|it: JsonView| expanded_item(it, home@)),
        decreases rest@.len(),
    {
        let ghost at = out@.len() as int;
        let ghost before = out@;
        let item = rest.remove(0);
        assert(item == orig[at]);
        let finished = match item {
            JsonValue::Text(s) => JsonValue::Text(expand_user(&s, home)),
            other => other,
        };
        assert(finished@ == expanded_item(item@, home@));
        out.push(finished);
        assert(rest@ =~= orig.skip(out@.len() as int));
        assert(out@.drop_last() =~= before);
        assert(orig.take(at + 1).drop_last() =~= orig.take(at));
        assert(items_view(out@) =~= items_view(orig.take(at + 1)).map_values(|it: JsonView| expanded_item(it, home@)));
    }
    assert(orig.take(orig.len() as int) =~= orig);
    out
}

/// The value of `key` once the configuration is finished.
fn finish_value(key: &String, value: JsonValue, home: &str) -> (r: JsonValue)
    ensures
        r@ == finished_view(key@, value@, home@),
{
    if str_eq(key.as_str(), "log_file") {
        match value {
            JsonValue::Array(a) => JsonValue::Array(a),
            other => {
                let mut one: Vec<JsonValue> = Vec::new();
                one.push(other);
                assert(one@ =~= seq![other]);
                assert(one@.drop_last() =~= Seq::<JsonValue>::empty());
                assert(items_view(one@.drop_last()) =~= Seq::<JsonView>::empty());
                assert(items_view(one@) =~= seq![other@]);
                JsonValue::Array(one)
            },
        }
    } else if str_eq(key.as_str(), "paths") {
        match value {
            JsonValue::Array(items) => JsonValue::Array(expand_paths(items, home)),
            other => other,
        }
    } else {
        value
    }
}

/// The common configuration with every known key given a value: the keys
/// of `common_config` keep theirs, the others get their defaults, in
/// the order of `default_keys`, after them. Then a `log_file` that is no
/// list becomes a list of one, and `~` at the start of a text in `paths`
/// becomes `home`. The default top theme is `powerline_terminus` when
/// `encoding` names a Unicode encoding (`utf…` or `ucs…`, in either case),
/// else `ascii`.
pub fn finish_common_config(encoding: &str, common_config: &Vec<(String, JsonValue)>, home: &str) -> (r: Vec<(String, JsonValue)>)
    requires
        keys_unique(common_config@),
    ensures
        keys_unique(r@),
        r@.len() >= common_config@.len(),
        forall|i: int| 0 <= i < common_config@.len() ==> #[trigger] r@[i].0@ == common_config@[i].0@
            && r@[i].1@ == finished_view(r@[i].0@, common_config@[i].1@, home@),
        forall|k: Seq<char>| default_keys().contains(k) ==> member_keys(r@).contains(k),
        forall|j: int| common_config@.len() <= j < r@.len() ==> {
            &&& default_keys().contains(#[trigger] r@[j].0@)
            &&& !member_keys(common_config@).contains(r@[j].0@)
            &&& r@[j].1@ == default_view(r@[j].0@, is_unicode_encoding(encoding@))
        },
        member_keys(r@).skip(common_config@.len() as int) == missing_keys(default_keys(), member_keys(common_config@)),
{
    proof {
        reveal_strlit("utf");
        reveal_strlit("UTF");
        reveal_strlit("ucs");
        reveal_strlit("UCS");
    }
    let unicode = starts_with_either(encoding, "utf", "UTF") || starts_with_either(encoding, "ucs", "UCS");
    let mut cfg = copy_members(common_config);
    let ghost cc = cfg@;
    let ghost n_in = cfg@.len() as int;
    proof {
        lemma_same_members(common_config@, cc);
    }
    let mut defaults = default_entries(unicode);
    proof {
        lemma_default_keys_distinct();
        assert(member_keys(cfg@).skip(n_in) =~= Seq::<Seq<char>>::empty());
        assert(default_keys().take(0) =~= Seq::<Seq<char>>::empty());
    }
    while defaults.len() > 0
        invariant
            default_keys().no_duplicates(),
            member_keys(cfg@).skip(n_in) == missing_keys(default_keys().take(default_keys().len() - defaults@.len()), member_keys(cc)),
            unicode == is_unicode_encoding(encoding@),
            n_in == cc.len(),
            cfg@.len() >= n_in,
            cfg@.subrange(0, n_in) == cc,
            keys_unique(cfg@),
            defaults@.len() <= default_keys().len(),
            member_keys(defaults@) == default_keys().skip(default_keys().len() - defaults@.len()),
            forall|i: int| 0 <= i < defaults@.len() ==> (#[trigger] defaults@[i]).1@ == default_view(defaults@[i].0@, unicode),
            forall|k: Seq<char>| default_keys().take(default_keys().len() - defaults@.len()).contains(k) ==> member_keys(cfg@).contains(k),
            forall|j: int| n_in <= j < cfg@.len() ==> {
                &&& default_keys().contains(#[trigger] cfg@[j].0@)
                &&& !member_keys(cc).contains(cfg@[j].0@)
                &&& cfg@[j].1@ == default_view(cfg@[j].0@, unicode)
            },
        decreases defaults@.len(),
    {
        let ghost before = cfg@;
        let ghost done = default_keys().len() - defaults@.len();
        assert(member_keys(defaults@)[0] == default_keys()[done]);
        let ghost old_defaults = defaults@;
        let (k, v) = defaults.remove(0);
        assert(k@ == default_keys()[done]);
        assert forall|i: int| 0 <= i < defaults@.len() implies #[trigger] member_keys(defaults@)[i] == default_keys().skip(done + 1)[i] by {
            assert(defaults@[i] == old_defaults[i + 1]);
            assert(member_keys(old_defaults)[i + 1] == default_keys().skip(done)[i + 1]);
        }
        assert(member_keys(defaults@) =~= default_keys().skip(done + 1));
        assert forall|i: int| 0 <= i < defaults@.len() implies (#[trigger] defaults@[i]).1@ == default_view(defaults@[i].0@, unicode) by {
            assert(defaults@[i] == old_defaults[i + 1]);
        }
        let present = has_key(&cfg, k.as_str());
        proof {
            assert(default_keys().take(done + 1).drop_last() =~= default_keys().take(done));
            assert(default_keys().take(done + 1).last() == k@);
            if present && !member_keys(cc).contains(k@) {
                let j = choose|j: int| 0 <= j < member_keys(before).len() && member_keys(before)[j] == k@;
                if j < n_in {
                    assert(before.subrange(0, n_in)[j] == cc[j]);
                    assert(member_keys(cc)[j] == k@);
                } else {
                    assert(member_keys(before).skip(n_in)[j - n_in] == k@);
                    lemma_missing_keys_from(default_keys().take(done), member_keys(cc), k@);
                    let m = choose|m: int| 0 <= m < default_keys().take(done).len() && default_keys().take(done)[m] == k@;
                    assert(default_keys()[m] == default_keys()[done]);
                }
            }
        }
        if !present {
            cfg.push((k, v));
            assert(member_keys(cfg@) =~= member_keys(before).push(k@));
            assert(cfg@.subrange(0, n_in) =~= before.subrange(0, n_in));
            assert(!member_keys(cc).contains(k@)) by {
                if member_keys(cc).contains(k@) {
                    let i = choose|i: int| 0 <= i < member_keys(cc).len() && member_keys(cc)[i] == k@;
                    assert(before[i] == cc[i]);
                    assert(member_keys(before)[i] == k@);
                }
            }
            assert(member_keys(cfg@).skip(n_in) =~= member_keys(before).skip(n_in).push(k@));
        }
        assert forall|key: Seq<char>| default_keys().take(done + 1).contains(key) implies member_keys(cfg@).contains(key) by {
            let i = choose|i: int| 0 <= i < done + 1 && #[trigger] default_keys().take(done + 1)[i] == key;
            let had = if i < done {
                assert(default_keys().take(done)[i] == key);
                assert(default_keys().take(done).contains(key));
                true
            } else {
                present
            };
            if had {
                assert(member_keys(before).contains(key));
                let j = choose|j: int| 0 <= j < member_keys(before).len() && #[trigger] member_keys(before)[j] == key;
                if !present {
                    assert(cfg@[j] == before[j]);
                    assert(member_keys(cfg@)[j] == key);
                }
            } else {
                assert(member_keys(cfg@)[cfg@.len() - 1] == key);
            }
        }
    }
    let ghost d = cfg@;
    let mut out: Vec<(String, JsonValue)> = Vec::new();
    while cfg.len() > 0
        invariant
            out@.len() + cfg@.len() == d.len(),
            cfg@ == d.skip(out@.len() as int),
            forall|j: int| 0 <= j < out@.len() ==> (#[trigger] out@[j]).0 == d[j].0
                && out@[j].1@ == finished_view(d[j].0@, d[j].1@, home@),
        decreases cfg@.len(),
    {
        let ghost at = out@.len() as int;
        let (k, v) = cfg.remove(0);
        assert((k, v) == d[at]);
        let finished = finish_value(&k, v, home);
        out.push((k, finished));
        assert(cfg@ =~= d.skip(out@.len() as int));
    }
    assert(member_keys(out@) =~= member_keys(d)) by {
        assert forall|j: int| 0 <= j < d.len() implies member_keys(out@)[j] == member_keys(d)[j] by {
            assert(out@[j].0 == d[j].0);
        }
    }
    assert forall|i: int| 0 <= i < n_in implies #[trigger] out@[i].0@ == common_config@[i].0@
        && out@[i].1@ == finished_view(out@[i].0@, common_config@[i].1@, home@) by {
        assert(d.subrange(0, n_in)[i] == cc[i]);
        assert(out@[i].0 == d[i].0);
    }
    assert forall|j: int| n_in <= j < out@.len() implies {
        &&& default_keys().contains(#[trigger] out@[j].0@)
        &&& !member_keys(common_config@).contains(out@[j].0@)
        &&& out@[j].1@ == default_view(out@[j].0@, is_unicode_encoding(encoding@))
    } by {
        assert(out@[j].0 == d[j].0);
        lemma_default_stays(d[j].0@, home@, unicode);
    }
    assert forall|k: Seq<char>| default_keys().contains(k) implies member_keys(out@).contains(k) by {
        assert(default_keys().take(default_keys().len() as int) =~= default_keys());
    }
    assert(default_keys().take(default_keys().len() as int) =~= default_keys());
    assert(member_keys(cc) == member_keys(common_config@));
    assert(member_keys(out@).skip(n_in) == member_keys(d).skip(n_in));
    out
}

/// Members with the same views have the same keys and values, one by one.
proof fn lemma_same_members(a: Seq<(String, JsonValue)>, b: Seq<(String, JsonValue)>)
    requires
        members_view(a) == members_view(b),
    ensures
        a.len() == b.len(),
        member_keys(a) == member_keys(b),
        forall|i: int| 0 <= i < a.len() ==> #[trigger] a[i].0@ == b[i].0@ && a[i].1@ == b[i].1@,
    decreases a.len(),
{
    crate::json_value::lemma_members_view(a);
    crate::json_value::lemma_members_view(b);
    if a.len() > 0 {
        assert(members_view(a).drop_last() =~= members_view(a.drop_last()));
        assert(members_view(b).drop_last() =~= members_view(b.drop_last()));
        lemma_same_members(a.drop_last(), b.drop_last());
        assert(members_view(a).last() == (a.last().0@, json_view(a.last().1)));
        assert(members_view(b).last() == (b.last().0@, json_view(b.last().1)));
        assert forall|i: int| 0 <= i < a.len() implies #[trigger] a[i].0@ == b[i].0@ && a[i].1@ == b[i].1@ by {
            if i < a.len() - 1 {
                assert(a.drop_last()[i] == a[i]);
                assert(b.drop_last()[i] == b[i]);
            }
        }
        assert(member_keys(a) =~= member_keys(b));
    }
}

} // verus!
