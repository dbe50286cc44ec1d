use powerliners::json_value::JsonValue;
use powerliners::lint_config::{CheckResult, Cmp, SpecType};
use powerliners::lint_spec::{check_list, check_type, Spec};
use std::cell::Cell;

fn text(s: &str) -> JsonValue {
    JsonValue::Text(s.to_string())
}

fn num(s: &str) -> JsonValue {
    JsonValue::Number(s.to_string())
}

fn obj(members: Vec<(&str, JsonValue)>) -> JsonValue {
    JsonValue::Object(members.into_iter().map(|(k, v)| (k.to_string(), v)).collect())
}

fn has_key(s: &Spec, k: &str) -> bool {
    s.get(k).is_some()
}

#[test]
fn spec_new_starts_empty() {
    let s = Spec::new();
    assert!(s.specs.is_empty());
    assert!(s.keys.is_empty());
    assert!(s.cmsg.is_empty());
    assert!(!s.isoptional);
    assert!(!s.did_type);
    assert!(s.allowed_types.is_empty());
}

#[test]
fn spec_update_registers_key_spec() {
    let inner = Spec::new().type_check(&[SpecType::Unicode]);
    let s = Spec::new().update("foo", inner);
    assert!(has_key(&s, "foo"));
}

#[test]
fn spec_optional_sets_isoptional() {
    let s = Spec::new().optional();
    assert!(s.isoptional);
}

#[test]
fn spec_required_clears_isoptional() {
    let s = Spec::new().optional().required();
    assert!(!s.isoptional);
}

#[test]
fn spec_context_message_stores_msg() {
    let s = Spec::new().context_message("at {key}");
    assert_eq!(s.cmsg, "at {key}");
}

#[test]
fn spec_printable_sets_flag() {
    let s = Spec::new().printable();
    assert!(s.printable_flag);
}

#[test]
fn spec_unsigned_sets_flag() {
    let s = Spec::new().unsigned();
    assert!(s.unsigned_flag);
}

#[test]
fn spec_ident_sets_flag_and_regex() {
    let s = Spec::new().ident();
    assert!(s.ident_flag);
    assert_eq!(s.regex.as_deref(), Some(r"^[a-zA-Z_]\w*$"));
}

#[test]
fn spec_type_check_registers_allowed_types() {
    let s = Spec::new().type_check(&[SpecType::Unicode, SpecType::Bool]);
    assert!(s.did_type);
    assert_eq!(s.allowed_types.len(), 2);
    assert!(s.allowed_types.contains(&SpecType::Unicode));
    assert!(s.allowed_types.contains(&SpecType::Bool));
}

#[test]
fn spec_regex_stores_pattern() {
    let s = Spec::new().regex(r"^\d+$");
    assert_eq!(s.regex.as_deref(), Some(r"^\d+$"));
}

#[test]
fn spec_oneof_stores_values() {
    let s = Spec::new().oneof(&["foo", "bar"]);
    let v = s.oneof.unwrap();
    assert_eq!(v, vec!["foo".to_string(), "bar".to_string()]);
}

#[test]
fn spec_error_stores_msg() {
    let s = Spec::new().error("invalid value");
    assert_eq!(s.error_msg.as_deref(), Some("invalid value"));
}

#[test]
fn spec_len_stores_constraint() {
    let s = Spec::new().len(Cmp::Lt, 10);
    assert_eq!(s.len_constraint, Some((Cmp::Lt, 10)));
}

#[test]
fn spec_cmp_stores_constraint() {
    let s = Spec::new().cmp(Cmp::Ge, "0.0");
    let c = s.cmp_constraint.unwrap();
    assert_eq!(c.0, Cmp::Ge);
    assert_eq!(c.1.parse::<f64>().unwrap(), 0.0);
}

#[test]
fn spec_copy_clones_all_fields() {
    let s = Spec::new().type_check(&[SpecType::Unicode]).regex(r"^foo$").optional().context_message("at {key}");
    let c = s.copy();
    assert_eq!(c.allowed_types, s.allowed_types);
    assert_eq!(c.regex, s.regex);
    assert_eq!(c.isoptional, s.isoptional);
    assert_eq!(c.cmsg, s.cmsg);
}

#[test]
fn check_printable_accepts_normal_text() {
    let r = Spec::check_printable("hello world");
    assert!(r.proceed);
    assert!(!r.hadproblem);
}

#[test]
fn check_printable_rejects_control_char() {
    let r = Spec::check_printable("hello\x07world");
    assert!(!r.proceed);
    assert!(r.hadproblem);
}

#[test]
fn check_printable_allows_tab_and_newline() {
    assert!(Spec::check_printable("a\tb\nc").proceed);
    assert!(!Spec::check_printable("\x7f").proceed);
}

#[test]
fn check_type_object_matches_dict() {
    let r = check_type(&obj(vec![("k", num("1"))]), &[SpecType::Dict]);
    assert!(r.proceed);
}

#[test]
fn check_type_array_matches_list() {
    let r = check_type(&JsonValue::Array(vec![num("1"), num("2")]), &[SpecType::List]);
    assert!(r.proceed);
}

#[test]
fn check_type_string_matches_unicode() {
    let r = check_type(&text("hi"), &[SpecType::Unicode]);
    assert!(r.proceed);
}

#[test]
fn check_type_bool_matches_bool() {
    let r = check_type(&JsonValue::Bool(true), &[SpecType::Bool]);
    assert!(r.proceed);
}

#[test]
fn check_type_number_matches_float() {
    let r = check_type(&num("42"), &[SpecType::Float]);
    assert!(r.proceed);
}

#[test]
fn check_type_null_matches_null() {
    let r = check_type(&JsonValue::Null, &[SpecType::Null]);
    assert!(r.proceed);
}

#[test]
fn check_type_mismatch_returns_failed() {
    let r = check_type(&text("hi"), &[SpecType::Bool]);
    assert!(r.hadproblem);
}

#[test]
fn check_list_aggregates_results() {
    let items = vec![num("1"), num("2"), num("3")];
    let r = check_list(&items, |_| CheckResult::ok());
    assert!(r.proceed);
    assert!(!r.hadproblem);
}

#[test]
fn check_list_any_failure_marks_had_problem() {
    let items = vec![num("1"), num("2")];
    let called = Cell::new(0);
    let r = check_list(&items, |_| {
        called.set(called.get() + 1);
        if called.get() == 1 {
            CheckResult::failed()
        } else {
            CheckResult::ok()
        }
    });
    assert!(r.hadproblem);
    assert!(!r.proceed);
    assert_eq!(called.get(), 2);
}

#[test]
fn list_pins_type_to_list_and_pushes_item_spec() {
    let item_spec = Spec::new().type_check(&[SpecType::Unicode]);
    let s = Spec::new().list(item_spec);
    assert!(s.allowed_types.contains(&SpecType::List));
    assert!(s.did_type);
    assert_eq!(s.specs.len(), 1);
}

#[test]
fn tuple_pins_eq_length_when_no_optionals() {
    let specs = vec![Spec::new().type_check(&[SpecType::Unicode]), Spec::new().type_check(&[SpecType::Float])];
    let s = Spec::new().tuple(specs);
    assert_eq!(s.len_constraint, Some((Cmp::Eq, 2)));
    assert_eq!(s.specs.len(), 2);
}

#[test]
fn tuple_uses_le_when_trailing_optionals_present() {
    let specs = vec![Spec::new().type_check(&[SpecType::Unicode]), Spec::new().type_check(&[SpecType::Float]).optional()];
    let s = Spec::new().tuple(specs);
    assert_eq!(s.len_constraint, Some((Cmp::Le, 2)));
}

#[test]
fn tuple_sets_type_to_list() {
    let specs = vec![Spec::new().type_check(&[SpecType::Unicode])];
    let s = Spec::new().tuple(specs);
    assert!(s.allowed_types.contains(&SpecType::List));
    assert!(s.did_type);
}

#[test]
fn tuple_empty_specs_yields_eq_zero_length() {
    let s = Spec::new().tuple(vec![]);
    assert_eq!(s.len_constraint, Some((Cmp::Eq, 0)));
}

#[test]
fn tuple_only_counts_optionals_at_the_end() {
    let specs = vec![Spec::new().optional(), Spec::new()];
    let s = Spec::new().tuple(specs);
    assert_eq!(s.len_constraint, Some((Cmp::Eq, 2)));
}

#[test]
fn either_pushes_all_variants_to_specs() {
    let variants = vec![
        Spec::new().type_check(&[SpecType::Unicode]),
        Spec::new().type_check(&[SpecType::Float]),
        Spec::new().type_check(&[SpecType::Bool]),
    ];
    let s = Spec::new().either(variants);
    assert_eq!(s.specs.len(), 3);
}

#[test]
fn either_empty_variants_leaves_specs_empty() {
    let s = Spec::new().either(vec![]);
    assert!(s.specs.is_empty());
}

#[test]
fn match_checks_all_pass_returns_true() {
    let checks: Vec<Box<dyn Fn() -> (bool, bool)>> = vec![Box::new(|| (true, false)), Box::new(|| (true, false))];
    let r = Spec::match_checks(&checks);
    assert_eq!(r, (true, false));
}

#[test]
fn match_checks_records_hadproblem_but_continues() {
    let checks: Vec<Box<dyn Fn() -> (bool, bool)>> = vec![Box::new(|| (true, true)), Box::new(|| (true, false))];
    let r = Spec::match_checks(&checks);
    assert_eq!(r, (true, true));
}

#[test]
fn match_checks_stops_early_on_no_proceed() {
    let checks: Vec<Box<dyn Fn() -> (bool, bool)>> = vec![Box::new(|| (false, true)), Box::new(|| panic!("should not run"))];
    let r = Spec::match_checks(&checks);
    assert_eq!(r, (false, true));
}

#[test]
fn match_checks_empty_returns_ok() {
    let checks: Vec<Box<dyn Fn() -> (bool, bool)>> = vec![];
    let r = Spec::match_checks(&checks);
    assert_eq!(r, (true, false));
}

#[test]
fn unknown_msg_returns_self_for_chaining() {
    let s = Spec::new().unknown_msg("bad key");
    assert!(s.specs.is_empty());
}

#[test]
fn unknown_spec_pushes_key_and_value_specs() {
    let key_spec = Spec::new().type_check(&[SpecType::Unicode]);
    let value_spec = Spec::new().type_check(&[SpecType::Float]);
    let s = Spec::new().unknown_spec(key_spec, value_spec);
    assert_eq!(s.specs.len(), 2);
}

#[test]
fn check_func_returns_proceed_hadproblem_pair() {
    let (proceed, hadproblem) = Spec::check_func("hello", |v| {
        assert_eq!(v, "hello");
        (true, false, false)
    });
    assert!(proceed);
    assert!(!hadproblem);
}

#[test]
fn check_func_propagates_hadproblem() {
    let (proceed, hadproblem) = Spec::check_func("bad", |_| (true, true, true));
    assert!(proceed);
    assert!(hadproblem);
}

#[test]
fn check_func_stops_on_no_proceed() {
    let (proceed, hadproblem) = Spec::check_func("v", |_| (false, false, true));
    assert!(!proceed);
    assert!(hadproblem);
}

fn two_spec_tuple() -> Spec {
    Spec::new().tuple(vec![Spec::new().type_check(&[SpecType::Unicode]), Spec::new().type_check(&[SpecType::Float])])
}

#[test]
fn check_tuple_walks_each_item_with_corresponding_spec() {
    let s = two_spec_tuple();
    let values = vec![text("hello"), num("42")];
    let calls = Cell::new(0);
    let (proceed, hadproblem) = s.check_tuple(&values, 0, 2, |spec_idx, item_idx, _item| {
        calls.set(calls.get() + 1);
        assert_eq!(spec_idx, item_idx);
        (true, false)
    });
    assert!(proceed);
    assert!(!hadproblem);
    assert_eq!(calls.into_inner(), 2);
}

#[test]
fn check_tuple_early_exits_on_no_proceed() {
    let s = two_spec_tuple();
    let values = vec![text("hello"), num("42")];
    let calls = Cell::new(0);
    let (proceed, hadproblem) = s.check_tuple(&values, 0, 2, |_, _, _| {
        calls.set(calls.get() + 1);
        (false, true)
    });
    assert!(!proceed);
    assert!(hadproblem);
    assert_eq!(calls.into_inner(), 1);
}

#[test]
fn check_tuple_records_hadproblem_but_continues_when_proceed_true() {
    let s = two_spec_tuple();
    let values = vec![text("a"), text("b")];
    let (proceed, hadproblem) = s.check_tuple(&values, 0, 2, |_, i, _| if i == 0 { (true, true) } else { (true, false) });
    assert!(proceed);
    assert!(hadproblem);
}

#[test]
fn check_tuple_pairs_from_start_up_to_the_specs() {
    let s = two_spec_tuple();
    let values = vec![text("a"), text("b"), text("c")];
    let seen = Cell::new(0usize);
    let (proceed, _) = s.check_tuple(&values, 1, 5, |spec_idx, item_idx, _| {
        assert_eq!(spec_idx, 1 + item_idx);
        seen.set(seen.get() + 1);
        (true, false)
    });
    assert!(proceed);
    assert_eq!(seen.get(), 1);
}

#[test]
fn check_list_walk_walks_all_items() {
    let values = vec![text("a"), text("b"), text("c")];
    let count = Cell::new(0);
    let (proceed, hadproblem) = Spec::check_list_walk(&values, |_, _| {
        count.set(count.get() + 1);
        (true, false)
    });
    assert!(proceed);
    assert!(!hadproblem);
    assert_eq!(count.into_inner(), 3);
}

#[test]
fn check_list_walk_early_exits_on_no_proceed() {
    let values = vec![text("a"), text("b"), text("c")];
    let count = Cell::new(0);
    let (proceed, hadproblem) = Spec::check_list_walk(&values, |i, _| {
        count.set(count.get() + 1);
        if i == 1 {
            (false, true)
        } else {
            (true, false)
        }
    });
    assert!(!proceed);
    assert!(hadproblem);
    assert_eq!(count.into_inner(), 2);
}

#[test]
fn check_list_walk_records_hadproblem_but_continues() {
    let values = vec![text("a"), text("b")];
    let (proceed, hadproblem) = Spec::check_list_walk(&values, |_, _| (true, true));
    assert!(proceed);
    assert!(hadproblem);
}

#[test]
fn check_list_walk_empty_returns_ok() {
    let values: Vec<JsonValue> = vec![];
    let (proceed, hadproblem) = Spec::check_list_walk(&values, |_, _| (true, true));
    assert!(proceed);
    assert!(!hadproblem);
}

#[test]
fn match_dispatch_top_check_failure_returns_early() {
    let s = Spec::new();
    let value = obj(vec![]);
    let (proceed, hadproblem) = s.match_dispatch(&value, |_| (false, true), |_, _| panic!("should not run"));
    assert!(!proceed);
    assert!(hadproblem);
}

#[test]
fn match_dispatch_no_keys_returns_top_check_result() {
    let s = Spec::new();
    let value = obj(vec![]);
    let (proceed, hadproblem) = s.match_dispatch(&value, |_| (true, false), |_, _| (true, false));
    assert!(proceed);
    assert!(!hadproblem);
}

#[test]
fn match_dispatch_walks_registered_keys() {
    let key_spec = Spec::new().type_check(&[SpecType::Unicode]);
    let s = Spec::new().update("name", key_spec);
    let value = obj(vec![("name", text("value"))]);
    let calls = Cell::new(0);
    let (proceed, _) = s.match_dispatch(
        &value,
        |_| (true, false),
        |key, _| {
            assert_eq!(key, "name");
            calls.set(calls.get() + 1);
            (true, false)
        },
    );
    assert!(proceed);
    assert_eq!(calls.into_inner(), 1);
}

#[test]
fn match_dispatch_missing_required_key_sets_hadproblem() {
    let key_spec = Spec::new().type_check(&[SpecType::Unicode]);
    let s = Spec::new().update("required_name", key_spec);
    let value = obj(vec![("other_key", text("value"))]);
    let (proceed, hadproblem) = s.match_dispatch(&value, |_| (true, false), |_, _| (true, false));
    assert!(proceed);
    assert!(hadproblem);
}

#[test]
fn match_dispatch_missing_optional_key_does_not_set_hadproblem() {
    let key_spec = Spec::new().type_check(&[SpecType::Unicode]).optional();
    let s = Spec::new().update("opt_name", key_spec);
    let value = obj(vec![("other_key", text("value"))]);
    let (proceed, hadproblem) = s.match_dispatch(&value, |_| (true, false), |_, _| (true, false));
    assert!(proceed);
    assert!(!hadproblem);
}

#[test]
fn match_dispatch_propagates_key_check_hadproblem() {
    let key_spec = Spec::new().type_check(&[SpecType::Unicode]);
    let s = Spec::new().update("name", key_spec);
    let value = obj(vec![("name", text("value"))]);
    let (proceed, hadproblem) = s.match_dispatch(&value, |_| (true, false), |_, _| (true, true));
    assert!(proceed);
    assert!(hadproblem);
}

#[test]
fn match_dispatch_early_exits_on_key_no_proceed() {
    let key_spec = Spec::new().type_check(&[SpecType::Unicode]);
    let s = Spec::new().update("a", key_spec).update("b", Spec::new());
    let value = obj(vec![("a", text("value")), ("b", text("value"))]);
    let calls = Cell::new(0);
    let (proceed, hadproblem) = s.match_dispatch(
        &value,
        |_| (true, false),
        |_, _| {
            calls.set(calls.get() + 1);
            (false, true)
        },
    );
    assert!(!proceed);
    assert!(hadproblem);
    assert_eq!(calls.into_inner(), 1);
}

#[test]
fn match_dispatch_non_map_value_short_circuits_after_top_check() {
    let s = Spec::new().update("name", Spec::new());
    let value = text("scalar");
    let (proceed, _) = s.match_dispatch(&value, |_| (true, false), |_, _| panic!("should not run for scalar"));
    assert!(proceed);
}

#[test]
fn func_registers_name_via_error_msg_slot() {
    let s = Spec::new().func("check_segment_function");
    assert_eq!(s.error_msg.as_deref(), Some("check_segment_function"));
}

#[test]
fn get_retrieves_registered_key_spec() {
    let item = Spec::new().type_check(&[SpecType::Unicode]);
    let s = Spec::new().update("name", item);
    let r = s.get("name");
    assert!(r.is_some());
    assert!(r.unwrap().allowed_types.contains(&SpecType::Unicode));
}

#[test]
fn get_missing_key_returns_none() {
    let s = Spec::new();
    assert!(s.get("nope").is_none());
}

#[test]
fn set_inserts_spec_under_key() {
    let mut s = Spec::new();
    let value_spec = Spec::new().type_check(&[SpecType::Float]);
    s.set("count", value_spec);
    assert!(has_key(&s, "count"));
}

#[test]
fn set_overwrites_existing_key() {
    let mut s = Spec::new();
    s.set("k", Spec::new().type_check(&[SpecType::Unicode]));
    s.set("k", Spec::new().type_check(&[SpecType::Float]));
    let r = s.get("k").unwrap();
    assert!(r.allowed_types.contains(&SpecType::Float));
    assert!(!r.allowed_types.contains(&SpecType::Unicode));
    assert_eq!(s.keys.len(), 1);
}

#[test]
fn _update_copies_all_constraint_fields() {
    let source = Spec::new()
        .type_check(&[SpecType::Unicode])
        .optional()
        .printable()
        .unsigned()
        .ident()
        .context_message("x")
        .oneof(&["a", "b"]);
    let mut target = Spec::new();
    target._update(&source);
    assert_eq!(target.allowed_types, source.allowed_types);
    assert_eq!(target.isoptional, source.isoptional);
    assert_eq!(target.printable_flag, source.printable_flag);
    assert_eq!(target.unsigned_flag, source.unsigned_flag);
    assert_eq!(target.ident_flag, source.ident_flag);
    assert_eq!(target.cmsg, source.cmsg);
}

#[test]
fn _update_deep_copies_nested_specs() {
    let inner = Spec::new().type_check(&[SpecType::Unicode]);
    let source = Spec::new().list(inner);
    let mut target = Spec::new();
    target._update(&source);
    assert_eq!(target.specs.len(), 1);
    assert!(target.specs[0].allowed_types.contains(&SpecType::Unicode));
}

#[test]
fn _update_copies_keys_map() {
    let nested = Spec::new().type_check(&[SpecType::Float]);
    let source = Spec::new().update("count", nested);
    let mut target = Spec::new();
    target._update(&source);
    assert!(has_key(&target, "count"));
}
