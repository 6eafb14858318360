use kweebitect::text::{decimal_string, parse_usize};
use kweebitect::value::{
    container_entries_for, format_container_entry_lines, value_for_entry, ObjectMap, OrderedValue,
};

fn s(text: &str) -> String {
    text.to_string()
}

fn num(text: &str) -> OrderedValue {
    OrderedValue::Number(s(text))
}

fn obj(pairs: Vec<(&str, OrderedValue)>) -> OrderedValue {
    OrderedValue::Object(ObjectMap::from_pairs(
        pairs.into_iter().map(|(k, v)| (s(k), v)).collect(),
    ))
}

fn sample() -> OrderedValue {
    obj(vec![
        ("name", OrderedValue::String(s("kwee"))),
        ("tags", OrderedValue::Array(vec![num("1"), num("2.5"), OrderedValue::Null])),
        ("nested", obj(vec![("deep", OrderedValue::Bool(true))])),
    ])
}

#[test]
fn entries_of_object_are_keys_in_order() {
    assert_eq!(container_entries_for(&sample()), vec![s("name"), s("tags"), s("nested")]);
}

#[test]
fn entries_of_array_are_positions() {
    let arr = OrderedValue::Array(vec![OrderedValue::Null, OrderedValue::Null, OrderedValue::Null]);
    assert_eq!(container_entries_for(&arr), vec![s("0"), s("1"), s("2")]);
}

#[test]
fn entries_of_scalar_is_placeholder() {
    assert_eq!(container_entries_for(&num("3")), vec![s("(value)")]);
    assert_eq!(container_entries_for(&OrderedValue::Null), vec![s("(value)")]);
}

#[test]
fn entries_of_empty_containers_are_empty() {
    assert!(container_entries_for(&OrderedValue::Array(vec![])).is_empty());
    assert!(container_entries_for(&OrderedValue::default()).is_empty());
}

#[test]
fn value_for_entry_finds_object_values() {
    let v = sample();
    assert_eq!(value_for_entry(&v, "name"), Some(&OrderedValue::String(s("kwee"))));
    assert_eq!(value_for_entry(&v, "missing"), None);
}

#[test]
fn value_for_entry_parses_array_positions() {
    let arr = OrderedValue::Array(vec![num("10"), num("11")]);
    assert_eq!(value_for_entry(&arr, "1"), Some(&num("11")));
    assert_eq!(value_for_entry(&arr, "+1"), Some(&num("11")));
    assert_eq!(value_for_entry(&arr, "01"), Some(&num("11")));
    assert_eq!(value_for_entry(&arr, "2"), None);
    assert_eq!(value_for_entry(&arr, "-1"), None);
    assert_eq!(value_for_entry(&arr, "x"), None);
    assert_eq!(value_for_entry(&arr, ""), None);
    assert_eq!(value_for_entry(&arr, " 1"), None);
}

#[test]
fn value_for_entry_of_scalar_is_itself() {
    let v = OrderedValue::Bool(false);
    assert_eq!(value_for_entry(&v, "anything"), Some(&v));
}

#[test]
fn listed_entries_resolve() {
    let v = sample();
    let labels = container_entries_for(&v);
    let expected = [OrderedValue::String(s("kwee")), OrderedValue::Array(vec![num("1"), num("2.5"), OrderedValue::Null]), obj(vec![("deep", OrderedValue::Bool(true))])];
    for (label, want) in labels.iter().zip(expected.iter()) {
        assert_eq!(value_for_entry(&v, label), Some(want));
    }
    let arr = OrderedValue::Array(vec![num("7"), num("8"), num("9")]);
    for (i, label) in container_entries_for(&arr).iter().enumerate() {
        assert_eq!(value_for_entry(&arr, label), Some(&num(&(7 + i).to_string())));
    }
}

#[test]
fn get_follows_a_path() {
    let v = sample();
    assert_eq!(v.get(&[]), Some(&v));
    assert_eq!(v.get(&[s("tags"), s("1")]), Some(&num("2.5")));
    assert_eq!(v.get(&[s("nested"), s("deep")]), Some(&OrderedValue::Bool(true)));
    assert_eq!(v.get(&[s("nested"), s("shallow")]), None);
    assert_eq!(v.get(&[s("tags"), s("3")]), None);
    assert_eq!(v.get(&[s("name"), s("0")]), None);
}

#[test]
fn get_in_two_parts() {
    let v = sample();
    let middle = v.get(&[s("nested")]).unwrap();
    assert_eq!(v.get(&[s("nested"), s("deep")]), middle.get(&[s("deep")]));
}

#[test]
fn get_one_step_agrees_with_value_for_entry_on_containers() {
    let v = sample();
    for label in ["name", "tags", "nope"] {
        assert_eq!(v.get(&[s(label)]), value_for_entry(&v, label));
    }
    let scalar = num("4");
    assert_eq!(scalar.get(&[s("x")]), None);
    assert_eq!(value_for_entry(&scalar, "x"), Some(&scalar));
}

#[test]
fn first_key_of_object_only() {
    assert_eq!(sample().first_key(), Some(&s("name")));
    assert_eq!(OrderedValue::default().first_key(), None);
    assert_eq!(OrderedValue::Array(vec![num("1")]).first_key(), None);
}

#[test]
fn lines_of_array_show_length() {
    let arr = OrderedValue::Array(vec![num("1"), num("2"), num("3")]);
    assert_eq!(format_container_entry_lines("items", &arr), vec![s("items: [3]")]);
    assert_eq!(format_container_entry_lines("e", &OrderedValue::Array(vec![])), vec![s("e: [0]")]);
}

#[test]
fn lines_of_object_list_keys() {
    let o = obj(vec![("k1", num("1")), ("k2", OrderedValue::Null)]);
    assert_eq!(format_container_entry_lines("o", &o), vec![s("o:"), s("  k1"), s("  k2")]);
}

#[test]
fn lines_of_scalars() {
    assert_eq!(format_container_entry_lines("n", &OrderedValue::Null), vec![s("n null")]);
    assert_eq!(format_container_entry_lines("b", &OrderedValue::Bool(false)), vec![s("b false")]);
    assert_eq!(format_container_entry_lines("b", &OrderedValue::Bool(true)), vec![s("b true")]);
    assert_eq!(format_container_entry_lines("x", &num("1.5")), vec![s("x 1.5")]);
}

#[test]
fn lines_of_strings_are_quoted_and_escaped() {
    let v = OrderedValue::String(s("say \"hi\"\n"));
    assert_eq!(format_container_entry_lines("t", &v), vec![s("t \"say \\\"hi\\\"\\n\"")]);
}

#[test]
fn repeated_keys_keep_first_place_and_last_value() {
    let o = obj(vec![("a", num("1")), ("b", num("2")), ("a", num("3"))]);
    assert_eq!(container_entries_for(&o), vec![s("a"), s("b")]);
    assert_eq!(value_for_entry(&o, "a"), Some(&num("3")));
}

#[test]
fn set_then_lookup() {
    let o = obj(vec![("x", num("1")), ("y", num("2")), ("x", num("5"))]);
    assert_eq!(value_for_entry(&o, "x"), Some(&num("5")));
    assert_eq!(value_for_entry(&o, "y"), Some(&num("2")));
    assert_eq!(value_for_entry(&o, "z"), None);
    assert_eq!(container_entries_for(&o), vec![s("x"), s("y")]);
    assert_eq!(o.first_key(), Some(&s("x")));
}

#[test]
fn object_equality_ignores_key_order() {
    let a = obj(vec![("a", num("1")), ("b", num("2"))]);
    let b = obj(vec![("b", num("2")), ("a", num("1"))]);
    let c = obj(vec![("a", num("1")), ("b", num("3"))]);
    assert!(a == b);
    assert!(a != c);
    assert!(OrderedValue::Array(vec![num("1")]) != OrderedValue::Array(vec![num("1"), num("1")]));
    assert!(num("1") != OrderedValue::String(s("1")));
}

#[test]
fn clones_are_equal() {
    let v = sample();
    let c = v.clone();
    assert!(c == v);
    assert_eq!(container_entries_for(&c), container_entries_for(&v));
    assert_eq!(v.deep_clone().get(&[s("tags"), s("2")]), Some(&OrderedValue::Null));
}

#[test]
fn default_value_is_empty_object() {
    let d = OrderedValue::default();
    assert_eq!(d.to_string(), s("Object"));
    assert!(d == obj(vec![]));
}

#[test]
fn kind_names() {
    assert_eq!(OrderedValue::Null.to_string(), s("Null"));
    assert_eq!(OrderedValue::Bool(true).to_string(), s("Bool"));
    assert_eq!(num("1").to_string(), s("Number"));
    assert_eq!(OrderedValue::String(s("a")).to_string(), s("String"));
    assert_eq!(OrderedValue::Array(vec![]).to_string(), s("Array"));
    assert_eq!(sample().to_string(), s("Object"));
}

#[test]
fn decimal_text() {
    assert_eq!(decimal_string(0), s("0"));
    assert_eq!(decimal_string(7), s("7"));
    assert_eq!(decimal_string(1234567), s("1234567"));
    assert_eq!(decimal_string(usize::MAX), usize::MAX.to_string());
}

#[test]
fn parse_matches_std() {
    for text in ["0", "42", "+42", "007", "", "+", "-1", "1a", " 1", "1 ", "++1", "18446744073709551615", "18446744073709551616", "99999999999999999999999", "٣"] {
        assert_eq!(parse_usize(text), text.parse::<usize>().ok(), "{text:?}");
    }
}

#[test]
fn parse_decimal_round_trip() {
    for n in [0usize, 1, 9, 10, 99, 100, 65535, usize::MAX] {
        assert_eq!(parse_usize(&decimal_string(n)), Some(n));
    }
}

#[test]
fn float_zeros_are_equal() {
    assert!(num("0.0") == num("-0.0"));
    assert!(num("-0.0") == num("0.0"));
    assert!(num("0") != num("0.0"));
    assert!(num("1.0") != num("1"));
    assert!(num("-1.0") != num("1.0"));
    let a = OrderedValue::Array(vec![num("-0.0")]);
    assert!(a == OrderedValue::Array(vec![num("0.0")]));
}

#[test]
fn float_zeros_compare_as_serde_json_does() {
    let neg: serde_json::Number = serde_json::from_str("-0.0").unwrap();
    let pos: serde_json::Number = serde_json::from_str("0.0").unwrap();
    assert_eq!(neg == pos, num(&neg.to_string()) == num(&pos.to_string()));
    assert_eq!(neg.to_string(), s("-0.0"));
    assert_eq!(pos.to_string(), s("0.0"));
}
