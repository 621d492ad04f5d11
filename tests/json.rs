use jute::json::push_json_string;
use jute::PairStore;

fn chars(s: &str) -> Vec<char> {
    s.chars().collect()
}

fn store_of(entries: &[(&str, &str)]) -> PairStore {
    let mut store = PairStore::new();
    for (k, v) in entries {
        store.insert(chars(k), chars(v));
    }
    store
}

#[test]
fn empty_store_serializes_to_braces() {
    assert_eq!(PairStore::new().to_json(), "{}");
    assert_eq!(PairStore::new().to_json_chars(), chars("{}"));
}

#[test]
fn serialization_keeps_insertion_order() {
    let store = store_of(&[("z", "1"), ("a", "2"), ("m", "3")]);
    assert_eq!(store.to_json(), "{\"z\":\"1\",\"a\":\"2\",\"m\":\"3\"}");
}

#[test]
fn escapes_quotes_backslashes_and_controls() {
    let mut out = Vec::new();
    push_json_string(&mut out, &chars("a\"b\\c\nd\re\tf\u{8}g\u{c}h\u{1}i\u{1f}j"));
    let s: String = out.iter().collect();
    assert_eq!(s, "\"a\\\"b\\\\c\\nd\\re\\tf\\bg\\fh\\u0001i\\u001fj\"");
}

#[test]
fn non_ascii_stands_as_is() {
    let store = store_of(&[("clé", "värde ✓"), ("del", "\u{7f}")]);
    assert_eq!(store.to_json(), "{\"clé\":\"värde ✓\",\"del\":\"\u{7f}\"}");
}

#[test]
fn round_trip_through_json_parser() {
    let entries = [
        ("name", "42"),
        ("", "empty key"),
        ("quote\"d", "back\\slash"),
        ("ctl\u{1}\u{1b}", "line\nbreak\ttab"),
        ("ünï", "😀"),
        ("name", "43"),
    ];
    let store = store_of(&entries);
    let text = store.to_json();
    let parsed: serde_json::Value = serde_json::from_str(&text).unwrap();
    let obj = parsed.as_object().unwrap();
    assert_eq!(obj.len(), store.len());
    for i in 0..store.len() {
        let k: String = store.key_at(i).iter().collect();
        let v: String = store.value_at(i).iter().collect();
        assert_eq!(obj.get(&k).and_then(|x| x.as_str()), Some(v.as_str()));
    }
    assert_eq!(obj.get("name").and_then(|x| x.as_str()), Some("43"));
}

#[test]
fn store_lookup() {
    let mut store = store_of(&[("a", "1"), ("b", "2")]);
    assert_eq!(store.find(&chars("b")), Some(1));
    assert_eq!(store.find(&chars("c")), None);
    assert_eq!(store.get(&chars("a")), Some(&chars("1")));
    store.insert(chars("a"), chars("9"));
    assert_eq!(store.len(), 2);
    assert_eq!(store.get(&chars("a")), Some(&chars("9")));
    assert_eq!(store.key_at(0), &chars("a"));
    assert_eq!(store.value_at(1), &chars("2"));
}
