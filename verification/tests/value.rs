use pebble::value::before;
use pebble::{Number, Object, Untyped};

#[test]
fn numbers_from_integers() {
    assert_eq!(Number::from_i64(5), Number::PosInt(5));
    assert_eq!(Number::from_i64(0), Number::PosInt(0));
    assert_eq!(Number::from_i64(-5), Number::NegInt(-5));
    assert_eq!(Number::from_u64(u64::MAX), Number::PosInt(u64::MAX));
}

#[test]
fn numbers_as_integers() {
    assert_eq!(Number::PosInt(5).as_i64(), Some(5));
    assert_eq!(Number::PosInt(5).as_u64(), Some(5));
    assert_eq!(Number::PosInt(i64::MAX as u64).as_i64(), Some(i64::MAX));
    assert_eq!(Number::PosInt(i64::MAX as u64 + 1).as_i64(), None);
    assert_eq!(Number::PosInt(u64::MAX).as_u64(), Some(u64::MAX));
    assert_eq!(Number::NegInt(-5).as_i64(), Some(-5));
    assert_eq!(Number::NegInt(-5).as_u64(), None);
    assert_eq!(Number::Float("1.5".to_string()).as_i64(), None);
    assert_eq!(Number::Float("1.5".to_string()).as_u64(), None);
    assert!(Number::Float("1.5".to_string()).is_f64());
    assert!(!Number::PosInt(1).is_f64());
}

#[test]
fn numbers_as_text() {
    assert_eq!(Number::PosInt(0).to_string(), "0");
    assert_eq!(Number::PosInt(1205).to_string(), "1205");
    assert_eq!(Number::NegInt(-1205).to_string(), "-1205");
    assert_eq!(Number::Float("2.5e-3".to_string()).to_string(), "2.5e-3");
}

#[test]
fn numbers_as_text_agree_with_serde_json() {
    assert_eq!(Number::from_u64(77).to_string(), serde_json::Number::from(77u64).to_string());
    assert_eq!(Number::from_i64(-77).to_string(), serde_json::Number::from(-77i64).to_string());
    assert_eq!(Number::from_i64(i64::MIN).to_string(), serde_json::Number::from(i64::MIN).to_string());
}

#[test]
fn an_object_finds_what_was_inserted() {
    let mut o = Object::new();
    assert_eq!(o.len(), 0);
    assert_eq!(o.get("a"), None);
    assert!(!o.contains_key("a"));
    o.insert("a".to_string(), Untyped::Bool(true));
    o.insert("b".to_string(), Untyped::Null);
    assert_eq!(o.len(), 2);
    assert_eq!(o.get("a"), Some(&Untyped::Bool(true)));
    assert_eq!(o.get("b"), Some(&Untyped::Null));
    assert_eq!(o.get("c"), None);
    assert_eq!(o.get(""), None);
    assert!(o.contains_key("b"));
}

#[test]
fn insert_replaces_in_place() {
    let mut o = Object::new();
    o.insert("a".to_string(), Untyped::Bool(true));
    o.insert("b".to_string(), Untyped::Null);
    o.insert("a".to_string(), Untyped::String("x".to_string()));
    assert_eq!(o.len(), 2);
    assert_eq!(o.get("a"), Some(&Untyped::String("x".to_string())));
    assert_eq!(o.entries[0].0, "a");
    assert_eq!(o.entries[1].0, "b");
}

#[test]
fn the_last_entry_of_a_key_counts() {
    let o = Object {
        entries: vec![
            ("k".to_string(), Untyped::Bool(false)),
            ("k".to_string(), Untyped::Bool(true)),
        ],
    };
    assert_eq!(o.get("k"), Some(&Untyped::Bool(true)));
    let mut o = o;
    o.insert("k".to_string(), Untyped::Null);
    assert_eq!(o.get("k"), Some(&Untyped::Null));
    assert_eq!(o.entries[0].1, Untyped::Bool(false));
    assert_eq!(o.len(), 2);
}

#[test]
fn as_object_tells_objects_apart() {
    assert!(Untyped::Object(Object::new()).as_object().is_some());
    assert!(Untyped::Null.as_object().is_none());
    assert!(Untyped::Array(vec![]).as_object().is_none());
    assert!(Untyped::String("{}".to_string()).as_object().is_none());
}

#[test]
fn the_order_of_keys_is_that_of_strings() {
    let samples = ["", "a", "b", "aa", "ab", "B", "a ", "é", "e", "z", "\u{10000}", "\u{ffff}", "id", "name"];
    for a in samples {
        for b in samples {
            assert_eq!(before(a, b), a < b, "{:?} before {:?}", a, b);
        }
    }
}

#[test]
fn insert_keeps_the_keys_in_order() {
    let mut o = Object::new();
    let mut map = std::collections::BTreeMap::new();
    for (n, key) in ["name", "id", "email", "é", "", "Z", "id", "a", "name"].iter().enumerate() {
        o.insert(key.to_string(), Untyped::Number(Number::from_u64(n as u64)));
        map.insert(key.to_string(), n as u64);
    }
    let here: Vec<(String, u64)> = o
        .entries
        .iter()
        .map(|e| match &e.1 {
            Untyped::Number(Number::PosInt(n)) => (e.0.clone(), *n),
            other => panic!("no number: {:?}", other),
        })
        .collect();
    let there: Vec<(String, u64)> = map.into_iter().collect();
    assert_eq!(here, there);
}
