use shtola::frontmatter::{lexer, to_json};
use shtola::ShMap;

#[test]
fn union_is_left_biased() {
    let mut a: ShMap<String> = ShMap::new();
    a.insert("k".to_string(), "A".to_string());
    let mut b: ShMap<String> = ShMap::new();
    b.insert("k".to_string(), "B".to_string());
    b.insert("x".to_string(), "X".to_string());
    let u = a.union(b);
    assert_eq!(u.len(), 2);
    assert_eq!(u.get("k").unwrap(), "A");
    assert_eq!(u.get("x").unwrap(), "X");
}

#[test]
fn difference_removes_exactly_the_given_keys() {
    let mut d: ShMap<String> = ShMap::new();
    d.insert("k".to_string(), "whatever".to_string());
    let mut b: ShMap<String> = ShMap::new();
    b.insert("k".to_string(), "B".to_string());
    b.insert("x".to_string(), "X".to_string());
    let r = d.difference(b);
    assert_eq!(r.len(), 1);
    assert!(r.get("k").is_none());
    assert_eq!(r.get("x").unwrap(), "X");
}

#[test]
fn insert_replaces_existing_entry() {
    let mut m: ShMap<String> = ShMap::new();
    m.insert("k".to_string(), "old".to_string());
    m.insert("k".to_string(), "new".to_string());
    assert_eq!(m.len(), 1);
    assert_eq!(m.get("k").unwrap(), "new");
}

#[test]
fn update_stores_under_key() {
    let m: ShMap<String> = ShMap::new();
    let m = m.update("k".to_string(), "v".to_string());
    assert_eq!(m.len(), 1);
    assert_eq!(m.get("k").unwrap(), "v");
}

#[test]
fn lexer_splits_front_matter() {
    let (matter, body) = lexer("---\nkey: value\n---\nBody");
    assert_eq!(matter, "key: value");
    assert_eq!(body, "Body");
}

#[test]
fn lexer_without_marker_keeps_text() {
    let (matter, body) = lexer("No marker here\n---\nlater");
    assert_eq!(matter, "");
    assert_eq!(body, "No marker here\n---\nlater");
}

#[test]
fn lexer_unclosed_marker_keeps_text() {
    let (matter, body) = lexer("---\nkey: value\nno closing marker");
    assert_eq!(matter, "");
    assert_eq!(body, "---\nkey: value\nno closing marker");
}

#[test]
fn to_json_decodes_yaml() {
    let v = to_json("key: value").unwrap();
    assert_eq!(v.get("key").unwrap().as_str().unwrap(), "value");
}

#[test]
fn to_json_of_empty_header_is_null() {
    let v = to_json("").unwrap();
    assert!(v.is_null());
}

#[test]
fn to_json_rejects_malformed_yaml() {
    assert!(to_json("[").is_none());
}
