use ipqis::decompose::{decompose, full_key, Document, Namespace};
use ipqis::node::{Key, Kind, Text, Value};

fn obj(entries: Vec<(&str, Document)>) -> Document {
    Document::Object(entries.into_iter().map(|(k, v)| (k.to_string(), v)).collect())
}

#[test]
fn primitive_yields_two_records_under_parent_hash() {
    let recs = decompose(Some(""), "x", &Document::Bool(true)).unwrap();
    assert_eq!(recs.len(), 2);
    assert!(matches!(recs[0].namespace, Namespace::Key));
    assert!(matches!(recs[1].namespace, Namespace::Value));
    assert_eq!(recs[0].key.hash, recs[1].key.hash);
    assert_eq!(recs[0].key.text.msg, "x");
    assert_eq!(recs[1].key.text.msg, "x");
    let root_ns = ipqis::hash::Hash::with_str("");
    assert_eq!(recs[0].parent_hash, root_ns);
    assert_eq!(recs[1].parent_hash, root_ns);
    assert!(!recs[0].relpath);
    assert!(!recs[1].relpath);
    assert_eq!(recs[0].key.kind, Kind::Bool);
    assert_eq!(recs[1].payload, Value::Bool(true));
    assert_eq!(recs[0].payload, Value::Text(Text::with_en_us("x")));
}

#[test]
fn nested_object_paths_and_namespaces() {
    let doc = obj(vec![("b", Document::I64(1))]);
    let recs = decompose(Some(""), "a", &doc).unwrap();
    assert_eq!(recs.len(), 4);
    // The structural marker pair for "a" comes first, under hash("").
    assert_eq!(recs[0].key.text.msg, "a");
    assert_eq!(recs[0].key.kind, Kind::Object);
    assert_eq!(recs[1].key.kind, Kind::Object);
    assert_eq!(recs[1].payload, Value::Object);
    assert_eq!(recs[0].parent_hash, ipqis::hash::Hash::with_str(""));
    // Then the pair for "a.b", an integer, under hash("a").
    assert_eq!(recs[2].key.text.msg, "a.b");
    assert_eq!(recs[2].key.kind, Kind::I64);
    assert_eq!(recs[2].parent_hash, ipqis::hash::Hash::with_str("a"));
    assert_eq!(recs[3].parent_hash, ipqis::hash::Hash::with_str("a"));
    assert_eq!(recs[3].payload, Value::I64(1));
    // Key hashes are the digests of the full key texts.
    assert_eq!(recs[2].key.hash, ipqis::hash::Hash::with_str("a.b"));
}

#[test]
fn root_object_emits_no_marker() {
    let doc = obj(vec![("b", Document::Null)]);
    let recs = decompose(None, "a", &doc).unwrap();
    assert_eq!(recs.len(), 2);
    assert_eq!(recs[0].key.text.msg, "a.b");
    assert_eq!(recs[0].key.kind, Kind::Null);
}

#[test]
fn array_fails_unsupported() {
    let doc = obj(vec![(
        "arr",
        Document::Array(vec![Document::I64(1), Document::I64(2), Document::I64(3)]),
    )]);
    let r = decompose(Some(""), "root", &doc);
    assert!(matches!(r, Err(ipqis::Error::Unsupported)));
}

#[test]
fn bare_array_fails_unsupported() {
    let doc = Document::Array(vec![Document::I64(1)]);
    let r = decompose(Some(""), "arr", &doc);
    assert!(matches!(r, Err(ipqis::Error::Unsupported)));
}

#[test]
fn sibling_before_failing_array_still_fails() {
    let doc = obj(vec![("ok", Document::Bool(false)), ("bad", Document::Array(vec![]))]);
    let r = decompose(Some(""), "root", &doc);
    assert!(matches!(r, Err(ipqis::Error::Unsupported)));
}

#[test]
fn full_key_joins_with_dot_except_empty_parent() {
    assert_eq!(full_key("a.b", "c"), "a.b.c");
    assert_eq!(full_key("", "c"), "c");
    assert_eq!(full_key("p", "q"), "p.q");
}

#[test]
fn number_kinds_are_kept_apart() {
    let recs = decompose(Some(""), "u", &Document::U64(7)).unwrap();
    assert_eq!(recs[0].key.kind, Kind::U64);
    assert_eq!(recs[1].payload, Value::U64(7));
    let recs = decompose(Some(""), "i", &Document::I64(-7)).unwrap();
    assert_eq!(recs[0].key.kind, Kind::I64);
    assert_eq!(recs[1].payload, Value::I64(-7));
    let bits = (1.5f64).to_bits();
    let recs = decompose(Some(""), "f", &Document::F64(bits)).unwrap();
    assert_eq!(recs[0].key.kind, Kind::F64);
    assert_eq!(recs[1].payload, Value::F64(bits));
}

#[test]
fn text_payload_is_stored_as_text() {
    let recs = decompose(Some("p"), "t", &Document::Text("hello".to_string())).unwrap();
    assert_eq!(recs[0].key.text.msg, "p.t");
    assert_eq!(recs[0].key.kind, Kind::Text);
    assert_eq!(recs[1].payload, Value::Text(Text::with_en_us("hello")));
    assert_eq!(recs[0].parent_hash, ipqis::hash::Hash::with_str("p"));
}

#[test]
fn namespace_hashes_are_the_fixed_discriminators() {
    assert_eq!(Namespace::Key.to_hash(), ipqis::kind_key());
    assert_eq!(Namespace::Value.to_hash(), ipqis::kind_value());
    assert_ne!(ipqis::kind_key(), ipqis::kind_value());
    assert_ne!(ipqis::kind(), ipqis::kind_key());
    let recs = decompose(Some(""), "x", &Document::Null).unwrap();
    assert_eq!(recs[0].namespace.to_hash(), ipqis::kind_key());
    assert_eq!(recs[1].namespace.to_hash(), ipqis::kind_value());
}

#[test]
fn marker_count_matches_object_nodes() {
    let doc = obj(vec![
        ("a", obj(vec![("b", Document::I64(1)), ("c", obj(vec![]))])),
        ("d", Document::Null),
    ]);
    let recs = decompose(None, "root", &doc).unwrap();
    let markers = recs
        .iter()
        .filter(|r| matches!(r.namespace, Namespace::Value) && r.key.kind == Kind::Object)
        .count();
    // Non-root object nodes: "root.a" and "root.a.c".
    assert_eq!(markers, 2);
    let _ = Key {
        text: Text::with_en_us("root.a"),
        hash: ipqis::hash::Hash::with_str("root.a"),
        kind: Kind::Object,
    };
}
