use core::cmp::Ordering;

use ipqis::node::{str_cmp, AttentionUnit, Child, Key, Kind, Lang, NodeTree, Text, Value,
    ValueCandidate};

#[test]
fn kind_hash_round_trips() {
    let h = ipqis::hash::Hash::from(Kind::Text);
    assert_eq!(Kind::try_from(h).unwrap(), Kind::Text);
    for k in [
        Kind::Null,
        Kind::Bool,
        Kind::I64,
        Kind::U64,
        Kind::F64,
        Kind::Text,
        Kind::Array,
        Kind::Object,
    ] {
        assert_eq!(Kind::try_from(ipqis::hash::Hash::from(k)).unwrap(), k);
    }
}

#[test]
fn unrelated_hash_fails_with_the_offending_hash() {
    let h = ipqis::hash::Hash::with_str("arbitrary unrelated text");
    match Kind::try_from(h) {
        Err(ipqis::Error::UnknownKindHash(bad)) => assert_eq!(bad, h),
        _ => panic!("an unrelated hash must not parse to a kind"),
    }
}

#[test]
fn kind_names_round_trip() {
    for k in [
        Kind::Null,
        Kind::Bool,
        Kind::I64,
        Kind::U64,
        Kind::F64,
        Kind::Text,
        Kind::Array,
        Kind::Object,
    ] {
        assert_eq!(Kind::from_str(k.as_static_str()).unwrap(), k);
        assert_eq!(k.to_string(), k.as_static_str());
    }
    assert_eq!(Kind::Null.as_static_str(), "Null");
    assert_eq!(Kind::F64.as_static_str(), "F64");
}

#[test]
fn unknown_kind_name_fails_with_the_offending_name() {
    match Kind::from_str("Nope") {
        Err(ipqis::Error::UnknownKindName(s)) => assert_eq!(s, "Nope"),
        _ => panic!("an unknown name must not parse to a kind"),
    }
}

#[test]
fn key_identity_ignores_kind_and_cached_hash() {
    let a = Key::new(Text::with_en_us("same.path"), Kind::Null);
    let b = Key::new(Text::with_en_us("same.path"), Kind::Text);
    assert!(a == b);
    assert_eq!(a.cmp(&b), Ordering::Equal);
    assert_eq!(a.partial_cmp(&b), Some(Ordering::Equal));
    assert_eq!(a.hash, b.hash);
    let c = Key {
        text: Text::with_en_us("same.path"),
        hash: ipqis::hash::Hash::with_str("something else entirely"),
        kind: Kind::Bool,
    };
    assert!(a == c);
}

#[test]
fn keys_order_by_text() {
    let a = Key::new(Text::with_en_us("a"), Kind::Null);
    let b = Key::new(Text::with_en_us("b"), Kind::Null);
    assert_eq!(a.cmp(&b), Ordering::Less);
    assert_eq!(b.cmp(&a), Ordering::Greater);
    assert_eq!(a.partial_cmp(&b), Some(Ordering::Less));
}

#[test]
fn str_cmp_is_lexicographic() {
    assert_eq!(str_cmp("a", "ab"), Ordering::Less);
    assert_eq!(str_cmp("ab", "a"), Ordering::Greater);
    assert_eq!(str_cmp("", ""), Ordering::Equal);
    assert_eq!(str_cmp("", "a"), Ordering::Less);
    assert_eq!(str_cmp("abc", "abc"), Ordering::Equal);
    assert_eq!(str_cmp("abd", "abc"), Ordering::Greater);
}

#[test]
fn digest_is_deterministic_and_spreads() {
    assert_eq!(
        ipqis::hash::Hash::with_str("a.b"),
        ipqis::hash::Hash::with_str("a.b"),
    );
    assert_ne!(
        ipqis::hash::Hash::with_str("Null"),
        ipqis::hash::Hash::with_str("Bool"),
    );
    assert_ne!(
        ipqis::hash::Hash::with_str(""),
        ipqis::hash::Hash::with_str("a"),
    );
}

#[test]
fn unwrap_text_returns_the_text() {
    let v = Value::Text(Text::with_en_us("hi"));
    assert_eq!(v.unwrap_text().msg, "hi");
    assert_eq!(v.unwrap_text().lang, Lang::EnUs);
    let copy = v.unwrap_text().duplicate();
    assert_eq!(copy.msg, "hi");
    assert_eq!(copy.lang, Lang::EnUs);
}

#[test]
fn value_equality_distinguishes_number_tags() {
    assert_eq!(Value::Null, Value::Null);
    assert_ne!(Value::I64(1), Value::U64(1));
    assert_ne!(Value::F64(1), Value::U64(1));
    assert_eq!(Value::Array { len: 3 }, Value::Array { len: 3 });
    assert_ne!(Value::Array { len: 3 }, Value::Array { len: 4 });
    assert_eq!(
        Value::Text(Text::with_en_us("x")),
        Value::Text(Text::with_en_us("x")),
    );
    assert_ne!(
        Value::Text(Text::with_en_us("x")),
        Value::Text(Text::with_en_us("y")),
    );
}

#[test]
fn value_candidates_compare_by_score_and_value() {
    let a = ValueCandidate { attention: AttentionUnit { amount: 3 }, value: Value::Bool(true) };
    let b = ValueCandidate { attention: AttentionUnit { amount: 3 }, value: Value::Bool(true) };
    let c = ValueCandidate { attention: AttentionUnit { amount: 4 }, value: Value::Bool(true) };
    assert!(a == b);
    assert!(a != c);
}

#[test]
fn an_empty_tree_holds_nothing() {
    let t = NodeTree::new();
    assert_eq!(t.children.len(), 0);
    let leaf = Child::Candidate(ValueCandidate {
        attention: AttentionUnit { amount: 1 },
        value: Value::U64(9),
    });
    let mut t2 = NodeTree { children: Vec::new() };
    t2.children.push((Key::new(Text::with_en_us("k"), Kind::U64), leaf));
    assert_eq!(t2.children.len(), 1);
}
