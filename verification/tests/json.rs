use router_sync::json::{json_eq, number_eq, JsonNumber, JsonValue};

fn s(t: &str) -> JsonValue {
    JsonValue::Str(t.to_string())
}

fn obj(members: Vec<(&str, JsonValue)>) -> JsonValue {
    JsonValue::Object(members.into_iter().map(|(k, v)| (k.to_string(), v)).collect())
}

fn num(n: u64) -> JsonValue {
    JsonValue::Number(JsonNumber::PosInt(n))
}

#[test]
fn objects_compare_as_maps() {
    let a = obj(vec![("x", num(1)), ("y", s("b"))]);
    let b = obj(vec![("y", s("b")), ("x", num(1))]);
    let c = obj(vec![("x", num(1))]);
    let d = obj(vec![("x", num(2)), ("y", s("b"))]);
    assert!(json_eq(&a, &b));
    assert!(!json_eq(&a, &c));
    assert!(!json_eq(&c, &a));
    assert!(!json_eq(&a, &d));
}

#[test]
fn arrays_compare_in_order() {
    let a = JsonValue::Array(vec![num(1), num(2)]);
    let b = JsonValue::Array(vec![num(2), num(1)]);
    assert!(!json_eq(&a, &b));
    assert!(json_eq(&a, &JsonValue::Array(vec![num(1), num(2)])));
}

#[test]
fn numbers_compare_by_value_and_kind() {
    let zero = JsonNumber::Float(0.0f64.to_bits());
    let neg_zero = JsonNumber::Float((-0.0f64).to_bits());
    assert!(number_eq(zero, neg_zero));
    assert!(!number_eq(JsonNumber::PosInt(1), JsonNumber::Float(1.0f64.to_bits())));
    assert!(number_eq(JsonNumber::NegInt(-3), JsonNumber::NegInt(-3)));
    assert!(!number_eq(JsonNumber::NegInt(-3), JsonNumber::NegInt(-4)));
}

#[test]
fn get_reads_members_of_objects_only() {
    let v = obj(vec![("a", s("x"))]);
    assert!(json_eq(v.get("a").unwrap(), &s("x")));
    assert!(v.get("b").is_none());
    assert!(s("a").get("a").is_none());
    assert!(JsonValue::Null.get("a").is_none());
}

#[test]
fn set_path_creates_objects_through_null() {
    let path = vec!["a".to_string(), "b".to_string()];
    let v = JsonValue::Null.set_path(&path, num(7));
    let expected = obj(vec![("a", obj(vec![("b", num(7))]))]);
    assert!(json_eq(&v, &expected));
    let back = v.get_path(&path).unwrap();
    assert!(json_eq(back, &num(7)));
}

#[test]
fn set_path_replaces_and_keeps_siblings() {
    let path = vec!["a".to_string()];
    let v = obj(vec![("a", num(1)), ("b", num(2))]).set_path(&path, num(3));
    assert!(json_eq(&v, &obj(vec![("b", num(2)), ("a", num(3))])));
}

#[test]
fn set_path_refuses_non_objects() {
    let path = vec!["a".to_string(), "b".to_string()];
    assert!(!obj(vec![("a", s("text"))]).can_set_path(&path));
    assert!(obj(vec![("a", JsonValue::Null)]).can_set_path(&path));
    assert!(!JsonValue::Array(vec![]).can_set_path(&path));
    assert!(JsonValue::Array(vec![]).can_set_path(&vec![]));
}

#[test]
fn copy_is_the_same_document() {
    let v = obj(vec![("a", JsonValue::Array(vec![num(1), JsonValue::Bool(true)]))]);
    assert!(json_eq(&v.copy(), &v));
}

#[test]
fn accessors_read_their_kind() {
    assert_eq!(num(5).as_u64(), Some(5));
    assert_eq!(JsonValue::Number(JsonNumber::NegInt(-5)).as_u64(), None);
    assert_eq!(JsonValue::Bool(true).as_bool(), Some(true));
    assert_eq!(s("x").as_str().map(|t| t.as_str()), Some("x"));
    assert!(num(1).as_str().is_none());
}
