use mcp_authorization::json::{clone_object, get, Json};

fn object(entries: Vec<(&str, Json)>) -> Vec<(String, Json)> {
    entries.into_iter().map(|(k, v)| (k.to_string(), v)).collect()
}

#[test]
fn get_finds_first_entry_with_key() {
    let o = object(vec![("a", Json::Null), ("b", Json::Bool(true)), ("b", Json::Bool(false))]);
    assert_eq!(get(&o, "b"), Some(&Json::Bool(true)));
    assert_eq!(get(&o, "a"), Some(&Json::Null));
    assert_eq!(get(&o, "c"), None);
}

#[test]
fn clone_copies_nested_values() {
    let o = object(vec![
        ("n", Json::Number("1.5".to_string())),
        ("a", Json::Array(vec![Json::Str("x".to_string()), Json::Object(object(vec![("k", Json::Null)]))])),
    ]);
    assert_eq!(clone_object(&o), o);
    let v = Json::Object(o.clone());
    assert_eq!(v.clone(), v);
}
