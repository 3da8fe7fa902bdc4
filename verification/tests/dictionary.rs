use axum_apiserver::dict::Dict;

#[test]
fn dict_insert_get_and_overwrite() {
    let mut d: Dict<u32> = Dict::new();
    assert_eq!(d.len(), 0);
    assert!(d.get("a").is_none());
    d.insert("a".to_string(), 1);
    d.insert("b".to_string(), 2);
    d.insert("a".to_string(), 3);
    assert_eq!(d.len(), 2);
    assert_eq!(d.get("a"), Some(&3));
    assert_eq!(d.get("b"), Some(&2));
    assert_eq!(d.find("a"), Some(0));
    assert_eq!(d.find("b"), Some(1));
    assert_eq!(d.find("c"), None);
    assert_eq!(d.key_at(1), "b");
    assert_eq!(d.value_at(0), &3);
}

#[test]
fn dict_pop_takes_last_inserted_entry() {
    let mut d: Dict<u32> = Dict::new();
    assert!(d.pop().is_none());
    d.insert("a".to_string(), 1);
    d.insert("b".to_string(), 2);
    assert_eq!(d.pop(), Some(("b".to_string(), 2)));
    assert_eq!(d.len(), 1);
    assert!(d.get("b").is_none());
    assert_eq!(d.get("a"), Some(&1));
    assert_eq!(d.pop(), Some(("a".to_string(), 1)));
    assert!(d.pop().is_none());
}
