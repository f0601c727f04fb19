use script_ast::hash::SSMap;

#[test]
fn hash() {
    let map = SSMap::<i32>::new();
    let str_hash = map.hash_str("abc");
    let string_hash = map.hash_string(&"abc".to_string());

    assert_eq!(str_hash, string_hash);
}

#[test]
fn insert() {
    let mut map = SSMap::<i32>::new();
    map.insert_with_str("abc", 1);
    map.insert_with_str("def", 1);
    map.insert_with_string(&"abc".to_string(), 2);

    let abc_hv = map.hash_str("abc");
    let def_hv = map.hash_str("def");
    assert_eq!(map.table[abc_hv].len(), 1);
    assert_eq!(map.table[abc_hv][0].1, 2);
    assert_eq!(map.table[def_hv].len(), 1);
    assert_eq!(map.table[def_hv][0].1, 1);
}

#[test]
fn get_and_index() {
    let mut map = SSMap::<i32>::new();
    map.insert_with_str("abc", 1);

    let str_get = map.get_from_str("abc").unwrap();
    assert_eq!(*str_get, 1);
    let index_get = *map.index("abc");
    let string_get = map.get_from_string(&"abc".to_string()).unwrap();
    assert_eq!(index_get, 1);
    assert_eq!(*string_get, 1);
}

#[test]
fn get_mut() {
    let mut map = SSMap::<i32>::new();
    map.insert_with_str("str", 1);
    map.insert_with_str("string", 1);

    *map.get_mut_from_str("str").unwrap() = 2;
    *map.get_mut_from_string(&"string".to_string()).unwrap() = 2;

    assert_eq!(*map.index("str"), 2);
    assert_eq!(*map.index("string"), 2);
}

#[test]
fn insert_overwrites_and_contains() {
    let mut map = SSMap::<u64>::new();
    assert!(!map.contains_key_with_str("k"));
    map.insert_with_str("k", 10);
    assert!(map.contains_key_with_str("k"));
    assert!(map.contains_key_with_string(&"k".to_string()));
    map.insert_with_str("k", 11);
    assert_eq!(*map.get_from_str("k").unwrap(), 11);
    assert!(map.get_from_str("other").is_none());
}

#[test]
fn with_capacity_single_bucket() {
    let mut map = SSMap::<i32>::with_capacity(1);
    map.insert_with_str("a", 1);
    map.insert_with_str("b", 2);
    map.insert_with_str("c", 3);
    assert_eq!(*map.get_from_str("a").unwrap(), 1);
    assert_eq!(*map.get_from_str("b").unwrap(), 2);
    assert_eq!(*map.get_from_str("c").unwrap(), 3);
    assert!(map.get_from_str("d").is_none());
    assert_eq!(map.table[0].len(), 3);
}

#[test]
fn str_and_string_share_keys() {
    let mut map = SSMap::<i32>::new();
    map.insert_with_string(&"same".to_string(), 5);
    assert_eq!(*map.get_from_str("same").unwrap(), 5);
    map.insert_with_str("same", 6);
    assert_eq!(*map.get_from_string(&"same".to_string()).unwrap(), 6);
}
