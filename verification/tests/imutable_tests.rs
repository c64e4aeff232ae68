use chainmap::LockedChainMap;

fn key(s: &str) -> String {
    String::from(s)
}

#[test]
fn imutable_initialization() {
    let mut test_map = im_rc::HashMap::new();
    test_map.insert(key("test"), 1);
    let chain_map = LockedChainMap::new(test_map);

    assert!(chain_map.child_len() > 0);
    assert_eq!(chain_map.get_before(1, &key("test")), Some(1));
}

#[test]
fn imutable_initialization_default() {
    let mut chain_map = LockedChainMap::default();

    assert!(chain_map.child_len() > 0);
    let first = chain_map.remove_child().unwrap();
    assert!(first.is_empty());
}

#[test]
fn imutable_insert() {
    let mut chain_map = LockedChainMap::default();
    assert!(chain_map.insert(key("test"), 1).is_none());

    assert_eq!(chain_map.get_before(1, &key("test")), Some(1));
}

#[test]
fn imutable_insert_at() {
    let mut chain_map = LockedChainMap::default();
    chain_map.insert(key("banana"), 1);
    chain_map.new_child();

    chain_map.insert_at(0, key("strawberry"), 2).unwrap();
    assert_eq!(chain_map.get_before(1, &key("strawberry")), Some(2));
    assert!(!chain_map.has_at(1, &key("strawberry")));
}

#[test]
#[should_panic = "IndexOutOfRange"]
fn imutable_insert_at_out_of_bounds() {
    let mut chain_map = LockedChainMap::default();
    chain_map.insert(key("banana"), 1);
    chain_map.new_child();

    chain_map.insert_at(37, key("strawberry"), 2).unwrap();
}

#[test]
fn imutable_get() {
    let mut chain_map = LockedChainMap::default();
    chain_map.insert(key("test"), 1);

    assert_eq!(chain_map.get(&key("test")), Some(1));
}

#[test]
fn imutable_get_none() {
    let chain_map = LockedChainMap::default();
    assert_eq!(chain_map.get(&key("test")), None);
}

#[test]
fn imutable_get_mut() {
    let mut chain_map = LockedChainMap::default();
    chain_map.insert(key("test"), 1);

    let test_value = chain_map.get_mut(&key("test"), 2);
    assert_eq!(test_value, Some(1));
    let changed = chain_map.get(&key("test"));
    assert_eq!(changed, Some(2));
}

#[test]
fn imutable_get_mut_outer() {
    let mut chain_map = LockedChainMap::default();
    chain_map.insert(key("outer"), 1);
    chain_map.new_child();
    chain_map.insert(key("inner"), 2);
    let ret = chain_map.get_mut(&key("outer"), 9001).unwrap();
    assert_eq!(ret, 1);

    let changed = chain_map.get(&key("outer"));
    assert_eq!(changed, Some(9001));
}

#[test]
fn imutable_index() {
    let mut chain_map = LockedChainMap::default();
    chain_map.insert(key("test"), 1);

    assert_eq!(chain_map.get(&key("test")).unwrap(), 1);
}

#[test]
fn imutable_new_child() {
    let mut chain_map = LockedChainMap::default();
    chain_map.insert(key("test"), 1);
    chain_map.new_child();
    assert!(chain_map.child_len() > 1);
}

#[test]
fn imutable_scopes() {
    let mut chain_map = LockedChainMap::default();
    chain_map.insert(key("x"), 0);
    chain_map.insert(key("y"), 2);
    chain_map.new_child();
    chain_map.insert(key("x"), 1);
    assert_eq!(chain_map.get(&key("x")), Some(1));
    assert_eq!(chain_map.get(&key("y")), Some(2));
}

#[test]
fn imutable_remove_child() {
    let mut chain_map = LockedChainMap::default();
    chain_map.insert(key("x"), 0);
    chain_map.insert(key("y"), 2);
    chain_map.new_child();
    chain_map.insert(key("x"), 1);
    let ret = chain_map.remove_child().unwrap();
    assert_eq!(ret.get(&key("x")), Some(&1));
    assert_eq!(chain_map.get(&key("x")), Some(0));
}

#[test]
fn imutable_remove_child_length_1() {
    let mut chain_map = LockedChainMap::default();
    chain_map.insert(key("x"), 0);
    let _ = chain_map.remove_child();
    assert_eq!(chain_map.get(&key("x")), None);
    assert!(chain_map.child_len() == 1);
}

#[test]
fn imutable_has_at_exists() {
    let mut chain_map = LockedChainMap::default();
    chain_map.insert(key("x"), 0);

    assert!(chain_map.has_at(0, &key("x")));
}

#[test]
fn imutable_has_at_doesnt_exist() {
    let chain_map = LockedChainMap::default();

    assert!(!chain_map.has_at(11, &key("x")));
}

#[test]
fn imutable_last_has_true() {
    let mut chain_map = LockedChainMap::default();
    chain_map.insert(key("x"), 0);
    chain_map.new_child();
    chain_map.insert(key("y"), 1);

    assert!(chain_map.last_has(&key("y")));
}

#[test]
fn imutable_last_has_false() {
    let mut chain_map = LockedChainMap::default();
    chain_map.insert(key("x"), 0);
    chain_map.new_child();
    chain_map.insert(key("y"), 1);

    assert!(!chain_map.last_has(&key("x")));
}

#[test]
fn imutable_child_len() {
    let mut chain_map = LockedChainMap::default();
    assert_eq!(chain_map.child_len(), 1);

    for i in 2..100 {
        chain_map.new_child();
        assert_eq!(chain_map.child_len(), i);
    }
}

#[test]
fn imutable_get_before_exists() {
    let mut chain_map = LockedChainMap::default();
    chain_map.insert(key("test"), 1);
    chain_map.new_child();
    chain_map.insert(key("test"), 2);

    assert_eq!(chain_map.get_before(1, &key("test")), Some(1));
}

#[test]
fn imutable_get_before_mut_exists() {
    let mut chain_map = LockedChainMap::default();
    chain_map.insert(key("test"), 1);
    chain_map.new_child();
    chain_map.insert(key("test"), 2);

    let test_value = chain_map.get_before_mut(1, &key("test"), 3);
    assert_eq!(test_value, Some(1));
    let changed = chain_map.get_before(1, &key("test"));
    assert_eq!(changed, Some(3));
    let child = chain_map.get(&key("test"));
    assert_eq!(child, Some(2));
}

#[test]
fn imutable_get_last_index_exists() {
    let mut chain_map = LockedChainMap::default();
    chain_map.insert(key("test1"), 1);
    chain_map.new_child();
    chain_map.insert(key("test2"), 2);

    assert_eq!(chain_map.get_last_index(&key("test1")), Some(0));
    assert_eq!(chain_map.get_last_index(&key("test2")), Some(1));
}

#[test]
fn imutable_get_last_index_doesnt_exist() {
    let mut chain_map = LockedChainMap::default();
    chain_map.insert(key("test1"), 1);
    chain_map.new_child();
    chain_map.insert(key("test2"), 2);

    assert_eq!(chain_map.get_last_index(&key("shmee")), None);
}
