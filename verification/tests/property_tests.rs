use chainmap::{ChainMap, ChainSet, Error, LockedChainMap};

fn key(s: &str) -> String {
    String::from(s)
}

#[test]
fn shadowing_across_frames() {
    let mut chain_map = ChainMap::default();
    chain_map.new_child();
    chain_map.new_child();

    chain_map.insert_at(0, key("k"), 10).unwrap();
    chain_map.insert_at(2, key("k"), 20).unwrap();

    assert_eq!(chain_map.get(&key("k")), Some(&20));
    assert_eq!(chain_map.get_before(2, &key("k")), Some(&10));
    assert_eq!(chain_map.get_before(0, &key("k")), None);
}

#[test]
fn length_formula_pushes_and_pops() {
    let mut chain_map: ChainMap<i64> = ChainMap::default();
    assert_eq!(chain_map.child_len(), 1);
    chain_map.new_child();
    chain_map.new_child();
    chain_map.new_child();
    assert_eq!(chain_map.child_len(), 4);
    chain_map.remove_child();
    chain_map.remove_child();
    assert_eq!(chain_map.child_len(), 2);
}

#[test]
fn length_never_below_one() {
    let mut chain_map: ChainMap<i64> = ChainMap::default();
    for _ in 0..5 {
        chain_map.remove_child();
        assert_eq!(chain_map.child_len(), 1);
    }
    chain_map.new_child();
    chain_map.remove_child();
    chain_map.remove_child();
    assert_eq!(chain_map.child_len(), 1);
}

#[test]
fn pop_at_one_clears_in_place() {
    let mut chain_map = ChainMap::default();
    chain_map.insert(key("x"), 7);
    assert_eq!(chain_map.child_len(), 1);

    let popped = chain_map.remove_child().unwrap();
    assert_eq!(popped.get(&key("x")), Some(&7));
    assert_eq!(chain_map.child_len(), 1);
    assert_eq!(chain_map.get(&key("x")), None);
    assert!(!chain_map.last_has(&key("x")));
}

#[test]
fn pop_at_one_clears_in_place_persistent() {
    let mut chain_map = LockedChainMap::default();
    chain_map.insert(key("x"), 7);
    assert_eq!(chain_map.child_len(), 1);

    let popped = chain_map.remove_child().unwrap();
    assert_eq!(popped.get(&key("x")), Some(&7));
    assert_eq!(chain_map.child_len(), 1);
    assert_eq!(chain_map.get(&key("x")), None);
    assert!(!chain_map.last_has(&key("x")));
}

#[test]
fn split_append_round_trip() {
    let mut original = LockedChainMap::default();
    original.insert(key("a"), 1);
    original.new_child();
    original.insert(key("b"), 2);
    original.new_child();
    original.insert(key("c"), 3);

    for split_at in 0..=3 {
        let mut left = original.clone();
        let right = left.split_off(split_at);
        assert_eq!(left.child_len(), split_at);
        assert_eq!(right.child_len(), 3 - split_at);

        left.append(right);
        assert_eq!(left.child_len(), 3);
        assert_eq!(left.get(&key("a")), Some(1));
        assert_eq!(left.get(&key("b")), Some(2));
        assert_eq!(left.get(&key("c")), Some(3));
        assert_eq!(left.get_last_index(&key("a")), Some(0));
        assert_eq!(left.get_last_index(&key("b")), Some(1));
        assert_eq!(left.get_last_index(&key("c")), Some(2));
    }
}

#[test]
fn persistent_isolation() {
    let mut original = LockedChainMap::default();
    original.insert(key("x"), 1);
    original.new_child();
    original.insert(key("y"), 2);

    let mut branch = original.clone();
    branch.insert(key("x"), 100);
    branch.insert(key("z"), 3);
    branch.new_child();
    branch.insert(key("y"), 200);
    branch.remove_child();
    branch.insert_at(0, key("w"), 4).unwrap();

    assert_eq!(original.child_len(), 2);
    assert_eq!(original.get(&key("x")), Some(1));
    assert_eq!(original.get(&key("y")), Some(2));
    assert_eq!(original.get(&key("z")), None);
    assert_eq!(original.get(&key("w")), None);
    assert_eq!(original.get_last_index(&key("x")), Some(0));
    assert_eq!(original.get_last_index(&key("y")), Some(1));
}

#[test]
fn persistent_isolation_after_split() {
    let mut original = LockedChainMap::default();
    original.insert(key("x"), 1);
    original.new_child();
    original.insert(key("y"), 2);

    let mut branch = original.clone();
    let tail = branch.split_off(1);
    drop(tail);

    assert_eq!(original.child_len(), 2);
    assert_eq!(original.get(&key("x")), Some(1));
    assert_eq!(original.get(&key("y")), Some(2));
}

#[test]
fn out_of_range_leaves_chain_unchanged() {
    let mut chain_map = ChainMap::default();
    chain_map.insert(key("x"), 1);

    for len in 1..=2 {
        assert_eq!(chain_map.child_len(), len as usize);
        let err = chain_map.insert_at(len as usize, key("k"), 9).unwrap_err();
        assert_eq!(err, Error::IndexOutOfRange);
        assert_eq!(chain_map.child_len(), len as usize);
        assert_eq!(chain_map.get(&key("x")), Some(&1));
        assert_eq!(chain_map.get(&key("k")), None);
        chain_map.new_child();
    }
}

#[test]
fn out_of_range_leaves_chain_unchanged_persistent() {
    let mut chain_map = LockedChainMap::default();
    chain_map.insert(key("x"), 1);

    for len in 1..=2 {
        assert_eq!(chain_map.child_len(), len as usize);
        let err = chain_map.insert_at(len as usize, key("k"), 9).unwrap_err();
        assert_eq!(err, Error::IndexOutOfRange);
        assert_eq!(chain_map.child_len(), len as usize);
        assert_eq!(chain_map.get(&key("x")), Some(1));
        assert_eq!(chain_map.get(&key("k")), None);
        chain_map.new_child();
    }
}

#[test]
fn scopes_with_get_before() {
    let mut chain_map = ChainMap::default();
    chain_map.insert(key("x"), 0);
    chain_map.insert(key("y"), 2);
    chain_map.new_child();
    chain_map.insert(key("x"), 1);

    assert_eq!(chain_map.get(&key("x")), Some(&1));
    assert_eq!(chain_map.get(&key("y")), Some(&2));
    assert_eq!(chain_map.get_before(1, &key("x")), Some(&0));
}

#[test]
fn set_shadowed_duplicate_not_added() {
    let mut chain_set = ChainSet::default();
    chain_set.insert(key("x"));
    chain_set.insert(key("y"));
    chain_set.new_child();

    assert!(!chain_set.insert(key("x")));

    let child = chain_set.remove_child().unwrap();
    assert_eq!(child.get(&key("x")), None);
    assert_eq!(chain_set.get(&key("x")), Some(&key("x")));
}

#[test]
fn split_rejoin_three_frames() {
    let mut original = LockedChainMap::default();
    original.insert(key("a"), 1);
    original.new_child();
    original.insert(key("b"), 2);
    original.new_child();
    original.insert(key("c"), 3);

    let tail = original.split_off(1);
    assert_eq!(original.child_len(), 1);
    assert!(original.has_at(0, &key("a")));
    assert_eq!(original.get(&key("b")), None);
    assert_eq!(tail.child_len(), 2);
    assert!(tail.has_at(0, &key("b")));
    assert!(tail.has_at(1, &key("c")));

    original.append(tail);
    assert_eq!(original.child_len(), 3);
    assert!(original.has_at(0, &key("a")));
    assert!(original.has_at(1, &key("b")));
    assert!(original.has_at(2, &key("c")));
    assert_eq!(original.get(&key("a")), Some(1));
    assert_eq!(original.get(&key("b")), Some(2));
    assert_eq!(original.get(&key("c")), Some(3));
}

#[test]
fn persistent_matches_exclusive_queries() {
    let mut exclusive = ChainMap::default();
    let mut persistent = LockedChainMap::default();
    let pairs = [("a", 1), ("b", 2), ("a", 3)];
    for (k, v) in pairs {
        exclusive.insert(key(k), v);
        persistent.insert(key(k), v);
        exclusive.new_child();
        persistent.new_child();
    }

    for probe in ["a", "b", "c"] {
        assert_eq!(exclusive.get(&key(probe)).copied(), persistent.get(&key(probe)));
        assert_eq!(
            exclusive.get_last_index(&key(probe)),
            persistent.get_last_index(&key(probe))
        );
        for idx in 0..4 {
            assert_eq!(
                exclusive.get_before(idx, &key(probe)).copied(),
                persistent.get_before(idx, &key(probe))
            );
            assert_eq!(
                exclusive.has_at(idx, &key(probe)),
                persistent.has_at(idx, &key(probe))
            );
        }
    }
}
