use object_store::{ObjectRef, ObjectStore};

fn fresh() -> ObjectStore<String> {
    ObjectStore::default()
}

#[test]
fn get_after_insert_gives_value() {
    let mut store = fresh();
    let h = store.insert("hello".to_string());
    assert_eq!(store.get(&h), "hello");
}

#[test]
fn get_mut_changes_value_in_place() {
    let mut store = fresh();
    let h = store.insert("a".to_string());
    store.get_mut(&h).push('b');
    assert_eq!(store.get(&h), "ab");
}

#[test]
fn distinct_inserts_get_distinct_slots() {
    let mut store = fresh();
    let a = store.insert("a".to_string());
    let b = store.insert("b".to_string());
    assert_eq!(store.get(&a), "a");
    assert_eq!(store.get(&b), "b");
}

#[test]
fn live_counts_follow_clones_and_drops() {
    let mut store = fresh();
    let a = store.insert("a".to_string());
    let b = store.insert("b".to_string());
    assert_eq!(store.live_counts(), vec![1, 1]);
    let a2 = a.clone();
    let a3 = a2.clone();
    assert_eq!(store.live_counts(), vec![3, 1]);
    drop(a2);
    assert_eq!(store.live_counts(), vec![2, 1]);
    drop(a);
    drop(a3);
    assert_eq!(store.live_counts(), vec![0, 1]);
    store.clean();
    assert_eq!(store.live_counts(), vec![0, 1]);
    assert_eq!(store.get(&b), "b");
}

#[test]
fn clean_removes_only_the_released_slot() {
    let mut store = fresh();
    let a = store.insert("a".to_string());
    let b = store.insert("b".to_string());
    let c = store.insert("c".to_string());
    drop(b);
    store.clean();
    assert_eq!(store.get(&a), "a");
    assert_eq!(store.get(&c), "c");
    // the freed key is reused by the next insert
    let d = store.insert("d".to_string());
    assert_eq!(store.live_counts(), vec![1, 1, 1]);
    assert_eq!(store.get(&d), "d");
    assert_eq!(store.get(&a), "a");
    assert_eq!(store.get(&c), "c");
}

#[test]
fn clean_keeps_surviving_keys_stable() {
    let mut store = fresh();
    let mut handles: Vec<ObjectRef<String>> = Vec::new();
    for i in 0..10 {
        handles.push(store.insert(format!("v{}", i)));
    }
    let mut kept: Vec<(usize, ObjectRef<String>)> = Vec::new();
    for (i, h) in handles.into_iter().enumerate() {
        if i % 3 != 0 {
            kept.push((i, h));
        }
    }
    store.clean();
    for (i, h) in &kept {
        assert_eq!(store.get(h), &format!("v{}", i));
    }
    let counts = store.live_counts();
    for i in 0..10 {
        assert_eq!(counts[i], if i % 3 == 0 { 0 } else { 1 });
    }
}

#[test]
fn clean_with_counts_removes_zero_counted_slots() {
    let mut store = fresh();
    let a = store.insert("a".to_string());
    let b = store.insert("b".to_string());
    let c = store.insert("c".to_string());
    drop(b);
    store.clean_with_counts(&vec![1, 0]);
    assert_eq!(store.get(&a), "a");
    assert_eq!(store.get(&c), "c");
    // the slot of `b` is gone and its key is free for the next insert
    let e = store.insert("e".to_string());
    assert_eq!(store.get(&e), "e");
    assert_eq!(store.live_counts(), vec![1, 1, 1]);
}

#[test]
fn remove_last_handle_returns_value() {
    let mut store = fresh();
    let h = store.insert("x".to_string());
    assert_eq!(store.remove(h), Some("x".to_string()));
    assert_eq!(store.live_counts(), vec![0]);
}

#[test]
fn remove_with_other_clones_returns_none() {
    let mut store = fresh();
    let h1 = store.insert("x".to_string());
    let h2 = h1.clone();
    assert_eq!(store.remove(h1), None);
    assert_eq!(store.get(&h2), "x");
    assert_eq!(store.remove(h2), Some("x".to_string()));
}

#[test]
fn remove_after_dropping_others_round_trips() {
    let mut store = fresh();
    let h1 = store.insert("value".to_string());
    let h2 = h1.clone();
    let h3 = h2.clone();
    drop(h1);
    drop(h3);
    assert_eq!(store.remove(h2), Some("value".to_string()));
}

#[test]
fn handle_from_another_store_is_not_honoured() {
    let mut a = fresh();
    let mut b = fresh();
    let ha = a.insert("from a".to_string());
    let hb = b.insert("from b".to_string());
    assert_ne!(b.remove(ha), Some("from b".to_string()));
    assert_eq!(b.get(&hb), "from b");
    assert_eq!(b.live_counts(), vec![1]);
}

#[test]
fn clone_then_drop_original_then_clean() {
    let mut store = fresh();
    let handle1 = store.insert("a".to_string());
    let handle2 = handle1.clone();
    drop(handle1);
    store.clean();
    assert_eq!(store.get(&handle2), "a");
    assert_eq!(store.live_counts(), vec![1]);
    drop(handle2);
    store.clean();
    assert_eq!(store.live_counts(), vec![0]);
    let next = store.insert("b".to_string());
    assert_eq!(store.get(&next), "b");
    assert_eq!(store.live_counts(), vec![1]);
}

#[test]
fn handle_moved_away_and_dropped_is_reclaimed() {
    let mut store = fresh();
    let h = store.insert("a".to_string());
    let moved = Box::new(h.clone());
    store.clean();
    assert_eq!(store.live_counts(), vec![2]);
    drop(moved);
    store.clean();
    assert_eq!(store.get(&h), "a");
    drop(h);
    store.clean();
    assert_eq!(store.live_counts(), vec![0]);
}

#[test]
fn handles_are_send_and_sync_for_any_value() {
    fn assert_send_sync<X: Send + Sync>() {}
    assert_send_sync::<ObjectRef<std::rc::Rc<u8>>>();
    assert_send_sync::<ObjectRef<std::cell::Cell<u8>>>();
}

#[test]
fn empty_store_has_no_slots() {
    let mut store = fresh();
    assert_eq!(store.live_counts(), Vec::<usize>::new());
    store.clean();
    store.clean_with_counts(&vec![]);
    assert_eq!(store.live_counts(), Vec::<usize>::new());
}
