use storage2::keys::{key_less, starts_with};
use storage2::snapshot::Storage;
use storage2::transaction::Transaction;

#[test]
fn fresh_store_put_commit_snapshot() {
    let mut store = Storage::new();
    assert_eq!(store.latest_version(), 0);
    let mut st = store.latest_state();
    let mut tx = Transaction::new(&mut st);
    tx.put_raw("k".to_string(), vec![1, 2, 3]);
    assert!(tx.commit().is_ok());
    assert_eq!(store.commit(&st), Some(1));
    let snap = store.snapshot(1).unwrap();
    assert_eq!(snap.version(), 1);
    assert_eq!(snap.get_raw("k"), Some(vec![1, 2, 3]));
    assert_eq!(snap.get_raw("missing"), None);
}

#[test]
fn snapshot_pinned_to_its_version() {
    let mut store = Storage::new();
    let mut st = store.latest_state();
    st.put_raw("k".to_string(), vec![1]);
    assert_eq!(store.commit(&st), Some(1));
    let pinned = store.latest_snapshot();
    let mut st2 = store.latest_state();
    st2.put_raw("k".to_string(), vec![2]);
    st2.put_raw("n".to_string(), vec![5]);
    assert_eq!(store.commit(&st2), Some(2));
    assert_eq!(pinned.version(), 1);
    assert_eq!(pinned.get_raw("k"), Some(vec![1]));
    assert_eq!(pinned.get_raw("n"), None);
    assert_eq!(store.snapshot(1).unwrap().get_raw("k"), Some(vec![1]));
    assert_eq!(store.snapshot(2).unwrap().get_raw("k"), Some(vec![2]));
    assert_eq!(store.snapshot(0).unwrap().get_raw("k"), None);
    assert!(store.snapshot(3).is_none());
}

#[test]
fn deletes_reach_the_next_version() {
    let mut store = Storage::new();
    let mut st = store.latest_state();
    st.put_raw("k".to_string(), vec![1]);
    st.put_nonconsensus(vec![0], vec![8]);
    store.commit(&st);
    let mut st2 = store.latest_state();
    st2.delete("k".to_string());
    st2.delete_nonconsensus(vec![0]);
    store.commit(&st2);
    let snap = store.latest_snapshot();
    assert_eq!(snap.get_raw("k"), None);
    assert_eq!(snap.get_nonconsensus(&[0]), None);
    assert_eq!(store.snapshot(1).unwrap().get_nonconsensus(&[0]), Some(vec![8]));
    assert!(snap.prefix_raw("").is_empty());
}

#[test]
fn prefix_scan_in_order() {
    let mut store = Storage::new();
    let mut st = store.latest_state();
    st.put_raw("b/1".to_string(), b"z".to_vec());
    st.put_raw("a/2".to_string(), b"y".to_vec());
    st.put_raw("a/1".to_string(), b"x".to_vec());
    store.commit(&st);
    let snap = store.latest_snapshot();
    assert_eq!(
        snap.prefix_raw("a/"),
        vec![("a/1".to_string(), b"x".to_vec()), ("a/2".to_string(), b"y".to_vec())]
    );
    assert_eq!(snap.prefix_raw("b/"), vec![("b/1".to_string(), b"z".to_vec())]);
    assert!(snap.prefix_raw("c").is_empty());
    assert_eq!(snap.prefix_raw("").len(), 3);
}

#[test]
fn state_prefix_sees_staged_changes() {
    let mut store = Storage::new();
    let mut st = store.latest_state();
    st.put_raw("a/1".to_string(), vec![1]);
    store.commit(&st);
    let mut st2 = store.latest_state();
    st2.put_raw("a/0".to_string(), vec![0]);
    st2.delete("a/1".to_string());
    assert_eq!(st2.prefix_raw("a/"), vec![("a/0".to_string(), vec![0])]);
}

#[test]
fn key_order_is_lexicographic() {
    assert!(key_less("a", "b"));
    assert!(key_less("a", "a/"));
    assert!(key_less("", "a"));
    assert!(!key_less("a", "a"));
    assert!(!key_less("b", "a/1"));
    assert!(key_less("Z", "a"));
    assert!(key_less("é", "ê"));
}

#[test]
fn prefix_test() {
    assert!(starts_with("a/1", "a/"));
    assert!(starts_with("a/", "a/"));
    assert!(starts_with("abc", ""));
    assert!(!starts_with("a", "a/"));
    assert!(!starts_with("b/1", "a/"));
}
