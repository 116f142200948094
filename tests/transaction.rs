use storage2::snapshot::Storage;
use storage2::state::State;
use storage2::transaction::Transaction;

fn state_with(key: &str, value: &[u8]) -> State {
    let store = Storage::new();
    let mut st = store.latest_state();
    st.put_raw(key.to_string(), value.to_vec());
    st
}

#[test]
fn put_then_get_overrides_base() {
    let mut st = state_with("k", &[9]);
    let mut tx = Transaction::new(&mut st);
    tx.put_raw("k".to_string(), vec![1, 2]);
    assert_eq!(tx.get_raw("k"), Some(vec![1, 2]));
}

#[test]
fn put_then_get_on_empty_base() {
    let store = Storage::new();
    let mut st = store.latest_state();
    let mut tx = Transaction::new(&mut st);
    tx.put_raw("fresh".to_string(), vec![]);
    assert_eq!(tx.get_raw("fresh"), Some(vec![]));
}

#[test]
fn delete_then_get_is_absent() {
    let mut st = state_with("k", &[9]);
    let mut tx = Transaction::new(&mut st);
    assert_eq!(tx.get_raw("k"), Some(vec![9]));
    tx.delete("k".to_string());
    assert_eq!(tx.get_raw("k"), None);
}

#[test]
fn last_write_wins() {
    let mut st = state_with("other", &[0]);
    let mut tx = Transaction::new(&mut st);
    tx.put_raw("k".to_string(), vec![1]);
    tx.put_raw("k".to_string(), vec![2]);
    assert_eq!(tx.get_raw("k"), Some(vec![2]));
    tx.delete("k".to_string());
    assert_eq!(tx.get_raw("k"), None);
    assert_eq!(tx.get_raw("other"), Some(vec![0]));
}

#[test]
fn commit_merges_into_state() {
    let mut st = state_with("a", &[1]);
    st.put_raw("b".to_string(), vec![2]);
    let mut tx = Transaction::new(&mut st);
    tx.put_raw("a".to_string(), vec![10]);
    tx.delete("b".to_string());
    tx.put_raw("c".to_string(), vec![30]);
    tx.put_nonconsensus(vec![7], vec![70]);
    assert!(tx.commit().is_ok());
    assert_eq!(st.get_raw("a"), Some(vec![10]));
    assert_eq!(st.get_raw("b"), None);
    assert_eq!(st.get_raw("c"), Some(vec![30]));
    assert_eq!(st.get_nonconsensus(&[7]), Some(vec![70]));
}

#[test]
fn dropped_transaction_leaves_state() {
    let mut st = state_with("a", &[1]);
    {
        let mut tx = Transaction::new(&mut st);
        tx.put_raw("a".to_string(), vec![2]);
        tx.delete("a".to_string());
        tx.put_raw("z".to_string(), vec![3]);
        tx.put_nonconsensus(vec![1], vec![1]);
    }
    assert_eq!(st.get_raw("a"), Some(vec![1]));
    assert_eq!(st.get_raw("z"), None);
    assert_eq!(st.get_nonconsensus(&[1]), None);
}

#[test]
fn failed_commit_is_refused_with_reason() {
    let mut st = state_with("a", &[1]);
    let mut tx = Transaction::new(&mut st);
    tx.put_raw("a".to_string(), vec![5]);
    tx.fail("R".to_string());
    let err = tx.commit().unwrap_err();
    assert!(err.reason().contains("R"));
    assert_eq!(st.get_raw("a"), Some(vec![1]));
}

#[test]
fn fail_reason_is_the_latest_one() {
    let mut st = state_with("a", &[1]);
    let mut tx = Transaction::new(&mut st);
    tx.fail("first".to_string());
    tx.fail("second".to_string());
    assert_eq!(tx.commit().unwrap_err().reason(), "second");
}

#[test]
fn nonconsensus_read_your_writes() {
    let store = Storage::new();
    let mut st = store.latest_state();
    st.put_nonconsensus(vec![1, 2], vec![3]);
    let mut tx = Transaction::new(&mut st);
    assert_eq!(tx.get_nonconsensus(&[1, 2]), Some(vec![3]));
    tx.put_nonconsensus(vec![1, 2], vec![4]);
    assert_eq!(tx.get_nonconsensus(&[1, 2]), Some(vec![4]));
    tx.delete_nonconsensus(vec![1, 2]);
    assert_eq!(tx.get_nonconsensus(&[1, 2]), None);
    assert_eq!(tx.get_nonconsensus(&[1]), None);
}

#[test]
fn consensus_and_nonconsensus_are_disjoint() {
    let store = Storage::new();
    let mut st = store.latest_state();
    let mut tx = Transaction::new(&mut st);
    tx.put_raw("k".to_string(), vec![1]);
    assert_eq!(tx.get_nonconsensus(b"k"), None);
    tx.put_nonconsensus(b"j".to_vec(), vec![2]);
    assert_eq!(tx.get_raw("j"), None);
}

#[test]
fn transaction_prefix_merges_pending() {
    let mut st = state_with("a/1", &[1]);
    st.put_raw("a/3".to_string(), vec![3]);
    st.put_raw("b/1".to_string(), vec![9]);
    let mut tx = Transaction::new(&mut st);
    tx.put_raw("a/2".to_string(), vec![2]);
    tx.delete("a/3".to_string());
    tx.put_raw("a/1".to_string(), vec![11]);
    tx.put_raw("c".to_string(), vec![0]);
    let got = tx.prefix_raw("a/");
    assert_eq!(
        got,
        vec![("a/1".to_string(), vec![11]), ("a/2".to_string(), vec![2])]
    );
}

#[test]
fn commit_error_message_names_reason() {
    let store = Storage::new();
    let mut st = store.latest_state();
    let mut tx = Transaction::new(&mut st);
    tx.fail("out of gas".to_string());
    let err = tx.commit().unwrap_err();
    assert_eq!(err.message(), "transaction failed: out of gas");
    assert_eq!(err.reason(), "out of gas");
}

#[test]
fn commit_merges_with_state_pending_last_write_wins() {
    let store = Storage::new();
    let mut st = store.latest_state();
    st.put_raw("k".to_string(), vec![1]);
    st.put_nonconsensus(vec![1], vec![1]);
    let mut tx = Transaction::new(&mut st);
    tx.put_raw("k".to_string(), vec![2]);
    tx.delete_nonconsensus(vec![1]);
    assert!(tx.commit().is_ok());
    assert_eq!(st.get_raw("k"), Some(vec![2]));
    assert_eq!(st.get_nonconsensus(&[1]), None);
}

#[test]
fn transaction_prefix_example() {
    let store = Storage::new();
    let mut st = store.latest_state();
    let mut tx = Transaction::new(&mut st);
    tx.put_raw("a/1".to_string(), b"x".to_vec());
    tx.put_raw("a/2".to_string(), b"y".to_vec());
    tx.put_raw("b/1".to_string(), b"z".to_vec());
    assert_eq!(
        tx.prefix_raw("a/"),
        vec![("a/1".to_string(), b"x".to_vec()), ("a/2".to_string(), b"y".to_vec())]
    );
}
