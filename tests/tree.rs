use jmt::storage::{LeafNode, Node, NodeKey};
use jmt::{KeyHash, ValueHash};
use storage2::snapshot::Storage;
use storage2::tree::NodeError;

fn node_key(version: u64) -> NodeKey {
    let mut bytes = version.to_le_bytes().to_vec();
    bytes.extend_from_slice(&[0u8; 12]);
    borsh::from_slice::<NodeKey>(&bytes).unwrap()
}

fn leaf(seed: u8) -> LeafNode {
    LeafNode::new(KeyHash([seed; 32]), ValueHash([seed + 1; 32]))
}

#[test]
fn empty_store_has_no_nodes() {
    let store = Storage::new();
    let snap = store.latest_snapshot();
    assert_eq!(snap.get_rightmost_leaf(), Ok(None));
    assert_eq!(snap.get_node_option(&node_key(0)), Ok(None));
}

#[test]
fn stored_leaf_is_read_back() {
    let mut store = Storage::new();
    let mut st = store.latest_state();
    let key = node_key(1);
    let node = Node::Leaf(leaf(7));
    st.put_node(borsh::to_vec(&key).unwrap(), borsh::to_vec(&node).unwrap());
    assert_eq!(store.commit(&st), Some(1));
    let snap = store.latest_snapshot();
    assert_eq!(snap.get_node_option(&key), Ok(Some(node)));
    assert_eq!(snap.get_node_option(&node_key(2)), Ok(None));
    assert_eq!(snap.get_rightmost_leaf(), Ok(Some((key, leaf(7)))));
    assert_eq!(store.snapshot(0).unwrap().get_rightmost_leaf(), Ok(None));
}

#[test]
fn rightmost_leaf_is_last_in_key_order() {
    let mut store = Storage::new();
    let mut st = store.latest_state();
    st.put_node(borsh::to_vec(&node_key(3)).unwrap(), borsh::to_vec(&Node::Leaf(leaf(3))).unwrap());
    st.put_node(borsh::to_vec(&node_key(5)).unwrap(), borsh::to_vec(&Node::Leaf(leaf(5))).unwrap());
    st.put_node(borsh::to_vec(&node_key(4)).unwrap(), borsh::to_vec(&Node::Leaf(leaf(4))).unwrap());
    store.commit(&st);
    let snap = store.latest_snapshot();
    assert_eq!(snap.get_rightmost_leaf(), Ok(Some((node_key(5), leaf(5)))));
}

#[test]
fn rightmost_non_leaf_gives_none() {
    let mut store = Storage::new();
    let mut st = store.latest_state();
    st.put_node(borsh::to_vec(&node_key(1)).unwrap(), borsh::to_vec(&Node::Leaf(leaf(1))).unwrap());
    st.put_node(borsh::to_vec(&node_key(2)).unwrap(), vec![0]);
    store.commit(&st);
    let snap = store.latest_snapshot();
    assert_eq!(snap.get_node_option(&node_key(2)), Ok(Some(Node::Null)));
    assert_eq!(snap.get_rightmost_leaf(), Ok(None));
}

#[test]
fn undecodable_bytes_are_errors() {
    let mut store = Storage::new();
    let mut st = store.latest_state();
    st.put_node(borsh::to_vec(&node_key(1)).unwrap(), vec![9, 9]);
    store.commit(&st);
    let snap = store.latest_snapshot();
    assert_eq!(snap.get_node_option(&node_key(1)), Err(NodeError::NodeDecoding));
    assert_eq!(snap.get_rightmost_leaf(), Err(NodeError::NodeDecoding));

    let mut st2 = store.latest_state();
    st2.put_node(vec![0xff], vec![0]);
    store.commit(&st2);
    assert_eq!(store.latest_snapshot().get_rightmost_leaf(), Err(NodeError::KeyDecoding));
}

#[test]
fn node_at_reads_by_encoded_key() {
    let mut store = Storage::new();
    let mut st = store.latest_state();
    st.put_node(vec![1, 2], borsh::to_vec(&Node::Leaf(leaf(4))).unwrap());
    st.put_node(vec![3], vec![7, 7, 7]);
    store.commit(&st);
    let snap = store.latest_snapshot();
    assert_eq!(snap.node_at(&[1, 2]), Ok(Some(Node::Leaf(leaf(4)))));
    assert_eq!(snap.node_at(&[1]), Ok(None));
    assert_eq!(snap.node_at(&[3]), Err(NodeError::NodeDecoding));
}
