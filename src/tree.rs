//! The node reader of the authenticated tree: tree nodes are stored encoded,
//! under their encoded node keys, in a snapshot's node area.
use vstd::prelude::*;

use jmt::storage::{LeafNode, Node, NodeKey};

use crate::keys::{bytes_lt, lemma_bytes_lt_irreflexive, lemma_bytes_lt_transitive};
use crate::snapshot::Snapshot;

verus! {

#[verifier::external_type_specification]
#[verifier::external_body]
pub struct ExNodeKey(NodeKey);

#[verifier::external_type_specification]
#[verifier::external_body]
pub struct ExNode(Node);

#[verifier::external_type_specification]
#[verifier::external_body]
pub struct ExLeafNode(LeafNode);

/// Whether a node key has a stored form.
pub uninterp spec fn node_key_encodes(k: NodeKey) -> bool;

/// The stored form of a node key.
pub uninterp spec fn node_key_bytes(k: NodeKey) -> Seq<u8>;

/// Whether bytes decode as a node key.
pub uninterp spec fn node_key_decodes(b: Seq<u8>) -> bool;

/// Whether bytes decode as a node.
pub uninterp spec fn node_decodes(b: Seq<u8>) -> bool;

/// Whether bytes decode as a leaf node.
pub uninterp spec fn node_is_leaf(b: Seq<u8>) -> bool;

/// Why a tree node could not be read.
#[derive(Clone, Copy, Debug, PartialEq, Eq, Structural)]
pub enum NodeError {
    /// The node key could not be encoded.
    KeyEncoding,
    /// Stored bytes do not decode as a node key.
    KeyDecoding,
    /// Stored bytes do not decode as a node.
    NodeDecoding,
}

/// Relies on `borsh::to_vec` for jmt's `NodeKey`: the stored form of a node
/// key, which depends on the key alone; `None` where borsh reports an error.
#[verifier::external_body]
fn encode_node_key(k: &NodeKey) -> (r: Option<Vec<u8>>)
    ensures
        r is Some <==> node_key_encodes(*k),
        r matches Some(b) ==> b@ == node_key_bytes(*k),
{
    borsh::to_vec(k).ok()
}

/// Relies on `borsh::from_slice` for jmt's `NodeKey`: the node key stored as
/// `b`; `None` where the bytes do not decode.
#[verifier::external_body]
fn decode_node_key(b: &[u8]) -> (r: Option<NodeKey>)
    ensures
        r is Some <==> node_key_decodes(b@),
{
    borsh::from_slice::<NodeKey>(b).ok()
}

/// Relies on `borsh::from_slice` for jmt's `Node`: the node stored as `b`;
/// `None` where the bytes do not decode.
#[verifier::external_body]
fn decode_node(b: &[u8]) -> (r: Option<Node>)
    ensures
        r is Some <==> node_decodes(b@),
{
    borsh::from_slice::<Node>(b).ok()
}

/// Relies on `borsh::from_slice` for jmt's `Node` and on its `Leaf` variant:
/// `None` where `b` does not decode as a node; else the leaf it decodes to,
/// or `None` inside for another kind of node.
#[verifier::external_body]
fn decode_leaf(b: &[u8]) -> (r: Option<Option<LeafNode>>)
    ensures
        r is Some <==> node_decodes(b@),
        r matches Some(x) ==> (x is Some <==> node_is_leaf(b@)),
{
    match borsh::from_slice::<Node>(b) {
        Ok(Node::Leaf(leaf)) => Some(Some(leaf)),
        Ok(_) => Some(None),
        Err(_) => None,
    }
}

/// `k` is the greatest key of `m` in byte order.
pub open spec fn is_last_key(m: Map<Seq<u8>, Seq<u8>>, k: Seq<u8>) -> bool {
    m.contains_key(k) && forall|j: Seq<u8>| #[trigger] m.contains_key(j) ==> j == k || bytes_lt(j, k)
}

/// The greatest key of `m` in byte order (meaningful where `m` is not empty).
pub open spec fn last_key(m: Map<Seq<u8>, Seq<u8>>) -> Seq<u8> {
    choose|k: Seq<u8>| is_last_key(m, k)
}

/// A map has at most one greatest key.
pub proof fn lemma_last_key_unique(m: Map<Seq<u8>, Seq<u8>>, k: Seq<u8>)
    requires
        is_last_key(m, k),
    ensures
        last_key(m) == k,
{
    let l = last_key(m);
    assert(is_last_key(m, l));
    if l != k {
        assert(bytes_lt(l, k));
        assert(bytes_lt(k, l));
        lemma_bytes_lt_transitive(k, l, k);
        lemma_bytes_lt_irreflexive(k);
    }
}

impl Snapshot {
    /// The tree node stored under the encoded node key `key`, or `None` when
    /// there is none; an error where its bytes do not decode.
    pub fn node_at(&self, key: &[u8]) -> (r: Result<Option<Node>, NodeError>)
        requires
            self.wf(),
        ensures
            r matches Ok(None) <==> !self.nodes_view().contains_key(key@),
            r matches Ok(Some(_)) <==> self.nodes_view().contains_key(key@) && node_decodes(
                self.nodes_view()[key@],
            ),
            r is Err ==> r == Err::<Option<Node>, NodeError>(NodeError::NodeDecoding),
    {
        match self.node_bytes(key) {
            None => Ok(None),
            Some(bytes) => match decode_node(bytes.as_slice()) {
                Some(node) => Ok(Some(node)),
                None => Err(NodeError::NodeDecoding),
            },
        }
    }

    /// The tree node stored under `node_key` as of this version, or `None`
    /// when there is none; an error where the key does not encode or the
    /// stored bytes do not decode.
    pub fn get_node_option(&self, node_key: &NodeKey) -> (r: Result<Option<Node>, NodeError>)
        requires
            self.wf(),
        ensures
            r == Err::<Option<Node>, NodeError>(NodeError::KeyEncoding) <==> !node_key_encodes(*node_key),
            r matches Ok(None) <==> node_key_encodes(*node_key) && !self.nodes_view().contains_key(
                node_key_bytes(*node_key),
            ),
            r matches Ok(Some(_)) <==> node_key_encodes(*node_key) && self.nodes_view().contains_key(
                node_key_bytes(*node_key),
            ) && node_decodes(self.nodes_view()[node_key_bytes(*node_key)]),
            r != Err::<Option<Node>, NodeError>(NodeError::KeyDecoding),
    {
        match encode_node_key(node_key) {
            Some(key) => self.node_at(key.as_slice()),
            None => Err(NodeError::KeyEncoding),
        }
    }

    /// The node stored last in node-key byte order, with its key, when it is
    /// a leaf; `None` when no node is stored or the last one is not a leaf;
    /// an error where its key or its bytes do not decode.
    pub fn get_rightmost_leaf(&self) -> (r: Result<Option<(NodeKey, LeafNode)>, NodeError>)
        requires
            self.wf(),
        ensures
            self.nodes_view() == Map::<Seq<u8>, Seq<u8>>::empty() ==> r matches Ok(None),
            self.nodes_view() != Map::<Seq<u8>, Seq<u8>>::empty() ==> ({
                let kb = last_key(self.nodes_view());
                let vb = self.nodes_view()[kb];
                &&& (r == Err::<Option<(NodeKey, LeafNode)>, NodeError>(NodeError::KeyDecoding)
                    <==> !node_key_decodes(kb))
                &&& (r == Err::<Option<(NodeKey, LeafNode)>, NodeError>(NodeError::NodeDecoding)
                    <==> node_key_decodes(kb) && !node_decodes(vb))
                &&& (r matches Ok(Some(_)) <==> node_key_decodes(kb) && node_decodes(vb) && node_is_leaf(vb))
                &&& (r matches Ok(None) <==> node_key_decodes(kb) && node_decodes(vb) && !node_is_leaf(vb))
            }),
            r != Err::<Option<(NodeKey, LeafNode)>, NodeError>(NodeError::KeyEncoding),
    {
        match self.last_node() {
            None => Ok(None),
            Some((key_bytes, node_bytes)) => {
                proof {
                    assert(is_last_key(self.nodes_view(), key_bytes@));
                    lemma_last_key_unique(self.nodes_view(), key_bytes@);
                }
                let key = match decode_node_key(key_bytes.as_slice()) {
                    Some(k) => k,
                    None => {
                        return Err(NodeError::KeyDecoding);
                    },
                };
                match decode_leaf(node_bytes.as_slice()) {
                    None => Err(NodeError::NodeDecoding),
                    Some(Some(leaf)) => Ok(Some((key, leaf))),
                    Some(None) => Ok(None),
                }
            },
        }
    }
}

} // verus!
