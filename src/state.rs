//! The live state: a snapshot with consensus and non-consensus changes
//! staged over it, not yet written as a version.
use vstd::prelude::*;

use crate::changes::{bytes_opt, is_listing, listing_view, overlay, overlay_listing, read, ByteChanges, ChangeSet};
use crate::snapshot::Snapshot;

verus! {

/// A snapshot and the changes staged over it.
pub struct State {
    snapshot: Snapshot,
    unwritten_changes: ChangeSet,
    nonconsensus_changes: ByteChanges,
    node_changes: ByteChanges,
}

impl State {
    pub closed spec fn wf(&self) -> bool {
        self.snapshot.wf() && self.unwritten_changes.wf() && self.nonconsensus_changes.wf() && self.node_changes.wf()
    }

    /// The snapshot the changes are staged over.
    pub closed spec fn base(&self) -> Snapshot {
        self.snapshot
    }

    /// The staged consensus changes.
    pub closed spec fn pending(&self) -> Map<Seq<char>, Option<Seq<u8>>> {
        self.unwritten_changes@
    }

    /// The staged non-consensus changes.
    pub closed spec fn pending_nonconsensus(&self) -> Map<Seq<u8>, Option<Seq<u8>>> {
        self.nonconsensus_changes@
    }

    /// The staged tree nodes.
    pub closed spec fn pending_nodes(&self) -> Map<Seq<u8>, Option<Seq<u8>>> {
        self.node_changes@
    }

    /// Every encoded tree node under its encoded key, staged ones included.
    pub open spec fn nodes_view(&self) -> Map<Seq<u8>, Seq<u8>> {
        overlay(self.base().nodes_view(), self.pending_nodes())
    }

    /// Every consensus key and the value a read of it gives.
    pub open spec fn consensus_view(&self) -> Map<Seq<char>, Seq<u8>> {
        overlay(self.base().consensus_view(), self.pending())
    }

    /// Every non-consensus key and the value a read of it gives.
    pub open spec fn nonconsensus_view(&self) -> Map<Seq<u8>, Seq<u8>> {
        overlay(self.base().nonconsensus_view(), self.pending_nonconsensus())
    }

    /// A state over `snapshot` with nothing staged.
    pub fn new(snapshot: Snapshot) -> (r: State)
        requires
            snapshot.wf(),
        ensures
            r.wf(),
            r.base() == snapshot,
            r.pending() == Map::<Seq<char>, Option<Seq<u8>>>::empty(),
            r.pending_nonconsensus() == Map::<Seq<u8>, Option<Seq<u8>>>::empty(),
            r.pending_nodes() == Map::<Seq<u8>, Option<Seq<u8>>>::empty(),
            r.consensus_view() == snapshot.consensus_view(),
            r.nonconsensus_view() == snapshot.nonconsensus_view(),
            r.nodes_view() == snapshot.nodes_view(),
    {
        let r = State {
            snapshot,
            unwritten_changes: ChangeSet::new(),
            nonconsensus_changes: ByteChanges::new(),
            node_changes: ByteChanges::new(),
        };
        proof {
            assert(r.nodes_view() =~= snapshot.nodes_view());
            assert(r.consensus_view() =~= snapshot.consensus_view());
            assert(r.nonconsensus_view() =~= snapshot.nonconsensus_view());
        }
        r
    }

    /// The value of a consensus key: the staged one, else the snapshot's.
    pub fn get_raw(&self, key: &str) -> (r: Option<Vec<u8>>)
        requires
            self.wf(),
        ensures
            bytes_opt(r) == read(self.consensus_view(), key@),
    {
        match self.unwritten_changes.get(key) {
            Some(v) => v,
            None => self.snapshot.get_raw(key),
        }
    }

    /// The value of a non-consensus key: the staged one, else the snapshot's.
    pub fn get_nonconsensus(&self, key: &[u8]) -> (r: Option<Vec<u8>>)
        requires
            self.wf(),
        ensures
            bytes_opt(r) == read(self.nonconsensus_view(), key@),
    {
        match self.nonconsensus_changes.get(key) {
            Some(v) => v,
            None => self.snapshot.get_nonconsensus(key),
        }
    }

    /// Every consensus entry whose key starts with `prefix`, staged changes
    /// included, in ascending key order.
    pub fn prefix_raw(&self, prefix: &str) -> (r: Vec<(String, Vec<u8>)>)
        requires
            self.wf(),
        ensures
            is_listing(listing_view(r@), self.consensus_view(), prefix@),
    {
        let base = self.snapshot.prefix_raw(prefix);
        overlay_listing(base, &self.unwritten_changes, prefix)
    }

    /// Stages `value` for a consensus key.
    pub fn put_raw(&mut self, key: String, value: jmt::OwnedValue)
        requires
            old(self).wf(),
        ensures
            final(self).wf(),
            final(self).base() == old(self).base(),
            final(self).pending() == old(self).pending().insert(key@, Some(value@)),
            final(self).pending_nonconsensus() == old(self).pending_nonconsensus(),
            final(self).pending_nodes() == old(self).pending_nodes(),
    {
        self.unwritten_changes.insert(key, Some(value));
    }

    /// Stages the removal of a consensus key.
    pub fn delete(&mut self, key: String)
        requires
            old(self).wf(),
        ensures
            final(self).wf(),
            final(self).base() == old(self).base(),
            final(self).pending() == old(self).pending().insert(key@, None),
            final(self).pending_nonconsensus() == old(self).pending_nonconsensus(),
            final(self).pending_nodes() == old(self).pending_nodes(),
    {
        self.unwritten_changes.insert(key, None);
    }

    /// Stages `value` for a non-consensus key.
    pub fn put_nonconsensus(&mut self, key: Vec<u8>, value: Vec<u8>)
        requires
            old(self).wf(),
        ensures
            final(self).wf(),
            final(self).base() == old(self).base(),
            final(self).pending() == old(self).pending(),
            final(self).pending_nonconsensus() == old(self).pending_nonconsensus().insert(key@, Some(value@)),
            final(self).pending_nodes() == old(self).pending_nodes(),
    {
        self.nonconsensus_changes.insert(key, Some(value));
    }

    /// Stages the removal of a non-consensus key.
    pub fn delete_nonconsensus(&mut self, key: Vec<u8>)
        requires
            old(self).wf(),
        ensures
            final(self).wf(),
            final(self).base() == old(self).base(),
            final(self).pending() == old(self).pending(),
            final(self).pending_nonconsensus() == old(self).pending_nonconsensus().insert(key@, None),
            final(self).pending_nodes() == old(self).pending_nodes(),
    {
        self.nonconsensus_changes.insert(key, None);
    }

    /// Stages an encoded tree node under its encoded node key.
    pub fn put_node(&mut self, key: Vec<u8>, node: Vec<u8>)
        requires
            old(self).wf(),
        ensures
            final(self).wf(),
            final(self).base() == old(self).base(),
            final(self).pending() == old(self).pending(),
            final(self).pending_nonconsensus() == old(self).pending_nonconsensus(),
            final(self).pending_nodes() == old(self).pending_nodes().insert(key@, Some(node@)),
    {
        self.node_changes.insert(key, Some(node));
    }

    /// Merges staged changes into this state's own; where both stage a key,
    /// the merged-in slot wins.
    pub fn absorb(&mut self, consensus: &ChangeSet, nonconsensus: &ByteChanges)
        requires
            old(self).wf(),
            consensus.wf(),
            nonconsensus.wf(),
        ensures
            final(self).wf(),
            final(self).base() == old(self).base(),
            final(self).pending() == old(self).pending().union_prefer_right(consensus@),
            final(self).pending_nonconsensus() == old(self).pending_nonconsensus().union_prefer_right(nonconsensus@),
            final(self).pending_nodes() == old(self).pending_nodes(),
    {
        self.unwritten_changes.extend(consensus);
        self.nonconsensus_changes.extend(nonconsensus);
    }

    /// What this state reads, as a snapshot pinned at `version`.
    pub fn flatten(&self, version: u64) -> (r: Snapshot)
        requires
            self.wf(),
        ensures
            r.wf(),
            r.version_spec() == version,
            r.consensus_view() == self.consensus_view(),
            r.nonconsensus_view() == self.nonconsensus_view(),
            r.nodes_view() == self.nodes_view(),
    {
        self.snapshot.apply(&self.unwritten_changes, &self.nonconsensus_changes, &self.node_changes, version)
    }
}

} // verus!
