//! Read-only views of the store pinned at one version, and the versioned
//! store that hands them out.
use vstd::prelude::*;

use crate::keys::bytes_lt;
use crate::changes::{bytes_opt, is_listing, lemma_present_union, listing_view, overlay, present, read, ByteChanges, ChangeSet};
use crate::state::State;

verus! {

/// The store as of one version: consensus entries (listed in key order) and
/// non-consensus entries. It is never changed after it is made.
pub struct Snapshot {
    version: u64,
    consensus: ChangeSet,
    nonconsensus: ByteChanges,
    nodes: ByteChanges,
}

impl Snapshot {
    pub closed spec fn version_spec(&self) -> u64 {
        self.version
    }

    pub closed spec fn wf(&self) -> bool {
        self.consensus.wf() && self.nonconsensus.wf() && self.nodes.wf()
    }

    /// Every consensus key and its value as of this version.
    pub closed spec fn consensus_view(&self) -> Map<Seq<char>, Seq<u8>> {
        present(self.consensus@)
    }

    /// Every non-consensus key and its value as of this version.
    pub closed spec fn nonconsensus_view(&self) -> Map<Seq<u8>, Seq<u8>> {
        present(self.nonconsensus@)
    }

    /// Every stored tree node, encoded, under its encoded node key.
    pub closed spec fn nodes_view(&self) -> Map<Seq<u8>, Seq<u8>> {
        present(self.nodes@)
    }

    /// The empty store at `version`.
    pub fn empty(version: u64) -> (r: Snapshot)
        ensures
            r.wf(),
            r.version_spec() == version,
            r.consensus_view() == Map::<Seq<char>, Seq<u8>>::empty(),
            r.nonconsensus_view() == Map::<Seq<u8>, Seq<u8>>::empty(),
            r.nodes_view() == Map::<Seq<u8>, Seq<u8>>::empty(),
    {
        let r = Snapshot {
            version,
            consensus: ChangeSet::new(),
            nonconsensus: ByteChanges::new(),
            nodes: ByteChanges::new(),
        };
        proof {
            assert(r.nodes_view() =~= Map::<Seq<u8>, Seq<u8>>::empty());
            assert(r.consensus_view() =~= Map::<Seq<char>, Seq<u8>>::empty());
            assert(r.nonconsensus_view() =~= Map::<Seq<u8>, Seq<u8>>::empty());
        }
        r
    }

    /// The version this snapshot is pinned at.
    pub fn version(&self) -> (r: jmt::Version)
        ensures
            r == self.version_spec(),
    {
        self.version
    }

    /// The value of a consensus key as of this version, or absent.
    pub fn get_raw(&self, key: &str) -> (r: Option<Vec<u8>>)
        requires
            self.wf(),
        ensures
            bytes_opt(r) == read(self.consensus_view(), key@),
    {
        match self.consensus.get(key) {
            Some(v) => v,
            None => None,
        }
    }

    /// The value of a non-consensus key as of this version, or absent.
    pub fn get_nonconsensus(&self, key: &[u8]) -> (r: Option<Vec<u8>>)
        requires
            self.wf(),
        ensures
            bytes_opt(r) == read(self.nonconsensus_view(), key@),
    {
        match self.nonconsensus.get(key) {
            Some(v) => v,
            None => None,
        }
    }

    /// The encoded tree node stored under an encoded node key, or absent.
    pub fn node_bytes(&self, key: &[u8]) -> (r: Option<Vec<u8>>)
        requires
            self.wf(),
        ensures
            bytes_opt(r) == read(self.nodes_view(), key@),
    {
        match self.nodes.get(key) {
            Some(v) => v,
            None => None,
        }
    }

    /// The stored tree node whose encoded key is last in byte order, as
    /// (encoded key, encoded node); `None` when no node is stored.
    pub fn last_node(&self) -> (r: Option<(Vec<u8>, Vec<u8>)>)
        requires
            self.wf(),
        ensures
            r is None <==> self.nodes_view() == Map::<Seq<u8>, Seq<u8>>::empty(),
            r matches Some(e) ==> self.nodes_view().contains_key(e.0@) && self.nodes_view()[e.0@] == e.1@
                && forall|k: Seq<u8>| #[trigger] self.nodes_view().contains_key(k) ==> k == e.0@ || bytes_lt(k, e.0@),
    {
        self.nodes.last_present()
    }

    /// Every consensus entry whose key starts with `prefix`, in ascending key
    /// order.
    pub fn prefix_raw(&self, prefix: &str) -> (r: Vec<(String, Vec<u8>)>)
        requires
            self.wf(),
        ensures
            is_listing(listing_view(r@), self.consensus_view(), prefix@),
    {
        self.consensus.scan_prefix(prefix)
    }

    /// Another handle on the same version and contents.
    pub fn duplicate(&self) -> (r: Snapshot)
        requires
            self.wf(),
        ensures
            r.wf(),
            r.version_spec() == self.version_spec(),
            r.consensus_view() == self.consensus_view(),
            r.nonconsensus_view() == self.nonconsensus_view(),
            r.nodes_view() == self.nodes_view(),
    {
        Snapshot {
            version: self.version,
            consensus: self.consensus.duplicate(),
            nonconsensus: self.nonconsensus.duplicate(),
            nodes: self.nodes.duplicate(),
        }
    }

    /// This snapshot with `consensus`, `nonconsensus` and `nodes` staged over
    /// it, pinned at `version`.
    pub fn apply(&self, consensus: &ChangeSet, nonconsensus: &ByteChanges, nodes: &ByteChanges, version: u64) -> (r: Snapshot)
        requires
            self.wf(),
            consensus.wf(),
            nonconsensus.wf(),
            nodes.wf(),
        ensures
            r.nodes_view() == overlay(self.nodes_view(), nodes@),
            r.wf(),
            r.version_spec() == version,
            r.consensus_view() == overlay(self.consensus_view(), consensus@),
            r.nonconsensus_view() == overlay(self.nonconsensus_view(), nonconsensus@),
    {
        let mut c = self.consensus.duplicate();
        c.extend(consensus);
        let mut n = self.nonconsensus.duplicate();
        n.extend(nonconsensus);
        let mut t = self.nodes.duplicate();
        t.extend(nodes);
        proof {
            lemma_present_union(self.consensus@, consensus@);
            lemma_present_union(self.nonconsensus@, nonconsensus@);
            lemma_present_union(self.nodes@, nodes@);
        }
        Snapshot { version, consensus: c, nonconsensus: n, nodes: t }
    }
}

/// Every version of the store, from version 0 (empty) to the latest.
pub struct Storage {
    versions: Vec<Snapshot>,
}

impl Storage {
    pub closed spec fn wf(&self) -> bool {
        &&& self.versions@.len() >= 1
        &&& self.versions@.len() - 1 <= u64::MAX
        &&& forall|v: int| 0 <= v < self.versions@.len() ==> (#[trigger] self.versions@[v]).wf()
        &&& forall|v: int| 0 <= v < self.versions@.len() ==> (#[trigger] self.versions@[v]).version_spec() == v
    }

    /// The latest version.
    pub closed spec fn latest(&self) -> int {
        self.versions@.len() - 1
    }

    /// The consensus entries as of version `v`.
    pub closed spec fn consensus_at(&self, v: int) -> Map<Seq<char>, Seq<u8>> {
        self.versions@[v].consensus_view()
    }

    /// The non-consensus entries as of version `v`.
    pub closed spec fn nonconsensus_at(&self, v: int) -> Map<Seq<u8>, Seq<u8>> {
        self.versions@[v].nonconsensus_view()
    }

    /// The stored tree nodes as of version `v`.
    pub closed spec fn nodes_at(&self, v: int) -> Map<Seq<u8>, Seq<u8>> {
        self.versions@[v].nodes_view()
    }

    /// `self` is `before` with one more version, whose contents are `state`'s.
    pub open spec fn committed_from(&self, before: Storage, state: State) -> bool {
        &&& self.wf()
        &&& self.latest() == before.latest() + 1
        &&& forall|v: int| 0 <= v <= before.latest() ==> #[trigger] self.consensus_at(v) == before.consensus_at(v)
        &&& forall|v: int| 0 <= v <= before.latest() ==> #[trigger] self.nonconsensus_at(v) == before.nonconsensus_at(v)
        &&& forall|v: int| 0 <= v <= before.latest() ==> #[trigger] self.nodes_at(v) == before.nodes_at(v)
        &&& self.consensus_at(self.latest()) == state.consensus_view()
        &&& self.nonconsensus_at(self.latest()) == state.nonconsensus_view()
        &&& self.nodes_at(self.latest()) == state.nodes_view()
    }

    /// A store that holds only version 0, which is empty.
    pub fn new() -> (r: Storage)
        ensures
            r.wf(),
            r.latest() == 0,
            r.consensus_at(0) == Map::<Seq<char>, Seq<u8>>::empty(),
            r.nonconsensus_at(0) == Map::<Seq<u8>, Seq<u8>>::empty(),
            r.nodes_at(0) == Map::<Seq<u8>, Seq<u8>>::empty(),
    {
        let mut versions: Vec<Snapshot> = Vec::new();
        versions.push(Snapshot::empty(0));
        Storage { versions }
    }

    /// The latest version.
    pub fn latest_version(&self) -> (r: u64)
        requires
            self.wf(),
        ensures
            r == self.latest(),
    {
        (self.versions.len() - 1) as u64
    }

    /// A snapshot pinned at `version`, or `None` past the latest version.
    pub fn snapshot(&self, version: u64) -> (r: Option<Snapshot>)
        requires
            self.wf(),
        ensures
            r is Some <==> version <= self.latest(),
            r matches Some(s) ==> s.wf() && s.version_spec() == version && s.consensus_view() == self.consensus_at(
                version as int,
            ) && s.nonconsensus_view() == self.nonconsensus_at(version as int) && s.nodes_view() == self.nodes_at(
                version as int,
            ),
    {
        if version > (self.versions.len() - 1) as u64 {
            None
        } else {
            Some(self.versions[version as usize].duplicate())
        }
    }

    /// A snapshot pinned at the latest version.
    pub fn latest_snapshot(&self) -> (r: Snapshot)
        requires
            self.wf(),
        ensures
            r.wf(),
            r.version_spec() == self.latest(),
            r.consensus_view() == self.consensus_at(self.latest()),
            r.nonconsensus_view() == self.nonconsensus_at(self.latest()),
            r.nodes_view() == self.nodes_at(self.latest()),
    {
        self.versions[self.versions.len() - 1].duplicate()
    }

    /// A fresh state over the latest version, with nothing staged.
    pub fn latest_state(&self) -> (r: State)
        requires
            self.wf(),
        ensures
            r.wf(),
            r.consensus_view() == self.consensus_at(self.latest()),
            r.nonconsensus_view() == self.nonconsensus_at(self.latest()),
            r.nodes_view() == self.nodes_at(self.latest()),
    {
        State::new(self.latest_snapshot())
    }

    /// Writes what `state` reads as a new version, and returns its number;
    /// `None`, with the store unchanged, when no version number is left.
    pub fn commit(&mut self, state: &State) -> (r: Option<u64>)
        requires
            old(self).wf(),
            state.wf(),
        ensures
            r is None <==> old(self).latest() == u64::MAX,
            r is None ==> *final(self) == *old(self),
            r matches Some(v) ==> v == old(self).latest() + 1 && final(self).committed_from(*old(self), *state),
    {
        let latest = (self.versions.len() - 1) as u64;
        if latest == u64::MAX {
            return None;
        }
        let next = latest + 1;
        let snap = state.flatten(next);
        self.versions.push(snap);
        Some(next)
    }
}

} // verus!
