//! A transaction: changes staged over a live state, read back before they
//! are committed, then merged into the state or dropped.
use vstd::prelude::*;

use crate::changes::{bytes_opt, is_listing, listing_view, overlay, overlay_listing, read, ByteChanges, ChangeSet};
use crate::state::State;

verus! {

/// Why a commit was refused: the reason given when the transaction was
/// marked failed.
pub struct CommitError {
    reason: String,
}

impl CommitError {
    pub closed spec fn reason_spec(&self) -> Seq<char> {
        self.reason@
    }

    /// The reason the transaction was marked failed.
    pub fn reason(&self) -> (r: String)
        ensures
            r@ == self.reason_spec(),
    {
        self.reason.clone()
    }

    /// The error as text: `transaction failed: ` and the reason.
    pub fn message(&self) -> (r: String)
        ensures
            r@ == "transaction failed: "@ + self.reason_spec(),
    {
        let mut r = String::from_str("transaction failed: ");
        r.append(self.reason.as_str());
        r
    }
}

/// What a transaction has staged, and whether it is doomed.
pub struct Staged {
    unwritten_changes: ChangeSet,
    nonconsensus_changes: ByteChanges,
    failed: bool,
    failure_reason: String,
}

impl Staged {
    pub closed spec fn wf(&self) -> bool {
        self.unwritten_changes.wf() && self.nonconsensus_changes.wf()
    }

    /// The staged consensus changes.
    pub closed spec fn pending(&self) -> Map<Seq<char>, Option<Seq<u8>>> {
        self.unwritten_changes@
    }

    /// The staged non-consensus changes.
    pub closed spec fn pending_nonconsensus(&self) -> Map<Seq<u8>, Option<Seq<u8>>> {
        self.nonconsensus_changes@
    }

    /// Whether the transaction was marked failed.
    pub closed spec fn is_failed(&self) -> bool {
        self.failed
    }

    /// Why the transaction was marked failed.
    pub closed spec fn failure_reason(&self) -> Seq<char> {
        self.failure_reason@
    }
}

/// Changes staged over an exclusively borrowed state. Reads see the staged
/// changes first. `commit` merges them into the state; dropping the
/// transaction leaves the state as it was.
pub struct Transaction<'a> {
    /// The state the changes go into on commit.
    pub state: &'a mut State,
    /// The staged changes and the failure mark; only the transaction's
    /// methods change them.
    pub staged: Staged,
}

impl<'a> Transaction<'a> {
    pub open spec fn wf(&self) -> bool {
        self.staged.wf() && self.state.wf()
    }

    /// The staged consensus changes.
    pub open spec fn pending(&self) -> Map<Seq<char>, Option<Seq<u8>>> {
        self.staged.pending()
    }

    /// The staged non-consensus changes.
    pub open spec fn pending_nonconsensus(&self) -> Map<Seq<u8>, Option<Seq<u8>>> {
        self.staged.pending_nonconsensus()
    }

    /// Whether the transaction was marked failed.
    pub open spec fn is_failed(&self) -> bool {
        self.staged.is_failed()
    }

    /// Why the transaction was marked failed.
    pub open spec fn failure_reason(&self) -> Seq<char> {
        self.staged.failure_reason()
    }

    /// Every consensus key and the value a read of it gives.
    pub open spec fn consensus_view(&self) -> Map<Seq<char>, Seq<u8>> {
        overlay(self.state.consensus_view(), self.pending())
    }

    /// Every non-consensus key and the value a read of it gives.
    pub open spec fn nonconsensus_view(&self) -> Map<Seq<u8>, Seq<u8>> {
        overlay(self.state.nonconsensus_view(), self.pending_nonconsensus())
    }

    /// A transaction over `state` with nothing staged, not failed.
    pub fn new(state: &'a mut State) -> (r: Transaction<'a>)
        requires
            old(state).wf(),
        ensures
            r.wf(),
            *r.state == *old(state),
            *final(r.state) == *final(state),
            r.pending() == Map::<Seq<char>, Option<Seq<u8>>>::empty(),
            r.pending_nonconsensus() == Map::<Seq<u8>, Option<Seq<u8>>>::empty(),
            !r.is_failed(),
            r.failure_reason() == Seq::<char>::empty(),
    {
        Transaction {
            state,
            staged: Staged {
                unwritten_changes: ChangeSet::new(),
                nonconsensus_changes: ByteChanges::new(),
                failed: false,
                failure_reason: String::new(),
            },
        }
    }

    /// Marks the transaction failed for `reason`; a later `commit` refuses.
    pub fn fail(&mut self, reason: String)
        ensures
            final(self).is_failed(),
            final(self).failure_reason() == reason@,
            final(self).pending() == old(self).pending(),
            final(self).pending_nonconsensus() == old(self).pending_nonconsensus(),
            *final(self).state == *old(self).state,
            *final(final(self).state) == *final(old(self).state),
    {
        self.staged.failed = true;
        self.staged.failure_reason = reason;
    }

    /// Merges the staged changes into the state, where they win over what
    /// the state had staged for the same keys. Refused, with the state
    /// unchanged, when the transaction was marked failed.
    pub fn commit(self) -> (r: Result<(), CommitError>)
        requires
            self.wf(),
        ensures
            self.is_failed() ==> (r matches Err(e) && e.reason_spec() == self.failure_reason()),
            self.is_failed() ==> *final(self.state) == *old(self.state),
            !self.is_failed() ==> r is Ok,
            !self.is_failed() ==> final(self.state).wf(),
            !self.is_failed() ==> final(self.state).base() == old(self.state).base(),
            !self.is_failed() ==> final(self.state).pending() == old(self.state).pending().union_prefer_right(
                self.pending(),
            ),
            !self.is_failed() ==> final(self.state).pending_nonconsensus()
                == old(self.state).pending_nonconsensus().union_prefer_right(self.pending_nonconsensus()),
            !self.is_failed() ==> final(self.state).pending_nodes() == old(self.state).pending_nodes(),
    {
        if self.staged.failed {
            return Err(CommitError { reason: self.staged.failure_reason });
        }
        self.state.absorb(&self.staged.unwritten_changes, &self.staged.nonconsensus_changes);
        Ok(())
    }

    /// Stages `value` for a consensus key, replacing what was staged for it.
    pub fn put_raw(&mut self, key: String, value: jmt::OwnedValue)
        requires
            old(self).wf(),
        ensures
            final(self).wf(),
            final(self).pending() == old(self).pending().insert(key@, Some(value@)),
            final(self).pending_nonconsensus() == old(self).pending_nonconsensus(),
            final(self).is_failed() == old(self).is_failed(),
            final(self).failure_reason() == old(self).failure_reason(),
            *final(self).state == *old(self).state,
            *final(final(self).state) == *final(old(self).state),
    {
        self.staged.unwritten_changes.insert(key, Some(value));
    }

    /// Stages the removal of a consensus key, replacing what was staged for it.
    pub fn delete(&mut self, key: String)
        requires
            old(self).wf(),
        ensures
            final(self).wf(),
            final(self).pending() == old(self).pending().insert(key@, None),
            final(self).pending_nonconsensus() == old(self).pending_nonconsensus(),
            final(self).is_failed() == old(self).is_failed(),
            final(self).failure_reason() == old(self).failure_reason(),
            *final(self).state == *old(self).state,
            *final(final(self).state) == *final(old(self).state),
    {
        self.staged.unwritten_changes.insert(key, None);
    }

    /// Stages `value` for a non-consensus key, replacing what was staged for it.
    pub fn put_nonconsensus(&mut self, key: Vec<u8>, value: Vec<u8>)
        requires
            old(self).wf(),
        ensures
            final(self).wf(),
            final(self).pending() == old(self).pending(),
            final(self).pending_nonconsensus() == old(self).pending_nonconsensus().insert(key@, Some(value@)),
            final(self).is_failed() == old(self).is_failed(),
            final(self).failure_reason() == old(self).failure_reason(),
            *final(self).state == *old(self).state,
            *final(final(self).state) == *final(old(self).state),
    {
        self.staged.nonconsensus_changes.insert(key, Some(value));
    }

    /// Stages the removal of a non-consensus key, replacing what was staged
    /// for it.
    pub fn delete_nonconsensus(&mut self, key: Vec<u8>)
        requires
            old(self).wf(),
        ensures
            final(self).wf(),
            final(self).pending() == old(self).pending(),
            final(self).pending_nonconsensus() == old(self).pending_nonconsensus().insert(key@, None),
            final(self).is_failed() == old(self).is_failed(),
            final(self).failure_reason() == old(self).failure_reason(),
            *final(self).state == *old(self).state,
            *final(final(self).state) == *final(old(self).state),
    {
        self.staged.nonconsensus_changes.insert(key, None);
    }

    /// The value of a consensus key: the staged one (absent for a staged
    /// removal), else the state's.
    pub fn get_raw(&self, key: &str) -> (r: Option<Vec<u8>>)
        requires
            self.wf(),
        ensures
            bytes_opt(r) == read(self.consensus_view(), key@),
    {
        match self.staged.unwritten_changes.get(key) {
            Some(v) => v,
            None => self.state.get_raw(key),
        }
    }

    /// The value of a non-consensus key: the staged one (absent for a staged
    /// removal), else the state's.
    pub fn get_nonconsensus(&self, key: &[u8]) -> (r: Option<Vec<u8>>)
        requires
            self.wf(),
        ensures
            bytes_opt(r) == read(self.nonconsensus_view(), key@),
    {
        match self.staged.nonconsensus_changes.get(key) {
            Some(v) => v,
            None => self.state.get_nonconsensus(key),
        }
    }

    /// Every consensus entry whose key starts with `prefix`, as this
    /// transaction reads it, in ascending key order.
    pub fn prefix_raw(&self, prefix: &str) -> (r: Vec<(String, Vec<u8>)>)
        requires
            self.wf(),
        ensures
            is_listing(listing_view(r@), self.consensus_view(), prefix@),
    {
        let base = self.state.prefix_raw(prefix);
        overlay_listing(base, &self.staged.unwritten_changes, prefix)
    }
}

} // verus!
