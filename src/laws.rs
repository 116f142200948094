//! Laws that tie the operations together, stated over the views their
//! contracts use.
use vstd::prelude::*;

use crate::changes::{overlay, read};
use crate::snapshot::Storage;
use crate::state::State;
use crate::transaction::Transaction;

verus! {

/// Reading a key after staging a value for it gives that value, whatever the
/// base holds for the key.
pub proof fn law_put_then_get<K>(base: Map<K, Seq<u8>>, pending: Map<K, Option<Seq<u8>>>, k: K, v: Seq<u8>)
    ensures
        read(overlay(base, pending.insert(k, Some(v))), k) == Some(v),
{
}

/// Reading a key after staging its removal gives absent, even where the base
/// holds a value for it.
pub proof fn law_delete_then_get<K>(base: Map<K, Seq<u8>>, pending: Map<K, Option<Seq<u8>>>, k: K)
    ensures
        read(overlay(base, pending.insert(k, None)), k) == None::<Seq<u8>>,
{
}

/// Each key has one staged slot and the last write wins: staging `v1` then
/// `v2` is staging `v2` alone, which a read returns; a removal staged after
/// them makes the read absent.
pub proof fn law_last_write_wins<K>(
    base: Map<K, Seq<u8>>,
    pending: Map<K, Option<Seq<u8>>>,
    k: K,
    v1: Seq<u8>,
    v2: Seq<u8>,
)
    ensures
        pending.insert(k, Some(v1)).insert(k, Some(v2)) == pending.insert(k, Some(v2)),
        read(overlay(base, pending.insert(k, Some(v1)).insert(k, Some(v2))), k) == Some(v2),
        read(overlay(base, pending.insert(k, Some(v1)).insert(k, Some(v2)).insert(k, None)), k) == None::<
            Seq<u8>,
        >,
{
    assert(pending.insert(k, Some(v1)).insert(k, Some(v2)) =~= pending.insert(k, Some(v2)));
}

/// After a commit merges a transaction's staged changes into a state, the
/// state reads as the transaction did: every key the transaction staged
/// reads as its final staged slot, and every other key as before.
pub proof fn law_commit_reads_as_transaction(
    before: State,
    after: State,
    staged: Map<Seq<char>, Option<Seq<u8>>>,
    k: Seq<char>,
)
    requires
        after.base() == before.base(),
        after.pending() == before.pending().union_prefer_right(staged),
    ensures
        after.consensus_view() == overlay(before.consensus_view(), staged),
        staged.contains_key(k) ==> read(after.consensus_view(), k) == staged[k],
        !staged.contains_key(k) ==> read(after.consensus_view(), k) == read(before.consensus_view(), k),
{
    assert(after.consensus_view() =~= overlay(before.consensus_view(), staged));
}

/// The same for non-consensus keys.
pub proof fn law_commit_reads_as_transaction_nonconsensus(
    before: State,
    after: State,
    staged: Map<Seq<u8>, Option<Seq<u8>>>,
    k: Seq<u8>,
)
    requires
        after.base() == before.base(),
        after.pending_nonconsensus() == before.pending_nonconsensus().union_prefer_right(staged),
    ensures
        after.nonconsensus_view() == overlay(before.nonconsensus_view(), staged),
        staged.contains_key(k) ==> read(after.nonconsensus_view(), k) == staged[k],
        !staged.contains_key(k) ==> read(after.nonconsensus_view(), k) == read(before.nonconsensus_view(), k),
{
    assert(after.nonconsensus_view() =~= overlay(before.nonconsensus_view(), staged));
}

/// Writing a new version leaves every earlier version as it was: a snapshot
/// taken at `v` before or after reads the same.
pub proof fn law_snapshot_pinned(before: Storage, after: Storage, state: State, v: int)
    requires
        after.committed_from(before, state),
        0 <= v <= before.latest(),
    ensures
        after.consensus_at(v) == before.consensus_at(v),
        after.nonconsensus_at(v) == before.nonconsensus_at(v),
        after.nodes_at(v) == before.nodes_at(v),
{
}

/// A transaction that is dropped, never to be used again, hands its state
/// back as it was lent: nothing it staged reaches the state.
pub proof fn law_drop_keeps_state<'a>(tx: Transaction<'a>)
    requires
        has_resolved(tx),
    ensures
        *final(tx.state) == *old(tx.state),
{
}

} // verus!
