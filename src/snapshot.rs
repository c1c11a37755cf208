use vstd::prelude::*;
use crate::entity::EntitySnapshot;

verus! {

/// A snapshot with the number of pending uses that will still consult it.
pub struct SnapshotEntry {
    pub snapshot: EntitySnapshot,
    pub ref_count: usize,
}

/// The one-count decrement of a snapshot's reference count, held at zero.
pub open spec fn decremented(n: usize) -> usize {
    if n == 0 { 0 } else { (n - 1) as usize }
}

/// The snapshots that a collection pass keeps: those with uses left.
pub open spec fn collected(snapshots: Map<u128, SnapshotEntry>) -> Map<u128, SnapshotEntry> {
    snapshots.restrict(snapshots.dom().filter(|k: u128| snapshots[k].ref_count != 0))
}

/// The reference count left after `k` consumptions of a count of `n`.
pub open spec fn uses_left(n: usize, k: nat) -> usize
    decreases k,
{
    if k == 0 {
        n
    } else {
        decremented(uses_left(n, (k - 1) as nat))
    }
}

/// A snapshot created for `n` uses and consumed at least `n` times is
/// removed by the next collection pass (after which `consume_snapshot`
/// finds nothing).
pub proof fn lemma_used_up_snapshot_collected(snapshots: Map<u128, SnapshotEntry>, id: u128, n: usize, k: nat)
    requires
        snapshots.contains_key(id),
        snapshots[id].ref_count == uses_left(n, k),
        k >= n,
    ensures
        !collected(snapshots).contains_key(id),
{
    lemma_uses_run_out(n, k);
}

proof fn lemma_uses_run_out(n: usize, k: nat)
    requires
        k >= n,
    ensures
        uses_left(n, k) == 0,
    decreases k,
{
    if k > 0 {
        if k - 1 >= n {
            lemma_uses_run_out(n, (k - 1) as nat);
        } else {
            lemma_uses_left_exact(n, (k - 1) as nat);
        }
    }
}

proof fn lemma_uses_left_exact(n: usize, k: nat)
    requires
        k <= n,
    ensures
        uses_left(n, k) == n - k,
    decreases k,
{
    if k > 0 {
        lemma_uses_left_exact(n, (k - 1) as nat);
    }
}

} // verus!
