use vstd::prelude::*;

verus! {

/// Age, in seconds, beyond which a snapshot file is deleted by a sweep.
pub const CACHE_TTL_SECS: u64 = 172800;

/// Period, in seconds, between two sweeps.
pub const SWEEP_INTERVAL_SECS: u64 = 3600;

/// A file modified at `modified` is stale at time `now` when it is strictly
/// older than the time-to-live. A file dated in the future is never stale.
pub open spec fn is_stale(now: int, modified: int) -> bool {
    now - modified > CACHE_TTL_SECS as int
}

/// Decides whether a file last modified at `modified_secs` is to be deleted
/// by a sweep running at `now_secs` (both in seconds since the epoch).
pub fn should_evict(now_secs: u64, modified_secs: u64) -> (r: bool)
    ensures
        r == is_stale(now_secs as int, modified_secs as int),
{
    now_secs > modified_secs && now_secs - modified_secs > CACHE_TTL_SECS
}

/// Picks, among files last modified at `modified[i]` seconds since the epoch,
/// the indices of those that a sweep at `now_secs` deletes, in increasing order.
pub fn files_to_evict(now_secs: u64, modified: &Vec<u64>) -> (r: Vec<usize>)
    ensures
        forall|k: int| 0 <= k < r@.len() ==> r@[k] < modified@.len() && is_stale(now_secs as int, modified@[r@[k] as int] as int),
        forall|k: int, l: int| 0 <= k < l < r@.len() ==> r@[k] < r@[l],
        forall|i: int|
            0 <= i < modified@.len() && is_stale(now_secs as int, #[trigger] modified@[i] as int)
                ==> r@.contains(i as usize),
{
    let mut out: Vec<usize> = Vec::new();
    let mut i: usize = 0;
    while i < modified.len()
        invariant
            i <= modified@.len(),
            forall|k: int| 0 <= k < out@.len() ==> out@[k] < i && is_stale(now_secs as int, modified@[out@[k] as int] as int),
            forall|k: int, l: int| 0 <= k < l < out@.len() ==> out@[k] < out@[l],
            forall|j: int|
                0 <= j < i && is_stale(now_secs as int, #[trigger] modified@[j] as int)
                    ==> out@.contains(j as usize),
        decreases modified@.len() - i,
    {
        if should_evict(now_secs, modified[i]) {
            let ghost prev = out@;
            out.push(i);
            proof {
                assert forall|j: int|
                    0 <= j < i + 1 && is_stale(now_secs as int, #[trigger] modified@[j] as int)
                        implies out@.contains(j as usize) by {
                    if j < i {
                        let k = choose|k: int| 0 <= k < prev.len() && prev[k] == j as usize;
                        assert(out@[k] == j as usize);
                    } else {
                        assert(out@[out@.len() - 1] == j as usize);
                    }
                }
            }
        }
        i = i + 1;
    }
    out
}

} // verus!
