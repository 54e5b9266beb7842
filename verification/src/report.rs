//! Summaries of a batch of simulation results.
use std::time::Duration;
use vstd::prelude::*;

verus! {

/// Wall-clock times of a batch run.
pub struct RunTimings {
    pub compile_or_load: Duration,
    pub simulation: Duration,
    pub total: Duration,
}

/// The smallest and the largest seed of a batch, `None` for an empty batch.
pub fn seed_range(seeds: &[u64]) -> (r: Option<(u64, u64)>)
    ensures
        r is None <==> seeds@.len() == 0,
        r matches Some((lo, hi)) ==> {
            &&& seeds@.contains(lo)
            &&& seeds@.contains(hi)
            &&& forall|i: int| 0 <= i < seeds@.len() ==> lo <= #[trigger] seeds@[i] <= hi
        },
{
    let mut range: Option<(u64, u64)> = None;
    let mut k: usize = 0;
    while k < seeds.len()
        invariant
            k <= seeds@.len(),
            range is None <==> k == 0,
            range matches Some((lo, hi)) ==> {
                &&& seeds@.subrange(0, k as int).contains(lo)
                &&& seeds@.subrange(0, k as int).contains(hi)
                &&& forall|i: int| 0 <= i < k ==> lo <= #[trigger] seeds@[i] <= hi
            },
        decreases seeds@.len() - k,
    {
        let seed = seeds[k];
        let ghost prefix = seeds@.subrange(0, k as int);
        let ghost next = seeds@.subrange(0, k + 1);
        proof {
            assert(next[k as int] == seed);
            assert forall|x: u64| prefix.contains(x) implies next.contains(x) by {
                let j = choose|j: int| 0 <= j < prefix.len() && prefix[j] == x;
                assert(next[j] == x);
            }
        }
        range = match range {
            Some((lo, hi)) => Some(
                (if seed < lo { seed } else { lo }, if seed > hi { seed } else { hi }),
            ),
            None => Some((seed, seed)),
        };
        k += 1;
    }
    assert(seeds@.subrange(0, seeds@.len() as int) =~= seeds@);
    range
}

} // verus!
