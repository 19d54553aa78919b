//! The aggregation that the engine runs over the committed votes.
//!
//! Each vote names a category in `0..=500`. The tally has one bucket for each
//! category, and a bucket counts the votes that named it. A vote that names
//! anything else is counted nowhere.

use vstd::prelude::*;

verus! {

/// The greatest category that a vote may name.
pub const MAX_CATEGORY: i32 = 500;

/// Buckets in a tally: one for each category from `0` to `MAX_CATEGORY`.
pub const BUCKETS: usize = 501;

/// How many of `inputs` are equal to `value`.
pub open spec fn count_of(inputs: Seq<i32>, value: int) -> nat
    decreases inputs.len(),
{
    if inputs.len() == 0 {
        0
    } else {
        count_of(inputs.drop_last(), value) + if inputs.last() == value {
            1nat
        } else {
            0nat
        }
    }
}

/// No value occurs more often than there are inputs.
pub proof fn lemma_count_of_bound(inputs: Seq<i32>, value: int)
    ensures
        count_of(inputs, value) <= inputs.len(),
    decreases inputs.len(),
{
    if inputs.len() > 0 {
        lemma_count_of_bound(inputs.drop_last(), value);
    }
}

/// Tallies the votes: bucket `k` of the result is the number of inputs equal to `k`.
pub fn zk_compute(inputs: &Vec<i32>) -> (votes: Vec<u128>)
    ensures
        votes@.len() == BUCKETS,
        forall|k: int| 0 <= k < BUCKETS ==> votes@[k] == count_of(inputs@, k),
{
    let mut votes: Vec<u128> = Vec::new();
    let mut k: usize = 0;
    while k < BUCKETS
        invariant
            k <= BUCKETS,
            votes@.len() == k,
            forall|j: int| 0 <= j < k ==> votes@[j] == 0,
        decreases BUCKETS - k,
    {
        votes.push(0);
        k = k + 1;
    }
    let mut i: usize = 0;
    assert(inputs@.subrange(0, 0) =~= Seq::<i32>::empty());
    while i < inputs.len()
        invariant
            i <= inputs.len(),
            votes@.len() == BUCKETS,
            forall|j: int|
                0 <= j < BUCKETS ==> votes@[j] == count_of(inputs@.subrange(0, i as int), j),
        decreases inputs.len() - i,
    {
        let input: i32 = inputs[i];
        let ghost seen = inputs@.subrange(0, i as int);
        let ghost next = inputs@.subrange(0, i + 1);
        assert(next.drop_last() =~= seen);
        assert(next.last() == input);
        if input >= 0 && input <= MAX_CATEGORY {
            let bucket: usize = input as usize;
            proof {
                lemma_count_of_bound(seen, bucket as int);
            }
            let count: u128 = votes[bucket];
            votes.set(bucket, count + 1);
        }
        i = i + 1;
    }
    assert(inputs@.subrange(0, i as int) =~= inputs@);
    votes
}

} // verus!
