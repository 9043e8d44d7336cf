//! Progress aggregation: region tasks report completed-chunk increments
//! through a bounded queue to one aggregator, which sums them. Delivery
//! order across regions is arbitrary, so the total is stated and proved to
//! depend only on the multiset of delivered increments.
use vstd::prelude::*;

use vstd::seq_lib::{commutative_foldr, lemma_fold_right_permutation, lemma_multiset_commutative};

verus! {

/// Chunks reported per increment by a region task (one raster row of
/// chunks).
pub const CHUNKS_PER_INCREMENT: u64 = 32;

/// Chunks of one region (32 by 32).
pub const CHUNKS_PER_REGION: u64 = 1024;

/// Sum of a sequence of progress increments.
pub open spec fn increments_sum(s: Seq<u64>) -> int
    decreases s.len(),
{
    if s.len() == 0 {
        0
    } else {
        increments_sum(s.drop_last()) + s.last()
    }
}

/// The single aggregator behind every region task: a monotonically
/// increasing count of completed chunks.
#[derive(Clone, Copy, Debug, PartialEq, Eq, Structural)]
pub struct ProgressAggregator {
    pub count: u64,
}

impl ProgressAggregator {
    pub fn new() -> (r: ProgressAggregator)
        ensures
            r.count == 0,
    {
        ProgressAggregator { count: 0 }
    }

    /// Adds one delivered increment to the count.
    pub fn apply(&mut self, inc: u64)
        requires
            old(self).count + inc <= u64::MAX,
        ensures
            final(self).count == old(self).count + inc,
    {
        self.count = self.count + inc;
    }

    /// Delivers a batch of increments, in order.
    pub fn apply_all(&mut self, incs: &Vec<u64>)
        requires
            old(self).count + increments_sum(incs@) <= u64::MAX,
        ensures
            final(self).count == old(self).count + increments_sum(incs@),
    {
        let mut i: usize = 0;
        while i < incs.len()
            invariant
                0 <= i <= incs@.len(),
                self.count == old(self).count + increments_sum(incs@.subrange(0, i as int)),
                old(self).count + increments_sum(incs@) <= u64::MAX,
            decreases incs@.len() - i,
        {
            proof {
                assert(incs@.subrange(0, i + 1).drop_last() =~= incs@.subrange(0, i as int));
                lemma_increments_sum_prefix_bound(incs@, i + 1);
            }
            self.count = self.count + incs[i];
            i = i + 1;
        }
        proof {
            assert(incs@.subrange(0, incs@.len() as int) =~= incs@);
        }
    }
}

/// Every increment is non-negative, so a prefix never sums to more than
/// the whole sequence.
proof fn lemma_increments_sum_prefix_bound(s: Seq<u64>, k: int)
    requires
        0 <= k <= s.len(),
    ensures
        0 <= increments_sum(s.subrange(0, k)) <= increments_sum(s),
    decreases s.len() - k,
{
    if k == s.len() {
        assert(s.subrange(0, k) =~= s);
        lemma_increments_sum_nonneg(s);
    } else {
        lemma_increments_sum_prefix_bound(s, k + 1);
        lemma_increments_sum_nonneg(s.subrange(0, k));
        assert(s.subrange(0, k + 1).drop_last() =~= s.subrange(0, k));
    }
}

proof fn lemma_increments_sum_nonneg(s: Seq<u64>)
    ensures
        increments_sum(s) >= 0,
    decreases s.len(),
{
    if s.len() > 0 {
        lemma_increments_sum_nonneg(s.drop_last());
    }
}

/// The sum distributes over concatenation.
proof fn lemma_increments_sum_concat(a: Seq<u64>, b: Seq<u64>)
    ensures
        increments_sum(a + b) == increments_sum(a) + increments_sum(b),
    decreases b.len(),
{
    if b.len() == 0 {
        assert(a + b =~= a);
    } else {
        lemma_increments_sum_concat(a, b.drop_last());
        assert((a + b).drop_last() =~= a + b.drop_last());
        assert((a + b).last() == b.last());
    }
}

/// The sum equals the right fold of addition, whatever the start value.
proof fn lemma_increments_sum_is_fold(s: Seq<u64>, v: int)
    ensures
        s.fold_right(|x: u64, acc: int| acc + x, v) == v + increments_sum(s),
    decreases s.len(),
{
    if s.len() > 0 {
        lemma_increments_sum_is_fold(s.drop_last(), v + s.last());
    }
}

/// The sum depends only on the multiset of delivered increments, not on
/// the order in which they arrive.
pub proof fn lemma_increments_sum_permutation(a: Seq<u64>, b: Seq<u64>)
    requires
        a.to_multiset() == b.to_multiset(),
    ensures
        increments_sum(a) == increments_sum(b),
{
    let f = |x: u64, acc: int| acc + x;
    assert(commutative_foldr(f)) by {
        assert(forall|x: u64, y: u64, v: int| #[trigger] f(x, f(y, v)) == f(y, f(x, v)));
    }
    lemma_fold_right_permutation(a, b, f, 0);
    lemma_increments_sum_is_fold(a, 0);
    lemma_increments_sum_is_fold(b, 0);
}

/// Concatenation of every per-region increment stream, in stream order.
pub open spec fn concat_streams(streams: Seq<Seq<u64>>) -> Seq<u64>
    decreases streams.len(),
{
    if streams.len() == 0 {
        Seq::empty()
    } else {
        concat_streams(streams.drop_last()) + streams.last()
    }
}

proof fn lemma_concat_streams_sum(streams: Seq<Seq<u64>>, total: int)
    requires
        forall|i: int| 0 <= i < streams.len() ==> increments_sum(#[trigger] streams[i]) == total,
    ensures
        increments_sum(concat_streams(streams)) == total * streams.len(),
    decreases streams.len(),
{
    if streams.len() == 0 {
    } else {
        lemma_concat_streams_sum(streams.drop_last(), total);
        lemma_increments_sum_concat(concat_streams(streams.drop_last()), streams.last());
        assert(total * streams.len() == total * (streams.len() - 1) + total) by (nonlinear_arith);
    }
}

/// Progress aggregation is exact: when the deliveries received are, as a
/// multiset, exactly the increments of `n` region streams that each sum to
/// `CHUNKS_PER_REGION` chunks — however the streams were interleaved on
/// the way to the aggregator — their sum is exactly `1024 * n`.
pub proof fn lemma_progress_total(deliveries: Seq<u64>, streams: Seq<Seq<u64>>)
    requires
        deliveries.to_multiset() == concat_streams(streams).to_multiset(),
        forall|i: int|
            0 <= i < streams.len() ==> increments_sum(#[trigger] streams[i])
                == CHUNKS_PER_REGION,
    ensures
        increments_sum(deliveries) == CHUNKS_PER_REGION * streams.len(),
{
    lemma_increments_sum_permutation(deliveries, concat_streams(streams));
    lemma_concat_streams_sum(streams, CHUNKS_PER_REGION as int);
}

/// An interleaving of two streams: the deliveries split into two disjoint
/// subsequences that preserve each stream's order. Its multiset is the sum
/// of the two streams' multisets, which is what `lemma_progress_total`
/// asks of a delivery order.
pub proof fn lemma_interleaving_multiset(a: Seq<u64>, b: Seq<u64>)
    ensures
        (a + b).to_multiset() == a.to_multiset().add(b.to_multiset()),
{
    lemma_multiset_commutative(a, b);
}

} // verus!
