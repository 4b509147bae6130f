//! Byte n-grams of a text, hashed into a fixed number of buckets.

use vstd::prelude::*;
use vstd::multiset::*;
use vstd::seq_lib::*;
use vstd::slice::slice_subrange;
use crate::fnv::{fnv1a, fnv1a_hash};
use crate::lowercase::{lowercased, lowered_bytes};
use crate::similarity::{lemma_square_sum_zero, square_sum};

verus! {

/// How many bytes make one n-gram.
pub const GRAM_LEN: usize = 4;

/// How many buckets the n-grams are hashed into.
pub const BUCKETS: usize = 256;

/// The number of n-grams of `bytes`: one for each run of [`GRAM_LEN`]
/// neighbouring bytes, none where there are fewer bytes than that.
pub open spec fn window_count(bytes: Seq<u8>) -> nat {
    if bytes.len() < GRAM_LEN {
        0
    } else {
        (bytes.len() - GRAM_LEN + 1) as nat
    }
}

/// The bucket of the n-gram that starts at `start`: its hash, reduced
/// modulo [`BUCKETS`].
pub open spec fn window_bucket(bytes: Seq<u8>, start: int) -> int {
    fnv1a(bytes.subrange(start, start + GRAM_LEN)) as int % (BUCKETS as int)
}

/// The buckets of all n-grams of `bytes`, in the order of their starts.
pub open spec fn window_buckets(bytes: Seq<u8>) -> Seq<int> {
    Seq::new(window_count(bytes), |start: int| window_bucket(bytes, start))
}

/// How many n-grams of `bytes` fall into `bucket`.
pub open spec fn bucket_count(bytes: Seq<u8>, bucket: int) -> nat {
    window_buckets(bytes).to_multiset().count(bucket)
}

/// `counts` holds, for each bucket, the number of n-grams of `bytes` that fall
/// into it.
pub open spec fn counts_ngrams_of(counts: Seq<u64>, bytes: Seq<u8>) -> bool {
    &&& counts.len() == BUCKETS
    &&& forall|bucket: int|
        0 <= bucket < BUCKETS ==> #[trigger] counts[bucket] == bucket_count(bytes, bucket)
}

/// The sum of the first `n` entries of `counts`.
pub open spec fn total(counts: Seq<u64>, n: nat) -> nat
    recommends
        n <= counts.len(),
    decreases n,
{
    if n == 0 {
        0
    } else {
        total(counts, (n - 1) as nat) + counts[n - 1] as nat
    }
}

/// The bucket that a hash value selects.
pub fn bucket_index(hash: u32) -> (bucket: usize)
    ensures
        bucket == hash as int % (BUCKETS as int),
        bucket < BUCKETS,
{
    (hash as usize) % BUCKETS
}

/// Counts the n-grams of `bytes` by bucket. Bytes too few for one n-gram give
/// zeros only, and the squared norm of the counts is positive as soon as there
/// is one n-gram.
pub fn count_ngrams(bytes: &[u8]) -> (counts: Vec<u64>)
    ensures
        counts_ngrams_of(counts@, bytes@),
        bytes@.len() < GRAM_LEN ==> counts@ == Seq::new(BUCKETS as nat, |bucket: int| 0u64),
        square_sum(counts@, BUCKETS as nat) > 0 <==> bytes@.len() >= GRAM_LEN,
{
    let mut counts: Vec<u64> = vec![0u64; BUCKETS];
    let ghost buckets = window_buckets(bytes@);
    proof {
        buckets.take(0).to_multiset_ensures();
        assert(buckets.take(0).to_multiset() =~= Multiset::empty());
        assert(bytes@.len() < GRAM_LEN ==> buckets =~= buckets.take(0));
    }
    if bytes.len() < GRAM_LEN {
        proof {
            lemma_norm_positive(counts@, bytes@);
        }
        return counts;
    }
    let windows: usize = bytes.len() - GRAM_LEN + 1;
    let mut start: usize = 0;
    while start < windows
        invariant
            GRAM_LEN <= bytes@.len() <= usize::MAX,
            windows + GRAM_LEN == bytes@.len() + 1,
            buckets == window_buckets(bytes@),
            start <= windows,
            counts@.len() == BUCKETS,
            forall|bucket: int|
                0 <= bucket < BUCKETS ==> #[trigger] counts@[bucket] == buckets.take(
                    start as int,
                ).to_multiset().count(bucket),
            forall|bucket: int| 0 <= bucket < BUCKETS ==> #[trigger] counts@[bucket] <= start,
        decreases windows - start,
    {
        let gram = slice_subrange(bytes, start, start + GRAM_LEN);
        let bucket = bucket_index(fnv1a_hash(gram));
        proof {
            broadcast use to_multiset_build;

            assert(buckets[start as int] == bucket);
            assert(buckets.take(start + 1) =~= buckets.take(start as int).push(bucket as int));
        }
        let seen = counts[bucket];
        counts.set(bucket, seen + 1);
        start = start + 1;
    }
    proof {
        assert(buckets.take(windows as int) =~= buckets);
        lemma_norm_positive(counts@, bytes@);
    }
    counts
}

/// The feature counts of `input`: the text is put in lowercase, and the
/// n-grams of its UTF-8 bytes are counted by bucket. Scaled by the square root
/// of their squared norm, the counts are a vector of length one, unless the
/// lowercase text is too short for an n-gram and all of them are zero.
pub fn hash_ngrams(input: &str) -> (counts: Vec<u64>)
    ensures
        counts_ngrams_of(counts@, lowered_bytes(input@)),
        lowered_bytes(input@).len() < GRAM_LEN ==> counts@ == Seq::new(
            BUCKETS as nat,
            |bucket: int| 0u64,
        ),
        square_sum(counts@, BUCKETS as nat) > 0 <==> lowered_bytes(input@).len() >= GRAM_LEN,
{
    let lower = input.to_lowercase();
    count_ngrams(lower.as_str().as_bytes())
}

/// Bytes too few for one n-gram leave every bucket empty; with enough bytes
/// the bucket of the first n-gram is not.
pub proof fn lemma_bucket_counts_empty(bytes: Seq<u8>)
    ensures
        bytes.len() < GRAM_LEN ==> forall|bucket: int| bucket_count(bytes, bucket) == 0,
        bytes.len() >= GRAM_LEN ==> bucket_count(bytes, window_bucket(bytes, 0)) > 0,
{
    let buckets = window_buckets(bytes);
    buckets.to_multiset_ensures();
    if bytes.len() < GRAM_LEN {
        assert(buckets.to_multiset() =~= Multiset::empty());
    } else {
        assert(buckets[0] == window_bucket(bytes, 0));
        assert(buckets.contains(window_bucket(bytes, 0)));
    }
}

/// The counts of bytes too few for one n-gram are all zero, and the squared
/// norm of the counts is positive exactly when there is an n-gram: then, and
/// only then, the counts can be scaled to length one.
pub proof fn lemma_norm_positive(counts: Seq<u64>, bytes: Seq<u8>)
    requires
        counts_ngrams_of(counts, bytes),
    ensures
        bytes.len() < GRAM_LEN ==> counts == Seq::new(BUCKETS as nat, |bucket: int| 0u64),
        square_sum(counts, BUCKETS as nat) > 0 <==> bytes.len() >= GRAM_LEN,
{
    lemma_bucket_counts_empty(bytes);
    lemma_square_sum_zero(counts, BUCKETS as nat);
    if bytes.len() < GRAM_LEN {
        assert(counts =~= Seq::new(BUCKETS as nat, |bucket: int| 0u64));
    } else {
        let first = window_bucket(bytes, 0);
        assert(0 <= first < BUCKETS);
        assert(counts[first] == bucket_count(bytes, first));
    }
}

/// How many entries of `buckets` are below `limit`, counted bucket by bucket.
spec fn tally(buckets: Seq<int>, limit: nat) -> nat
    decreases limit,
{
    if limit == 0 {
        0
    } else {
        tally(buckets, (limit - 1) as nat) + buckets.to_multiset().count(limit - 1)
    }
}

/// One more entry raises the tally by one if it is a bucket below `limit`.
proof fn lemma_tally_push(buckets: Seq<int>, bucket: int, limit: nat)
    ensures
        tally(buckets.push(bucket), limit) == tally(buckets, limit) + if 0 <= bucket < limit {
            1nat
        } else {
            0nat
        },
    decreases limit,
{
    broadcast use to_multiset_build;

    if limit > 0 {
        lemma_tally_push(buckets, bucket, (limit - 1) as nat);
    }
}

/// Entries that are all buckets below `limit` are tallied once each.
proof fn lemma_tally_len(buckets: Seq<int>, limit: nat)
    requires
        forall|i: int| 0 <= i < buckets.len() ==> 0 <= #[trigger] buckets[i] < limit,
    ensures
        tally(buckets, limit) == buckets.len(),
    decreases buckets.len(),
{
    if buckets.len() == 0 {
        lemma_tally_none(buckets, limit);
    } else {
        let front = buckets.drop_last();
        lemma_tally_len(front, limit);
        lemma_tally_push(front, buckets.last(), limit);
        assert(front.push(buckets.last()) =~= buckets);
    }
}

/// Nothing is tallied where there are no entries.
proof fn lemma_tally_none(buckets: Seq<int>, limit: nat)
    requires
        buckets.len() == 0,
    ensures
        tally(buckets, limit) == 0,
    decreases limit,
{
    if limit > 0 {
        buckets.to_multiset_ensures();
        assert(buckets.to_multiset() =~= Multiset::empty());
        lemma_tally_none(buckets, (limit - 1) as nat);
    }
}

/// Counts that agree with the buckets' multiset add up to the tally.
proof fn lemma_total_is_tally(counts: Seq<u64>, bytes: Seq<u8>, n: nat)
    requires
        counts_ngrams_of(counts, bytes),
        n <= BUCKETS,
    ensures
        total(counts, n) == tally(window_buckets(bytes), n),
    decreases n,
{
    if n > 0 {
        lemma_total_is_tally(counts, bytes, (n - 1) as nat);
        assert(counts[n - 1] == bucket_count(bytes, n - 1));
    }
}

/// Every n-gram is counted once: the counts add up to the number of n-grams.
pub proof fn lemma_counts_total(counts: Seq<u64>, bytes: Seq<u8>)
    requires
        counts_ngrams_of(counts, bytes),
    ensures
        total(counts, BUCKETS as nat) == window_count(bytes),
{
    lemma_total_is_tally(counts, bytes, BUCKETS as nat);
    lemma_tally_len(window_buckets(bytes), BUCKETS as nat);
}

/// The counts of a byte sequence are determined by it: two vectors that both
/// hold them are the same vector.
pub proof fn lemma_counts_unique(first: Seq<u64>, second: Seq<u64>, bytes: Seq<u8>)
    requires
        counts_ngrams_of(first, bytes),
        counts_ngrams_of(second, bytes),
    ensures
        first == second,
{
    assert(first =~= second);
}

/// Case does not matter: two texts with the same lowercase form have the same
/// counts.
pub proof fn lemma_case_insensitive(left: Seq<char>, right: Seq<char>, counts: Seq<u64>)
    ensures
        lowercased(left) == lowercased(right) ==> (counts_ngrams_of(counts, lowered_bytes(left))
            <==> counts_ngrams_of(counts, lowered_bytes(right))),
{
}

} // verus!
