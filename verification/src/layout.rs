//! The mathematical model of a radix-partitioned relation.
//!
//! The input relation is split into `chunks` contiguous slices; inside each
//! chunk every tuple is assigned to the partition named by the low
//! `radix_bits` bits of its key. The output lays the buckets out in flat
//! (chunk-major) order, each bucket preceded by `padding_len` reserved
//! elements, and `off_spec` gives the index at which each bucket's tuples
//! begin.

use vstd::prelude::*;
use vstd::arithmetic::div_mod::{lemma_div_is_ordered, lemma_div_multiples_vanish,
    lemma_fundamental_div_mod_converse, lemma_div_pos_is_pos};
use vstd::arithmetic::mul::{lemma_mul_inequality, lemma_mul_is_commutative,
    lemma_mul_is_distributive_add_other_way};
use vstd::seq_lib::lemma_multiset_commutative;
use crate::radix::{GpuRadixPartitionable, Tuple, spec_fanout, MAX_RADIX_BITS};

verus! {

broadcast use vstd::seq_lib::group_filter_ensures;

/// The tuple sequence formed by zipping a key column with a payload column.
pub open spec fn tuple_seq<K: GpuRadixPartitionable>(keys: Seq<K>, pays: Seq<K>) -> Seq<
    Tuple<K, K>,
> {
    Seq::new(keys.len(), |i: int| Tuple { key: keys[i], value: pays[i] })
}

/// The tuple whose key and payload are both the zero key; padding regions
/// hold this tuple.
pub open spec fn zero_tuple<K: GpuRadixPartitionable>() -> Tuple<K, K> {
    Tuple { key: K::spec_zero(), value: K::spec_zero() }
}

/// Predicate selecting the tuples assigned to partition `p`.
pub open spec fn part_pred<K: GpuRadixPartitionable>(radix_bits: u32, p: int) -> spec_fn(
    Tuple<K, K>,
) -> bool {
    |t: Tuple<K, K>| t.key.spec_partition_index(radix_bits) == p
}

/// The subsequence of `ts` assigned to partition `p`, in input order.
pub open spec fn part_seq<K: GpuRadixPartitionable>(
    ts: Seq<Tuple<K, K>>,
    radix_bits: u32,
    p: int,
) -> Seq<Tuple<K, K>> {
    ts.filter(part_pred(radix_bits, p))
}

/// Number of tuples of `ts` assigned to partition `p`.
pub open spec fn part_count<K: GpuRadixPartitionable>(
    ts: Seq<Tuple<K, K>>,
    radix_bits: u32,
    p: int,
) -> nat {
    part_seq(ts, radix_bits, p).len()
}

/// First input index of chunk `c` when a `len`-tuple relation is split into
/// `chunks` balanced contiguous slices.
pub open spec fn chunk_lo(len: int, chunks: int, c: int) -> int {
    c * len / chunks
}

/// The tuples of chunk `c`.
pub open spec fn chunk_of<K: GpuRadixPartitionable>(
    ts: Seq<Tuple<K, K>>,
    chunks: int,
    c: int,
) -> Seq<Tuple<K, K>> {
    ts.subrange(chunk_lo(ts.len() as int, chunks, c), chunk_lo(ts.len() as int, chunks, c + 1))
}

/// The tuples of the bucket with flat index `j`, i.e. of partition
/// `j % fanout` within chunk `j / fanout`.
pub open spec fn bucket_seq<K: GpuRadixPartitionable>(
    ts: Seq<Tuple<K, K>>,
    chunks: int,
    radix_bits: u32,
    j: int,
) -> Seq<Tuple<K, K>> {
    part_seq(
        chunk_of(ts, chunks, j / spec_fanout(radix_bits) as int),
        radix_bits,
        j % spec_fanout(radix_bits) as int,
    )
}

/// Number of tuples in the bucket with flat index `j`.
pub open spec fn bucket_count<K: GpuRadixPartitionable>(
    ts: Seq<Tuple<K, K>>,
    chunks: int,
    radix_bits: u32,
    j: int,
) -> nat {
    bucket_seq(ts, chunks, radix_bits, j).len()
}

/// Start index, in the output buffer, of the bucket with flat index `j`:
/// every bucket is preceded by `pad` reserved padding elements.
pub open spec fn off_spec<K: GpuRadixPartitionable>(
    ts: Seq<Tuple<K, K>>,
    chunks: int,
    radix_bits: u32,
    pad: int,
    j: int,
) -> int
    decreases j,
{
    if j <= 0 {
        pad
    } else {
        off_spec(ts, chunks, radix_bits, pad, j - 1) + bucket_count(ts, chunks, radix_bits, j - 1)
            + pad
    }
}

/// True when output index `x` lies inside some bucket's data region (as
/// opposed to a padding region).
pub open spec fn covered<K: GpuRadixPartitionable>(
    ts: Seq<Tuple<K, K>>,
    chunks: int,
    radix_bits: u32,
    pad: int,
    x: int,
) -> bool {
    exists|j: int|
        0 <= j < chunks * spec_fanout(radix_bits) && #[trigger] off_spec(
            ts,
            chunks,
            radix_bits,
            pad,
            j,
        ) <= x < off_spec(ts, chunks, radix_bits, pad, j) + bucket_count(ts, chunks, radix_bits, j)
}

/// True when the output buffer `rel` holds, at bucket `j`'s offset, exactly
/// bucket `j`'s tuples in their input order.
pub open spec fn bucket_written<K: GpuRadixPartitionable>(
    rel: Seq<Tuple<K, K>>,
    ts: Seq<Tuple<K, K>>,
    chunks: int,
    radix_bits: u32,
    pad: int,
    j: int,
) -> bool {
    forall|k: int|
        0 <= k < bucket_count(ts, chunks, radix_bits, j) ==> rel[off_spec(
            ts,
            chunks,
            radix_bits,
            pad,
            j,
        ) + k] == #[trigger] bucket_seq(ts, chunks, radix_bits, j)[k]
}

/// Sum of the partition counts of `ts` over partitions `0 .. k`.
pub open spec fn sum_part_counts<K: GpuRadixPartitionable>(
    ts: Seq<Tuple<K, K>>,
    radix_bits: u32,
    k: int,
) -> nat
    decreases k,
{
    if k <= 0 {
        0
    } else {
        sum_part_counts(ts, radix_bits, k - 1) + part_count(ts, radix_bits, k - 1)
    }
}

/// Concatenation of the partition subsequences of `ts` over partitions
/// `0 .. k`.
pub open spec fn parts_concat<K: GpuRadixPartitionable>(
    ts: Seq<Tuple<K, K>>,
    radix_bits: u32,
    k: int,
) -> Seq<Tuple<K, K>>
    decreases k,
{
    if k <= 0 {
        Seq::empty()
    } else {
        parts_concat(ts, radix_bits, k - 1) + part_seq(ts, radix_bits, k - 1)
    }
}

/// Filtering distributes over appending one element.
pub proof fn lemma_filter_push<A>(s: Seq<A>, pred: spec_fn(A) -> bool, x: A)
    ensures
        s.push(x).filter(pred) == if pred(x) {
            s.filter(pred).push(x)
        } else {
            s.filter(pred)
        },
{
    reveal(Seq::filter);
    assert(s.push(x).drop_last() =~= s);
    assert(s.push(x).last() == x);
    if pred(x) {
        assert(s.push(x).filter(pred) =~= s.filter(pred).push(x));
    }
}

/// A prefix of a sequence has no more tuples of partition `p` than the whole.
pub proof fn lemma_part_count_prefix<K: GpuRadixPartitionable>(
    ts: Seq<Tuple<K, K>>,
    radix_bits: u32,
    p: int,
    i: int,
)
    requires
        0 <= i <= ts.len(),
    ensures
        part_seq(ts.take(i), radix_bits, p) == part_seq(ts, radix_bits, p).take(
            part_count(ts.take(i), radix_bits, p) as int,
        ),
        part_count(ts.take(i), radix_bits, p) <= part_count(ts, radix_bits, p),
{
    assert(ts =~= ts.take(i) + ts.skip(i));
    Seq::filter_distributes_over_add(ts.take(i), ts.skip(i), part_pred(radix_bits, p));
    assert(part_seq(ts, radix_bits, p) == part_seq(ts.take(i), radix_bits, p) + part_seq(
        ts.skip(i),
        radix_bits,
        p,
    ));
    assert(part_seq(ts, radix_bits, p).take(part_count(ts.take(i), radix_bits, p) as int)
        =~= part_seq(ts.take(i), radix_bits, p));
}

/// Sums of partition counts over an empty tuple sequence are zero.
pub proof fn lemma_sum_part_counts_empty<K: GpuRadixPartitionable>(radix_bits: u32, k: int)
    ensures
        sum_part_counts(Seq::<Tuple<K, K>>::empty(), radix_bits, k) == 0,
    decreases k,
{
    if k > 0 {
        lemma_sum_part_counts_empty::<K>(radix_bits, k - 1);
    }
}

/// Appending one tuple raises exactly one partition count, provided its
/// partition lies below `k`.
pub proof fn lemma_sum_part_counts_push<K: GpuRadixPartitionable>(
    ts: Seq<Tuple<K, K>>,
    radix_bits: u32,
    k: int,
    t: Tuple<K, K>,
)
    ensures
        sum_part_counts(ts.push(t), radix_bits, k) == sum_part_counts(ts, radix_bits, k) + if 0
            <= t.key.spec_partition_index(radix_bits) < k {
            1int
        } else {
            0int
        },
    decreases k,
{
    if k > 0 {
        lemma_sum_part_counts_push(ts, radix_bits, k - 1, t);
        lemma_filter_push(ts, part_pred::<K>(radix_bits, k - 1), t);
    }
}

/// Every tuple lands in exactly one partition, so the counts over all
/// `fanout` partitions sum to the sequence's length.
pub proof fn lemma_sum_part_counts_total<K: GpuRadixPartitionable>(
    ts: Seq<Tuple<K, K>>,
    radix_bits: u32,
)
    requires
        radix_bits <= MAX_RADIX_BITS,
    ensures
        sum_part_counts(ts, radix_bits, spec_fanout(radix_bits) as int) == ts.len(),
    decreases ts.len(),
{
    if ts.len() == 0 {
        lemma_sum_part_counts_empty::<K>(radix_bits, spec_fanout(radix_bits) as int);
        assert(ts =~= Seq::<Tuple<K, K>>::empty());
    } else {
        let prefix = ts.drop_last();
        let t = ts.last();
        lemma_sum_part_counts_total(prefix, radix_bits);
        t.key.lemma_partition_index_in_range(radix_bits);
        lemma_sum_part_counts_push(prefix, radix_bits, spec_fanout(radix_bits) as int, t);
        assert(prefix.push(t) =~= ts);
    }
}

/// Chunk boundaries are ordered, and chunk `0` starts at `0` while chunk
/// `chunks` starts at `len`.
pub proof fn lemma_chunk_lo_bounds(len: int, chunks: int, c1: int, c2: int)
    requires
        0 <= len,
        1 <= chunks,
        0 <= c1 <= c2 <= chunks,
    ensures
        0 <= chunk_lo(len, chunks, c1) <= chunk_lo(len, chunks, c2) <= len,
        chunk_lo(len, chunks, 0) == 0,
        chunk_lo(len, chunks, chunks) == len,
{
    lemma_mul_inequality(c1, c2, len);
    lemma_div_is_ordered(c1 * len, c2 * len, chunks);
    lemma_mul_inequality(c2, chunks, len);
    lemma_div_is_ordered(c2 * len, chunks * len, chunks);
    lemma_mul_is_commutative(chunks, len);
    lemma_div_multiples_vanish(len, chunks);
    if c1 > 0 {
        vstd::arithmetic::mul::lemma_mul_strictly_positive(c1, len);
    }
    lemma_div_pos_is_pos(c1 * len, chunks);
    vstd::arithmetic::mul::lemma_mul_basics(len);
}

/// Bucket `c * fanout + p` of the flat layout is partition `p` of chunk `c`.
pub proof fn lemma_flat_index<K: GpuRadixPartitionable>(
    ts: Seq<Tuple<K, K>>,
    chunks: int,
    radix_bits: u32,
    c: int,
    p: int,
)
    requires
        radix_bits <= MAX_RADIX_BITS,
        0 <= c,
        0 <= p < spec_fanout(radix_bits),
    ensures
        bucket_seq(ts, chunks, radix_bits, c * spec_fanout(radix_bits) as int + p) == part_seq(
            chunk_of(ts, chunks, c),
            radix_bits,
            p,
        ),
        bucket_count(ts, chunks, radix_bits, c * spec_fanout(radix_bits) as int + p) == part_count(
            chunk_of(ts, chunks, c),
            radix_bits,
            p,
        ),
{
    let fan = spec_fanout(radix_bits) as int;
    lemma_fundamental_div_mod_converse(c * fan + p, fan, c, p);
}

/// The bucket start offsets grow monotonically with the flat bucket index.
pub proof fn lemma_off_mono<K: GpuRadixPartitionable>(
    ts: Seq<Tuple<K, K>>,
    chunks: int,
    radix_bits: u32,
    pad: int,
    j1: int,
    j2: int,
)
    requires
        0 <= pad,
        j1 <= j2,
    ensures
        off_spec(ts, chunks, radix_bits, pad, j1) <= off_spec(ts, chunks, radix_bits, pad, j2),
        pad <= off_spec(ts, chunks, radix_bits, pad, j1),
    decreases j2 - j1,
{
    if j1 < j2 {
        lemma_off_mono(ts, chunks, radix_bits, pad, j1, j2 - 1);
    }
    lemma_off_ge_pad(ts, chunks, radix_bits, pad, j1);
}

/// Every bucket offset lies at or beyond the first padding region.
pub proof fn lemma_off_ge_pad<K: GpuRadixPartitionable>(
    ts: Seq<Tuple<K, K>>,
    chunks: int,
    radix_bits: u32,
    pad: int,
    j: int,
)
    requires
        0 <= pad,
    ensures
        pad <= off_spec(ts, chunks, radix_bits, pad, j),
    decreases j,
{
    if j > 0 {
        lemma_off_ge_pad(ts, chunks, radix_bits, pad, j - 1);
    }
}

/// Between consecutive offsets lie exactly the earlier bucket's tuples and
/// one padding region, so bucket data regions are disjoint.
pub proof fn lemma_off_regions_disjoint<K: GpuRadixPartitionable>(
    ts: Seq<Tuple<K, K>>,
    chunks: int,
    radix_bits: u32,
    pad: int,
    j1: int,
    j2: int,
)
    requires
        0 <= pad,
        0 <= j1 < j2,
    ensures
        off_spec(ts, chunks, radix_bits, pad, j1) + bucket_count(ts, chunks, radix_bits, j1) + pad
            <= off_spec(ts, chunks, radix_bits, pad, j2),
{
    lemma_off_mono(ts, chunks, radix_bits, pad, j1 + 1, j2);
}

/// Start offset of the first bucket of chunk `c`, in closed form: all the
/// tuples of the earlier chunks plus the padding of all earlier buckets.
pub proof fn lemma_off_chunk_start<K: GpuRadixPartitionable>(
    ts: Seq<Tuple<K, K>>,
    chunks: int,
    radix_bits: u32,
    pad: int,
    c: int,
)
    requires
        radix_bits <= MAX_RADIX_BITS,
        1 <= chunks,
        0 <= c <= chunks,
        0 <= pad,
    ensures
        off_spec(ts, chunks, radix_bits, pad, c * spec_fanout(radix_bits) as int) == chunk_lo(
            ts.len() as int,
            chunks,
            c,
        ) + c * spec_fanout(radix_bits) as int * pad + pad,
    decreases c,
{
    let fan = spec_fanout(radix_bits) as int;
    let len = ts.len() as int;
    if c == 0 {
        lemma_chunk_lo_bounds(len, chunks, 0, 0);
        vstd::arithmetic::mul::lemma_mul_basics(fan);
        vstd::arithmetic::mul::lemma_mul_basics(pad);
        assert(c * fan == 0);
        assert(c * fan * pad == 0);
    } else {
        let prev = off_spec(ts, chunks, radix_bits, pad, (c - 1) * fan);
        lemma_off_chunk_start(ts, chunks, radix_bits, pad, c - 1);
        assert(prev == chunk_lo(len, chunks, c - 1) + (c - 1) * fan * pad + pad);
        lemma_off_span_chunk(ts, chunks, radix_bits, pad, c - 1, fan);
        assert((c - 1) * fan + fan == c * fan) by {
            lemma_mul_is_distributive_add_other_way(fan, c - 1, 1);
            vstd::arithmetic::mul::lemma_mul_basics(fan);
        }
        assert(off_spec(ts, chunks, radix_bits, pad, c * fan) == prev + sum_part_counts(
            chunk_of(ts, chunks, c - 1),
            radix_bits,
            fan,
        ) + fan * pad);
        lemma_sum_part_counts_total(chunk_of(ts, chunks, c - 1), radix_bits);
        lemma_chunk_lo_bounds(len, chunks, c - 1, c);
        assert(chunk_of(ts, chunks, c - 1).len() == chunk_lo(len, chunks, c) - chunk_lo(
            len,
            chunks,
            c - 1,
        ));
        assert(off_spec(ts, chunks, radix_bits, pad, c * fan) == chunk_lo(len, chunks, c) + ((c
            - 1) * fan * pad + fan * pad) + pad);
        assert((c - 1) * fan * pad + fan * pad == c * fan * pad) by {
            lemma_mul_is_distributive_add_other_way(pad, (c - 1) * fan, fan);
            lemma_mul_is_distributive_add_other_way(fan, c - 1, 1);
            vstd::arithmetic::mul::lemma_mul_basics(fan);
        }
    }
}

/// Offset of partition `k` of chunk `c` relative to the chunk's first
/// bucket: the tuples of the chunk's earlier partitions plus `k` padding
/// regions.
pub proof fn lemma_off_span_chunk<K: GpuRadixPartitionable>(
    ts: Seq<Tuple<K, K>>,
    chunks: int,
    radix_bits: u32,
    pad: int,
    c: int,
    k: int,
)
    requires
        radix_bits <= MAX_RADIX_BITS,
        1 <= chunks,
        0 <= c,
        0 <= k <= spec_fanout(radix_bits),
        0 <= pad,
    ensures
        off_spec(ts, chunks, radix_bits, pad, c * spec_fanout(radix_bits) as int + k) == off_spec(
            ts,
            chunks,
            radix_bits,
            pad,
            c * spec_fanout(radix_bits) as int,
        ) + sum_part_counts(chunk_of(ts, chunks, c), radix_bits, k) + k * pad,
    decreases k,
{
    let fan = spec_fanout(radix_bits) as int;
    if k == 0 {
    } else {
        lemma_off_span_chunk(ts, chunks, radix_bits, pad, c, k - 1);
        lemma_flat_index(ts, chunks, radix_bits, c, k - 1);
        assert(c * fan + k - 1 >= 0) by {
            vstd::arithmetic::mul::lemma_mul_nonnegative(c, fan);
        }
        assert((k - 1) * pad + pad == k * pad) by {
            lemma_mul_is_distributive_add_other_way(pad, k - 1, 1);
        }
    }
}

/// The end of the last bucket's data region is exactly the output length:
/// all tuples plus one padding region per bucket.
pub proof fn lemma_off_total<K: GpuRadixPartitionable>(
    ts: Seq<Tuple<K, K>>,
    chunks: int,
    radix_bits: u32,
    pad: int,
)
    requires
        radix_bits <= MAX_RADIX_BITS,
        1 <= chunks,
        0 <= pad,
    ensures
        off_spec(ts, chunks, radix_bits, pad, chunks * spec_fanout(radix_bits) as int) == ts.len()
            + chunks * spec_fanout(radix_bits) as int * pad + pad,
{
    lemma_off_chunk_start(ts, chunks, radix_bits, pad, chunks);
    lemma_chunk_lo_bounds(ts.len() as int, chunks, chunks, chunks);
}

/// The multiset of the tuples in partitions `0 .. fanout` of a sequence is
/// the multiset of the sequence itself: partitioning loses nothing and
/// duplicates nothing.
pub proof fn lemma_parts_concat_multiset<K: GpuRadixPartitionable>(
    ts: Seq<Tuple<K, K>>,
    radix_bits: u32,
)
    requires
        radix_bits <= MAX_RADIX_BITS,
    ensures
        parts_concat(ts, radix_bits, spec_fanout(radix_bits) as int).to_multiset()
            =~= ts.to_multiset(),
    decreases ts.len(),
{
    broadcast use vstd::seq_lib::group_to_multiset_ensures;

    let fan = spec_fanout(radix_bits) as int;
    if ts.len() == 0 {
        lemma_parts_concat_empty::<K>(radix_bits, fan);
        assert(ts =~= Seq::<Tuple<K, K>>::empty());
        assert(Seq::<Tuple<K, K>>::empty().to_multiset() =~= parts_concat(
            ts,
            radix_bits,
            fan,
        ).to_multiset());
    } else {
        let prefix = ts.drop_last();
        let t = ts.last();
        lemma_parts_concat_multiset(prefix, radix_bits);
        t.key.lemma_partition_index_in_range(radix_bits);
        lemma_parts_concat_push(prefix, radix_bits, fan, t);
        assert(prefix.push(t) =~= ts);
        assert(ts.to_multiset() =~= prefix.to_multiset().insert(t));
    }
}

/// Concatenating the partitions of the empty sequence gives the empty
/// sequence.
pub proof fn lemma_parts_concat_empty<K: GpuRadixPartitionable>(radix_bits: u32, k: int)
    ensures
        parts_concat(Seq::<Tuple<K, K>>::empty(), radix_bits, k) =~= Seq::<Tuple<K, K>>::empty(),
    decreases k,
{
    if k > 0 {
        lemma_parts_concat_empty::<K>(radix_bits, k - 1);
    }
}

/// Appending a tuple whose partition lies below `k` adds exactly that tuple
/// to the concatenation of the first `k` partitions, up to order.
pub proof fn lemma_parts_concat_push<K: GpuRadixPartitionable>(
    ts: Seq<Tuple<K, K>>,
    radix_bits: u32,
    k: int,
    t: Tuple<K, K>,
)
    ensures
        parts_concat(ts.push(t), radix_bits, k).to_multiset() =~= if 0
            <= t.key.spec_partition_index(radix_bits) < k {
            parts_concat(ts, radix_bits, k).to_multiset().insert(t)
        } else {
            parts_concat(ts, radix_bits, k).to_multiset()
        },
    decreases k,
{
    broadcast use vstd::seq_lib::group_to_multiset_ensures;

    if k > 0 {
        lemma_parts_concat_push(ts, radix_bits, k - 1, t);
        lemma_filter_push(ts, part_pred::<K>(radix_bits, k - 1), t);
        let a = parts_concat(ts.push(t), radix_bits, k - 1);
        let b = part_seq(ts.push(t), radix_bits, k - 1);
        let a0 = parts_concat(ts, radix_bits, k - 1);
        let b0 = part_seq(ts, radix_bits, k - 1);
        lemma_multiset_commutative(a, b);
        lemma_multiset_commutative(a0, b0);
        if t.key.spec_partition_index(radix_bits) == k - 1 {
            assert(b =~= b0.push(t));
            assert(b.to_multiset() =~= b0.to_multiset().insert(t));
        }
    }
}

} // verus!
