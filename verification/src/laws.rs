//! Laws of the partitioning model.
//!
//! These theorems state, over the model of `layout`, what every successful
//! partitioning run guarantees: no tuple is lost or duplicated, every tuple
//! sits in the partition named by its key, the bucket offsets grow
//! monotonically, and the outcome is a function of the input columns and
//! the configuration alone — the same for every partition-write variant and
//! for repeated runs.

use vstd::prelude::*;
use vstd::seq_lib::lemma_multiset_commutative;
use vstd::multiset::Multiset;
use crate::radix::{GpuRadixPartitionable, Tuple, spec_fanout, MAX_RADIX_BITS};
use crate::layout::{tuple_seq, part_seq, chunk_lo, chunk_of, bucket_seq, bucket_count, off_spec, bucket_written,
    parts_concat, lemma_chunk_lo_bounds, lemma_flat_index, lemma_off_mono,
    lemma_parts_concat_multiset};
use crate::gpu_radix_partition::{PartitionedRelation, spec_padding_len, spec_partition_output};

verus! {

/// Concatenation of the first `upto` buckets of the partitioned layout, in
/// flat chunk-major order.
pub open spec fn buckets_concat<K: GpuRadixPartitionable>(
    ts: Seq<Tuple<K, K>>,
    chunks: int,
    radix_bits: u32,
    upto: int,
) -> Seq<Tuple<K, K>>
    decreases upto,
{
    if upto <= 0 {
        Seq::empty()
    } else {
        buckets_concat(ts, chunks, radix_bits, upto - 1) + bucket_seq(
            ts,
            chunks,
            radix_bits,
            upto - 1,
        )
    }
}

/// The buckets of one chunk contribute exactly that chunk's tuples.
proof fn lemma_buckets_concat_span<K: GpuRadixPartitionable>(
    ts: Seq<Tuple<K, K>>,
    chunks: int,
    radix_bits: u32,
    c: int,
    k: int,
)
    requires
        radix_bits <= MAX_RADIX_BITS,
        1 <= chunks,
        0 <= c,
        0 <= k <= spec_fanout(radix_bits),
    ensures
        buckets_concat(ts, chunks, radix_bits, c * spec_fanout(radix_bits) as int + k)
            .to_multiset() =~= buckets_concat(
            ts,
            chunks,
            radix_bits,
            c * spec_fanout(radix_bits) as int,
        ).to_multiset().add(
            parts_concat(chunk_of(ts, chunks, c), radix_bits, k).to_multiset(),
        ),
    decreases k,
{
    broadcast use vstd::seq_lib::group_to_multiset_ensures;
    broadcast use vstd::multiset::group_multiset_axioms;

    let fan = spec_fanout(radix_bits) as int;
    if k == 0 {
        assert(parts_concat(chunk_of(ts, chunks, c), radix_bits, 0)
            =~= Seq::<Tuple<K, K>>::empty());
        assert(Seq::<Tuple<K, K>>::empty().to_multiset() =~= Multiset::empty());
    } else {
        lemma_buckets_concat_span(ts, chunks, radix_bits, c, k - 1);
        vstd::arithmetic::mul::lemma_mul_nonnegative(c, fan);
        lemma_flat_index(ts, chunks, radix_bits, c, k - 1);
        let a = buckets_concat(ts, chunks, radix_bits, c * fan + k - 1);
        let b = bucket_seq(ts, chunks, radix_bits, c * fan + k - 1);
        lemma_multiset_commutative(a, b);
        let a0 = parts_concat(chunk_of(ts, chunks, c), radix_bits, k - 1);
        let b0 = part_seq(chunk_of(ts, chunks, c), radix_bits, k - 1);
        lemma_multiset_commutative(a0, b0);
    }
}

/// The concatenation of the first `c` chunks' buckets holds exactly the
/// input tuples up to chunk boundary `c`.
proof fn lemma_conservation_upto<K: GpuRadixPartitionable>(
    ts: Seq<Tuple<K, K>>,
    chunks: int,
    radix_bits: u32,
    c: int,
)
    requires
        radix_bits <= MAX_RADIX_BITS,
        1 <= chunks,
        0 <= c <= chunks,
    ensures
        buckets_concat(ts, chunks, radix_bits, c * spec_fanout(radix_bits) as int).to_multiset()
            =~= ts.subrange(0, chunk_lo(ts.len() as int, chunks, c)).to_multiset(),
    decreases c,
{
    broadcast use vstd::seq_lib::group_to_multiset_ensures;
    broadcast use vstd::multiset::group_multiset_axioms;

    let fan = spec_fanout(radix_bits) as int;
    let len = ts.len() as int;
    if c == 0 {
        vstd::arithmetic::mul::lemma_mul_basics(fan);
        lemma_chunk_lo_bounds(len, chunks, 0, 0);
        assert(ts.subrange(0, 0) =~= Seq::<Tuple<K, K>>::empty());
        assert(buckets_concat(ts, chunks, radix_bits, 0).to_multiset() =~= Seq::<
            Tuple<K, K>,
        >::empty().to_multiset());
    } else {
        lemma_conservation_upto(ts, chunks, radix_bits, c - 1);
        lemma_buckets_concat_span(ts, chunks, radix_bits, c - 1, fan);
        lemma_parts_concat_multiset(chunk_of(ts, chunks, c - 1), radix_bits);
        lemma_chunk_lo_bounds(len, chunks, c - 1, c);
        assert((c - 1) * fan + fan == c * fan) by {
            vstd::arithmetic::mul::lemma_mul_is_distributive_add_other_way(fan, c - 1, 1);
            vstd::arithmetic::mul::lemma_mul_basics(fan);
        }
        let early = ts.subrange(0, chunk_lo(len, chunks, c - 1));
        let mid = chunk_of(ts, chunks, c - 1);
        assert(early + mid =~= ts.subrange(0, chunk_lo(len, chunks, c)));
        lemma_multiset_commutative(early, mid);
    }
}

/// Conservation: the multiset of the tuples found across every (chunk,
/// partition) bucket of the partitioned layout equals exactly the multiset
/// of the input tuples — no loss, no duplication.
pub proof fn lemma_conservation<K: GpuRadixPartitionable>(
    keys: Seq<K>,
    pays: Seq<K>,
    chunks: int,
    radix_bits: u32,
)
    requires
        radix_bits <= MAX_RADIX_BITS,
        1 <= chunks,
        keys.len() == pays.len(),
    ensures
        buckets_concat(
            tuple_seq(keys, pays),
            chunks,
            radix_bits,
            chunks * spec_fanout(radix_bits) as int,
        ).to_multiset() =~= tuple_seq(keys, pays).to_multiset(),
{
    let ts = tuple_seq(keys, pays);
    lemma_conservation_upto(ts, chunks, radix_bits, chunks);
    lemma_chunk_lo_bounds(ts.len() as int, chunks, chunks, chunks);
    assert(ts.subrange(0, ts.len() as int) =~= ts);
}

/// Partition correctness: every tuple in the bucket with flat index `j`
/// has a key whose partition index is exactly `j % fanout`.
pub proof fn lemma_partition_assignment<K: GpuRadixPartitionable>(
    ts: Seq<Tuple<K, K>>,
    chunks: int,
    radix_bits: u32,
    j: int,
    k: int,
)
    requires
        radix_bits <= MAX_RADIX_BITS,
        0 <= j,
        0 <= k < bucket_count(ts, chunks, radix_bits, j),
    ensures
        bucket_seq(ts, chunks, radix_bits, j)[k].key.spec_partition_index(radix_bits) == j
            % spec_fanout(radix_bits) as int,
{
    broadcast use vstd::seq_lib::group_filter_ensures;

}

/// Offset monotonicity: the bucket start offsets grow monotonically with
/// the flat (chunk, partition) index.
pub proof fn lemma_offset_monotonicity<K: GpuRadixPartitionable>(
    ts: Seq<Tuple<K, K>>,
    chunks: int,
    radix_bits: u32,
    pad: int,
)
    requires
        0 <= pad,
    ensures
        forall|j1: int, j2: int|
            j1 <= j2 ==> #[trigger] off_spec(ts, chunks, radix_bits, pad, j1)
                <= #[trigger] off_spec(ts, chunks, radix_bits, pad, j2),
{
    assert forall|j1: int, j2: int|
        j1 <= j2 implies #[trigger] off_spec(ts, chunks, radix_bits, pad, j1) <= #[trigger]
        off_spec(ts, chunks, radix_bits, pad, j2) by {
        lemma_off_mono(ts, chunks, radix_bits, pad, j1, j2);
    }
}

/// Concatenation of the first `upto` buckets' data regions of an output
/// buffer, read at the offsets of the partitioned layout.
pub open spec fn gathered_buckets<K: GpuRadixPartitionable>(
    rel: Seq<Tuple<K, K>>,
    ts: Seq<Tuple<K, K>>,
    chunks: int,
    radix_bits: u32,
    pad: int,
    upto: int,
) -> Seq<Tuple<K, K>>
    decreases upto,
{
    if upto <= 0 {
        Seq::empty()
    } else {
        gathered_buckets(rel, ts, chunks, radix_bits, pad, upto - 1) + rel.subrange(
            off_spec(ts, chunks, radix_bits, pad, upto - 1),
            off_spec(ts, chunks, radix_bits, pad, upto - 1) + bucket_count(
                ts,
                chunks,
                radix_bits,
                upto - 1,
            ),
        )
    }
}

/// When every bucket's region holds its bucket's tuples, gathering the
/// regions gives the concatenation of the buckets.
proof fn lemma_gathered_eq_buckets<K: GpuRadixPartitionable>(
    rel: Seq<Tuple<K, K>>,
    ts: Seq<Tuple<K, K>>,
    chunks: int,
    radix_bits: u32,
    pad: int,
    upto: int,
)
    requires
        0 <= pad,
        forall|j: int|
            0 <= j < upto ==> off_spec(ts, chunks, radix_bits, pad, j) + #[trigger] bucket_count(
                ts,
                chunks,
                radix_bits,
                j,
            ) <= rel.len(),
        forall|j: int|
            0 <= j < upto ==> #[trigger] bucket_written(rel, ts, chunks, radix_bits, pad, j),
    ensures
        gathered_buckets(rel, ts, chunks, radix_bits, pad, upto) =~= buckets_concat(
            ts,
            chunks,
            radix_bits,
            upto,
        ),
    decreases upto,
{
    if upto > 0 {
        assert(bucket_written(rel, ts, chunks, radix_bits, pad, upto - 1));
        lemma_gathered_eq_buckets(rel, ts, chunks, radix_bits, pad, upto - 1);
        lemma_off_mono(ts, chunks, radix_bits, pad, upto - 1, upto - 1);
        let off = off_spec(ts, chunks, radix_bits, pad, upto - 1);
        let cnt = bucket_count(ts, chunks, radix_bits, upto - 1) as int;
        assert(off + cnt <= rel.len());
        assert forall|k: int| 0 <= k < cnt implies rel.subrange(off, off + cnt)[k]
            == #[trigger] bucket_seq(ts, chunks, radix_bits, upto - 1)[k] by {
        }
        assert(rel.subrange(off, off + cnt) =~= bucket_seq(ts, chunks, radix_bits, upto - 1));
    }
}

/// Conservation at the output buffer: after a successful partitioning
/// call, the tuples found across every bucket's data region of the output
/// are exactly the input tuples, as a multiset.
pub proof fn lemma_partition_output_conserves<K: GpuRadixPartitionable>(
    keys: Seq<K>,
    pays: Seq<K>,
    before: PartitionedRelation<K>,
    after: PartitionedRelation<K>,
)
    requires
        keys.len() == pays.len(),
        before.wf(),
        before.spec_len() == keys.len(),
        spec_partition_output(keys, pays, before, after),
    ensures
        gathered_buckets(
            after.relation@,
            tuple_seq(keys, pays),
            before.chunks as int,
            before.radix_bits,
            spec_padding_len::<K>() as int,
            before.chunks * spec_fanout(before.radix_bits) as int,
        ).to_multiset() =~= tuple_seq(keys, pays).to_multiset(),
{
    let ts = tuple_seq(keys, pays);
    let chunks = before.chunks as int;
    let rb = before.radix_bits;
    let pad = spec_padding_len::<K>() as int;
    let nb = chunks * spec_fanout(rb) as int;
    assert(ts.len() == keys.len());
    assert(after.relation@.len() == ts.len() + chunks * spec_fanout(rb) as int * pad);
    crate::layout::lemma_off_total::<K>(ts, chunks, rb, pad);
    assert forall|j: int|
        0 <= j < nb implies off_spec(ts, chunks, rb, pad, j) + #[trigger] bucket_count(
        ts,
        chunks,
        rb,
        j,
    ) <= after.relation@.len() by {
        crate::layout::lemma_off_regions_disjoint(ts, chunks, rb, pad, j, nb);
    }
    assert forall|j: int|
        0 <= j < nb implies #[trigger] bucket_written(after.relation@, ts, chunks, rb, pad, j) by {
    }
    lemma_gathered_eq_buckets(after.relation@, ts, chunks, rb, pad, nb);
    lemma_conservation(keys, pays, chunks, rb);
    assert(nb == chunks * spec_fanout(rb));
}

/// Determinism across runs and across partition-write variants: two
/// successful partitioning calls on the same input columns, into relations
/// of the same shape, leave identical offsets and identical bucket
/// contents — whatever variant or partitioner instance produced them, and
/// however the output buffers were backed.
pub proof fn lemma_partition_deterministic<K: GpuRadixPartitionable>(
    keys: Seq<K>,
    pays: Seq<K>,
    before1: PartitionedRelation<K>,
    after1: PartitionedRelation<K>,
    before2: PartitionedRelation<K>,
    after2: PartitionedRelation<K>,
)
    requires
        spec_partition_output(keys, pays, before1, after1),
        spec_partition_output(keys, pays, before2, after2),
        before1.chunks == before2.chunks,
        before1.radix_bits == before2.radix_bits,
    ensures
        after1.offsets@ =~= after2.offsets@,
        forall|j: int, k: int|
            0 <= j < before1.chunks * spec_fanout(before1.radix_bits) && 0 <= k < bucket_count(
                tuple_seq(keys, pays),
                before1.chunks as int,
                before1.radix_bits,
                j,
            ) ==> after1.relation@[off_spec(
                tuple_seq(keys, pays),
                before1.chunks as int,
                before1.radix_bits,
                spec_padding_len::<K>() as int,
                j,
            ) + k] == #[trigger] bucket_seq(
                tuple_seq(keys, pays),
                before1.chunks as int,
                before1.radix_bits,
                j,
            )[k] && after2.relation@[off_spec(
                tuple_seq(keys, pays),
                before1.chunks as int,
                before1.radix_bits,
                spec_padding_len::<K>() as int,
                j,
            ) + k] == bucket_seq(
                tuple_seq(keys, pays),
                before1.chunks as int,
                before1.radix_bits,
                j,
            )[k],
{
    let ts = tuple_seq(keys, pays);
    let chunks = before1.chunks as int;
    let rb = before1.radix_bits;
    let pad = spec_padding_len::<K>() as int;
    let nb = before1.chunks * spec_fanout(rb);
    assert forall|j: int| 0 <= j < nb implies after1.offsets@[j] == after2.offsets@[j] by {
        assert(after1.offsets@[j] == off_spec(ts, chunks, rb, pad, j));
        assert(after2.offsets@[j] == off_spec(ts, chunks, rb, pad, j));
    }
    assert forall|j: int, k: int|
        0 <= j < nb && 0 <= k < bucket_count(ts, chunks, rb, j) implies after1.relation@[off_spec(
        ts,
        chunks,
        rb,
        pad,
        j,
    ) + k] == #[trigger] bucket_seq(ts, chunks, rb, j)[k] && after2.relation@[off_spec(
        ts,
        chunks,
        rb,
        pad,
        j,
    ) + k] == bucket_seq(ts, chunks, rb, j)[k] by {
        assert(crate::layout::bucket_written(after1.relation@, ts, chunks, rb, pad, j));
        assert(crate::layout::bucket_written(after2.relation@, ts, chunks, rb, pad, j));
    }
}

} // verus!
