//! The phases of the partitioning operator.
//!
//! The histogram phase counts, per (chunk, partition) bucket, the tuples
//! that the write phase will place there; the prefix-sum phase turns those
//! counts into the buckets' start offsets, pre-adjusted so that every bucket
//! is preceded by `pad` reserved padding elements; and the write phase
//! scatters the tuples to those offsets, either directly or through bounded
//! write-combine buffers. Both write paths are proved to leave exactly the
//! partitioned layout that `layout` describes.

use vstd::prelude::*;
use crate::memory::Mem;
use crate::radix::{GpuRadixPartitionable, Tuple, spec_fanout, fanout, MAX_RADIX_BITS};
use crate::layout::{tuple_seq, part_pred, part_seq, part_count, chunk_lo, chunk_of, bucket_seq,
    bucket_count, off_spec, covered, bucket_written, lemma_filter_push, lemma_chunk_lo_bounds,
    lemma_flat_index, lemma_part_count_prefix, lemma_off_mono, lemma_off_ge_pad,
    lemma_off_regions_disjoint, lemma_off_total};

verus! {

broadcast use vstd::seq_lib::group_filter_ensures;

/// Computes the input index at which chunk `c` begins.
pub(crate) fn chunk_bound(len: usize, chunks: u32, c: u32) -> (b: usize)
    requires
        1 <= chunks,
        c <= chunks,
    ensures
        b == chunk_lo(len as int, chunks as int, c as int),
        b <= len,
{
    proof {
        lemma_chunk_lo_bounds(len as int, chunks as int, c as int, c as int);
        vstd::arithmetic::mul::lemma_mul_upper_bound(c as int, u32::MAX as int, len as int,
            usize::MAX as int);
        vstd::arithmetic::mul::lemma_mul_nonnegative(c as int, len as int);
    }
    (((c as u128) * (len as u128)) / (chunks as u128)) as usize
}

/// Computes the per-(chunk, partition) tuple counts of the input relation.
///
/// Chunk `c` covers the input slice `[chunk_lo(c), chunk_lo(c + 1))`; the
/// count for bucket `c * fanout + p` is the number of that slice's tuples
/// whose key belongs to partition `p`.
pub(crate) fn compute_histogram<K: GpuRadixPartitionable>(
    keys: &[K],
    pays: &[K],
    chunks: u32,
    radix_bits: u32,
) -> (counts: Vec<usize>)
    requires
        keys@.len() == pays@.len(),
        radix_bits <= MAX_RADIX_BITS,
        1 <= chunks,
        chunks * spec_fanout(radix_bits) <= usize::MAX,
    ensures
        counts@.len() == chunks * spec_fanout(radix_bits),
        forall|j: int|
            0 <= j < counts@.len() ==> counts@[j] == bucket_count(
                tuple_seq(keys@, pays@),
                chunks as int,
                radix_bits,
                j,
            ),
{
    let ghost ts = tuple_seq(keys@, pays@);
    let fan: usize = fanout(radix_bits);
    let nbuckets: usize = (chunks as usize) * fan;
    let len: usize = keys.len();

    let mut counts: Vec<usize> = Vec::with_capacity(nbuckets);
    let mut z: usize = 0;
    while z < nbuckets
        invariant
            z <= nbuckets,
            counts@.len() == z,
            forall|j: int| 0 <= j < z ==> counts@[j] == 0,
        decreases nbuckets - z,
    {
        counts.push(0);
        z = z + 1;
    }

    let mut c: u32 = 0;
    while c < chunks
        invariant
            keys@.len() == pays@.len(),
            len == keys@.len(),
            ts == tuple_seq(keys@, pays@),
            radix_bits <= MAX_RADIX_BITS,
            1 <= chunks,
            c <= chunks,
            fan == spec_fanout(radix_bits),
            nbuckets == chunks * spec_fanout(radix_bits),
            nbuckets <= usize::MAX,
            counts@.len() == nbuckets,
            forall|j: int|
                0 <= j < c * fan ==> counts@[j] == bucket_count(ts, chunks as int, radix_bits, j),
            forall|j: int| c * fan <= j < nbuckets ==> counts@[j] == 0,
        decreases chunks - c,
    {
        let lo: usize = chunk_bound(len, chunks, c);
        let hi: usize = chunk_bound(len, chunks, c + 1);
        proof {
            lemma_chunk_lo_bounds(len as int, chunks as int, c as int, c as int + 1);
        }
        let ghost chunk = chunk_of(ts, chunks as int, c as int);
        proof {
            assert((c as int) * (fan as int) + (fan as int) <= (chunks as int) * (fan as int))
                by {
                vstd::arithmetic::mul::lemma_mul_inequality(c as int + 1, chunks as int,
                    fan as int);
                vstd::arithmetic::mul::lemma_mul_is_distributive_add_other_way(fan as int,
                    c as int, 1);
            }
            vstd::arithmetic::mul::lemma_mul_nonnegative(c as int, fan as int);
            vstd::arithmetic::mul::lemma_mul_is_commutative(chunks as int, fan as int);
        }
        let base: usize = (c as usize) * fan;

        let mut i: usize = lo;
        while i < hi
            invariant
                keys@.len() == pays@.len(),
                len == keys@.len(),
                ts == tuple_seq(keys@, pays@),
                radix_bits <= MAX_RADIX_BITS,
                1 <= chunks,
                c < chunks,
                fan == spec_fanout(radix_bits),
                nbuckets == chunks * spec_fanout(radix_bits),
                counts@.len() == nbuckets,
                base == c * fan,
                base + fan <= nbuckets,
                lo == chunk_lo(len as int, chunks as int, c as int),
                hi == chunk_lo(len as int, chunks as int, c as int + 1),
                lo <= i <= hi <= len,
                chunk == chunk_of(ts, chunks as int, c as int),
                forall|j: int|
                    0 <= j < c * fan ==> counts@[j] == bucket_count(
                        ts,
                        chunks as int,
                        radix_bits,
                        j,
                    ),
                forall|p: int|
                    0 <= p < fan ==> counts@[base + p] == #[trigger] part_count(
                        chunk.take(i - lo),
                        radix_bits,
                        p,
                    ),
                forall|j: int| base + fan <= j < nbuckets ==> counts@[j] == 0,
            decreases hi - i,
        {
            let ghost done = chunk.take(i - lo);
            let p: usize = keys[i].partition_index(radix_bits);
            proof {
                keys@[i as int].lemma_partition_index_in_range(radix_bits);
                assert(chunk[i - lo] == ts[i as int]);
                assert(ts[i as int].key == keys@[i as int]);
                assert(counts@[base + p] == part_count(done, radix_bits, p as int));
                done.lemma_filter_len(part_pred::<K>(radix_bits, p as int));
                assert(done.len() <= i - lo);
            }
            let slot: usize = base + p;
            let prev: usize = counts[slot];
            counts[slot] = prev + 1;
            proof {
                let next = chunk.take(i - lo + 1);
                assert(next =~= done.push(chunk[i - lo]));
                assert forall|q: int| 0 <= q < fan implies counts@[base + q] == #[trigger]
                    part_count(next, radix_bits, q) by {
                    lemma_filter_push(done, part_pred::<K>(radix_bits, q), chunk[i - lo]);
                    if q != p as int {
                        assert(counts@[base + q] == part_count(done, radix_bits, q));
                    }
                }
            }
            i = i + 1;
        }
        proof {
            assert(ts.len() == len);
            assert(chunk.len() == hi - lo);
            assert(chunk.take(hi - lo) =~= chunk);
            assert forall|p: int| 0 <= p < fan implies counts@[base + p] == #[trigger] bucket_count(
                ts,
                chunks as int,
                radix_bits,
                c as int * fan as int + p,
            ) by {
                lemma_flat_index(ts, chunks as int, radix_bits, c as int, p);
            }
            assert forall|j: int| 0 <= j < (c + 1) * fan implies counts@[j] == bucket_count(
                ts,
                chunks as int,
                radix_bits,
                j,
            ) by {
                vstd::arithmetic::mul::lemma_mul_is_distributive_add_other_way(fan as int,
                    c as int, 1);
                assert((c + 1) * fan == c * fan + fan);
                if j >= c * fan {
                    let q = j - c as int * fan as int;
                    assert(counts@[base + q] == bucket_count(ts, chunks as int, radix_bits,
                        c as int * fan as int + q));
                }
            }
            vstd::arithmetic::mul::lemma_mul_is_distributive_add_other_way(fan as int, c as int,
                1);
        }
        c = c + 1;
    }
    proof {
        vstd::arithmetic::mul::lemma_mul_is_commutative(chunks as int, fan as int);
    }
    counts
}

/// Turns per-bucket tuple counts into bucket start offsets by an exclusive
/// prefix sum, reserving `pad` elements of padding in front of every bucket.
pub(crate) fn compute_offsets<K: GpuRadixPartitionable>(
    counts: &Vec<usize>,
    chunks: u32,
    radix_bits: u32,
    pad: u32,
    Ghost(ts): Ghost<Seq<Tuple<K, K>>>,
) -> (offs: Vec<u64>)
    requires
        radix_bits <= MAX_RADIX_BITS,
        1 <= chunks,
        counts@.len() == chunks * spec_fanout(radix_bits),
        forall|j: int|
            0 <= j < counts@.len() ==> counts@[j] == bucket_count(ts, chunks as int, radix_bits, j),
        ts.len() + chunks * spec_fanout(radix_bits) * pad <= u64::MAX,
    ensures
        offs@.len() == chunks * spec_fanout(radix_bits),
        forall|j: int|
            0 <= j < offs@.len() ==> offs@[j] == off_spec(
                ts,
                chunks as int,
                radix_bits,
                pad as int,
                j,
            ),
{
    let nbuckets: usize = counts.len();
    let ghost total_end = off_spec(ts, chunks as int, radix_bits, pad as int, nbuckets as int);
    proof {
        lemma_off_total::<K>(ts, chunks as int, radix_bits, pad as int);
        assert(total_end == ts.len() + chunks * spec_fanout(radix_bits) * pad + pad);
    }

    let mut offs: Vec<u64> = Vec::with_capacity(nbuckets);
    let mut cursor: u64 = 0;
    let mut j: usize = 0;
    while j < nbuckets
        invariant
            radix_bits <= MAX_RADIX_BITS,
            1 <= chunks,
            nbuckets == chunks * spec_fanout(radix_bits),
            counts@.len() == nbuckets,
            forall|q: int|
                0 <= q < counts@.len() ==> counts@[q] == bucket_count(
                    ts,
                    chunks as int,
                    radix_bits,
                    q,
                ),
            total_end == off_spec(ts, chunks as int, radix_bits, pad as int, nbuckets as int),
            total_end <= u64::MAX + pad,
            j <= nbuckets,
            offs@.len() == j,
            forall|q: int|
                0 <= q < j ==> offs@[q] == off_spec(ts, chunks as int, radix_bits, pad as int, q),
            cursor + pad == off_spec(ts, chunks as int, radix_bits, pad as int, j as int),
        decreases nbuckets - j,
    {
        proof {
            lemma_off_mono(ts, chunks as int, radix_bits, pad as int, j as int, nbuckets as int);
            lemma_off_regions_disjoint(ts, chunks as int, radix_bits, pad as int, j as int,
                nbuckets as int);
        }
        let here: u64 = cursor + (pad as u64);
        offs.push(here);
        cursor = here + (counts[j] as u64);
        j = j + 1;
    }
    offs
}

/// Index of slot `q` of partition `p`'s write-combine buffer in the flat
/// buffer store of one execution unit.
pub(crate) open spec fn buf_slot(p: int, cap: int, q: int) -> int {
    p * cap + q
}

/// Flushes one partition's write-combine buffer: writes its `cnt` buffered
/// tuples, which are the next tuples of partition `p`'s bucket, to the
/// bucket's region starting at write cursor `cur`, and returns the
/// advanced cursor.
#[verifier::rlimit(30)]
fn flush_buffer<K: GpuRadixPartitionable>(
    rel: &mut Mem<Tuple<K, K>>,
    bufstore: &Vec<Tuple<K, K>>,
    p: usize,
    cap: usize,
    cnt: usize,
    cur: usize,
    radix_bits: u32,
    pad: u32,
    Ghost(ts): Ghost<Seq<Tuple<K, K>>>,
    Ghost(chunks): Ghost<int>,
    Ghost(c): Ghost<int>,
    Ghost(done): Ghost<Seq<Tuple<K, K>>>,
) -> (ncur: usize)
    requires
        radix_bits <= MAX_RADIX_BITS,
        1 <= chunks,
        0 <= c < chunks,
        (p as int) < spec_fanout(radix_bits),
        1 <= cap,
        cnt <= cap,
        (p as int) * (cap as int) + cap <= bufstore@.len(),
        cnt <= part_count(done, radix_bits, p as int),
        cur == off_spec(
            ts,
            chunks,
            radix_bits,
            pad as int,
            c * spec_fanout(radix_bits) as int + p,
        ) + part_count(done, radix_bits, p as int) - cnt,
        forall|q: int|
            0 <= q < cnt ==> #[trigger] bufstore@[buf_slot(p as int, cap as int, q)] == part_seq(
                done,
                radix_bits,
                p as int,
            )[part_count(done, radix_bits, p as int) - cnt + q],
        forall|k: int|
            0 <= k < part_count(done, radix_bits, p as int) - cnt ==> old(rel)@[off_spec(
                ts,
                chunks,
                radix_bits,
                pad as int,
                c * spec_fanout(radix_bits) as int + p,
            ) + k] == #[trigger] part_seq(done, radix_bits, p as int)[k],
        part_count(done, radix_bits, p as int) <= bucket_count(
            ts,
            chunks,
            radix_bits,
            c * spec_fanout(radix_bits) as int + p,
        ),
        off_spec(ts, chunks, radix_bits, pad as int, c * spec_fanout(radix_bits) as int + p)
            + bucket_count(ts, chunks, radix_bits, c * spec_fanout(radix_bits) as int + p) <= old(
            rel,
        )@.len(),
        old(rel)@.len() <= usize::MAX,
    ensures
        ncur == off_spec(
            ts,
            chunks,
            radix_bits,
            pad as int,
            c * spec_fanout(radix_bits) as int + p,
        ) + part_count(done, radix_bits, p as int),
        final(rel)@.len() == old(rel)@.len(),
        final(rel).spec_mem_type() == old(rel).spec_mem_type(),
        forall|k: int|
            0 <= k < part_count(done, radix_bits, p as int) ==> final(rel)@[off_spec(
                ts,
                chunks,
                radix_bits,
                pad as int,
                c * spec_fanout(radix_bits) as int + p,
            ) + k] == #[trigger] part_seq(done, radix_bits, p as int)[k],
        forall|x: int|
            0 <= x < old(rel)@.len() && !(cur <= x < cur + cnt) ==> final(rel)@[x] == old(rel)@[x],
{
    let ghost base = c * spec_fanout(radix_bits) as int;
    let ghost offp = off_spec(ts, chunks, radix_bits, pad as int, base + p);
    let ghost m = part_count(done, radix_bits, p as int) as int;
    let ghost rel0 = old(rel)@;
    proof {
        lemma_off_ge_pad(ts, chunks, radix_bits, pad as int, base + p);
        vstd::arithmetic::mul::lemma_mul_nonnegative(p as int, cap as int);
    }
    let store_len: usize = bufstore.len();
    let buf_base: usize = p * cap;
    let mut q: usize = 0;
    let mut w: usize = cur;
    while q < cnt
        invariant
            radix_bits <= MAX_RADIX_BITS,
            1 <= chunks,
            0 <= c < chunks,
            (p as int) < spec_fanout(radix_bits),
            1 <= cap,
            cnt <= cap,
            base == c * spec_fanout(radix_bits) as int,
            offp == off_spec(ts, chunks, radix_bits, pad as int, base + p),
            m == part_count(done, radix_bits, p as int),
            buf_base == p * cap,
            buf_base + cap <= bufstore@.len(),
            bufstore@.len() == store_len,
            0 <= offp,
            cnt <= m,
            cur == offp + m - cnt,
            offp + bucket_count(ts, chunks, radix_bits, base + p) <= rel0.len(),
            m <= bucket_count(ts, chunks, radix_bits, base + p),
            rel0.len() <= usize::MAX,
            q <= cnt,
            w == cur + q,
            rel@.len() == rel0.len(),
            rel.spec_mem_type() == old(rel).spec_mem_type(),
            rel0 == old(rel)@,
            forall|qq: int|
                0 <= qq < cnt ==> #[trigger] bufstore@[buf_slot(p as int, cap as int, qq)]
                    == part_seq(done, radix_bits, p as int)[m - cnt + qq],
            forall|k: int|
                0 <= k < m - cnt + q ==> rel@[offp + k] == #[trigger] part_seq(
                    done,
                    radix_bits,
                    p as int,
                )[k],
            forall|x: int| 0 <= x < rel0.len() && !(cur <= x < cur + q) ==> rel@[x] == rel0[x],
        decreases cnt - q,
    {
        let t: Tuple<K, K> = bufstore[buf_base + q];
        proof {
            assert(bufstore@[buf_slot(p as int, cap as int, q as int)] == part_seq(
                done,
                radix_bits,
                p as int,
            )[m - cnt + q]);
        }
        let ghost relb = rel@;
        rel.write(w, t);
        proof {
            assert(rel@ =~= relb.update(w as int, t));
            assert forall|k: int| 0 <= k < m - cnt + q + 1 implies rel@[offp + k] == #[trigger]
                part_seq(done, radix_bits, p as int)[k] by {
                if k < m - cnt + q {
                    assert(rel@[offp + k] == relb[offp + k]);
                }
            }
        }
        w = w + 1;
        q = q + 1;
    }
    w
}

/// The write-combining partition-write phase: tuples are staged in a
/// bounded per-partition buffer and flushed to the bucket's region in
/// bursts of up to `buffer_tuples` tuples, as the software write-combining
/// variants do on the device.
///
/// The result is the same as the non-caching phase's: within each chunk
/// the tuples of one partition keep their input order, and padding regions
/// are left untouched.
#[verifier::rlimit(60)]
pub(crate) fn write_partitions_buffered<K: GpuRadixPartitionable>(
    keys: &[K],
    pays: &[K],
    offs: &Vec<u64>,
    chunks: u32,
    radix_bits: u32,
    pad: u32,
    buffer_tuples: usize,
    rel: &mut Mem<Tuple<K, K>>,
)
    requires
        keys@.len() == pays@.len(),
        radix_bits <= MAX_RADIX_BITS,
        1 <= chunks,
        chunks * spec_fanout(radix_bits) <= usize::MAX,
        offs@.len() == chunks * spec_fanout(radix_bits),
        forall|j: int|
            0 <= j < offs@.len() ==> offs@[j] == off_spec(
                tuple_seq(keys@, pays@),
                chunks as int,
                radix_bits,
                pad as int,
                j,
            ),
        old(rel)@.len() == keys@.len() + chunks * spec_fanout(radix_bits) * pad,
        1 <= buffer_tuples,
        spec_fanout(radix_bits) * buffer_tuples <= usize::MAX,
    ensures
        final(rel)@.len() == old(rel)@.len(),
        final(rel).spec_mem_type() == old(rel).spec_mem_type(),
        forall|j: int|
            0 <= j < chunks * spec_fanout(radix_bits) ==> #[trigger] bucket_written(
                final(rel)@,
                tuple_seq(keys@, pays@),
                chunks as int,
                radix_bits,
                pad as int,
                j,
            ),
        forall|x: int|
            0 <= x < old(rel)@.len() && !covered(
                tuple_seq(keys@, pays@),
                chunks as int,
                radix_bits,
                pad as int,
                x,
            ) ==> final(rel)@[x] == old(rel)@[x],
{
    let ghost ts = tuple_seq(keys@, pays@);
    let ghost rel0 = old(rel)@;
    let fan: usize = fanout(radix_bits);
    let cap: usize = buffer_tuples;
    let nbuckets: usize = (chunks as usize) * fan;
    let store_len: usize = fan * cap;
    let len: usize = keys.len();
    let rel_len: usize = rel.len();
    proof {
        lemma_off_total::<K>(ts, chunks as int, radix_bits, pad as int);
        assert(off_spec(ts, chunks as int, radix_bits, pad as int, nbuckets as int) == rel_len
            + pad);
    }

    let zk: K = K::zero();
    let zt: Tuple<K, K> = Tuple { key: zk, value: zk };

    let mut c: u32 = 0;
    while c < chunks
        invariant
            keys@.len() == pays@.len(),
            len == keys@.len(),
            ts == tuple_seq(keys@, pays@),
            radix_bits <= MAX_RADIX_BITS,
            1 <= chunks,
            c <= chunks,
            fan == spec_fanout(radix_bits),
            1 <= cap,
            nbuckets == chunks * spec_fanout(radix_bits),
            nbuckets <= usize::MAX,
            store_len == fan * cap,
            offs@.len() == nbuckets,
            forall|j: int|
                0 <= j < offs@.len() ==> offs@[j] == off_spec(
                    ts,
                    chunks as int,
                    radix_bits,
                    pad as int,
                    j,
                ),
            rel_len == keys@.len() + chunks * spec_fanout(radix_bits) * pad,
            off_spec(ts, chunks as int, radix_bits, pad as int, nbuckets as int) == rel_len + pad,
            rel@.len() == rel_len,
            rel.spec_mem_type() == old(rel).spec_mem_type(),
            rel0 == old(rel)@,
            rel0.len() == rel_len,
            forall|j: int|
                0 <= j < c * fan ==> #[trigger] bucket_written(
                    rel@,
                    ts,
                    chunks as int,
                    radix_bits,
                    pad as int,
                    j,
                ),
            forall|x: int|
                0 <= x < rel_len && !covered(ts, chunks as int, radix_bits, pad as int, x)
                    ==> rel@[x] == rel0[x],
        decreases chunks - c,
    {
        let lo: usize = chunk_bound(len, chunks, c);
        let hi: usize = chunk_bound(len, chunks, c + 1);
        proof {
            lemma_chunk_lo_bounds(len as int, chunks as int, c as int, c as int + 1);
            assert((c as int) * (fan as int) + (fan as int) <= (chunks as int) * (fan as int))
                by {
                vstd::arithmetic::mul::lemma_mul_inequality(c as int + 1, chunks as int,
                    fan as int);
                vstd::arithmetic::mul::lemma_mul_is_distributive_add_other_way(fan as int,
                    c as int, 1);
            }
            vstd::arithmetic::mul::lemma_mul_nonnegative(c as int, fan as int);
            vstd::arithmetic::mul::lemma_mul_is_commutative(chunks as int, fan as int);
        }
        let ghost chunk = chunk_of(ts, chunks as int, c as int);
        let base: usize = (c as usize) * fan;

        let mut cur: Vec<usize> = Vec::with_capacity(fan);
        let mut p0: usize = 0;
        while p0 < fan
            invariant
                radix_bits <= MAX_RADIX_BITS,
                1 <= chunks,
                fan == spec_fanout(radix_bits),
                nbuckets == chunks * spec_fanout(radix_bits),
                offs@.len() == nbuckets,
                forall|j: int|
                    0 <= j < offs@.len() ==> offs@[j] == off_spec(
                        ts,
                        chunks as int,
                        radix_bits,
                        pad as int,
                        j,
                    ),
                off_spec(ts, chunks as int, radix_bits, pad as int, nbuckets as int) == rel_len
                    + pad,
                base + fan <= nbuckets,
                p0 <= fan,
                cur@.len() == p0,
                forall|p: int|
                    0 <= p < p0 ==> cur@[p] == off_spec(
                        ts,
                        chunks as int,
                        radix_bits,
                        pad as int,
                        base + p,
                    ),
            decreases fan - p0,
        {
            proof {
                lemma_off_regions_disjoint(ts, chunks as int, radix_bits, pad as int,
                    (base + p0) as int, nbuckets as int);
            }
            let o: u64 = offs[base + p0];
            cur.push(o as usize);
            p0 = p0 + 1;
        }

        let mut lens: Vec<usize> = Vec::with_capacity(fan);
        let mut z: usize = 0;
        while z < fan
            invariant
                z <= fan,
                lens@.len() == z,
                forall|p: int| 0 <= p < z ==> lens@[p] == 0,
            decreases fan - z,
        {
            lens.push(0);
            z = z + 1;
        }
        let mut bufstore: Vec<Tuple<K, K>> = Vec::with_capacity(store_len);
        let mut z2: usize = 0;
        while z2 < store_len
            invariant
                z2 <= store_len,
                bufstore@.len() == z2,
            decreases store_len - z2,
        {
            bufstore.push(zt);
            z2 = z2 + 1;
        }

        let mut i: usize = lo;
        while i < hi
            invariant
                keys@.len() == pays@.len(),
                len == keys@.len(),
                ts == tuple_seq(keys@, pays@),
                radix_bits <= MAX_RADIX_BITS,
                1 <= chunks,
                c < chunks,
                fan == spec_fanout(radix_bits),
                1 <= cap,
                nbuckets == chunks * spec_fanout(radix_bits),
                nbuckets <= usize::MAX,
                store_len == fan * cap,
                offs@.len() == nbuckets,
                forall|j: int|
                    0 <= j < offs@.len() ==> offs@[j] == off_spec(
                        ts,
                        chunks as int,
                        radix_bits,
                        pad as int,
                        j,
                    ),
                off_spec(ts, chunks as int, radix_bits, pad as int, nbuckets as int) == rel_len
                    + pad,
                base == c * fan,
                base + fan <= nbuckets,
                lo == chunk_lo(len as int, chunks as int, c as int),
                hi == chunk_lo(len as int, chunks as int, c as int + 1),
                lo <= i <= hi <= len,
                chunk == chunk_of(ts, chunks as int, c as int),
                chunk.len() == hi - lo,
                rel@.len() == rel_len,
                rel.spec_mem_type() == old(rel).spec_mem_type(),
                rel0 == old(rel)@,
                rel0.len() == rel_len,
                cur@.len() == fan,
                lens@.len() == fan,
                bufstore@.len() == store_len,
                forall|p: int| 0 <= p < fan ==> #[trigger] lens@[p] < cap,
                forall|p: int|
                    0 <= p < fan ==> lens@[p] <= #[trigger] part_count(
                        chunk.take(i - lo),
                        radix_bits,
                        p,
                    ) && cur@[p] + lens@[p] == off_spec(
                        ts,
                        chunks as int,
                        radix_bits,
                        pad as int,
                        base + p,
                    ) + part_count(chunk.take(i - lo), radix_bits, p),
                forall|p: int, k: int|
                    0 <= p < fan && 0 <= k < part_count(chunk.take(i - lo), radix_bits, p)
                        - lens@[p] ==> rel@[off_spec(
                        ts,
                        chunks as int,
                        radix_bits,
                        pad as int,
                        base + p,
                    ) + k] == #[trigger] part_seq(chunk.take(i - lo), radix_bits, p)[k],
                forall|p: int, q: int|
                    0 <= p < fan && 0 <= q < lens@[p] ==> #[trigger] bufstore@[buf_slot(
                        p,
                        cap as int,
                        q,
                    )] == part_seq(chunk.take(i - lo), radix_bits, p)[part_count(
                        chunk.take(i - lo),
                        radix_bits,
                        p,
                    ) - lens@[p] + q],
                forall|j: int|
                    0 <= j < c * fan ==> #[trigger] bucket_written(
                        rel@,
                        ts,
                        chunks as int,
                        radix_bits,
                        pad as int,
                        j,
                    ),
                forall|x: int|
                    0 <= x < rel_len && !covered(ts, chunks as int, radix_bits, pad as int, x)
                        ==> rel@[x] == rel0[x],
            decreases hi - i,
        {
            let ghost done = chunk.take(i - lo);
            let kv: K = keys[i];
            let pv: K = pays[i];
            let p: usize = kv.partition_index(radix_bits);
            let t = Tuple { key: kv, value: pv };
            let ghost offp = off_spec(ts, chunks as int, radix_bits, pad as int, (base + p) as int);
            let ghost m = part_count(done, radix_bits, p as int) as int;
            let ghost next = chunk.take(i - lo + 1);
            proof {
                keys@[i as int].lemma_partition_index_in_range(radix_bits);
                assert(chunk[i - lo] == ts[i as int]);
                assert(ts[i as int] == Tuple { key: keys@[i as int], value: pays@[i as int] });
                assert(lens@[p as int] < cap);
                assert(cur@[p as int] + lens@[p as int] == offp + m);
                assert(next =~= done.push(chunk[i - lo]));
                lemma_filter_push(done, part_pred::<K>(radix_bits, p as int), chunk[i - lo]);
                lemma_part_count_prefix(chunk, radix_bits, p as int, i - lo + 1);
                lemma_flat_index(ts, chunks as int, radix_bits, c as int, p as int);
                lemma_off_regions_disjoint(ts, chunks as int, radix_bits, pad as int,
                    (base + p) as int, nbuckets as int);
                lemma_off_ge_pad(ts, chunks as int, radix_bits, pad as int, (base + p) as int);
                assert((p as int) * (cap as int) + cap <= (fan as int) * (cap as int)) by {
                    vstd::arithmetic::mul::lemma_mul_inequality(p as int + 1, fan as int,
                        cap as int);
                    vstd::arithmetic::mul::lemma_mul_is_distributive_add_other_way(cap as int,
                        p as int, 1);
                }
            }
            let bl: usize = lens[p];
            let slot: usize = p * cap + bl;
            let ghost bufb = bufstore@;
            let ghost lensb = lens@;
            bufstore[slot] = t;
            lens[p] = bl + 1;
            proof {
                assert(bufstore@ =~= bufb.update(slot as int, t));
                assert(lens@ =~= lensb.update(p as int, (bl + 1) as usize));
                // The pushed tuple extends partition `p`'s buffered suffix;
                // every other partition's buffer and counts are untouched.
                assert forall|p2: int, q: int|
                    0 <= p2 < fan && 0 <= q < lens@[p2] implies #[trigger] bufstore@[buf_slot(
                    p2,
                    cap as int,
                    q,
                )] == part_seq(next, radix_bits, p2)[part_count(next, radix_bits, p2) - lens@[p2]
                    + q] by {
                    lemma_filter_push(done, part_pred::<K>(radix_bits, p2), chunk[i - lo]);
                    let m2 = part_count(done, radix_bits, p2);
                    vstd::arithmetic::mul::lemma_mul_nonnegative(p2, cap as int);
                    assert((p2 + 1) * (cap as int) <= (fan as int) * (cap as int)) by {
                        vstd::arithmetic::mul::lemma_mul_inequality(p2 + 1, fan as int,
                            cap as int);
                    }
                    vstd::arithmetic::mul::lemma_mul_is_distributive_add_other_way(cap as int,
                        p2, 1);
                    if p2 == p as int {
                        if q < bl {
                            assert(bufb[buf_slot(p2, cap as int, q)] == part_seq(
                                done,
                                radix_bits,
                                p2,
                            )[m2 - lensb[p2] + q]);
                            assert(buf_slot(p2, cap as int, q) != slot);
                            assert(bufstore@[buf_slot(p2, cap as int, q)] == bufb[buf_slot(
                                p2,
                                cap as int,
                                q,
                            )]);
                        } else {
                            assert(q == bl);
                            assert(buf_slot(p2, cap as int, q) == slot);
                            assert(part_seq(next, radix_bits, p2)[m] == chunk[i - lo]);
                        }
                    } else {
                        if p2 < p as int {
                            vstd::arithmetic::mul::lemma_mul_inequality(p2 + 1, p as int,
                                cap as int);
                        } else {
                            vstd::arithmetic::mul::lemma_mul_inequality(p as int + 1, p2,
                                cap as int);
                            vstd::arithmetic::mul::lemma_mul_is_distributive_add_other_way(
                                cap as int, p as int, 1);
                        }
                        assert(buf_slot(p2, cap as int, q) != slot);
                        assert(bufb[buf_slot(p2, cap as int, q)] == part_seq(
                            done,
                            radix_bits,
                            p2,
                        )[m2 - lensb[p2] + q]);
                        assert(bufstore@[buf_slot(p2, cap as int, q)] == bufb[buf_slot(
                            p2,
                            cap as int,
                            q,
                        )]);
                    }
                }
                assert forall|p2: int|
                    0 <= p2 < fan implies lens@[p2] <= #[trigger] part_count(
                    next,
                    radix_bits,
                    p2,
                ) && cur@[p2] + lens@[p2] == off_spec(
                    ts,
                    chunks as int,
                    radix_bits,
                    pad as int,
                    base + p2,
                ) + part_count(next, radix_bits, p2) by {
                    lemma_filter_push(done, part_pred::<K>(radix_bits, p2), chunk[i - lo]);
                    let m2 = part_count(done, radix_bits, p2);
                    assert(lensb[p2] <= m2 && cur@[p2] + lensb[p2] == off_spec(ts, chunks as int,
                        radix_bits, pad as int, base + p2) + m2);
                }
                assert forall|p2: int, k: int|
                    0 <= p2 < fan && 0 <= k < part_count(next, radix_bits, p2) - lens@[p2]
                    implies rel@[off_spec(ts, chunks as int, radix_bits, pad as int, base + p2)
                    + k] == #[trigger] part_seq(next, radix_bits, p2)[k] by {
                    lemma_filter_push(done, part_pred::<K>(radix_bits, p2), chunk[i - lo]);
                    let m2 = part_count(done, radix_bits, p2);
                    assert(rel@[off_spec(ts, chunks as int, radix_bits, pad as int, base + p2)
                        + k] == part_seq(done, radix_bits, p2)[k]);
                }
            }
            let nl: usize = lens[p];
            if nl == cap {
                proof {
                    assert(part_count(next, radix_bits, p as int) == m + 1);
                    assert(cur@[p as int] == offp + (m + 1) - cap);
                    assert(part_count(next, radix_bits, p as int) <= bucket_count(ts,
                        chunks as int, radix_bits, (base + p) as int));
                }
                let ghost relpre = rel@;
                let ncur: usize = flush_buffer(rel, &bufstore, p, cap, cap, cur[p], radix_bits,
                    pad, Ghost(ts), Ghost(chunks as int), Ghost(c as int), Ghost(next));
                cur[p] = ncur;
                lens[p] = 0;
                proof {
                    let curp0 = offp + (m + 1) - cap;
                    // The flush wrote only inside partition `p`'s data
                    // region, so the other buckets, the finished chunks and
                    // the padding are untouched.
                    assert forall|p2: int, k: int|
                        0 <= p2 < fan && 0 <= k < part_count(next, radix_bits, p2) - lens@[p2]
                        implies rel@[off_spec(ts, chunks as int, radix_bits, pad as int, base
                        + p2) + k] == #[trigger] part_seq(next, radix_bits, p2)[k] by {
                        let offp2 = off_spec(ts, chunks as int, radix_bits, pad as int, base + p2);
                        if p2 == p as int {
                            assert(rel@[offp2 + k] == part_seq(next, radix_bits, p2)[k]);
                        } else {
                            lemma_part_count_prefix(chunk, radix_bits, p2, i - lo + 1);
                            lemma_flat_index(ts, chunks as int, radix_bits, c as int, p2);
                            lemma_off_ge_pad(ts, chunks as int, radix_bits, pad as int,
                                base + p2);
                            lemma_off_regions_disjoint(ts, chunks as int, radix_bits, pad as int,
                                base + p2, nbuckets as int);
                            if p2 < p as int {
                                lemma_off_regions_disjoint(ts, chunks as int, radix_bits,
                                    pad as int, base + p2, (base + p) as int);
                            } else {
                                lemma_off_regions_disjoint(ts, chunks as int, radix_bits,
                                    pad as int, (base + p) as int, base + p2);
                            }
                            assert(!(curp0 <= offp2 + k < curp0 + cap));
                            assert(rel@[offp2 + k] == relpre[offp2 + k]);
                            assert(relpre[offp2 + k] == part_seq(next, radix_bits, p2)[k]);
                        }
                    }
                    assert forall|j2: int|
                        0 <= j2 < c * fan implies #[trigger] bucket_written(
                        rel@,
                        ts,
                        chunks as int,
                        radix_bits,
                        pad as int,
                        j2,
                    ) by {
                        lemma_off_regions_disjoint(ts, chunks as int, radix_bits, pad as int, j2,
                            (base + p) as int);
                        lemma_off_ge_pad(ts, chunks as int, radix_bits, pad as int, j2);
                        assert(bucket_written(relpre, ts, chunks as int, radix_bits, pad as int,
                            j2));
                        let offj = off_spec(ts, chunks as int, radix_bits, pad as int, j2);
                        assert forall|k: int|
                            0 <= k < bucket_count(ts, chunks as int, radix_bits, j2)
                            implies rel@[offj + k] == #[trigger] bucket_seq(ts, chunks as int,
                            radix_bits, j2)[k] by {
                            assert(relpre[offj + k] == bucket_seq(ts, chunks as int, radix_bits,
                                j2)[k]);
                            assert(offj + k < curp0);
                            assert(rel@[offj + k] == relpre[offj + k]);
                        }
                    }
                    assert(offp <= curp0 && curp0 + cap <= offp + bucket_count(ts, chunks as int,
                        radix_bits, (base + p) as int));
                    assert forall|x: int|
                        0 <= x < rel_len && !covered(ts, chunks as int, radix_bits, pad as int, x)
                        implies rel@[x] == rel0[x] by {
                        if curp0 <= x < curp0 + cap {
                            assert(offp <= x < offp + bucket_count(ts, chunks as int, radix_bits,
                                (base + p) as int));
                            assert(covered(ts, chunks as int, radix_bits, pad as int, x));
                        } else {
                            assert(rel@[x] == relpre[x]);
                            assert(relpre[x] == rel0[x]);
                        }
                    }
                }
            }
            i = i + 1;
        }

        // Drain the remaining buffered tuples of every partition.
        proof {
            assert(chunk.take(hi - lo) =~= chunk);
        }
        let mut pd: usize = 0;
        while pd < fan
            invariant
                keys@.len() == pays@.len(),
                len == keys@.len(),
                ts == tuple_seq(keys@, pays@),
                radix_bits <= MAX_RADIX_BITS,
                1 <= chunks,
                c < chunks,
                fan == spec_fanout(radix_bits),
                1 <= cap,
                nbuckets == chunks * spec_fanout(radix_bits),
                store_len == fan * cap,
                off_spec(ts, chunks as int, radix_bits, pad as int, nbuckets as int) == rel_len
                    + pad,
                base == c * fan,
                base + fan <= nbuckets,
                chunk == chunk_of(ts, chunks as int, c as int),
                rel@.len() == rel_len,
                rel.spec_mem_type() == old(rel).spec_mem_type(),
                rel0 == old(rel)@,
                rel0.len() == rel_len,
                pd <= fan,
                cur@.len() == fan,
                lens@.len() == fan,
                bufstore@.len() == store_len,
                forall|p: int| 0 <= p < fan ==> #[trigger] lens@[p] <= cap,
                forall|p: int|
                    pd <= p < fan ==> lens@[p] <= #[trigger] part_count(chunk, radix_bits, p)
                        && cur@[p] + lens@[p] == off_spec(
                        ts,
                        chunks as int,
                        radix_bits,
                        pad as int,
                        base + p,
                    ) + part_count(chunk, radix_bits, p),
                forall|p: int, k: int|
                    pd <= p < fan && 0 <= k < part_count(chunk, radix_bits, p) - lens@[p]
                        ==> rel@[off_spec(ts, chunks as int, radix_bits, pad as int, base + p)
                        + k] == #[trigger] part_seq(chunk, radix_bits, p)[k],
                forall|p: int, q: int|
                    pd <= p < fan && 0 <= q < lens@[p] ==> #[trigger] bufstore@[buf_slot(
                        p,
                        cap as int,
                        q,
                    )] == part_seq(chunk, radix_bits, p)[part_count(chunk, radix_bits, p)
                        - lens@[p] + q],
                forall|p: int, k: int|
                    0 <= p < pd && 0 <= k < part_count(chunk, radix_bits, p) ==> rel@[off_spec(
                        ts,
                        chunks as int,
                        radix_bits,
                        pad as int,
                        base + p,
                    ) + k] == #[trigger] part_seq(chunk, radix_bits, p)[k],
                forall|j: int|
                    0 <= j < c * fan ==> #[trigger] bucket_written(
                        rel@,
                        ts,
                        chunks as int,
                        radix_bits,
                        pad as int,
                        j,
                    ),
                forall|x: int|
                    0 <= x < rel_len && !covered(ts, chunks as int, radix_bits, pad as int, x)
                        ==> rel@[x] == rel0[x],
            decreases fan - pd,
        {
            let ghost m = part_count(chunk, radix_bits, pd as int) as int;
            let ghost offp = off_spec(ts, chunks as int, radix_bits, pad as int,
                (base + pd) as int);
            proof {
                lemma_flat_index(ts, chunks as int, radix_bits, c as int, pd as int);
                lemma_off_regions_disjoint(ts, chunks as int, radix_bits, pad as int,
                    (base + pd) as int, nbuckets as int);
                lemma_off_ge_pad(ts, chunks as int, radix_bits, pad as int, (base + pd) as int);
                assert((pd as int) * (cap as int) + cap <= (fan as int) * (cap as int)) by {
                    vstd::arithmetic::mul::lemma_mul_inequality(pd as int + 1, fan as int,
                        cap as int);
                    vstd::arithmetic::mul::lemma_mul_is_distributive_add_other_way(cap as int,
                        pd as int, 1);
                }
                assert(cur@[pd as int] + lens@[pd as int] == offp + m);
            }
            let cnt: usize = lens[pd];
            let ghost curp0 = offp + m - cnt;
            let ghost relpre = rel@;
            let ncur: usize = flush_buffer(rel, &bufstore, pd, cap, cnt, cur[pd], radix_bits, pad,
                Ghost(ts), Ghost(chunks as int), Ghost(c as int), Ghost(chunk));
            cur[pd] = ncur;
            lens[pd] = 0;
            proof {
                assert(offp <= curp0 && curp0 + cnt <= offp + bucket_count(ts, chunks as int,
                    radix_bits, (base + pd) as int));
                assert forall|p2: int, k: int|
                    pd + 1 <= p2 < fan && 0 <= k < part_count(chunk, radix_bits, p2) - lens@[p2]
                    implies rel@[off_spec(ts, chunks as int, radix_bits, pad as int, base + p2)
                    + k] == #[trigger] part_seq(chunk, radix_bits, p2)[k] by {
                    let offp2 = off_spec(ts, chunks as int, radix_bits, pad as int, base + p2);
                    lemma_flat_index(ts, chunks as int, radix_bits, c as int, p2);
                    lemma_off_ge_pad(ts, chunks as int, radix_bits, pad as int, base + p2);
                    lemma_off_regions_disjoint(ts, chunks as int, radix_bits, pad as int,
                        base + p2, nbuckets as int);
                    lemma_off_regions_disjoint(ts, chunks as int, radix_bits, pad as int,
                        (base + pd) as int, base + p2);
                    assert(!(curp0 <= offp2 + k < curp0 + cnt));
                    assert(rel@[offp2 + k] == relpre[offp2 + k]);
                    assert(relpre[offp2 + k] == part_seq(chunk, radix_bits, p2)[k]);
                }
                assert forall|p2: int, k: int|
                    0 <= p2 < pd + 1 && 0 <= k < part_count(chunk, radix_bits, p2)
                    implies rel@[off_spec(ts, chunks as int, radix_bits, pad as int, base + p2)
                    + k] == #[trigger] part_seq(chunk, radix_bits, p2)[k] by {
                    let offp2 = off_spec(ts, chunks as int, radix_bits, pad as int, base + p2);
                    if p2 == pd as int {
                        assert(rel@[offp2 + k] == part_seq(chunk, radix_bits, p2)[k]);
                    } else {
                        lemma_flat_index(ts, chunks as int, radix_bits, c as int, p2);
                        lemma_off_ge_pad(ts, chunks as int, radix_bits, pad as int, base + p2);
                        lemma_off_regions_disjoint(ts, chunks as int, radix_bits, pad as int,
                            base + p2, nbuckets as int);
                        lemma_off_regions_disjoint(ts, chunks as int, radix_bits, pad as int,
                            base + p2, (base + pd) as int);
                        assert(!(curp0 <= offp2 + k < curp0 + cnt));
                        assert(rel@[offp2 + k] == relpre[offp2 + k]);
                        assert(relpre[offp2 + k] == part_seq(chunk, radix_bits, p2)[k]);
                    }
                }
                assert forall|j2: int|
                    0 <= j2 < c * fan implies #[trigger] bucket_written(
                    rel@,
                    ts,
                    chunks as int,
                    radix_bits,
                    pad as int,
                    j2,
                ) by {
                    lemma_off_regions_disjoint(ts, chunks as int, radix_bits, pad as int, j2,
                        (base + pd) as int);
                    lemma_off_ge_pad(ts, chunks as int, radix_bits, pad as int, j2);
                    assert(bucket_written(relpre, ts, chunks as int, radix_bits, pad as int, j2));
                    let offj = off_spec(ts, chunks as int, radix_bits, pad as int, j2);
                    assert forall|k: int|
                        0 <= k < bucket_count(ts, chunks as int, radix_bits, j2) implies rel@[offj
                        + k] == #[trigger] bucket_seq(ts, chunks as int, radix_bits, j2)[k] by {
                        assert(relpre[offj + k] == bucket_seq(ts, chunks as int, radix_bits,
                            j2)[k]);
                        assert(offj + k < curp0);
                        assert(rel@[offj + k] == relpre[offj + k]);
                    }
                }
                assert forall|x: int|
                    0 <= x < rel_len && !covered(ts, chunks as int, radix_bits, pad as int, x)
                    implies rel@[x] == rel0[x] by {
                    if curp0 <= x < curp0 + cnt {
                        assert(offp <= x < offp + bucket_count(ts, chunks as int, radix_bits,
                            (base + pd) as int));
                        assert(covered(ts, chunks as int, radix_bits, pad as int, x));
                    } else {
                        assert(rel@[x] == relpre[x]);
                        assert(relpre[x] == rel0[x]);
                    }
                }
            }
            pd = pd + 1;
        }
        proof {
            assert forall|j2: int| 0 <= j2 < (c + 1) * fan implies #[trigger] bucket_written(
                rel@,
                ts,
                chunks as int,
                radix_bits,
                pad as int,
                j2,
            ) by {
                vstd::arithmetic::mul::lemma_mul_is_distributive_add_other_way(fan as int,
                    c as int, 1);
                assert((c + 1) * fan == c * fan + fan);
                if j2 >= c * fan {
                    let q = j2 - c as int * fan as int;
                    lemma_flat_index(ts, chunks as int, radix_bits, c as int, q);
                    let offj = off_spec(ts, chunks as int, radix_bits, pad as int, j2);
                    assert forall|k: int|
                        0 <= k < bucket_count(ts, chunks as int, radix_bits, j2) implies rel@[offj
                        + k] == #[trigger] bucket_seq(ts, chunks as int, radix_bits, j2)[k] by {
                        assert(rel@[off_spec(ts, chunks as int, radix_bits, pad as int, base + q)
                            + k] == part_seq(chunk, radix_bits, q)[k]);
                    }
                } else {
                    assert(bucket_written(rel@, ts, chunks as int, radix_bits, pad as int, j2));
                }
            }
        }
        c = c + 1;
    }
    proof {
        vstd::arithmetic::mul::lemma_mul_is_commutative(chunks as int, fan as int);
    }
}

/// The partition-write phase: scatters every input tuple to its (chunk,
/// partition) bucket at the bucket's precomputed offset.
///
/// Within each chunk the tuples of one partition keep their input order.
/// Positions outside the buckets' data regions, i.e. the padding regions,
/// are left untouched.
pub(crate) fn write_partitions<K: GpuRadixPartitionable>(
    keys: &[K],
    pays: &[K],
    offs: &Vec<u64>,
    chunks: u32,
    radix_bits: u32,
    pad: u32,
    rel: &mut Mem<Tuple<K, K>>,
)
    requires
        keys@.len() == pays@.len(),
        radix_bits <= MAX_RADIX_BITS,
        1 <= chunks,
        chunks * spec_fanout(radix_bits) <= usize::MAX,
        offs@.len() == chunks * spec_fanout(radix_bits),
        forall|j: int|
            0 <= j < offs@.len() ==> offs@[j] == off_spec(
                tuple_seq(keys@, pays@),
                chunks as int,
                radix_bits,
                pad as int,
                j,
            ),
        old(rel)@.len() == keys@.len() + chunks * spec_fanout(radix_bits) * pad,
    ensures
        final(rel)@.len() == old(rel)@.len(),
        final(rel).spec_mem_type() == old(rel).spec_mem_type(),
        forall|j: int|
            0 <= j < chunks * spec_fanout(radix_bits) ==> #[trigger] bucket_written(
                final(rel)@,
                tuple_seq(keys@, pays@),
                chunks as int,
                radix_bits,
                pad as int,
                j,
            ),
        forall|x: int|
            0 <= x < old(rel)@.len() && !covered(
                tuple_seq(keys@, pays@),
                chunks as int,
                radix_bits,
                pad as int,
                x,
            ) ==> final(rel)@[x] == old(rel)@[x],
{
    let ghost ts = tuple_seq(keys@, pays@);
    let ghost rel0 = old(rel)@;
    let fan: usize = fanout(radix_bits);
    let nbuckets: usize = (chunks as usize) * fan;
    let len: usize = keys.len();
    let rel_len: usize = rel.len();
    proof {
        lemma_off_total::<K>(ts, chunks as int, radix_bits, pad as int);
        assert(off_spec(ts, chunks as int, radix_bits, pad as int, nbuckets as int) == rel_len
            + pad);
    }

    let mut c: u32 = 0;
    while c < chunks
        invariant
            keys@.len() == pays@.len(),
            len == keys@.len(),
            ts == tuple_seq(keys@, pays@),
            radix_bits <= MAX_RADIX_BITS,
            1 <= chunks,
            c <= chunks,
            fan == spec_fanout(radix_bits),
            nbuckets == chunks * spec_fanout(radix_bits),
            nbuckets <= usize::MAX,
            offs@.len() == nbuckets,
            forall|j: int|
                0 <= j < offs@.len() ==> offs@[j] == off_spec(
                    ts,
                    chunks as int,
                    radix_bits,
                    pad as int,
                    j,
                ),
            rel_len == keys@.len() + chunks * spec_fanout(radix_bits) * pad,
            off_spec(ts, chunks as int, radix_bits, pad as int, nbuckets as int) == rel_len + pad,
            rel@.len() == rel_len,
            rel.spec_mem_type() == old(rel).spec_mem_type(),
            rel0 == old(rel)@,
            rel0.len() == rel_len,
            forall|j: int|
                0 <= j < c * fan ==> #[trigger] bucket_written(
                    rel@,
                    ts,
                    chunks as int,
                    radix_bits,
                    pad as int,
                    j,
                ),
            forall|x: int|
                0 <= x < rel_len && !covered(ts, chunks as int, radix_bits, pad as int, x)
                    ==> rel@[x] == rel0[x],
        decreases chunks - c,
    {
        let lo: usize = chunk_bound(len, chunks, c);
        let hi: usize = chunk_bound(len, chunks, c + 1);
        proof {
            lemma_chunk_lo_bounds(len as int, chunks as int, c as int, c as int + 1);
            assert((c as int) * (fan as int) + (fan as int) <= (chunks as int) * (fan as int))
                by {
                vstd::arithmetic::mul::lemma_mul_inequality(c as int + 1, chunks as int,
                    fan as int);
                vstd::arithmetic::mul::lemma_mul_is_distributive_add_other_way(fan as int,
                    c as int, 1);
            }
            vstd::arithmetic::mul::lemma_mul_nonnegative(c as int, fan as int);
            vstd::arithmetic::mul::lemma_mul_is_commutative(chunks as int, fan as int);
        }
        let ghost chunk = chunk_of(ts, chunks as int, c as int);
        let base: usize = (c as usize) * fan;

        // Per-partition write cursors of this chunk, starting at the
        // buckets' offsets.
        let mut cur: Vec<usize> = Vec::with_capacity(fan);
        let mut p0: usize = 0;
        while p0 < fan
            invariant
                radix_bits <= MAX_RADIX_BITS,
                1 <= chunks,
                fan == spec_fanout(radix_bits),
                nbuckets == chunks * spec_fanout(radix_bits),
                offs@.len() == nbuckets,
                forall|j: int|
                    0 <= j < offs@.len() ==> offs@[j] == off_spec(
                        ts,
                        chunks as int,
                        radix_bits,
                        pad as int,
                        j,
                    ),
                off_spec(ts, chunks as int, radix_bits, pad as int, nbuckets as int) == rel_len
                    + pad,
                base + fan <= nbuckets,
                p0 <= fan,
                cur@.len() == p0,
                forall|p: int|
                    0 <= p < p0 ==> cur@[p] == off_spec(
                        ts,
                        chunks as int,
                        radix_bits,
                        pad as int,
                        base + p,
                    ),
            decreases fan - p0,
        {
            proof {
                lemma_off_regions_disjoint(ts, chunks as int, radix_bits, pad as int,
                    (base + p0) as int, nbuckets as int);
            }
            let o: u64 = offs[base + p0];
            cur.push(o as usize);
            p0 = p0 + 1;
        }

        let mut i: usize = lo;
        while i < hi
            invariant
                keys@.len() == pays@.len(),
                len == keys@.len(),
                ts == tuple_seq(keys@, pays@),
                radix_bits <= MAX_RADIX_BITS,
                1 <= chunks,
                c < chunks,
                fan == spec_fanout(radix_bits),
                nbuckets == chunks * spec_fanout(radix_bits),
                nbuckets <= usize::MAX,
                offs@.len() == nbuckets,
                forall|j: int|
                    0 <= j < offs@.len() ==> offs@[j] == off_spec(
                        ts,
                        chunks as int,
                        radix_bits,
                        pad as int,
                        j,
                    ),
                off_spec(ts, chunks as int, radix_bits, pad as int, nbuckets as int) == rel_len
                    + pad,
                base == c * fan,
                base + fan <= nbuckets,
                lo == chunk_lo(len as int, chunks as int, c as int),
                hi == chunk_lo(len as int, chunks as int, c as int + 1),
                lo <= i <= hi <= len,
                chunk == chunk_of(ts, chunks as int, c as int),
                chunk.len() == hi - lo,
                rel@.len() == rel_len,
                rel.spec_mem_type() == old(rel).spec_mem_type(),
                rel0 == old(rel)@,
                rel0.len() == rel_len,
                cur@.len() == fan,
                forall|p: int|
                    0 <= p < fan ==> cur@[p] == off_spec(
                        ts,
                        chunks as int,
                        radix_bits,
                        pad as int,
                        base + p,
                    ) + #[trigger] part_count(chunk.take(i - lo), radix_bits, p),
                forall|p: int, k: int|
                    0 <= p < fan && 0 <= k < part_count(chunk.take(i - lo), radix_bits, p)
                        ==> rel@[off_spec(ts, chunks as int, radix_bits, pad as int, base + p) + k]
                        == #[trigger] part_seq(chunk.take(i - lo), radix_bits, p)[k],
                forall|j: int|
                    0 <= j < c * fan ==> #[trigger] bucket_written(
                        rel@,
                        ts,
                        chunks as int,
                        radix_bits,
                        pad as int,
                        j,
                    ),
                forall|x: int|
                    0 <= x < rel_len && !covered(ts, chunks as int, radix_bits, pad as int, x)
                        ==> rel@[x] == rel0[x],
            decreases hi - i,
        {
            let ghost done = chunk.take(i - lo);
            let kv: K = keys[i];
            let pv: K = pays[i];
            let p: usize = kv.partition_index(radix_bits);
            let t = Tuple { key: kv, value: pv };
            let ghost offp = off_spec(ts, chunks as int, radix_bits, pad as int, (base + p) as int);
            proof {
                keys@[i as int].lemma_partition_index_in_range(radix_bits);
                assert(chunk[i - lo] == ts[i as int]);
                assert(ts[i as int] == Tuple { key: keys@[i as int], value: pays@[i as int] });
                assert(cur@[p as int] == offp + part_count(done, radix_bits, p as int));
                // One more tuple of partition `p` fits: the prefix processed
                // so far, extended by this tuple, is still a prefix of the
                // chunk, so its count stays at or below the bucket's count.
                assert(chunk.take(i - lo + 1) =~= done.push(chunk[i - lo]));
                lemma_filter_push(done, part_pred::<K>(radix_bits, p as int), chunk[i - lo]);
                lemma_part_count_prefix(chunk, radix_bits, p as int, i - lo + 1);
                lemma_flat_index(ts, chunks as int, radix_bits, c as int, p as int);
                assert(part_count(done, radix_bits, p as int) < bucket_count(ts, chunks as int,
                    radix_bits, (base + p) as int));
                lemma_off_regions_disjoint(ts, chunks as int, radix_bits, pad as int,
                    (base + p) as int, nbuckets as int);
                assert(offp + bucket_count(ts, chunks as int, radix_bits, (base + p) as int)
                    <= rel_len);
            }
            let ghost relb = rel@;
            let dst: usize = cur[p];
            rel.write(dst, t);
            let bump: usize = dst + 1;
            cur[p] = bump;
            proof {
                let next = chunk.take(i - lo + 1);
                let relq = rel@;
                let m = part_count(done, radix_bits, p as int);
                assert(next =~= done.push(chunk[i - lo]));
                assert(relq =~= relb.update(dst as int, t));

                // The write cursors now count the extended prefix.
                assert forall|q: int| 0 <= q < fan implies cur@[q] == off_spec(
                    ts,
                    chunks as int,
                    radix_bits,
                    pad as int,
                    base + q,
                ) + #[trigger] part_count(next, radix_bits, q) by {
                    lemma_filter_push(done, part_pred::<K>(radix_bits, q), chunk[i - lo]);
                    if q != p as int {
                        assert(cur@[q] == off_spec(ts, chunks as int, radix_bits, pad as int,
                            base + q) + part_count(done, radix_bits, q));
                    }
                }

                // Each bucket region of this chunk holds the extended
                // prefix's tuples of its partition: the write landed at the
                // end of bucket `p`'s region and no other region moved.
                assert forall|q: int, k: int|
                    0 <= q < fan && 0 <= k < part_count(next, radix_bits, q) implies relq[off_spec(
                    ts,
                    chunks as int,
                    radix_bits,
                    pad as int,
                    base + q,
                ) + k] == #[trigger] part_seq(next, radix_bits, q)[k] by {
                    let offq = off_spec(ts, chunks as int, radix_bits, pad as int, base + q);
                    lemma_filter_push(done, part_pred::<K>(radix_bits, q), chunk[i - lo]);
                    lemma_part_count_prefix(chunk, radix_bits, q, i - lo + 1);
                    lemma_flat_index(ts, chunks as int, radix_bits, c as int, q);
                    lemma_off_regions_disjoint(ts, chunks as int, radix_bits, pad as int,
                        base + q, nbuckets as int);
                    lemma_off_ge_pad(ts, chunks as int, radix_bits, pad as int, base + q);
                    assert(offq + bucket_count(ts, chunks as int, radix_bits, base + q)
                        <= rel_len);
                    assert(relb.len() == rel_len);
                    if q == p as int {
                        if k < m {
                            assert(relq[offq + k] == relb[offq + k]);
                            assert(relb[offq + k] == part_seq(done, radix_bits, q)[k]);
                        } else {
                            assert(k == m);
                            assert(part_seq(next, radix_bits, q)[m as int] == chunk[i - lo]);
                        }
                    } else {
                        if q < p as int {
                            lemma_off_regions_disjoint(ts, chunks as int, radix_bits, pad as int,
                                base + q, base + p);
                        } else {
                            lemma_off_regions_disjoint(ts, chunks as int, radix_bits, pad as int,
                                base + p, base + q);
                            lemma_part_count_prefix(chunk, radix_bits, p as int, i - lo + 1);
                        }
                        assert(offq + k != dst);
                        assert(relq[offq + k] == relb[offq + k]);
                        assert(relb[offq + k] == part_seq(done, radix_bits, q)[k]);
                    }
                }

                // Buckets of the chunks already finished lie strictly below
                // this chunk's regions, so they are untouched.
                assert forall|j2: int| 0 <= j2 < c * fan implies #[trigger] bucket_written(
                    relq,
                    ts,
                    chunks as int,
                    radix_bits,
                    pad as int,
                    j2,
                ) by {
                    lemma_off_regions_disjoint(ts, chunks as int, radix_bits, pad as int, j2,
                        (base + p) as int);
                    lemma_off_regions_disjoint(ts, chunks as int, radix_bits, pad as int, j2,
                        nbuckets as int);
                    lemma_off_ge_pad(ts, chunks as int, radix_bits, pad as int, j2);
                    assert(bucket_written(relb, ts, chunks as int, radix_bits, pad as int, j2));
                    let offj = off_spec(ts, chunks as int, radix_bits, pad as int, j2);
                    assert forall|k: int|
                        0 <= k < bucket_count(ts, chunks as int, radix_bits, j2) implies relq[offj
                        + k] == #[trigger] bucket_seq(ts, chunks as int, radix_bits, j2)[k] by {
                        assert(relb[offj + k] == bucket_seq(ts, chunks as int, radix_bits, j2)[k]);
                        assert(offj + k < dst);
                    }
                }

                // The write landed inside bucket `base + p`'s data region,
                // so padding regions are untouched.
                assert(off_spec(ts, chunks as int, radix_bits, pad as int, (base + p) as int)
                    <= dst < off_spec(ts, chunks as int, radix_bits, pad as int, (base + p) as int)
                    + bucket_count(ts, chunks as int, radix_bits, (base + p) as int));
                assert(covered(ts, chunks as int, radix_bits, pad as int, dst as int));
                assert forall|x: int|
                    0 <= x < rel_len && !covered(ts, chunks as int, radix_bits, pad as int, x)
                    implies relq[x] == rel0[x] by {
                    assert(x != dst);
                    assert(relq[x] == relb[x]);
                }
            }
            i = i + 1;
        }
        proof {
            assert(chunk.take(hi - lo) =~= chunk);
            assert forall|j2: int| 0 <= j2 < (c + 1) * fan implies #[trigger] bucket_written(
                rel@,
                ts,
                chunks as int,
                radix_bits,
                pad as int,
                j2,
            ) by {
                vstd::arithmetic::mul::lemma_mul_is_distributive_add_other_way(fan as int,
                    c as int, 1);
                assert((c + 1) * fan == c * fan + fan);
                if j2 >= c * fan {
                    let q = j2 - c as int * fan as int;
                    lemma_flat_index(ts, chunks as int, radix_bits, c as int, q);
                    let offj = off_spec(ts, chunks as int, radix_bits, pad as int, j2);
                    assert forall|k: int|
                        0 <= k < bucket_count(ts, chunks as int, radix_bits, j2) implies rel@[offj
                        + k] == #[trigger] bucket_seq(ts, chunks as int, radix_bits, j2)[k] by {
                        assert(rel@[off_spec(ts, chunks as int, radix_bits, pad as int, base + q)
                            + k] == part_seq(chunk.take(hi - lo), radix_bits, q)[k]);
                    }
                } else {
                    assert(bucket_written(rel@, ts, chunks as int, radix_bits, pad as int, j2));
                }
            }
        }
        c = c + 1;
    }
    proof {
        vstd::arithmetic::mul::lemma_mul_is_commutative(chunks as int, fan as int);
    }
}

} // verus!
