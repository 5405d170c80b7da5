//! The radix partitioning operator and its partitioned-relation container.
//!
//! `GpuRadixPartitioner::partition` runs the selected histogram algorithm to
//! compute the buckets' write offsets, then dispatches the selected
//! partition-write variant to scatter the tuples into a
//! `PartitionedRelation` at those offsets.

use vstd::prelude::*;
use crate::error::ErrorKind;
use crate::memory::{Mem, MemType};
use crate::radix::{GpuRadixPartitionable, Tuple, spec_fanout, fanout, MAX_RADIX_BITS};
use crate::layout::{tuple_seq, zero_tuple, bucket_count, off_spec, covered, bucket_written,
    lemma_off_mono, lemma_off_regions_disjoint, lemma_off_ge_pad, lemma_off_total};
use crate::engine::{compute_histogram, compute_offsets, write_partitions,
    write_partitions_buffered};

verus! {

/// Number of bytes of padding reserved in front of every partition.
///
/// Padding lets the partition-write kernels issue aligned bulk writes that
/// may reach into the space in front of their partition; it must be at least
/// as large as the widest aligned burst write used by any variant. For this
/// reason the first partition carries padding in front as well.
pub const PADDING_BYTES: u32 = 128;

/// Number of padding elements in front of every partition of a relation
/// whose tuples have keys of type `K`.
pub open spec fn spec_padding_len<K: GpuRadixPartitionable>() -> nat {
    (PADDING_BYTES as nat) / (2nat * (K::spec_key_bytes() as nat))
}

/// Specifies the histogram algorithm that computes the partition offsets.
#[derive(Copy, Clone, Debug, PartialEq, Eq, Structural)]
pub enum GpuHistogramAlgorithm {
    /// Chunked partitions: every execution unit (thread block) computes an
    /// independent histogram and offset set over its own slice of the
    /// input, so no global synchronization is needed and the resulting
    /// relation has one chunk per execution unit.
    GpuChunked,
    /// Contiguous partitions: one histogram and one offset table are
    /// computed cooperatively across all execution units, producing a
    /// single chunk whose partitions lie contiguously in memory. Requires
    /// the platform's cooperative-launch capability for the grid-wide
    /// synchronization barrier.
    GpuContiguous,
}

/// Specifies the radix partition-write variant.
///
/// All variants produce the same partition assignment; they differ in their
/// write-combining buffer discipline, which trades memory bandwidth against
/// synchronization cost on the device.
#[derive(Copy, Clone, Debug, PartialEq, Eq, Structural)]
pub enum GpuRadixPartitionAlgorithm {
    /// Non-caching baseline: tuples are written straight to the output.
    NC,
    /// Look-ahead software write combining: tuples are reordered in
    /// shared-memory buffers and flushed in coalesced bursts.
    LASWWC,
    /// Shared software write combining: the shared-memory buffers are
    /// shared by the whole execution unit under a per-buffer lock.
    SSWWC,
    /// Shared software write combining with non-temporal stores on flush.
    SSWWCNT,
    /// Shared software write combining, version 2: locks on buffers other
    /// than the leader's own are released immediately.
    SSWWCv2,
    /// Hierarchical shared software write combining: adds a second buffer
    /// tier in device memory to amortize interconnect-crossing overhead.
    HSSWWC,
    /// Hierarchical variant with the version-2 lock discipline.
    HSSWWCv2,
    /// Hierarchical variant whose tier-2 flush runs asynchronously.
    HSSWWCv3,
    /// Hierarchical variant with double-buffered tier-2 buffers, so a full
    /// buffer is swapped for a spare instead of blocking on its flush.
    HSSWWCv4,
}

/// Capabilities and tuning parameters of the executing device, resolved
/// once at configuration time and passed in explicitly.
#[derive(Copy, Clone, Debug, PartialEq, Eq, Structural)]
pub struct DeviceConfig {
    /// Whether the platform supports cooperative kernel launches with a
    /// grid-wide synchronization barrier.
    pub cooperative_launch: bool,
    /// Largest shared-memory allocation available to one execution unit.
    pub max_shared_mem_bytes: u32,
    /// Device memory available for the hierarchical variants' tier-2
    /// write-combine buffers.
    pub total_dmem_bytes: u64,
    /// Base-2 logarithm of the number of shared-memory banks, used to pad
    /// shared-memory layouts against bank conflicts.
    pub log2_num_banks: u32,
}

/// A radix-partitioned relation, with padding in front of each partition.
///
/// The relation supports chunking on a single GPU: with the chunked
/// histogram algorithm there is one chunk per execution unit, with the
/// contiguous algorithm exactly one.
///
/// The `relation` buffer holds all tuples of all buckets, each bucket
/// preceded by `padding_len()` padding elements; `offsets` holds the start
/// index of every bucket's data in flat chunk-major order.
#[derive(Debug)]
pub struct PartitionedRelation<K: GpuRadixPartitionable> {
    pub relation: Mem<Tuple<K, K>>,
    pub offsets: Mem<u64>,
    pub chunks: u32,
    pub radix_bits: u32,
}

/// The chunk count that a histogram algorithm produces for a given grid
/// size: the grid size for the chunked algorithm, one for the contiguous
/// algorithm.
pub open spec fn spec_chunks_of(histogram_algorithm: GpuHistogramAlgorithm, grid_size: u32) -> u32 {
    match histogram_algorithm {
        GpuHistogramAlgorithm::GpuChunked => grid_size,
        GpuHistogramAlgorithm::GpuContiguous => 1u32,
    }
}

impl<K: GpuRadixPartitionable> PartitionedRelation<K> {
    /// Structural well-formedness: the buffer sizes agree with the chunk
    /// count and radix bits.
    pub open spec fn wf(&self) -> bool {
        &&& self.radix_bits <= MAX_RADIX_BITS
        &&& 1 <= self.chunks
        &&& self.offsets@.len() == self.chunks * spec_fanout(self.radix_bits)
        &&& self.chunks * spec_fanout(self.radix_bits) * spec_padding_len::<K>()
            <= self.relation@.len()
        &&& self.relation@.len() <= usize::MAX
    }

    /// The logical tuple count: the raw buffer length minus the padding.
    pub open spec fn spec_len(&self) -> int {
        self.relation@.len() - self.chunks * spec_fanout(self.radix_bits)
            * spec_padding_len::<K>()
    }

    /// The offsets table is laid out correctly for bucket indexing: offsets
    /// grow monotonically, consecutive offsets leave room for one padding
    /// region, and the last bucket starts within the relation.
    pub open spec fn offsets_wf(&self) -> bool {
        &&& forall|j1: int, j2: int|
            0 <= j1 <= j2 < self.offsets@.len() ==> #[trigger] self.offsets@[j1]
                <= #[trigger] self.offsets@[j2]
        &&& forall|j: int|
            0 <= j < self.offsets@.len() - 1 ==> #[trigger] self.offsets@[j]
                + spec_padding_len::<K>() <= self.offsets@[j + 1]
        &&& self.offsets@.len() > 0 ==> self.offsets@[self.offsets@.len() - 1]
            <= self.relation@.len()
    }

    /// Creates a new partitioned relation sized for `len` tuples, including
    /// the necessary padding and metadata, allocating the tuple buffer and
    /// the offsets buffer on the requested memory backends.
    pub fn new(
        len: usize,
        histogram_algorithm: GpuHistogramAlgorithm,
        radix_bits: u32,
        grid_size: u32,
        relation_mem_type: MemType,
        offsets_mem_type: MemType,
    ) -> (r: Self)
        requires
            radix_bits <= MAX_RADIX_BITS,
            1 <= grid_size,
            len + spec_chunks_of(histogram_algorithm, grid_size) * spec_fanout(radix_bits)
                * spec_padding_len::<K>() <= usize::MAX,
            spec_chunks_of(histogram_algorithm, grid_size) * spec_fanout(radix_bits)
                <= usize::MAX,
        ensures
            r.wf(),
            r.radix_bits == radix_bits,
            r.chunks == spec_chunks_of(histogram_algorithm, grid_size),
            r.spec_len() == len,
            r.relation@.len() == len + r.chunks * spec_fanout(radix_bits)
                * spec_padding_len::<K>(),
            r.relation@ =~= Seq::new(r.relation@.len(), |i: int| zero_tuple::<K>()),
            r.offsets@ =~= Seq::new((r.chunks * spec_fanout(radix_bits)) as nat, |i: int| 0u64),
            r.relation.spec_mem_type() == relation_mem_type,
            r.offsets.spec_mem_type() == offsets_mem_type,
    {
        let chunks: u32 = match histogram_algorithm {
            GpuHistogramAlgorithm::GpuChunked => grid_size,
            GpuHistogramAlgorithm::GpuContiguous => 1,
        };

        let padding_len: u32 = PADDING_BYTES / (2 * K::key_bytes());
        let num_partitions: usize = fanout(radix_bits);
        proof {
            vstd::arithmetic::mul::lemma_mul_nonnegative(
                (chunks * spec_fanout(radix_bits)) as int, spec_padding_len::<K>() as int);
        }
        let nbuckets: usize = (chunks as usize) * num_partitions;
        let total_padding: usize = nbuckets * (padding_len as usize);
        let relation_len: usize = len + total_padding;

        let zk: K = K::zero();
        let relation: Mem<Tuple<K, K>> = Mem::allocate(relation_mem_type, relation_len,
            Tuple { key: zk, value: zk });
        let offsets: Mem<u64> = Mem::allocate(offsets_mem_type, nbuckets, 0u64);

        Self { relation, offsets, chunks, radix_bits }
    }

    /// Returns the total number of tuples in the relation, excluding
    /// padding.
    pub fn len(&self) -> (n: usize)
        requires
            self.wf(),
        ensures
            n == self.spec_len(),
    {
        let num_partitions: usize = fanout(self.radix_bits);
        let padding_len: u32 = PADDING_BYTES / (2 * K::key_bytes());
        let raw: usize = self.relation.len();
        let nbuckets: usize = self.offsets.len();
        proof {
            vstd::arithmetic::mul::lemma_mul_nonnegative(nbuckets as int, padding_len as int);
        }
        raw - ((self.chunks as usize) * num_partitions) * (padding_len as usize)
    }

    /// Returns the number of chunks.
    pub fn chunks(&self) -> (n: u32)
        ensures
            n == self.chunks,
    {
        self.chunks
    }

    /// Returns the number of partitions per chunk.
    pub fn partitions(&self) -> (n: usize)
        requires
            self.radix_bits <= MAX_RADIX_BITS,
        ensures
            n == spec_fanout(self.radix_bits),
    {
        fanout(self.radix_bits)
    }

    /// Returns the number of padding elements in front of each partition.
    pub fn padding_len(&self) -> (n: u32)
        ensures
            n == spec_padding_len::<K>(),
    {
        PADDING_BYTES / (2 * K::key_bytes())
    }

    /// Start of the data of partition `p` of chunk `c` in the relation
    /// buffer.
    pub open spec fn spec_bucket_begin(&self, c: int, p: int) -> int {
        self.offsets@[c * spec_fanout(self.radix_bits) + p] as int
    }

    /// End of the data of partition `p` of chunk `c`: the next bucket's
    /// offset minus its padding, or the buffer's end for the last bucket.
    pub open spec fn spec_bucket_end(&self, c: int, p: int) -> int {
        let flat = c * spec_fanout(self.radix_bits) + p;
        if flat + 1 < self.offsets@.len() {
            self.offsets@[flat + 1] - spec_padding_len::<K>()
        } else {
            self.relation@.len() as int
        }
    }

    /// Returns the tuples of partition `i.1` of chunk `i.0` as a host
    /// slice, or `InvalidArgument` when the underlying storage is not
    /// host-addressable.
    pub fn index(&self, i: (usize, usize)) -> (r: Result<&[Tuple<K, K>], ErrorKind>)
        requires
            self.wf(),
            self.offsets_wf(),
            i.0 < self.chunks,
            i.1 < spec_fanout(self.radix_bits),
        ensures
            match r {
                Ok(s) => self.relation.spec_host_addressable()
                    && self.offsets.spec_host_addressable() && s@ == self.relation@.subrange(
                    self.spec_bucket_begin(i.0 as int, i.1 as int),
                    self.spec_bucket_end(i.0 as int, i.1 as int),
                ),
                Err(e) => (e matches ErrorKind::InvalidArgument(_))
                    && !(self.relation.spec_host_addressable()
                    && self.offsets.spec_host_addressable()),
            },
    {
        let offsets_slice: &[u64] = match self.offsets.try_as_slice() {
            Some(s) => s,
            None => {
                return Err(
                    ErrorKind::InvalidArgument("Trying to dereference device memory".to_string()),
                );
            },
        };
        let relation_slice: &[Tuple<K, K>] = match self.relation.try_as_slice() {
            Some(s) => s,
            None => {
                return Err(
                    ErrorKind::InvalidArgument("Trying to dereference device memory".to_string()),
                );
            },
        };

        let num_partitions: usize = fanout(self.radix_bits);
        let nbuckets: usize = offsets_slice.len();
        proof {
            vstd::arithmetic::mul::lemma_mul_inequality(i.0 as int + 1, self.chunks as int,
                spec_fanout(self.radix_bits) as int);
            vstd::arithmetic::mul::lemma_mul_is_distributive_add_other_way(
                spec_fanout(self.radix_bits) as int, i.0 as int, 1);
            vstd::arithmetic::mul::lemma_mul_nonnegative(i.0 as int,
                spec_fanout(self.radix_bits) as int);
        }
        let ofi: usize = i.0 * num_partitions + i.1;
        let begin64: u64 = *vstd::slice::slice_index_get(offsets_slice, ofi);
        let end: usize = if ofi + 1 < nbuckets {
            let next64: u64 = *vstd::slice::slice_index_get(offsets_slice, ofi + 1);
            let padding_len: u32 = PADDING_BYTES / (2 * K::key_bytes());
            (next64 as usize) - (padding_len as usize)
        } else {
            relation_slice.len()
        };
        let begin: usize = begin64 as usize;
        Ok(vstd::slice::slice_subrange(relation_slice, begin, end))
    }
}

/// Transient per-run device state of the partitioner: the temporary
/// per-block partition-offset table, and for the contiguous histogram
/// algorithm also the prefix-scan workspace.
#[derive(Debug)]
pub enum RadixPartitionState {
    GpuChunked(Mem<u32>),
    GpuContiguous(Mem<u32>, Mem<u32>),
}

/// The GPU radix partitioning operator.
///
/// Holds the configuration — radix bits, histogram and partition-write
/// algorithm, execution geometry, device capabilities and buffer budget —
/// plus the transient per-run device state. One instance is created per
/// benchmark configuration and reused across repeated partitioning calls.
#[derive(Debug)]
pub struct GpuRadixPartitioner {
    pub radix_bits: u32,
    pub log2_num_banks: u32,
    pub histogram_algorithm: GpuHistogramAlgorithm,
    pub partition_algorithm: GpuRadixPartitionAlgorithm,
    pub state: RadixPartitionState,
    pub grid_size: u32,
    pub block_size: u32,
    pub dmem_buffer_bytes: usize,
    pub device: DeviceConfig,
}

/// The outcome that a successful partitioning call leaves in the
/// partitioned relation: the offsets table holds every bucket's start
/// offset, every bucket holds exactly its partition's tuples of its chunk
/// in input order, and the padding regions are untouched.
pub open spec fn spec_partition_output<K: GpuRadixPartitionable>(
    keys: Seq<K>,
    pays: Seq<K>,
    before: PartitionedRelation<K>,
    after: PartitionedRelation<K>,
) -> bool {
    let ts = tuple_seq(keys, pays);
    let chunks = before.chunks as int;
    let rb = before.radix_bits;
    let pad = spec_padding_len::<K>() as int;
    let nb = before.chunks * spec_fanout(rb);
    &&& after.chunks == before.chunks
    &&& after.radix_bits == before.radix_bits
    &&& after.relation@.len() == before.relation@.len()
    &&& after.relation.spec_mem_type() == before.relation.spec_mem_type()
    &&& after.offsets.spec_mem_type() == before.offsets.spec_mem_type()
    &&& after.offsets@.len() == nb
    &&& forall|j: int|
        0 <= j < nb ==> after.offsets@[j] == off_spec(ts, chunks, rb, pad, j)
    &&& forall|j: int|
        0 <= j < nb ==> #[trigger] bucket_written(after.relation@, ts, chunks, rb, pad, j)
    &&& forall|x: int|
        0 <= x < before.relation@.len() && !covered(ts, chunks, rb, pad, x)
            ==> after.relation@[x] == before.relation@[x]
}

impl GpuRadixPartitioner {
    /// Well-formed configuration.
    pub open spec fn wf(&self) -> bool {
        &&& self.radix_bits <= MAX_RADIX_BITS
        &&& 1 <= self.grid_size
        &&& 1 <= self.block_size
        &&& self.log2_num_banks < 32
        &&& self.device.log2_num_banks == self.log2_num_banks
    }

    /// The chunk count this partitioner expects of its output relation.
    pub open spec fn spec_expected_chunks(&self) -> u32 {
        spec_chunks_of(self.histogram_algorithm, self.grid_size)
    }

    /// Shared memory demanded by the histogram kernels: one word per
    /// thread, bank-conflict padding, and one word per partition.
    pub open spec fn spec_histogram_shared_bytes(&self) -> int {
        ((self.block_size as int) + ((self.block_size >> self.log2_num_banks) as int)
            + spec_fanout(self.radix_bits) as int) * 4
    }

    /// Fixed shared memory demanded by the selected partition-write
    /// variant. Only the non-caching variant has a fixed demand; the
    /// write-combining variants size their buffers to whatever shared
    /// memory the device offers.
    pub open spec fn spec_write_shared_bytes(&self) -> int {
        match self.partition_algorithm {
            GpuRadixPartitionAlgorithm::NC => spec_fanout(self.radix_bits) as int * 4,
            _ => 0,
        }
    }

    /// True of the hierarchical variants, which stage tuples in tier-2
    /// buffers allocated in device memory.
    pub open spec fn spec_uses_dmem_buffers(&self) -> bool {
        match self.partition_algorithm {
            GpuRadixPartitionAlgorithm::HSSWWC => true,
            GpuRadixPartitionAlgorithm::HSSWWCv2 => true,
            GpuRadixPartitionAlgorithm::HSSWWCv3 => true,
            GpuRadixPartitionAlgorithm::HSSWWCv4 => true,
            _ => false,
        }
    }

    /// Device-memory bytes the call must allocate for tier-2 buffers: the
    /// per-unit budget for every execution unit.
    pub open spec fn spec_dmem_needed(&self) -> int {
        if self.spec_uses_dmem_buffers() {
            (self.dmem_buffer_bytes as int) * (self.grid_size as int)
        } else {
            0
        }
    }

    /// The argument checks of a partitioning call: equally long key and
    /// payload columns, and an output relation whose radix bits, chunk
    /// count and logical length match this configuration.
    pub open spec fn spec_args_compatible<K: GpuRadixPartitionable>(
        &self,
        keys: Seq<K>,
        pays: Seq<K>,
        prel: PartitionedRelation<K>,
    ) -> bool {
        &&& keys.len() == pays.len()
        &&& prel.radix_bits == self.radix_bits
        &&& prel.chunks == self.spec_expected_chunks()
        &&& prel.spec_len() == keys.len()
    }

    /// The platform can run the selected algorithms: the shared-memory
    /// demands fit, and the contiguous histogram has its cooperative
    /// launch.
    pub open spec fn spec_device_supported(&self) -> bool {
        &&& self.spec_histogram_shared_bytes() <= self.device.max_shared_mem_bytes
        &&& self.histogram_algorithm == GpuHistogramAlgorithm::GpuContiguous
            ==> self.device.cooperative_launch
        &&& self.spec_write_shared_bytes() <= self.device.max_shared_mem_bytes
    }

    /// The device-memory budget for tier-2 buffers can be satisfied.
    pub open spec fn spec_dmem_available(&self) -> bool {
        self.spec_dmem_needed() <= self.device.total_dmem_bytes
    }

    /// Creates a new GPU radix partitioner.
    ///
    /// Sizes the transient device state from the fanout and the execution
    /// geometry; fails with `AllocationFailure` when that state cannot be
    /// addressed on this machine.
    pub fn new(
        histogram_algorithm: GpuHistogramAlgorithm,
        partition_algorithm: GpuRadixPartitionAlgorithm,
        radix_bits: u32,
        grid_size: u32,
        block_size: u32,
        dmem_buffer_bytes: usize,
        device: DeviceConfig,
    ) -> (r: Result<GpuRadixPartitioner, ErrorKind>)
        requires
            radix_bits <= MAX_RADIX_BITS,
            1 <= grid_size,
            1 <= block_size,
            device.log2_num_banks < 32,
        ensures
            match r {
                Ok(rp) => {
                    &&& spec_fanout(radix_bits) * grid_size * block_size <= usize::MAX
                    &&& rp.wf()
                    &&& rp.radix_bits == radix_bits
                    &&& rp.log2_num_banks == device.log2_num_banks
                    &&& rp.histogram_algorithm == histogram_algorithm
                    &&& rp.partition_algorithm == partition_algorithm
                    &&& rp.grid_size == grid_size
                    &&& rp.block_size == block_size
                    &&& rp.dmem_buffer_bytes == dmem_buffer_bytes
                    &&& rp.device == device
                    &&& (histogram_algorithm == GpuHistogramAlgorithm::GpuChunked ==> (
                        rp.state matches RadixPartitionState::GpuChunked(t) && t@.len()
                            == spec_fanout(radix_bits) * grid_size * block_size
                            && t.spec_mem_type() == MemType::CudaDevMem))
                    &&& (histogram_algorithm == GpuHistogramAlgorithm::GpuContiguous ==> (
                        rp.state matches RadixPartitionState::GpuContiguous(s, t) && s@.len()
                            == grid_size && t@.len() == spec_fanout(radix_bits) * grid_size
                            * block_size && s.spec_mem_type() == MemType::CudaDevMem
                            && t.spec_mem_type() == MemType::CudaDevMem))
                },
                Err(e) => {
                    &&& e matches ErrorKind::AllocationFailure(_)
                    &&& spec_fanout(radix_bits) * grid_size * block_size > usize::MAX
                },
            },
    {
        let fan: usize = fanout(radix_bits);
        proof {
            vstd::arithmetic::mul::lemma_mul_upper_bound(fan as int, 0x8000_0000int,
                grid_size as int, 0xffff_ffffint);
            vstd::arithmetic::mul::lemma_mul_nonnegative(fan as int, grid_size as int);
            vstd::arithmetic::mul::lemma_mul_upper_bound((fan as int) * (grid_size as int),
                0x8000_0000_0000_0000int, block_size as int, 0xffff_ffffint);
            vstd::arithmetic::mul::lemma_mul_nonnegative((fan as int) * (grid_size as int),
                block_size as int);
        }
        let tmp_offsets_len128: u128 = (fan as u128) * (grid_size as u128)
            * (block_size as u128);
        if tmp_offsets_len128 > (usize::MAX as u128) {
            return Err(
                ErrorKind::AllocationFailure(
                    "Failed to allocate the partition offsets state".to_string(),
                ),
            );
        }
        let tmp_offsets_len: usize = tmp_offsets_len128 as usize;
        // The prefix-scan workspace holds one partial sum per execution
        // unit.
        let prefix_scan_state_len: usize = grid_size as usize;

        let state: RadixPartitionState = match histogram_algorithm {
            GpuHistogramAlgorithm::GpuChunked => RadixPartitionState::GpuChunked(
                Mem::allocate(MemType::CudaDevMem, tmp_offsets_len, 0u32),
            ),
            GpuHistogramAlgorithm::GpuContiguous => RadixPartitionState::GpuContiguous(
                Mem::allocate(MemType::CudaDevMem, prefix_scan_state_len, 0u32),
                Mem::allocate(MemType::CudaDevMem, tmp_offsets_len, 0u32),
            ),
        };

        Ok(
            GpuRadixPartitioner {
                radix_bits,
                log2_num_banks: device.log2_num_banks,
                histogram_algorithm,
                partition_algorithm,
                state,
                grid_size,
                block_size,
                dmem_buffer_bytes,
                device,
            },
        )
    }

    /// Radix-partitions a relation by its key attribute.
    ///
    /// Checks the arguments and the platform before any work is done, so
    /// that a failing call leaves the output untouched; on success the
    /// offsets table and every bucket of `partitioned_relation` hold
    /// exactly the partitioning of the input columns.
    pub fn partition<T: GpuRadixPartitionable>(
        &mut self,
        partition_attr: &[T],
        payload_attr: &[T],
        partitioned_relation: &mut PartitionedRelation<T>,
    ) -> (r: Result<(), ErrorKind>)
        requires
            old(self).wf(),
            old(partitioned_relation).wf(),
        ensures
            *final(self) == *old(self),
            (r is Ok) <==> (old(self).spec_args_compatible(
                partition_attr@,
                payload_attr@,
                *old(partitioned_relation),
            ) && old(self).spec_device_supported() && old(self).spec_dmem_available()),
            match r {
                Ok(()) => {
                    &&& old(self).spec_args_compatible(
                        partition_attr@,
                        payload_attr@,
                        *old(partitioned_relation),
                    )
                    &&& old(self).spec_device_supported()
                    &&& old(self).spec_dmem_available()
                    &&& spec_partition_output(
                        partition_attr@,
                        payload_attr@,
                        *old(partitioned_relation),
                        *final(partitioned_relation),
                    )
                    &&& final(partitioned_relation).wf()
                    &&& final(partitioned_relation).offsets_wf()
                },
                Err(e) => {
                    &&& *final(partitioned_relation) == *old(partitioned_relation)
                    &&& ((e matches ErrorKind::InvalidArgument(_)) <==> !old(
                        self,
                    ).spec_args_compatible(
                        partition_attr@,
                        payload_attr@,
                        *old(partitioned_relation),
                    ))
                    &&& ((e matches ErrorKind::DeviceCapability(_)) <==> (old(
                        self,
                    ).spec_args_compatible(
                        partition_attr@,
                        payload_attr@,
                        *old(partitioned_relation),
                    ) && !old(self).spec_device_supported()))
                    &&& ((e matches ErrorKind::AllocationFailure(_)) <==> (old(
                        self,
                    ).spec_args_compatible(
                        partition_attr@,
                        payload_attr@,
                        *old(partitioned_relation),
                    ) && old(self).spec_device_supported() && !old(self).spec_dmem_available()))
                },
            },
    {
        let ghost ts = tuple_seq(partition_attr@, payload_attr@);

        if partition_attr.len() != payload_attr.len() {
            return Err(
                ErrorKind::InvalidArgument(
                    "Partition and payload attributes have different sizes".to_string(),
                ),
            );
        }
        if partitioned_relation.radix_bits != self.radix_bits {
            return Err(
                ErrorKind::InvalidArgument(
                    "PartitionedRelation has mismatching radix bits".to_string(),
                ),
            );
        }
        let expected_chunks: u32 = match self.histogram_algorithm {
            GpuHistogramAlgorithm::GpuChunked => self.grid_size,
            GpuHistogramAlgorithm::GpuContiguous => 1,
        };
        if partitioned_relation.chunks != expected_chunks {
            return Err(
                ErrorKind::InvalidArgument(
                    "PartitionedRelation has mismatching number of chunks".to_string(),
                ),
            );
        }
        if partitioned_relation.len() != partition_attr.len() {
            return Err(
                ErrorKind::InvalidArgument(
                    "PartitionedRelation has mismatching size".to_string(),
                ),
            );
        }

        let fan: usize = fanout(self.radix_bits);
        let hist_shared_bytes: u64 = ((self.block_size as u64) + ((self.block_size
            >> self.log2_num_banks) as u64) + (fan as u64)) * 4;
        if hist_shared_bytes > (self.device.max_shared_mem_bytes as u64) {
            return Err(
                ErrorKind::DeviceCapability("Failed to allocate enough shared memory".to_string()),
            );
        }
        match self.histogram_algorithm {
            GpuHistogramAlgorithm::GpuChunked => {},
            GpuHistogramAlgorithm::GpuContiguous => {
                if !self.device.cooperative_launch {
                    return Err(
                        ErrorKind::DeviceCapability(
                            "The device does not support cooperative launch".to_string(),
                        ),
                    );
                }
            },
        }
        let write_shared_bytes: u64 = match self.partition_algorithm {
            GpuRadixPartitionAlgorithm::NC => (fan as u64) * 4,
            _ => 0,
        };
        if write_shared_bytes > (self.device.max_shared_mem_bytes as u64) {
            return Err(
                ErrorKind::DeviceCapability("Failed to allocate enough shared memory".to_string()),
            );
        }
        let uses_dmem: bool = match self.partition_algorithm {
            GpuRadixPartitionAlgorithm::HSSWWC => true,
            GpuRadixPartitionAlgorithm::HSSWWCv2 => true,
            GpuRadixPartitionAlgorithm::HSSWWCv3 => true,
            GpuRadixPartitionAlgorithm::HSSWWCv4 => true,
            _ => false,
        };
        if uses_dmem {
            proof {
                vstd::arithmetic::mul::lemma_mul_upper_bound(self.dmem_buffer_bytes as int,
                    u64::MAX as int, self.grid_size as int, u32::MAX as int);
                vstd::arithmetic::mul::lemma_mul_nonnegative(self.dmem_buffer_bytes as int,
                    self.grid_size as int);
            }
            let needed: u128 = (self.dmem_buffer_bytes as u128) * (self.grid_size as u128);
            if needed > (self.device.total_dmem_bytes as u128) {
                return Err(
                    ErrorKind::AllocationFailure(
                        "Failed to allocate the device memory buffers".to_string(),
                    ),
                );
            }
        }

        let chunks: u32 = partitioned_relation.chunks;
        let radix_bits: u32 = self.radix_bits;
        let pad: u32 = partitioned_relation.padding_len();
        let nbuckets: usize = partitioned_relation.offsets.len();
        proof {
            assert(nbuckets == chunks * spec_fanout(radix_bits));
        }

        let counts: Vec<usize> = compute_histogram(partition_attr, payload_attr, chunks,
            radix_bits);
        proof {
            // The offsets stay within the output buffer's length plus one
            // final padding region, which fits in 64 bits.
            vstd::arithmetic::mul::lemma_mul_is_distributive_add_other_way(pad as int,
                (chunks * spec_fanout(radix_bits)) as int, 1);
            vstd::arithmetic::mul::lemma_mul_basics(pad as int);
        }
        let offs: Vec<u64> = compute_offsets::<T>(&counts, chunks, radix_bits, pad, Ghost(ts));

        let mut j: usize = 0;
        while j < nbuckets
            invariant
                j <= nbuckets,
                offs@.len() == nbuckets,
                partitioned_relation.offsets@.len() == nbuckets,
                forall|q: int|
                    0 <= q < j ==> partitioned_relation.offsets@[q] == offs@[q],
                partitioned_relation.offsets.spec_mem_type() == old(
                    partitioned_relation,
                ).offsets.spec_mem_type(),
                partitioned_relation.relation == old(partitioned_relation).relation,
                partitioned_relation.chunks == old(partitioned_relation).chunks,
                partitioned_relation.radix_bits == old(partitioned_relation).radix_bits,
            decreases nbuckets - j,
        {
            let v: u64 = offs[j];
            partitioned_relation.offsets.write(j, v);
            j = j + 1;
        }

        // Dispatch the partition-write variant. The non-caching variant
        // writes tuples straight to the output; the software
        // write-combining variants stage them in bounded buffers sized by
        // the shared-memory budget, and the hierarchical variants by the
        // device-memory buffer budget. Every variant produces the same
        // partition assignment.
        let write_buffer_budget: Option<usize> = match self.partition_algorithm {
            GpuRadixPartitionAlgorithm::NC => None,
            GpuRadixPartitionAlgorithm::LASWWC => Some(
                self.device.max_shared_mem_bytes as usize,
            ),
            GpuRadixPartitionAlgorithm::SSWWC => Some(self.device.max_shared_mem_bytes as usize),
            GpuRadixPartitionAlgorithm::SSWWCNT => Some(
                self.device.max_shared_mem_bytes as usize,
            ),
            GpuRadixPartitionAlgorithm::SSWWCv2 => Some(
                self.device.max_shared_mem_bytes as usize,
            ),
            GpuRadixPartitionAlgorithm::HSSWWC => Some(self.dmem_buffer_bytes),
            GpuRadixPartitionAlgorithm::HSSWWCv2 => Some(self.dmem_buffer_bytes),
            GpuRadixPartitionAlgorithm::HSSWWCv3 => Some(self.dmem_buffer_bytes),
            GpuRadixPartitionAlgorithm::HSSWWCv4 => Some(self.dmem_buffer_bytes),
        };
        match write_buffer_budget {
            None => {
                write_partitions(partition_attr, payload_attr, &offs, chunks, radix_bits, pad,
                    &mut partitioned_relation.relation);
            },
            Some(budget) => {
                let tuple_bytes: u32 = 2 * T::key_bytes();
                let per_partition: usize = (budget / (tuple_bytes as usize)) / fan;
                proof {
                    vstd::arithmetic::div_mod::lemma_fundamental_div_mod(
                        (budget / (tuple_bytes as usize)) as int, fan as int);
                    vstd::arithmetic::div_mod::lemma_mod_bound(
                        (budget / (tuple_bytes as usize)) as int, fan as int);
                    vstd::arithmetic::div_mod::lemma_div_pos_is_pos(
                        (budget / (tuple_bytes as usize)) as int, fan as int);
                    vstd::arithmetic::mul::lemma_mul_is_commutative(fan as int,
                        per_partition as int);
                }
                let buffer_tuples: usize = if per_partition < 1 {
                    1
                } else {
                    per_partition
                };
                write_partitions_buffered(partition_attr, payload_attr, &offs, chunks, radix_bits,
                    pad, buffer_tuples, &mut partitioned_relation.relation);
            },
        }

        proof {
            let chunks_i = chunks as int;
            let pad_i = pad as int;
            let nb = nbuckets as int;
            lemma_off_total::<T>(ts, chunks_i, radix_bits, pad_i);
            assert forall|j1: int, j2: int|
                0 <= j1 <= j2 < nb implies #[trigger] partitioned_relation.offsets@[j1]
                <= #[trigger] partitioned_relation.offsets@[j2] by {
                lemma_off_mono(ts, chunks_i, radix_bits, pad_i, j1, j2);
                assert(partitioned_relation.offsets@[j1] == offs@[j1]);
                assert(partitioned_relation.offsets@[j2] == offs@[j2]);
            }
            assert forall|q: int|
                0 <= q < nb - 1 implies #[trigger] partitioned_relation.offsets@[q]
                + spec_padding_len::<T>() <= partitioned_relation.offsets@[q + 1] by {
                lemma_off_ge_pad(ts, chunks_i, radix_bits, pad_i, q);
                assert(partitioned_relation.offsets@[q] == offs@[q]);
                assert(partitioned_relation.offsets@[q + 1] == offs@[q + 1]);
                assert(off_spec(ts, chunks_i, radix_bits, pad_i, q + 1) == off_spec(ts, chunks_i,
                    radix_bits, pad_i, q) + bucket_count(ts, chunks_i, radix_bits, q) + pad_i);
            }
            if nb > 0 {
                lemma_off_regions_disjoint(ts, chunks_i, radix_bits, pad_i, nb - 1, nb);
            }
            assert forall|q: int|
                0 <= q < nb implies partitioned_relation.offsets@[q] == #[trigger] off_spec(
                ts,
                chunks_i,
                radix_bits,
                pad_i,
                q,
            ) by {
                assert(partitioned_relation.offsets@[q] == offs@[q]);
                assert(offs@[q] == off_spec(ts, chunks_i, radix_bits, pad_i, q));
            }
        }

        Ok(())
    }
}

} // verus!
