//! Targeted checks of the partitioning operator's surface: the
//! fanout/padding arithmetic, the error taxonomy, capability gating,
//! repeated and cross-variant runs, and one fully concrete scenario.

use radix_partition::error::ErrorKind;
use radix_partition::gpu_radix_partition::{DeviceConfig, GpuHistogramAlgorithm,
    GpuRadixPartitionAlgorithm, GpuRadixPartitioner, PartitionedRelation, PADDING_BYTES};
use radix_partition::memory::{DerefMem, Mem, MemType};
use radix_partition::radix::{fanout, GpuRadixPartitionable, RadixBits, RadixPass, Tuple};

fn test_device() -> DeviceConfig {
    DeviceConfig {
        cooperative_launch: true,
        max_shared_mem_bytes: 96 * 1024,
        total_dmem_bytes: 1 << 30,
        log2_num_banks: 5,
    }
}

struct Lcg(u64);

impl Lcg {
    fn next_u64(&mut self) -> u64 {
        self.0 = self
            .0
            .wrapping_mul(6364136223846793005)
            .wrapping_add(1442695040888963407);
        self.0 >> 16
    }

    fn below(&mut self, n: u64) -> u64 {
        self.next_u64() % n
    }
}

fn partition_once(
    keys: &[i32],
    pays: &[i32],
    histogram_algorithm: GpuHistogramAlgorithm,
    partition_algorithm: GpuRadixPartitionAlgorithm,
    radix_bits: u32,
    grid_size: u32,
) -> PartitionedRelation<i32> {
    let mut partitioned_relation = PartitionedRelation::<i32>::new(
        keys.len(),
        histogram_algorithm,
        radix_bits,
        grid_size,
        MemType::SysMem,
        MemType::SysMem,
    );
    let mut partitioner = GpuRadixPartitioner::new(
        histogram_algorithm,
        partition_algorithm,
        radix_bits,
        grid_size,
        128,
        2 * 1024 * 1024,
        test_device(),
    )
    .unwrap();
    partitioner
        .partition(keys, pays, &mut partitioned_relation)
        .unwrap();
    partitioned_relation
}

#[test]
fn fanout_is_a_power_of_two() {
    assert_eq!(fanout(0), 1);
    assert_eq!(fanout(2), 4);
    assert_eq!(fanout(10), 1024);
    assert_eq!(fanout(12), 4096);
    assert_eq!(fanout(31), 0x8000_0000);
}

#[test]
fn padding_matches_the_key_width() {
    let r32 = PartitionedRelation::<i32>::new(
        8,
        GpuHistogramAlgorithm::GpuChunked,
        2,
        1,
        MemType::SysMem,
        MemType::SysMem,
    );
    assert_eq!(PADDING_BYTES, 128);
    assert_eq!(r32.padding_len(), 16);
    let r64 = PartitionedRelation::<i64>::new(
        8,
        GpuHistogramAlgorithm::GpuChunked,
        2,
        1,
        MemType::SysMem,
        MemType::SysMem,
    );
    assert_eq!(r64.padding_len(), 8);
}

#[test]
fn partition_index_takes_the_low_key_bits() {
    assert_eq!(5i32.partition_index(2), 1);
    assert_eq!(5i64.partition_index(2), 1);
    assert_eq!(1023i32.partition_index(10), 1023);
    assert_eq!(1024i32.partition_index(10), 0);
    // Negative keys partition by their two's-complement low bits.
    assert_eq!((-1i32).partition_index(4), 15);
    assert_eq!((-2i64).partition_index(4), 14);
}

/// The concrete scenario: 100 uniformly distributed 32-bit keys over
/// [1, 2^25], two radix bits, the non-caching variant, the chunked
/// histogram, grid size 4.
#[test]
fn hundred_keys_two_radix_bits_concrete_scenario() {
    let tuples = 100usize;
    let radix_bits = 2u32;
    let grid_size = 4u32;
    let mut lcg = Lcg(0xfeed_5eed_0001_0002);
    let keys: Vec<i32> = (0..tuples).map(|_| (1 + lcg.below(1 << 25)) as i32).collect();
    let pays: Vec<i32> = (0..tuples).map(|_| (1 + lcg.below(10000)) as i32).collect();

    let rel = partition_once(
        &keys,
        &pays,
        GpuHistogramAlgorithm::GpuChunked,
        GpuRadixPartitionAlgorithm::NC,
        radix_bits,
        grid_size,
    );

    // Output container length: the logical tuples plus padding for every
    // one of the 4 * 4 buckets.
    let padding_len = rel.padding_len() as usize;
    assert_eq!(rel.len(), 100);
    assert_eq!(rel.relation.len(), 100 + 4 * 4 * padding_len);

    // Exactly 100 non-padding tuples are recovered, each in the partition
    // named by the low two bits of its key.
    let mut recovered = 0usize;
    for c in 0..rel.chunks() as usize {
        for p in 0..rel.partitions() {
            let bucket = rel.index((c, p)).unwrap();
            for t in bucket.iter() {
                assert_eq!((t.key as usize) & 3, p);
                recovered += 1;
            }
        }
    }
    assert_eq!(recovered, 100);
}

/// The offsets follow the padded exclusive prefix sum of the histogram,
/// and each bucket keeps its tuples in input order.
#[test]
fn offsets_follow_the_padded_prefix_sum() {
    let keys: Vec<i32> = vec![0, 1, 0, 1];
    let pays: Vec<i32> = vec![10, 11, 12, 13];
    let rel = partition_once(
        &keys,
        &pays,
        GpuHistogramAlgorithm::GpuChunked,
        GpuRadixPartitionAlgorithm::NC,
        1,
        1,
    );
    // One chunk, two partitions, 16 padding elements per bucket:
    // bucket 0 starts at 16, bucket 1 at 16 + 2 + 16 = 34.
    assert_eq!(rel.offsets.try_as_slice().unwrap(), &[16u64, 34u64]);
    let bucket0 = rel.index((0, 0)).unwrap();
    assert_eq!(bucket0.len(), 2);
    assert_eq!((bucket0[0].key, bucket0[0].value), (0, 10));
    assert_eq!((bucket0[1].key, bucket0[1].value), (0, 12));
    let bucket1 = rel.index((0, 1)).unwrap();
    assert_eq!(bucket1.len(), 2);
    assert_eq!((bucket1[0].key, bucket1[0].value), (1, 11));
    assert_eq!((bucket1[1].key, bucket1[1].value), (1, 13));
}

/// Offset monotonicity over the flat (chunk, partition) index.
#[test]
fn offsets_grow_monotonically() {
    let mut lcg = Lcg(0xbead_cafe_1234_5678);
    let keys: Vec<i32> = (0..4321).map(|_| (1 + lcg.below(1 << 20)) as i32).collect();
    let pays: Vec<i32> = (0..4321).map(|_| (1 + lcg.below(10000)) as i32).collect();
    let rel = partition_once(
        &keys,
        &pays,
        GpuHistogramAlgorithm::GpuChunked,
        GpuRadixPartitionAlgorithm::NC,
        10,
        3,
    );
    let offsets = rel.offsets.try_as_slice().unwrap();
    for j in 1..offsets.len() {
        assert!(offsets[j - 1] <= offsets[j]);
    }
}

/// Reusing one partitioner for repeated calls over equivalent fresh
/// buffers produces the same correct result both times.
#[test]
fn repeated_partitioning_is_idempotent() {
    let mut lcg = Lcg(0x0123_4567_89ab_cdef);
    let tuples = 3000usize;
    let keys: Vec<i32> = (0..tuples).map(|_| (1 + lcg.below(1 << 22)) as i32).collect();
    let pays: Vec<i32> = (0..tuples).map(|_| (1 + lcg.below(10000)) as i32).collect();

    let mut partitioner = GpuRadixPartitioner::new(
        GpuHistogramAlgorithm::GpuChunked,
        GpuRadixPartitionAlgorithm::NC,
        10,
        4,
        128,
        2 * 1024 * 1024,
        test_device(),
    )
    .unwrap();

    let mut first = PartitionedRelation::<i32>::new(
        tuples,
        GpuHistogramAlgorithm::GpuChunked,
        10,
        4,
        MemType::SysMem,
        MemType::SysMem,
    );
    let mut second = PartitionedRelation::<i32>::new(
        tuples,
        GpuHistogramAlgorithm::GpuChunked,
        10,
        4,
        MemType::SysMem,
        MemType::SysMem,
    );
    partitioner.partition(&keys, &pays, &mut first).unwrap();
    partitioner.partition(&keys, &pays, &mut second).unwrap();

    assert_eq!(
        first.offsets.try_as_slice().unwrap(),
        second.offsets.try_as_slice().unwrap()
    );
    assert_eq!(
        first.relation.try_as_slice().unwrap(),
        second.relation.try_as_slice().unwrap()
    );
}

/// For a fixed input and radix-bit count, every partition-write variant
/// produces the same partition assignment.
#[test]
fn all_variants_agree_on_the_partition_assignment() {
    let mut lcg = Lcg(0x5151_a0a0_3b3b_9c9c);
    let tuples = 2500usize;
    let keys: Vec<i32> = (0..tuples).map(|_| (1 + lcg.below(1 << 22)) as i32).collect();
    let pays: Vec<i32> = (0..tuples).map(|_| (1 + lcg.below(10000)) as i32).collect();

    let variants = [
        GpuRadixPartitionAlgorithm::NC,
        GpuRadixPartitionAlgorithm::LASWWC,
        GpuRadixPartitionAlgorithm::SSWWC,
        GpuRadixPartitionAlgorithm::SSWWCNT,
        GpuRadixPartitionAlgorithm::SSWWCv2,
        GpuRadixPartitionAlgorithm::HSSWWC,
        GpuRadixPartitionAlgorithm::HSSWWCv2,
        GpuRadixPartitionAlgorithm::HSSWWCv3,
        GpuRadixPartitionAlgorithm::HSSWWCv4,
    ];
    let baseline = partition_once(
        &keys,
        &pays,
        GpuHistogramAlgorithm::GpuChunked,
        variants[0],
        10,
        2,
    );
    for &variant in variants.iter().skip(1) {
        let other = partition_once(
            &keys,
            &pays,
            GpuHistogramAlgorithm::GpuChunked,
            variant,
            10,
            2,
        );
        assert_eq!(
            baseline.offsets.try_as_slice().unwrap(),
            other.offsets.try_as_slice().unwrap()
        );
        assert_eq!(
            baseline.relation.try_as_slice().unwrap(),
            other.relation.try_as_slice().unwrap()
        );
    }
}

/// The contiguous histogram algorithm on a platform without cooperative
/// launch yields `DeviceCapability`, never a wrong answer.
#[test]
fn contiguous_without_cooperative_launch_is_gated() {
    let device = DeviceConfig {
        cooperative_launch: false,
        ..test_device()
    };
    let keys: Vec<i32> = vec![1, 2, 3, 4];
    let pays: Vec<i32> = vec![5, 6, 7, 8];
    let mut rel = PartitionedRelation::<i32>::new(
        4,
        GpuHistogramAlgorithm::GpuContiguous,
        2,
        1,
        MemType::SysMem,
        MemType::SysMem,
    );
    let mut partitioner = GpuRadixPartitioner::new(
        GpuHistogramAlgorithm::GpuContiguous,
        GpuRadixPartitionAlgorithm::NC,
        2,
        1,
        128,
        2 * 1024 * 1024,
        device,
    )
    .unwrap();
    let r = partitioner.partition(&keys, &pays, &mut rel);
    match r {
        Err(e) => assert!(e.is_device_capability(), "unexpected error: {:?}", e),
        Ok(()) => panic!("partitioning must fail without cooperative launch"),
    }
    // The output is untouched by a failing call.
    assert!(rel.relation.try_as_slice().unwrap().iter().all(|t| t.key == 0));
}

#[test]
fn mismatching_column_lengths_are_rejected() {
    let keys: Vec<i32> = vec![1, 2, 3];
    let pays: Vec<i32> = vec![4, 5];
    let mut rel = PartitionedRelation::<i32>::new(
        3,
        GpuHistogramAlgorithm::GpuChunked,
        2,
        1,
        MemType::SysMem,
        MemType::SysMem,
    );
    let mut partitioner = GpuRadixPartitioner::new(
        GpuHistogramAlgorithm::GpuChunked,
        GpuRadixPartitionAlgorithm::NC,
        2,
        1,
        128,
        2 * 1024 * 1024,
        test_device(),
    )
    .unwrap();
    let r = partitioner.partition(&keys, &pays, &mut rel);
    assert!(matches!(r, Err(ErrorKind::InvalidArgument(_))));
}

#[test]
fn mismatching_radix_bits_are_rejected() {
    let keys: Vec<i32> = vec![1, 2, 3];
    let pays: Vec<i32> = vec![4, 5, 6];
    let mut rel = PartitionedRelation::<i32>::new(
        3,
        GpuHistogramAlgorithm::GpuChunked,
        4,
        1,
        MemType::SysMem,
        MemType::SysMem,
    );
    let mut partitioner = GpuRadixPartitioner::new(
        GpuHistogramAlgorithm::GpuChunked,
        GpuRadixPartitionAlgorithm::NC,
        2,
        1,
        128,
        2 * 1024 * 1024,
        test_device(),
    )
    .unwrap();
    let r = partitioner.partition(&keys, &pays, &mut rel);
    assert!(matches!(r, Err(ErrorKind::InvalidArgument(_))));
}

#[test]
fn mismatching_chunk_count_is_rejected() {
    let keys: Vec<i32> = vec![1, 2, 3];
    let pays: Vec<i32> = vec![4, 5, 6];
    // Built for a grid of 2 chunks, but the partitioner expects 4.
    let mut rel = PartitionedRelation::<i32>::new(
        3,
        GpuHistogramAlgorithm::GpuChunked,
        2,
        2,
        MemType::SysMem,
        MemType::SysMem,
    );
    let mut partitioner = GpuRadixPartitioner::new(
        GpuHistogramAlgorithm::GpuChunked,
        GpuRadixPartitionAlgorithm::NC,
        2,
        4,
        128,
        2 * 1024 * 1024,
        test_device(),
    )
    .unwrap();
    let r = partitioner.partition(&keys, &pays, &mut rel);
    assert!(matches!(r, Err(ErrorKind::InvalidArgument(_))));
}

#[test]
fn undersized_shared_memory_is_gated() {
    let device = DeviceConfig {
        max_shared_mem_bytes: 64,
        ..test_device()
    };
    let keys: Vec<i32> = vec![1, 2, 3];
    let pays: Vec<i32> = vec![4, 5, 6];
    let mut rel = PartitionedRelation::<i32>::new(
        3,
        GpuHistogramAlgorithm::GpuChunked,
        10,
        1,
        MemType::SysMem,
        MemType::SysMem,
    );
    let mut partitioner = GpuRadixPartitioner::new(
        GpuHistogramAlgorithm::GpuChunked,
        GpuRadixPartitionAlgorithm::NC,
        10,
        1,
        128,
        2 * 1024 * 1024,
        device,
    )
    .unwrap();
    let r = partitioner.partition(&keys, &pays, &mut rel);
    assert!(matches!(r, Err(ErrorKind::DeviceCapability(_))));
}

#[test]
fn oversized_dmem_buffers_fail_allocation() {
    let device = DeviceConfig {
        total_dmem_bytes: 1024,
        ..test_device()
    };
    let keys: Vec<i32> = vec![1, 2, 3];
    let pays: Vec<i32> = vec![4, 5, 6];
    let mut rel = PartitionedRelation::<i32>::new(
        3,
        GpuHistogramAlgorithm::GpuChunked,
        2,
        1,
        MemType::SysMem,
        MemType::SysMem,
    );
    let mut partitioner = GpuRadixPartitioner::new(
        GpuHistogramAlgorithm::GpuChunked,
        GpuRadixPartitionAlgorithm::HSSWWC,
        2,
        1,
        128,
        2 * 1024 * 1024,
        device,
    )
    .unwrap();
    let r = partitioner.partition(&keys, &pays, &mut rel);
    assert!(matches!(r, Err(ErrorKind::AllocationFailure(_))));
}

#[test]
fn unaddressable_state_fails_allocation_at_construction() {
    // The per-block offsets state would need fanout * grid * block words,
    // which cannot be addressed on this machine.
    let r = GpuRadixPartitioner::new(
        GpuHistogramAlgorithm::GpuChunked,
        GpuRadixPartitionAlgorithm::NC,
        31,
        u32::MAX,
        u32::MAX,
        2 * 1024 * 1024,
        test_device(),
    );
    assert!(matches!(r, Err(ErrorKind::AllocationFailure(_))));
}

#[test]
fn error_messages_name_their_cause() {
    let e = ErrorKind::InvalidArgument("bad argument".to_string());
    assert!(e.is_invalid_argument());
    assert!(!e.is_device_capability());
    assert_eq!(e.message(), "bad argument");
    let e = ErrorKind::DeviceCapability("missing feature".to_string());
    assert!(e.is_device_capability());
    let e = ErrorKind::AllocationFailure("out of memory".to_string());
    assert!(e.is_allocation_failure());
    let e = ErrorKind::ExecutionFailure("kernel fault".to_string());
    assert_eq!(e.message(), "kernel fault");
}

#[test]
fn device_memory_cannot_be_indexed_from_the_host() {
    let keys: Vec<i32> = vec![1, 2, 3, 4];
    let pays: Vec<i32> = vec![5, 6, 7, 8];
    let mut rel = PartitionedRelation::<i32>::new(
        4,
        GpuHistogramAlgorithm::GpuChunked,
        2,
        1,
        MemType::CudaDevMem,
        MemType::SysMem,
    );
    let mut partitioner = GpuRadixPartitioner::new(
        GpuHistogramAlgorithm::GpuChunked,
        GpuRadixPartitionAlgorithm::NC,
        2,
        1,
        128,
        2 * 1024 * 1024,
        test_device(),
    )
    .unwrap();
    partitioner.partition(&keys, &pays, &mut rel).unwrap();
    let r = rel.index((0, 1));
    assert!(matches!(r, Err(ErrorKind::InvalidArgument(_))));
}

#[test]
fn mem_reports_length_and_backing_type() {
    let m: Mem<i32> = Mem::SysMem(vec![1, 2, 3]);
    assert_eq!(m.len(), 3);
    assert_eq!(m.as_any(), MemType::SysMem);
    assert!(m.try_as_slice().is_some());
    let d: Mem<i32> = Mem::CudaDevMem(vec![1, 2, 3]);
    assert_eq!(d.as_any(), MemType::CudaDevMem);
    assert!(d.try_as_slice().is_none());
    let u: Mem<i32> = Mem::CudaUniMem(vec![7]);
    assert_eq!(u.as_any(), MemType::CudaUniMem);
    assert_eq!(u.try_as_slice().unwrap(), &[7]);
}

#[test]
fn deref_mem_converts_into_mem() {
    let d: DerefMem<i32> = DerefMem::SysMem(vec![1, 2]);
    assert_eq!(d.deref(), &[1, 2]);
    let m: Mem<i32> = Mem::from(d);
    assert_eq!(m.as_any(), MemType::SysMem);
    assert_eq!(m.len(), 2);
    let d: DerefMem<i32> = DerefMem::CudaUniMem(vec![3]);
    let m: Mem<i32> = Mem::from(d);
    assert_eq!(m.as_any(), MemType::CudaUniMem);
}

#[test]
fn radix_bits_carry_up_to_three_passes() {
    let rb = RadixBits::from_list(&vec![8, 8]).unwrap();
    assert_eq!(rb.pass_radix_bits(RadixPass::First), Some(8));
    assert_eq!(rb.pass_radix_bits(RadixPass::Second), Some(8));
    assert_eq!(rb.pass_radix_bits(RadixPass::Third), None);
    assert!(RadixBits::from_list(&vec![]).is_err());
    assert!(RadixBits::from_list(&vec![1, 2, 3, 4]).is_err());
    let rb = RadixBits::from_list(&vec![6, 6, 4]).unwrap();
    assert_eq!(rb.pass_radix_bits(RadixPass::Third), Some(4));
}

#[test]
fn i64_relations_partition_too() {
    let keys: Vec<i64> = vec![1, 2, 3, 4, 5, 6, 7, 8, 9, 10, 11, 12];
    let pays: Vec<i64> = keys.iter().map(|k| k * 100).collect();
    let mut rel = PartitionedRelation::<i64>::new(
        keys.len(),
        GpuHistogramAlgorithm::GpuChunked,
        2,
        2,
        MemType::SysMem,
        MemType::SysMem,
    );
    let mut partitioner = GpuRadixPartitioner::new(
        GpuHistogramAlgorithm::GpuChunked,
        GpuRadixPartitionAlgorithm::NC,
        2,
        2,
        128,
        2 * 1024 * 1024,
        test_device(),
    )
    .unwrap();
    partitioner.partition(&keys, &pays, &mut rel).unwrap();
    let mut seen = 0usize;
    for c in 0..rel.chunks() as usize {
        for p in 0..rel.partitions() {
            for t in rel.index((c, p)).unwrap().iter() {
                assert_eq!((t.key as usize) & 3, p);
                assert_eq!(t.value, t.key * 100);
                seen += 1;
            }
        }
    }
    assert_eq!(seen, keys.len());
}

#[test]
fn tuples_pair_keys_with_payloads() {
    let t = Tuple { key: 3i32, value: 17i32 };
    assert_eq!(t.key, 3);
    assert_eq!(t.value, 17);
    assert_eq!(t, Tuple { key: 3, value: 17 });
}
