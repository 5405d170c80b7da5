//! The partitioning operator, exercised end to end: every (chunk,
//! partition) bucket of the output must hold exactly the input tuples of
//! its partition -- no loss, no duplication -- for every histogram
//! algorithm, partition-write variant, radix-bit count and input size.

use radix_partition::gpu_radix_partition::{DeviceConfig, GpuHistogramAlgorithm,
    GpuRadixPartitionAlgorithm, GpuRadixPartitioner, PartitionedRelation};
use radix_partition::memory::MemType;
use radix_partition::radix::fanout;

const PAYLOAD_RANGE_MAX: u64 = 10000;
const DMEM_BUFFER_BYTES: usize = 2 * 1024 * 1024;

fn test_device() -> DeviceConfig {
    DeviceConfig {
        cooperative_launch: true,
        max_shared_mem_bytes: 96 * 1024,
        total_dmem_bytes: 1 << 30,
        log2_num_banks: 5,
    }
}

struct Lcg(u64);

impl Lcg {
    fn next_u64(&mut self) -> u64 {
        self.0 = self
            .0
            .wrapping_mul(6364136223846793005)
            .wrapping_add(1442695040888963407);
        self.0 >> 16
    }

    fn below(&mut self, n: u64) -> u64 {
        self.next_u64() % n
    }
}

/// Generates a primary-key column: the keys 1..=len in random order.
fn gen_primary_key(len: usize, lcg: &mut Lcg) -> Vec<i32> {
    let mut keys: Vec<i32> = (1..=len as i32).collect();
    for i in (1..len).rev() {
        let j = lcg.below(i as u64 + 1) as usize;
        keys.swap(i, j);
    }
    keys
}

/// Generates an attribute column with values drawn uniformly from
/// [1, upper].
fn gen_attr(len: usize, upper: u64, lcg: &mut Lcg) -> Vec<i32> {
    (0..len).map(|_| (1 + lcg.below(upper)) as i32).collect()
}

/// Partitions a generated primary-key relation and checks that every key
/// comes out exactly once, paired with its own payload.
fn gpu_tuple_loss_or_duplicates_i32(
    tuples: usize,
    histogram_algorithm: GpuHistogramAlgorithm,
    partition_algorithm: GpuRadixPartitionAlgorithm,
    radix_bits: u32,
    grid_size: u32,
    block_size: u32,
) {
    let mut lcg = Lcg(0x4b1d_2c3e_5f60_7182 ^ tuples as u64 ^ ((radix_bits as u64) << 32));
    let data_key = gen_primary_key(tuples, &mut lcg);
    let data_pay = gen_attr(tuples, PAYLOAD_RANGE_MAX, &mut lcg);

    // Payload and occurrence count per key; keys are dense in 1..=tuples.
    let mut original_tuples: Vec<(i32, u32)> = vec![(0, 0); tuples + 1];
    for i in 0..tuples {
        original_tuples[data_key[i] as usize] = (data_pay[i], 0);
    }

    let mut partitioned_relation = PartitionedRelation::<i32>::new(
        tuples,
        histogram_algorithm,
        radix_bits,
        grid_size,
        MemType::CudaUniMem,
        MemType::CudaUniMem,
    );

    let mut partitioner = GpuRadixPartitioner::new(
        histogram_algorithm,
        partition_algorithm,
        radix_bits,
        grid_size,
        block_size,
        DMEM_BUFFER_BYTES,
        test_device(),
    )
    .expect("Failed to create the partitioner");

    partitioner
        .partition(&data_key, &data_pay, &mut partitioned_relation)
        .expect("Failed to partition the relation");

    let relation = partitioned_relation
        .relation
        .try_as_slice()
        .expect("Tried to convert device memory into host slice");

    for t in relation.iter() {
        let (key, value) = (t.key, t.value);
        if key == 0 {
            // skip padding entries
            continue;
        }
        assert!(1 <= key && key as usize <= tuples, "Invalid key: {}", key);
        let entry = &mut original_tuples[key as usize];
        assert_eq!(
            value, entry.0,
            "Invalid payload: {}; expected: {}",
            value, entry.0
        );
        assert_eq!(entry.1, 0, "Duplicate key: {}", key);
        entry.1 += 1;
    }

    for key in 1..=tuples {
        let counter = original_tuples[key].1;
        assert_eq!(
            counter, 1,
            "Key {} occurs {} times; expected exactly once",
            key, counter
        );
    }
}

/// Partitions a uniformly distributed relation and checks that every
/// tuple landed in the partition named by the low radix bits of its key.
fn gpu_verify_partitions_i32(
    tuples: usize,
    key_range_max: usize,
    histogram_algorithm: GpuHistogramAlgorithm,
    partition_algorithm: GpuRadixPartitionAlgorithm,
    radix_bits: u32,
    grid_size: u32,
    block_size: u32,
) {
    let mut lcg = Lcg(0x1735_a9f2_0d4c_6e8b ^ tuples as u64 ^ ((radix_bits as u64) << 32));
    let data_key = gen_attr(tuples, key_range_max as u64, &mut lcg);
    let data_pay = gen_attr(tuples, PAYLOAD_RANGE_MAX, &mut lcg);

    let mut partitioned_relation = PartitionedRelation::<i32>::new(
        tuples,
        histogram_algorithm,
        radix_bits,
        grid_size,
        MemType::CudaUniMem,
        MemType::CudaUniMem,
    );

    let mut partitioner = GpuRadixPartitioner::new(
        histogram_algorithm,
        partition_algorithm,
        radix_bits,
        grid_size,
        block_size,
        DMEM_BUFFER_BYTES,
        test_device(),
    )
    .expect("Failed to create the partitioner");

    partitioner
        .partition(&data_key, &data_pay, &mut partitioned_relation)
        .expect("Failed to partition the relation");

    let mask = fanout(radix_bits) - 1;
    for c in 0..partitioned_relation.chunks() as usize {
        for p in 0..partitioned_relation.partitions() {
            let bucket = partitioned_relation
                .index((c, p))
                .expect("Tried to dereference device memory");
            for t in bucket.iter() {
                let dst_partition = (t.key) as usize & mask;
                assert_eq!(
                    dst_partition, p,
                    "Wrong partitioning detected in chunk {}: key {} in partition {}; expected partition {}",
                    c, t.key, p, dst_partition
                );
            }
        }
    }
}

#[test]
fn gpu_tuple_loss_or_duplicates_small_chunked_i32_2_bits() {
    gpu_tuple_loss_or_duplicates_i32(
        100,
        GpuHistogramAlgorithm::GpuChunked,
        GpuRadixPartitionAlgorithm::NC,
        2,
        4,
        128,
    );
}

#[test]
fn gpu_verify_partitions_small_chunked_i32_2_bits() {
    gpu_verify_partitions_i32(
        100,
        32 << 20,
        GpuHistogramAlgorithm::GpuChunked,
        GpuRadixPartitionAlgorithm::NC,
        2,
        4,
        128,
    );
}

#[test]
fn gpu_tuple_loss_or_duplicates_chunked_i32_2_bits() {
    gpu_tuple_loss_or_duplicates_i32(
        (32 << 20) / std::mem::size_of::<i32>(),
        GpuHistogramAlgorithm::GpuChunked,
        GpuRadixPartitionAlgorithm::NC,
        2,
        10,
        128,
    );
}

#[test]
fn gpu_tuple_loss_or_duplicates_chunked_i32_10_bits() {
    gpu_tuple_loss_or_duplicates_i32(
        (32 << 20) / std::mem::size_of::<i32>(),
        GpuHistogramAlgorithm::GpuChunked,
        GpuRadixPartitionAlgorithm::NC,
        10,
        10,
        128,
    );
}

#[test]
fn gpu_verify_partitions_chunked_i32_2_bits() {
    gpu_verify_partitions_i32(
        (32 << 20) / std::mem::size_of::<i32>(),
        32 << 20,
        GpuHistogramAlgorithm::GpuChunked,
        GpuRadixPartitionAlgorithm::NC,
        2,
        10,
        128,
    );
}

#[test]
fn gpu_verify_partitions_chunked_i32_10_bits() {
    gpu_verify_partitions_i32(
        (32 << 20) / std::mem::size_of::<i32>(),
        32 << 20,
        GpuHistogramAlgorithm::GpuChunked,
        GpuRadixPartitionAlgorithm::NC,
        10,
        10,
        128,
    );
}

#[test]
fn gpu_tuple_loss_or_duplicates_chunked_i32_12_bits() {
    gpu_tuple_loss_or_duplicates_i32(
        (32 << 20) / std::mem::size_of::<i32>(),
        GpuHistogramAlgorithm::GpuChunked,
        GpuRadixPartitionAlgorithm::NC,
        12,
        10,
        128,
    );
}

#[test]
fn gpu_verify_partitions_chunked_i32_12_bits() {
    gpu_verify_partitions_i32(
        (32 << 20) / std::mem::size_of::<i32>(),
        32 << 20,
        GpuHistogramAlgorithm::GpuChunked,
        GpuRadixPartitionAlgorithm::NC,
        12,
        10,
        128,
    );
}

#[test]
fn gpu_tuple_loss_or_duplicates_chunked_non_power_two() {
    gpu_tuple_loss_or_duplicates_i32(
        10_usize.pow(6),
        GpuHistogramAlgorithm::GpuChunked,
        GpuRadixPartitionAlgorithm::NC,
        10,
        10,
        128,
    );
}

#[test]
fn gpu_verify_partitions_chunked_non_power_two() {
    gpu_verify_partitions_i32(
        10_usize.pow(6),
        32 << 20,
        GpuHistogramAlgorithm::GpuChunked,
        GpuRadixPartitionAlgorithm::NC,
        10,
        10,
        128,
    );
}

#[test]
fn gpu_tuple_loss_or_duplicates_contiguous_i32_2_bits() {
    gpu_tuple_loss_or_duplicates_i32(
        (32 << 20) / std::mem::size_of::<i32>(),
        GpuHistogramAlgorithm::GpuContiguous,
        GpuRadixPartitionAlgorithm::NC,
        2,
        1,
        128,
    );
}

#[test]
fn gpu_tuple_loss_or_duplicates_contiguous_i32_10_bits() {
    gpu_tuple_loss_or_duplicates_i32(
        (32 << 20) / std::mem::size_of::<i32>(),
        GpuHistogramAlgorithm::GpuContiguous,
        GpuRadixPartitionAlgorithm::NC,
        10,
        1,
        128,
    );
}

#[test]
fn gpu_verify_partitions_contiguous_i32_2_bits() {
    gpu_verify_partitions_i32(
        (32 << 20) / std::mem::size_of::<i32>(),
        32 << 20,
        GpuHistogramAlgorithm::GpuContiguous,
        GpuRadixPartitionAlgorithm::NC,
        2,
        1,
        128,
    );
}

#[test]
fn gpu_verify_partitions_contiguous_i32_10_bits() {
    gpu_verify_partitions_i32(
        (32 << 20) / std::mem::size_of::<i32>(),
        32 << 20,
        GpuHistogramAlgorithm::GpuContiguous,
        GpuRadixPartitionAlgorithm::NC,
        10,
        1,
        128,
    );
}

#[test]
fn gpu_tuple_loss_or_duplicates_contiguous_i32_12_bits() {
    gpu_tuple_loss_or_duplicates_i32(
        (32 << 20) / std::mem::size_of::<i32>(),
        GpuHistogramAlgorithm::GpuContiguous,
        GpuRadixPartitionAlgorithm::NC,
        12,
        1,
        128,
    );
}

#[test]
fn gpu_verify_partitions_contiguous_i32_12_bits() {
    gpu_verify_partitions_i32(
        (32 << 20) / std::mem::size_of::<i32>(),
        32 << 20,
        GpuHistogramAlgorithm::GpuContiguous,
        GpuRadixPartitionAlgorithm::NC,
        12,
        1,
        128,
    );
}

#[test]
fn gpu_tuple_loss_or_duplicates_contiguous_non_power_two() {
    gpu_tuple_loss_or_duplicates_i32(
        10_usize.pow(6),
        GpuHistogramAlgorithm::GpuContiguous,
        GpuRadixPartitionAlgorithm::NC,
        10,
        1,
        128,
    );
}

#[test]
fn gpu_verify_partitions_contiguous_non_power_two() {
    gpu_verify_partitions_i32(
        10_usize.pow(6),
        32 << 20,
        GpuHistogramAlgorithm::GpuContiguous,
        GpuRadixPartitionAlgorithm::NC,
        10,
        1,
        128,
    );
}

#[test]
fn gpu_tuple_loss_or_duplicates_chunked_laswwc_i32_2_bits() {
    gpu_tuple_loss_or_duplicates_i32(
        (32 << 20) / std::mem::size_of::<i32>(),
        GpuHistogramAlgorithm::GpuChunked,
        GpuRadixPartitionAlgorithm::LASWWC,
        2,
        1,
        128,
    );
}

#[test]
fn gpu_tuple_loss_or_duplicates_chunked_laswwc_i32_10_bits() {
    gpu_tuple_loss_or_duplicates_i32(
        (32 << 20) / std::mem::size_of::<i32>(),
        GpuHistogramAlgorithm::GpuChunked,
        GpuRadixPartitionAlgorithm::LASWWC,
        10,
        1,
        128,
    );
}

#[test]
fn gpu_verify_partitions_chunked_laswwc_i32_2_bits() {
    gpu_verify_partitions_i32(
        (32 << 20) / std::mem::size_of::<i32>(),
        32 << 20,
        GpuHistogramAlgorithm::GpuChunked,
        GpuRadixPartitionAlgorithm::LASWWC,
        2,
        1,
        128,
    );
}

#[test]
fn gpu_verify_partitions_chunked_laswwc_i32_10_bits() {
    gpu_verify_partitions_i32(
        (32 << 20) / std::mem::size_of::<i32>(),
        32 << 20,
        GpuHistogramAlgorithm::GpuChunked,
        GpuRadixPartitionAlgorithm::LASWWC,
        10,
        1,
        128,
    );
}

#[test]
fn gpu_tuple_loss_or_duplicates_chunked_laswwc_i32_12_bits() {
    gpu_tuple_loss_or_duplicates_i32(
        (32 << 20) / std::mem::size_of::<i32>(),
        GpuHistogramAlgorithm::GpuChunked,
        GpuRadixPartitionAlgorithm::LASWWC,
        12,
        1,
        128,
    );
}

#[test]
fn gpu_verify_partitions_chunked_laswwc_i32_12_bits() {
    gpu_verify_partitions_i32(
        (32 << 20) / std::mem::size_of::<i32>(),
        32 << 20,
        GpuHistogramAlgorithm::GpuChunked,
        GpuRadixPartitionAlgorithm::LASWWC,
        12,
        1,
        128,
    );
}

#[test]
fn gpu_tuple_loss_or_duplicates_chunked_laswwc_non_power_two() {
    gpu_tuple_loss_or_duplicates_i32(
        10_usize.pow(6),
        GpuHistogramAlgorithm::GpuChunked,
        GpuRadixPartitionAlgorithm::LASWWC,
        10,
        1,
        128,
    );
}

#[test]
fn gpu_verify_partitions_chunked_laswwc_non_power_two() {
    gpu_verify_partitions_i32(
        10_usize.pow(6),
        32 << 20,
        GpuHistogramAlgorithm::GpuChunked,
        GpuRadixPartitionAlgorithm::LASWWC,
        10,
        1,
        128,
    );
}

#[test]
fn gpu_tuple_loss_or_duplicates_chunked_sswwc_i32_2_bits() {
    gpu_tuple_loss_or_duplicates_i32(
        (32 << 20) / std::mem::size_of::<i32>(),
        GpuHistogramAlgorithm::GpuChunked,
        GpuRadixPartitionAlgorithm::SSWWC,
        2,
        1,
        128,
    );
}

#[test]
fn gpu_tuple_loss_or_duplicates_chunked_sswwc_i32_10_bits() {
    gpu_tuple_loss_or_duplicates_i32(
        (32 << 20) / std::mem::size_of::<i32>(),
        GpuHistogramAlgorithm::GpuChunked,
        GpuRadixPartitionAlgorithm::SSWWC,
        10,
        1,
        128,
    );
}

#[test]
fn gpu_verify_partitions_chunked_sswwc_i32_2_bits() {
    gpu_verify_partitions_i32(
        (32 << 20) / std::mem::size_of::<i32>(),
        32 << 20,
        GpuHistogramAlgorithm::GpuChunked,
        GpuRadixPartitionAlgorithm::SSWWC,
        2,
        1,
        128,
    );
}

#[test]
fn gpu_verify_partitions_chunked_sswwc_i32_10_bits() {
    gpu_verify_partitions_i32(
        (32 << 20) / std::mem::size_of::<i32>(),
        32 << 20,
        GpuHistogramAlgorithm::GpuChunked,
        GpuRadixPartitionAlgorithm::SSWWC,
        10,
        1,
        128,
    );
}

#[test]
fn gpu_tuple_loss_or_duplicates_chunked_sswwc_non_power_two() {
    gpu_tuple_loss_or_duplicates_i32(
        10_usize.pow(6),
        GpuHistogramAlgorithm::GpuChunked,
        GpuRadixPartitionAlgorithm::SSWWC,
        10,
        1,
        128,
    );
}

#[test]
fn gpu_verify_partitions_chunked_sswwc_non_power_two() {
    gpu_verify_partitions_i32(
        10_usize.pow(6),
        32 << 20,
        GpuHistogramAlgorithm::GpuChunked,
        GpuRadixPartitionAlgorithm::SSWWC,
        10,
        1,
        128,
    );
}

#[test]
fn gpu_tuple_loss_or_duplicates_chunked_sswwc_non_temporal_i32_10_bits() {
    gpu_tuple_loss_or_duplicates_i32(
        (32 << 20) / std::mem::size_of::<i32>(),
        GpuHistogramAlgorithm::GpuChunked,
        GpuRadixPartitionAlgorithm::SSWWCNT,
        10,
        1,
        128,
    );
}

#[test]
fn gpu_tuple_loss_or_duplicates_chunked_sswwc_v2_i32_2_bits() {
    gpu_tuple_loss_or_duplicates_i32(
        (32 << 20) / std::mem::size_of::<i32>(),
        GpuHistogramAlgorithm::GpuChunked,
        GpuRadixPartitionAlgorithm::SSWWCv2,
        2,
        1,
        128,
    );
}

#[test]
fn gpu_tuple_loss_or_duplicates_chunked_sswwc_v2_i32_10_bits() {
    gpu_tuple_loss_or_duplicates_i32(
        (32 << 20) / std::mem::size_of::<i32>(),
        GpuHistogramAlgorithm::GpuChunked,
        GpuRadixPartitionAlgorithm::SSWWCv2,
        10,
        1,
        128,
    );
}

#[test]
fn gpu_verify_partitions_chunked_sswwc_v2_i32_2_bits() {
    gpu_verify_partitions_i32(
        (32 << 20) / std::mem::size_of::<i32>(),
        32 << 20,
        GpuHistogramAlgorithm::GpuChunked,
        GpuRadixPartitionAlgorithm::SSWWCv2,
        2,
        1,
        128,
    );
}

#[test]
fn gpu_verify_partitions_chunked_sswwc_v2_i32_10_bits() {
    gpu_verify_partitions_i32(
        (32 << 20) / std::mem::size_of::<i32>(),
        32 << 20,
        GpuHistogramAlgorithm::GpuChunked,
        GpuRadixPartitionAlgorithm::SSWWCv2,
        10,
        1,
        128,
    );
}

#[test]
fn gpu_tuple_loss_or_duplicates_chunked_sswwc_v2_non_power_two() {
    gpu_tuple_loss_or_duplicates_i32(
        10_usize.pow(6),
        GpuHistogramAlgorithm::GpuChunked,
        GpuRadixPartitionAlgorithm::SSWWCv2,
        10,
        1,
        128,
    );
}

#[test]
fn gpu_verify_partitions_chunked_sswwc_v2_non_power_two() {
    gpu_verify_partitions_i32(
        10_usize.pow(6),
        32 << 20,
        GpuHistogramAlgorithm::GpuChunked,
        GpuRadixPartitionAlgorithm::SSWWCv2,
        10,
        1,
        128,
    );
}

#[test]
fn gpu_tuple_loss_or_duplicates_chunked_hsswwc_i32_2_bits() {
    gpu_tuple_loss_or_duplicates_i32(
        (32 << 20) / std::mem::size_of::<i32>(),
        GpuHistogramAlgorithm::GpuChunked,
        GpuRadixPartitionAlgorithm::HSSWWC,
        2,
        1,
        128,
    );
}

#[test]
fn gpu_tuple_loss_or_duplicates_chunked_hsswwc_i32_10_bits() {
    gpu_tuple_loss_or_duplicates_i32(
        (32 << 20) / std::mem::size_of::<i32>(),
        GpuHistogramAlgorithm::GpuChunked,
        GpuRadixPartitionAlgorithm::HSSWWC,
        10,
        1,
        128,
    );
}

#[test]
fn gpu_verify_partitions_chunked_hsswwc_i32_2_bits() {
    gpu_verify_partitions_i32(
        (32 << 20) / std::mem::size_of::<i32>(),
        32 << 20,
        GpuHistogramAlgorithm::GpuChunked,
        GpuRadixPartitionAlgorithm::HSSWWC,
        2,
        1,
        128,
    );
}

#[test]
fn gpu_verify_partitions_chunked_hsswwc_i32_10_bits() {
    gpu_verify_partitions_i32(
        (32 << 20) / std::mem::size_of::<i32>(),
        32 << 20,
        GpuHistogramAlgorithm::GpuChunked,
        GpuRadixPartitionAlgorithm::HSSWWC,
        10,
        1,
        128,
    );
}

#[test]
fn gpu_tuple_loss_or_duplicates_chunked_hsswwc_non_power_two() {
    gpu_tuple_loss_or_duplicates_i32(
        10_usize.pow(6),
        GpuHistogramAlgorithm::GpuChunked,
        GpuRadixPartitionAlgorithm::HSSWWC,
        10,
        1,
        128,
    );
}

#[test]
fn gpu_verify_partitions_chunked_hsswwc_non_power_two() {
    gpu_verify_partitions_i32(
        10_usize.pow(6),
        32 << 20,
        GpuHistogramAlgorithm::GpuChunked,
        GpuRadixPartitionAlgorithm::HSSWWC,
        10,
        1,
        128,
    );
}

#[test]
fn gpu_tuple_loss_or_duplicates_chunked_hsswwc_v2_i32_2_bits() {
    gpu_tuple_loss_or_duplicates_i32(
        (32 << 20) / std::mem::size_of::<i32>(),
        GpuHistogramAlgorithm::GpuChunked,
        GpuRadixPartitionAlgorithm::HSSWWCv2,
        2,
        1,
        128,
    );
}

#[test]
fn gpu_tuple_loss_or_duplicates_chunked_hsswwc_v2_i32_10_bits() {
    gpu_tuple_loss_or_duplicates_i32(
        (32 << 20) / std::mem::size_of::<i32>(),
        GpuHistogramAlgorithm::GpuChunked,
        GpuRadixPartitionAlgorithm::HSSWWCv2,
        10,
        1,
        128,
    );
}

#[test]
fn gpu_verify_partitions_chunked_hsswwc_v2_i32_2_bits() {
    gpu_verify_partitions_i32(
        (32 << 20) / std::mem::size_of::<i32>(),
        32 << 20,
        GpuHistogramAlgorithm::GpuChunked,
        GpuRadixPartitionAlgorithm::HSSWWCv2,
        2,
        1,
        128,
    );
}

#[test]
fn gpu_verify_partitions_chunked_hsswwc_v2_i32_10_bits() {
    gpu_verify_partitions_i32(
        (32 << 20) / std::mem::size_of::<i32>(),
        32 << 20,
        GpuHistogramAlgorithm::GpuChunked,
        GpuRadixPartitionAlgorithm::HSSWWCv2,
        10,
        1,
        128,
    );
}

#[test]
fn gpu_tuple_loss_or_duplicates_chunked_hsswwc_v2_non_power_two() {
    gpu_tuple_loss_or_duplicates_i32(
        10_usize.pow(6),
        GpuHistogramAlgorithm::GpuChunked,
        GpuRadixPartitionAlgorithm::HSSWWCv2,
        10,
        1,
        128,
    );
}

#[test]
fn gpu_verify_partitions_chunked_hsswwc_v2_non_power_two() {
    gpu_verify_partitions_i32(
        10_usize.pow(6),
        32 << 20,
        GpuHistogramAlgorithm::GpuChunked,
        GpuRadixPartitionAlgorithm::HSSWWCv2,
        10,
        1,
        128,
    );
}

#[test]
fn gpu_tuple_loss_or_duplicates_chunked_hsswwc_v3_i32_2_bits() {
    gpu_tuple_loss_or_duplicates_i32(
        (32 << 20) / std::mem::size_of::<i32>(),
        GpuHistogramAlgorithm::GpuChunked,
        GpuRadixPartitionAlgorithm::HSSWWCv3,
        2,
        1,
        128,
    );
}

#[test]
fn gpu_tuple_loss_or_duplicates_chunked_hsswwc_v3_i32_10_bits() {
    gpu_tuple_loss_or_duplicates_i32(
        (32 << 20) / std::mem::size_of::<i32>(),
        GpuHistogramAlgorithm::GpuChunked,
        GpuRadixPartitionAlgorithm::HSSWWCv3,
        10,
        1,
        128,
    );
}

#[test]
fn gpu_verify_partitions_chunked_hsswwc_v3_i32_2_bits() {
    gpu_verify_partitions_i32(
        (32 << 20) / std::mem::size_of::<i32>(),
        32 << 20,
        GpuHistogramAlgorithm::GpuChunked,
        GpuRadixPartitionAlgorithm::HSSWWCv3,
        2,
        1,
        128,
    );
}

#[test]
fn gpu_verify_partitions_chunked_hsswwc_v3_i32_10_bits() {
    gpu_verify_partitions_i32(
        (32 << 20) / std::mem::size_of::<i32>(),
        32 << 20,
        GpuHistogramAlgorithm::GpuChunked,
        GpuRadixPartitionAlgorithm::HSSWWCv3,
        10,
        1,
        128,
    );
}

#[test]
fn gpu_tuple_loss_or_duplicates_chunked_hsswwc_v3_non_power_two() {
    gpu_tuple_loss_or_duplicates_i32(
        10_usize.pow(6),
        GpuHistogramAlgorithm::GpuChunked,
        GpuRadixPartitionAlgorithm::HSSWWCv3,
        10,
        1,
        128,
    );
}

#[test]
fn gpu_verify_partitions_chunked_hsswwc_v3_non_power_two() {
    gpu_verify_partitions_i32(
        10_usize.pow(6),
        32 << 20,
        GpuHistogramAlgorithm::GpuChunked,
        GpuRadixPartitionAlgorithm::HSSWWCv3,
        10,
        1,
        128,
    );
}

#[test]
fn gpu_tuple_loss_or_duplicates_chunked_hsswwc_v4_i32_2_bits() {
    gpu_tuple_loss_or_duplicates_i32(
        (32 << 20) / std::mem::size_of::<i32>(),
        GpuHistogramAlgorithm::GpuChunked,
        GpuRadixPartitionAlgorithm::HSSWWCv4,
        2,
        1,
        128,
    );
}

#[test]
fn gpu_tuple_loss_or_duplicates_chunked_hsswwc_v4_i32_10_bits() {
    gpu_tuple_loss_or_duplicates_i32(
        (32 << 20) / std::mem::size_of::<i32>(),
        GpuHistogramAlgorithm::GpuChunked,
        GpuRadixPartitionAlgorithm::HSSWWCv4,
        10,
        1,
        128,
    );
}

#[test]
fn gpu_verify_partitions_chunked_hsswwc_v4_i32_2_bits() {
    gpu_verify_partitions_i32(
        (32 << 20) / std::mem::size_of::<i32>(),
        32 << 20,
        GpuHistogramAlgorithm::GpuChunked,
        GpuRadixPartitionAlgorithm::HSSWWCv4,
        2,
        1,
        128,
    );
}

#[test]
fn gpu_verify_partitions_chunked_hsswwc_v4_i32_10_bits() {
    gpu_verify_partitions_i32(
        (32 << 20) / std::mem::size_of::<i32>(),
        32 << 20,
        GpuHistogramAlgorithm::GpuChunked,
        GpuRadixPartitionAlgorithm::HSSWWCv4,
        10,
        1,
        128,
    );
}

#[test]
fn gpu_tuple_loss_or_duplicates_chunked_hsswwc_v4_non_power_two() {
    gpu_tuple_loss_or_duplicates_i32(
        10_usize.pow(6),
        GpuHistogramAlgorithm::GpuChunked,
        GpuRadixPartitionAlgorithm::HSSWWCv4,
        10,
        1,
        128,
    );
}

#[test]
fn gpu_verify_partitions_chunked_hsswwc_v4_non_power_two() {
    gpu_verify_partitions_i32(
        10_usize.pow(6),
        32 << 20,
        GpuHistogramAlgorithm::GpuChunked,
        GpuRadixPartitionAlgorithm::HSSWWCv4,
        10,
        1,
        128,
    );
}
