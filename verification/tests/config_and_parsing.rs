//! Checks of the configuration logic: command-line number parsing, the
//! NUMA placement rules, the execution geometry, and the measurement
//! record builder.

use radix_partition::cmd::CmdOpt;
use radix_partition::data_point::{DataPoint, TlbLatencyOptions};
use radix_partition::error::ErrorKind;
use radix_partition::parse::{is_percent, parse_radix_bits};
use radix_partition::radix::{RadixBits, RadixPass};
use radix_partition::types::{execution_geometry, data_set_lens, node_ratios, state_mem_type_of,
    ArgDataSet, ArgDeviceType, ArgExecutionMethod, ArgMemType, ArgPageType, ArgTupleBytes,
    MemType, NodeRatio};

fn base_options() -> CmdOpt {
    CmdOpt {
        use_numa_mem_state: None,
        state_mem_type: ArgMemType::Device,
        state_location: 0,
        execution_method: ArgExecutionMethod::GpuTritonJoinTwoPass,
        partitions_mem_type: ArgMemType::Unified,
        partitions_location: vec![0],
        partitions_proportions: vec![100],
        grid_size: None,
    }
}

#[test]
fn is_percent_accepts_whole_percentages() {
    assert!(is_percent("0".to_string()).is_ok());
    assert!(is_percent("50".to_string()).is_ok());
    assert!(is_percent("100".to_string()).is_ok());
    assert!(is_percent("+55".to_string()).is_ok());
}

#[test]
fn is_percent_rejects_everything_else() {
    assert!(is_percent("101".to_string()).is_err());
    assert!(is_percent("-1".to_string()).is_err());
    assert!(is_percent("".to_string()).is_err());
    assert!(is_percent("abc".to_string()).is_err());
    assert!(is_percent("12 ".to_string()).is_err());
    assert!(is_percent("99999999999999999999".to_string()).is_err());
}

#[test]
fn parse_radix_bits_reads_pass_lists() {
    assert_eq!(
        parse_radix_bits("8,8").unwrap(),
        RadixBits { first: 8, second: Some(8), third: None }
    );
    assert_eq!(
        parse_radix_bits("12").unwrap(),
        RadixBits { first: 12, second: None, third: None }
    );
    assert_eq!(
        parse_radix_bits(" 6 , 6 , 4 ").unwrap(),
        RadixBits { first: 6, second: Some(6), third: Some(4) }
    );
}

#[test]
fn parse_radix_bits_rejects_malformed_lists() {
    assert!(parse_radix_bits("").is_err());
    assert!(parse_radix_bits("8,").is_err());
    assert!(parse_radix_bits("a,b").is_err());
    assert!(parse_radix_bits("1,2,3,4").is_err());
    assert!(parse_radix_bits("4294967296").is_err());
    assert!(parse_radix_bits("-4").is_err());
}

#[test]
fn state_memory_follows_the_numa_flag() {
    let mut cmd = base_options();
    cmd.use_numa_mem_state = Some(true);
    cmd.set_state_mem(Some(3));
    assert_eq!(cmd.state_mem_type, ArgMemType::Numa);
    assert_eq!(cmd.state_location, 3);

    let mut cmd = base_options();
    cmd.set_state_mem(None);
    assert_eq!(cmd.state_mem_type, ArgMemType::Device);
    assert_eq!(cmd.state_location, 0);
}

#[test]
fn partitions_default_to_cache_and_overflow_nodes() {
    let mut cmd = base_options();
    cmd.set_partitions_mem(Some(2), 1).unwrap();
    assert_eq!(cmd.partitions_mem_type, ArgMemType::DistributedNuma);
    assert_eq!(cmd.partitions_location, vec![2, 1]);
    assert_eq!(cmd.partitions_proportions, vec![0, 0]);
}

#[test]
fn explicit_distributed_partitions_need_two_locations() {
    let mut cmd = base_options();
    cmd.partitions_mem_type = ArgMemType::DistributedNuma;
    cmd.partitions_location = vec![0, 1];
    let r = cmd.set_partitions_mem(Some(2), 1);
    assert!(r.is_ok());
    assert_eq!(cmd.partitions_location, vec![0, 1]);

    let mut cmd = base_options();
    cmd.partitions_mem_type = ArgMemType::DistributedNuma;
    cmd.partitions_location = vec![0, 1, 2];
    let r = cmd.set_partitions_mem(Some(2), 1);
    assert!(matches!(r, Err(ErrorKind::InvalidArgument(_))));
}

#[test]
fn partitions_fall_back_to_pinned_numa_without_a_cache_node() {
    let mut cmd = base_options();
    cmd.set_partitions_mem(None, 7).unwrap();
    assert_eq!(cmd.partitions_mem_type, ArgMemType::NumaPinned);
    assert_eq!(cmd.partitions_location, vec![0, 0]);
    assert_eq!(cmd.partitions_proportions, vec![0, 0]);
}

#[test]
fn other_execution_methods_keep_their_partitions_memory() {
    let mut cmd = base_options();
    cmd.execution_method = ArgExecutionMethod::GpuRadixJoinTwoPass;
    cmd.set_partitions_mem(Some(2), 1).unwrap();
    assert_eq!(cmd.partitions_mem_type, ArgMemType::Unified);
    assert_eq!(cmd.partitions_location, vec![0]);
}

#[test]
fn geometry_derives_from_the_multiprocessor_count() {
    let (block, grid, stream_grid) = execution_geometry(32, 80, None);
    assert_eq!(block, 1024);
    assert_eq!(grid, 80);
    assert_eq!(stream_grid, 40);
    let (_, grid, stream_grid) = execution_geometry(32, 80, Some(10));
    assert_eq!(grid, 10);
    assert_eq!(stream_grid, 5);
}

#[test]
fn node_ratio_lists_pair_locations_with_shares() {
    let r = node_ratios(&vec![0, 2], &vec![20, 80]);
    assert_eq!(r.len(), 2);
    assert_eq!(r[0], NodeRatio { node: 0, percent: 20 });
    assert_eq!(r[1], NodeRatio { node: 2, percent: 80 });
}

#[test]
fn state_memory_type_resolves_numa_or_device() {
    let m = state_mem_type_of(ArgMemType::Numa, 5, ArgPageType::Default);
    assert!(matches!(m, MemType::NumaMem { node: 5, page_type: ArgPageType::Default }));
    let m = state_mem_type_of(ArgMemType::Device, 5, ArgPageType::Default);
    assert!(matches!(m, MemType::CudaDevMem));
}

#[test]
fn data_set_sizes_follow_their_definitions() {
    assert_eq!(
        data_set_lens(ArgDataSet::Test, None, None, 8),
        Some((1000, 1000))
    );
    assert_eq!(
        data_set_lens(ArgDataSet::Blanas4MB, None, None, 8),
        Some((512 * 1024, 256 * 1024 * 1024))
    );
    assert_eq!(
        data_set_lens(ArgDataSet::Lutz2Gv32G, None, None, 8),
        Some((2 * 1024 * 1024 * 1024 / 8, 32u64 as usize * 1024 * 1024 * 1024 / 8))
    );
    assert_eq!(
        data_set_lens(ArgDataSet::Lutz32Gv32G, None, None, 16),
        Some((2147483648, 2147483648))
    );
    assert_eq!(
        data_set_lens(ArgDataSet::Custom, Some(123), Some(456), 8),
        Some((123, 456))
    );
    assert_eq!(data_set_lens(ArgDataSet::Blanas, None, None, 8), None);
    assert_eq!(data_set_lens(ArgDataSet::Kim, None, None, 8), None);
}

#[test]
fn tuple_bytes_name_their_width() {
    assert_eq!(ArgTupleBytes::Bytes8.bytes(), 8);
    assert_eq!(ArgTupleBytes::Bytes16.bytes(), 16);
}

#[test]
fn data_point_template_carries_the_run_configuration() {
    let cmd = TlbLatencyOptions {
        device_id: 1,
        mem_type: ArgMemType::Unified,
        mem_location: 2,
        page_type: ArgPageType::Huge,
    };
    let dp = DataPoint::from_cmd_options(&cmd, "host".to_string());
    assert_eq!(dp.hostname, "host");
    assert_eq!(dp.device_type, Some(ArgDeviceType::GPU));
    assert_eq!(dp.device_id, Some(1));
    assert_eq!(dp.memory_type, Some(ArgMemType::Unified));
    assert_eq!(dp.memory_location, Some(2));
    assert_eq!(dp.page_type, Some(ArgPageType::Huge));
    assert_eq!(dp.cycles, None);

    let empty = DataPoint::default();
    assert_eq!(empty.hostname, "");
    assert_eq!(empty.device_id, None);
}
