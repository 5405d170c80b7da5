//! The measurement record of the TLB-latency benchmark.
//!
//! A `DataPoint` gathers the configuration and the measured values of one
//! benchmark run; the measurement harness serializes it for the CSV
//! output.

use vstd::prelude::*;
use crate::types::{ArgDeviceType, ArgMemType, ArgPageType};

verus! {

/// The command-line options of the TLB-latency benchmark that flow into
/// its measurement records.
#[derive(Clone, Debug)]
pub struct TlbLatencyOptions {
    pub device_id: u16,
    pub mem_type: ArgMemType,
    pub mem_location: u16,
    pub page_type: ArgPageType,
}

/// One measurement record of the TLB-latency benchmark.
#[derive(Clone, Debug)]
pub struct DataPoint {
    pub hostname: String,
    pub device_type: Option<ArgDeviceType>,
    pub device_codename: Option<String>,
    pub device_id: Option<u16>,
    pub memory_type: Option<ArgMemType>,
    pub memory_location: Option<u16>,
    pub page_type: Option<ArgPageType>,
    pub range_bytes: Option<usize>,
    pub stride_bytes: Option<usize>,
    pub threads: Option<u32>,
    pub grid_size: Option<u32>,
    pub block_size: Option<u32>,
    pub throttle_reasons: Option<String>,
    pub clock_rate_mhz: Option<u32>,
    pub cycle_counter_overhead_cycles: Option<u32>,
    pub stride_id: Option<usize>,
    pub iotlb_status: Option<String>,
    pub index_bytes: Option<i64>,
    pub cycles: Option<u32>,
    pub ns: Option<u32>,
}

impl Default for DataPoint {
    /// An empty record: no hostname and no measured values.
    fn default() -> (d: DataPoint)
        ensures
            d.hostname@ == Seq::<char>::empty(),
            d.device_type is None,
            d.device_codename is None,
            d.device_id is None,
            d.memory_type is None,
            d.memory_location is None,
            d.page_type is None,
            d.range_bytes is None,
            d.stride_bytes is None,
            d.threads is None,
            d.grid_size is None,
            d.block_size is None,
            d.throttle_reasons is None,
            d.clock_rate_mhz is None,
            d.cycle_counter_overhead_cycles is None,
            d.stride_id is None,
            d.iotlb_status is None,
            d.index_bytes is None,
            d.cycles is None,
            d.ns is None,
    {
        DataPoint {
            hostname: String::new(),
            device_type: None,
            device_codename: None,
            device_id: None,
            memory_type: None,
            memory_location: None,
            page_type: None,
            range_bytes: None,
            stride_bytes: None,
            threads: None,
            grid_size: None,
            block_size: None,
            throttle_reasons: None,
            clock_rate_mhz: None,
            cycle_counter_overhead_cycles: None,
            stride_id: None,
            iotlb_status: None,
            index_bytes: None,
            cycles: None,
            ns: None,
        }
    }
}

impl DataPoint {
    /// Builds the record template for a benchmark run: the run's
    /// configuration filled in, the measured values left empty. The
    /// hostname is resolved by the caller and passed in.
    pub fn from_cmd_options(cmd: &TlbLatencyOptions, hostname: String) -> (d: DataPoint)
        ensures
            d.hostname == hostname,
            d.device_type == Some(ArgDeviceType::GPU),
            d.device_id == Some(cmd.device_id),
            d.memory_type == Some(cmd.mem_type),
            d.memory_location == Some(cmd.mem_location),
            d.page_type == Some(cmd.page_type),
            d.device_codename is None,
            d.range_bytes is None,
            d.stride_bytes is None,
            d.threads is None,
            d.grid_size is None,
            d.block_size is None,
            d.throttle_reasons is None,
            d.clock_rate_mhz is None,
            d.cycle_counter_overhead_cycles is None,
            d.stride_id is None,
            d.iotlb_status is None,
            d.index_bytes is None,
            d.cycles is None,
            d.ns is None,
    {
        DataPoint {
            hostname,
            device_type: Some(ArgDeviceType::GPU),
            device_id: Some(cmd.device_id),
            memory_type: Some(cmd.mem_type),
            memory_location: Some(cmd.mem_location),
            page_type: Some(cmd.page_type),
            device_codename: None,
            range_bytes: None,
            stride_bytes: None,
            threads: None,
            grid_size: None,
            block_size: None,
            throttle_reasons: None,
            clock_rate_mhz: None,
            cycle_counter_overhead_cycles: None,
            stride_id: None,
            iotlb_status: None,
            index_bytes: None,
            cycles: None,
            ns: None,
        }
    }
}

} // verus!
