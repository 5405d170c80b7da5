//! The join benchmark's launch configuration and the rules that resolve it
//! against the device's NUMA topology.

use vstd::prelude::*;
use crate::error::ErrorKind;
use crate::types::{ArgMemType, ArgExecutionMethod};

verus! {

/// The launch options that the configuration rules read and resolve: the
/// execution strategy, and the memory placement of the partitioner's state
/// and of the partitioned data.
#[derive(Clone, Debug)]
pub struct CmdOpt {
    /// Place the on-GPU state in NUMA memory instead of device memory.
    pub use_numa_mem_state: Option<bool>,
    /// Resolved memory backend for the on-GPU state.
    pub state_mem_type: ArgMemType,
    /// Resolved NUMA node of the on-GPU state.
    pub state_location: u16,
    /// Join execution strategy.
    pub execution_method: ArgExecutionMethod,
    /// Memory backend for the partitioned data.
    pub partitions_mem_type: ArgMemType,
    /// NUMA nodes holding the partitioned data.
    pub partitions_location: Vec<u16>,
    /// Percentage of the partitioned data placed on each node.
    pub partitions_proportions: Vec<usize>,
    /// CUDA grid size override; the multiprocessor count when absent.
    pub grid_size: Option<u32>,
}

impl CmdOpt {
    /// Resolves the memory placement of the on-GPU state: NUMA memory on
    /// the given node when requested, device memory otherwise.
    pub fn set_state_mem(&mut self, state_location: Option<u16>)
        ensures
            final(self).state_mem_type == (if old(self).use_numa_mem_state == Some(true) {
                ArgMemType::Numa
            } else {
                ArgMemType::Device
            }),
            final(self).state_location == (match state_location {
                Some(l) => l,
                None => 0u16,
            }),
            final(self).use_numa_mem_state == old(self).use_numa_mem_state,
            final(self).execution_method == old(self).execution_method,
            final(self).partitions_mem_type == old(self).partitions_mem_type,
            final(self).partitions_location == old(self).partitions_location,
            final(self).partitions_proportions == old(self).partitions_proportions,
            final(self).grid_size == old(self).grid_size,
    {
        self.state_mem_type = if let Some(true) = self.use_numa_mem_state {
            ArgMemType::Numa
        } else {
            ArgMemType::Device
        };
        self.state_location = match state_location {
            Some(l) => l,
            None => 0,
        };
    }

    /// Resolves the memory placement of the partitioned data for the
    /// cache-aware execution strategy.
    ///
    /// With a cache node available, the partitions default to a
    /// distributed NUMA allocation over the cache and overflow nodes; a
    /// caller-chosen distributed allocation is kept only if it names
    /// exactly two locations. Without a cache node, the partitions fall
    /// back to pinned NUMA memory on node zero. Other execution strategies
    /// are left untouched.
    pub fn set_partitions_mem(&mut self, cache_location: Option<u16>, overflow_location: u16)
        -> (r: Result<(), ErrorKind>)
        ensures
            match r {
                Ok(()) => {
                    if old(self).execution_method == ArgExecutionMethod::GpuTritonJoinTwoPass {
                        match cache_location {
                            Some(cache) => {
                                if old(self).partitions_mem_type != ArgMemType::DistributedNuma {
                                    &&& final(self).partitions_mem_type
                                        == ArgMemType::DistributedNuma
                                    &&& final(self).partitions_location@ =~= seq![
                                        cache,
                                        overflow_location,
                                    ]
                                    &&& final(self).partitions_proportions@ =~= seq![
                                        0usize,
                                        0usize,
                                    ]
                                } else {
                                    &&& old(self).partitions_location@.len() == 2
                                    &&& *final(self) == *old(self)
                                }
                            },
                            None => {
                                &&& final(self).partitions_mem_type == ArgMemType::NumaPinned
                                &&& final(self).partitions_location@ =~= seq![0u16, 0u16]
                                &&& final(self).partitions_proportions@ =~= seq![0usize, 0usize]
                            },
                        }
                    } else {
                        *final(self) == *old(self)
                    }
                },
                Err(e) => {
                    &&& e matches ErrorKind::InvalidArgument(_)
                    &&& old(self).execution_method == ArgExecutionMethod::GpuTritonJoinTwoPass
                    &&& cache_location is Some
                    &&& old(self).partitions_mem_type == ArgMemType::DistributedNuma
                    &&& old(self).partitions_location@.len() != 2
                    &&& *final(self) == *old(self)
                },
            },
            final(self).use_numa_mem_state == old(self).use_numa_mem_state,
            final(self).state_mem_type == old(self).state_mem_type,
            final(self).state_location == old(self).state_location,
            final(self).execution_method == old(self).execution_method,
            final(self).grid_size == old(self).grid_size,
    {
        if self.execution_method == ArgExecutionMethod::GpuTritonJoinTwoPass {
            match cache_location {
                Some(cache) => {
                    if self.partitions_mem_type != ArgMemType::DistributedNuma {
                        self.partitions_mem_type = ArgMemType::DistributedNuma;
                        self.partitions_location = vec![cache, overflow_location];
                        self.partitions_proportions = vec![0, 0];
                    } else if self.partitions_location.len() != 2 {
                        return Err(
                            ErrorKind::InvalidArgument(
                                "--partitions-location must specify exactly two locations when combined with the GpuTritonJoin execution method".to_string(),
                            ),
                        );
                    }
                },
                None => {
                    self.partitions_mem_type = ArgMemType::NumaPinned;
                    self.partitions_location = vec![0, 0];
                    self.partitions_proportions = vec![0, 0];
                },
            }
        }
        Ok(())
    }
}

} // verus!
