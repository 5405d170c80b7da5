//! Configuration types of the benchmark programs: memory backends, page
//! types, data sets, execution strategies, and their conversions.

use vstd::prelude::*;

verus! {

/// Memory backend selected on the command line.
#[derive(Clone, Copy, Debug, PartialEq, Eq, Structural)]
pub enum ArgMemType {
    System,
    Numa,
    NumaPinned,
    NumaLazyPinned,
    DistributedNuma,
    Pinned,
    Unified,
    Device,
}

/// Page type with which memory is allocated.
#[derive(Clone, Copy, Debug, PartialEq, Eq, Structural)]
pub enum ArgPageType {
    Default,
    Small,
    TransparentHuge,
    Huge,
}

/// Kind of device a measurement ran on.
#[derive(Clone, Copy, Debug, PartialEq, Eq, Structural)]
pub enum ArgDeviceType {
    CPU,
    GPU,
}

/// Pre-defined or custom data sets for the join benchmark.
#[derive(Clone, Copy, Debug, PartialEq, Eq, Structural)]
pub enum ArgDataSet {
    Blanas,
    Blanas4MB,
    Kim,
    Test,
    Lutz2Gv32G,
    Lutz32Gv32G,
    Custom,
}

/// Distribution of the outer relation's keys.
#[derive(Clone, Copy, Debug, PartialEq, Eq, Structural)]
pub enum ArgDataDistribution {
    Uniform,
    Zipf,
}

/// Join execution strategy.
#[derive(Clone, Copy, Debug, PartialEq, Eq, Structural)]
pub enum ArgExecutionMethod {
    CpuPartitionedRadixJoinTwoPass,
    GpuRadixJoinTwoPass,
    GpuTritonJoinTwoPass,
}

/// Tuple width of the generated relations.
#[derive(Clone, Copy, Debug, PartialEq, Eq, Structural)]
pub enum ArgTupleBytes {
    Bytes8,
    Bytes16,
}

impl ArgTupleBytes {
    /// The tuple width in bytes.
    pub fn bytes(&self) -> (n: usize)
        ensures
            n == match self {
                ArgTupleBytes::Bytes8 => 8int,
                ArgTupleBytes::Bytes16 => 16int,
            },
    {
        match self {
            ArgTupleBytes::Bytes8 => 8,
            ArgTupleBytes::Bytes16 => 16,
        }
    }
}

/// Hashing scheme of the downstream hash join.
#[derive(Clone, Copy, Debug, PartialEq, Eq, Structural)]
pub enum ArgHashingScheme {
    Perfect,
    LinearProbing,
}

/// Share of a distributed allocation placed on one NUMA node, as a
/// percentage.
#[derive(Clone, Copy, Debug, PartialEq, Eq, Structural)]
pub struct NodeRatio {
    pub node: u16,
    pub percent: usize,
}

/// A fully resolved allocator target: the memory kind together with its
/// placement parameters.
#[derive(Clone, Debug)]
pub enum MemType {
    SysMem,
    NumaMem { node: u16, page_type: ArgPageType },
    NumaPinnedMem { node: u16, page_type: ArgPageType },
    DistributedNumaMem { nodes: Vec<NodeRatio>, page_type: ArgPageType },
    CudaPinnedMem,
    CudaUniMem,
    CudaDevMem,
}

/// Pairs each partition location with its allocation share: the ratio list
/// for a distributed NUMA allocation, one entry per location, each with
/// its percentage.
pub fn node_ratios(locations: &Vec<u16>, proportions: &Vec<usize>) -> (r: Vec<NodeRatio>)
    requires
        locations@.len() <= proportions@.len(),
    ensures
        r@.len() == locations@.len(),
        forall|i: int|
            0 <= i < r@.len() ==> #[trigger] r@[i] == (NodeRatio {
                node: locations@[i],
                percent: proportions@[i],
            }),
{
    let mut r: Vec<NodeRatio> = Vec::new();
    let mut i: usize = 0;
    while i < locations.len()
        invariant
            locations@.len() <= proportions@.len(),
            i <= locations@.len(),
            r@.len() == i,
            forall|q: int|
                0 <= q < i ==> #[trigger] r@[q] == (NodeRatio {
                    node: locations@[q],
                    percent: proportions@[q],
                }),
        decreases locations@.len() - i,
    {
        r.push(NodeRatio { node: locations[i], percent: proportions[i] });
        i = i + 1;
    }
    r
}

/// Resolves the memory type for the partitioner's on-GPU state, which is
/// either NUMA memory on the state node or CUDA device memory.
pub fn state_mem_type_of(state_mem_type: ArgMemType, state_location: u16, page_type: ArgPageType)
    -> (r: MemType)
    requires
        state_mem_type == ArgMemType::Numa || state_mem_type == ArgMemType::Device,
    ensures
        r == (match state_mem_type {
            ArgMemType::Numa => MemType::NumaMem { node: state_location, page_type },
            _ => MemType::CudaDevMem,
        }),
{
    match state_mem_type {
        ArgMemType::Numa => MemType::NumaMem { node: state_location, page_type },
        _ => MemType::CudaDevMem,
    }
}

/// The execution geometry derived from the device: a block of 32 warps, a
/// grid sized by the multiprocessor count unless overridden, and a stream
/// grid of half that size.
pub fn execution_geometry(warp_size: u32, multiprocessors: u32, grid_size_override: Option<u32>)
    -> (r: (u32, u32, u32))
    requires
        warp_size * 32 <= u32::MAX,
    ensures
        r.0 == warp_size * 32,
        r.1 == match grid_size_override {
            Some(g) => g,
            None => multiprocessors,
        },
        r.2 == r.1 / 2,
{
    let block_size: u32 = warp_size * 32;
    let grid_size: u32 = match grid_size_override {
        Some(g) => g,
        None => multiprocessors,
    };
    let stream_grid_size: u32 = grid_size / 2;
    (block_size, grid_size, stream_grid_size)
}

/// The relation sizes of the data sets whose sizes this crate defines: the
/// sizes of `Blanas` and `Kim` belong to the external data generator, so
/// they are `None` here.
///
/// `tuple_bytes` is the byte width of one tuple; the large data sets are
/// specified by their total byte volume.
pub fn data_set_lens(
    data_set: ArgDataSet,
    inner_rel_tuples: Option<usize>,
    outer_rel_tuples: Option<usize>,
    tuple_bytes: usize,
) -> (r: Option<(usize, usize)>)
    requires
        1 <= tuple_bytes,
        data_set == ArgDataSet::Custom ==> inner_rel_tuples is Some && outer_rel_tuples is Some,
        (data_set == ArgDataSet::Lutz2Gv32G || data_set == ArgDataSet::Lutz32Gv32G)
            ==> 0x8_0000_0000u64 / (tuple_bytes as u64) <= usize::MAX,
        data_set == ArgDataSet::Blanas4MB ==> 0x1000_0000 <= usize::MAX,
    ensures
        r == match data_set {
            ArgDataSet::Blanas => None::<(usize, usize)>,
            ArgDataSet::Kim => None::<(usize, usize)>,
            ArgDataSet::Blanas4MB => Some(((0x8_0000 as usize), (0x1000_0000 as usize))),
            ArgDataSet::Test => Some((1000usize, 1000usize)),
            ArgDataSet::Lutz2Gv32G => Some(
                (
                    ((0x8000_0000 as int) / (tuple_bytes as int)) as usize,
                    ((0x8_0000_0000 as int) / (tuple_bytes as int)) as usize,
                ),
            ),
            ArgDataSet::Lutz32Gv32G => Some(
                (
                    ((0x8_0000_0000 as int) / (tuple_bytes as int)) as usize,
                    ((0x8_0000_0000 as int) / (tuple_bytes as int)) as usize,
                ),
            ),
            ArgDataSet::Custom => Some((inner_rel_tuples->Some_0, outer_rel_tuples->Some_0)),
        },
{
    match data_set {
        ArgDataSet::Blanas => None,
        ArgDataSet::Kim => None,
        ArgDataSet::Blanas4MB => Some((512 * 1024, 0x1000_0000u64 as usize)),
        ArgDataSet::Test => Some((1000, 1000)),
        ArgDataSet::Lutz2Gv32G => Some(
            (
                (0x8000_0000u64 / (tuple_bytes as u64)) as usize,
                (0x8_0000_0000u64 / (tuple_bytes as u64)) as usize,
            ),
        ),
        ArgDataSet::Lutz32Gv32G => Some(
            (
                (0x8_0000_0000u64 / (tuple_bytes as u64)) as usize,
                (0x8_0000_0000u64 / (tuple_bytes as u64)) as usize,
            ),
        ),
        ArgDataSet::Custom => {
            let inner: usize = match inner_rel_tuples {
                Some(n) => n,
                None => 0,
            };
            let outer: usize = match outer_rel_tuples {
                Some(n) => n,
                None => 0,
            };
            Some((inner, outer))
        },
    }
}

} // verus!
