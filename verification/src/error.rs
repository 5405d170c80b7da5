use vstd::prelude::*;

verus! {

/// Errors reported by the radix partitioning operator.
///
/// Every failure path of the operator returns one of these; no error is
/// swallowed. `InvalidArgument` reports caller misconfiguration detected
/// before any work is dispatched, `DeviceCapability` reports an algorithm or
/// configuration that the present platform cannot run, `AllocationFailure`
/// reports scratch or output buffers that could not be obtained, and
/// `ExecutionFailure` reports a fault in the dispatched work itself.
#[derive(Clone, Debug)]
pub enum ErrorKind {
    InvalidArgument(String),
    DeviceCapability(String),
    AllocationFailure(String),
    ExecutionFailure(String),
}

impl ErrorKind {
    /// The human-readable message carried by the error.
    pub fn message(&self) -> (m: &String)
        ensures
            m == match self {
                ErrorKind::InvalidArgument(s) => s,
                ErrorKind::DeviceCapability(s) => s,
                ErrorKind::AllocationFailure(s) => s,
                ErrorKind::ExecutionFailure(s) => s,
            },
    {
        match self {
            ErrorKind::InvalidArgument(s) => s,
            ErrorKind::DeviceCapability(s) => s,
            ErrorKind::AllocationFailure(s) => s,
            ErrorKind::ExecutionFailure(s) => s,
        }
    }

    /// True exactly of the `InvalidArgument` variant.
    pub fn is_invalid_argument(&self) -> (b: bool)
        ensures
            b == (self matches ErrorKind::InvalidArgument(_)),
    {
        match self {
            ErrorKind::InvalidArgument(_) => true,
            _ => false,
        }
    }

    /// True exactly of the `DeviceCapability` variant.
    pub fn is_device_capability(&self) -> (b: bool)
        ensures
            b == (self matches ErrorKind::DeviceCapability(_)),
    {
        match self {
            ErrorKind::DeviceCapability(_) => true,
            _ => false,
        }
    }

    /// True exactly of the `AllocationFailure` variant.
    pub fn is_allocation_failure(&self) -> (b: bool)
        ensures
            b == (self matches ErrorKind::AllocationFailure(_)),
    {
        match self {
            ErrorKind::AllocationFailure(_) => true,
            _ => false,
        }
    }
}

} // verus!
