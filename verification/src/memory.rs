use vstd::prelude::*;

verus! {

/// The kind of storage backing a memory buffer.
///
/// System memory and CUDA unified memory are host-addressable; CUDA device
/// memory is addressable only from the device, so host-side code must not
/// dereference it.
#[derive(Clone, Copy, Debug, PartialEq, Eq, Structural)]
pub enum MemType {
    SysMem,
    CudaDevMem,
    CudaUniMem,
}

/// A typed memory buffer on one of the supported storage backends.
///
/// The partitioning operator is agnostic to the backend a buffer lives on;
/// only host-side dereferencing distinguishes them, since device memory is
/// not host-addressable.
#[derive(Debug)]
pub enum Mem<T> {
    /// System memory allocated by the host.
    SysMem(Vec<T>),
    /// CUDA device memory; not addressable from the host.
    CudaDevMem(Vec<T>),
    /// CUDA unified memory, addressable from host and device alike.
    CudaUniMem(Vec<T>),
}

impl<T> View for Mem<T> {
    type V = Seq<T>;

    open spec fn view(&self) -> Seq<T> {
        match self {
            Mem::SysMem(v) => v@,
            Mem::CudaDevMem(v) => v@,
            Mem::CudaUniMem(v) => v@,
        }
    }
}

impl<T> Mem<T> {
    /// The kind of storage backing this buffer.
    pub open spec fn spec_mem_type(&self) -> MemType {
        match self {
            Mem::SysMem(_) => MemType::SysMem,
            Mem::CudaDevMem(_) => MemType::CudaDevMem,
            Mem::CudaUniMem(_) => MemType::CudaUniMem,
        }
    }

    /// True when the buffer can be dereferenced by host-side code.
    pub open spec fn spec_host_addressable(&self) -> bool {
        self.spec_mem_type() != MemType::CudaDevMem
    }

    /// Returns the number of elements the buffer holds.
    pub fn len(&self) -> (n: usize)
        ensures
            n == self@.len(),
    {
        match self {
            Mem::SysMem(m) => m.len(),
            Mem::CudaDevMem(m) => m.len(),
            Mem::CudaUniMem(m) => m.len(),
        }
    }

    /// Identifies the concrete buffer type held inside, so that callers can
    /// recover the backend-specific handle.
    pub fn as_any(&self) -> (t: MemType)
        ensures
            t == self.spec_mem_type(),
    {
        match self {
            Mem::SysMem(_) => MemType::SysMem,
            Mem::CudaDevMem(_) => MemType::CudaDevMem,
            Mem::CudaUniMem(_) => MemType::CudaUniMem,
        }
    }

    /// Borrows the buffer as a host slice, or returns `None` for device
    /// memory, which the host must not dereference.
    pub fn try_as_slice(&self) -> (r: Option<&[T]>)
        ensures
            match r {
                Some(s) => self.spec_host_addressable() && s@ == self@,
                None => !self.spec_host_addressable(),
            },
    {
        match self {
            Mem::SysMem(m) => Some(m.as_slice()),
            Mem::CudaDevMem(_) => None,
            Mem::CudaUniMem(m) => Some(m.as_slice()),
        }
    }

    /// Allocates a zero-initialized buffer of `len` elements of the given
    /// kind, `value` being the zero element.
    pub fn allocate(mem_type: MemType, len: usize, value: T) -> (m: Mem<T>)
        where T: Copy
        ensures
            m.spec_mem_type() == mem_type,
            m@ =~= Seq::new(len as nat, |i: int| value),
    {
        let mut v: Vec<T> = Vec::with_capacity(len);
        let mut i: usize = 0;
        while i < len
            invariant
                i <= len,
                v@ =~= Seq::new(i as nat, |k: int| value),
            decreases len - i,
        {
            v.push(value);
            i = i + 1;
        }
        match mem_type {
            MemType::SysMem => Mem::SysMem(v),
            MemType::CudaDevMem => Mem::CudaDevMem(v),
            MemType::CudaUniMem => Mem::CudaUniMem(v),
        }
    }

    /// Overwrites the element at index `i`.
    ///
    /// This models a device-side store: it is available on every backend,
    /// since the partitioning kernels write device and host memory alike.
    pub fn write(&mut self, i: usize, value: T)
        requires
            i < old(self)@.len(),
        ensures
            final(self)@ =~= old(self)@.update(i as int, value),
            final(self).spec_mem_type() == old(self).spec_mem_type(),
    {
        match self {
            Mem::SysMem(m) => {
                m[i] = value;
            },
            Mem::CudaDevMem(m) => {
                m[i] = value;
            },
            Mem::CudaUniMem(m) => {
                m[i] = value;
            },
        }
    }

    /// Reads the element at index `i`.
    ///
    /// This models a device-side load and is available on every backend.
    pub fn read(&self, i: usize) -> (r: &T)
        requires
            i < self@.len(),
        ensures
            r == self@[i as int],
    {
        match self {
            Mem::SysMem(m) => &m[i],
            Mem::CudaDevMem(m) => &m[i],
            Mem::CudaUniMem(m) => &m[i],
        }
    }
}

/// A memory buffer guaranteed to be host-addressable, so that it can be
/// dereferenced as a slice without failure.
#[derive(Debug)]
pub enum DerefMem<T> {
    /// System memory allocated by the host.
    SysMem(Vec<T>),
    /// CUDA unified memory, addressable from host and device alike.
    CudaUniMem(Vec<T>),
}

impl<T> View for DerefMem<T> {
    type V = Seq<T>;

    open spec fn view(&self) -> Seq<T> {
        match self {
            DerefMem::SysMem(v) => v@,
            DerefMem::CudaUniMem(v) => v@,
        }
    }
}

impl<T> DerefMem<T> {
    /// Borrows the buffer as a host slice.
    pub fn deref(&self) -> (s: &[T])
        ensures
            s@ == self@,
    {
        match self {
            DerefMem::SysMem(m) => m.as_slice(),
            DerefMem::CudaUniMem(m) => m.as_slice(),
        }
    }
}

impl<T> From<DerefMem<T>> for Mem<T> {
    fn from(demem: DerefMem<T>) -> (m: Mem<T>) {
        match demem {
            DerefMem::SysMem(m) => Mem::SysMem(m),
            DerefMem::CudaUniMem(m) => Mem::CudaUniMem(m),
        }
    }
}

impl<T> vstd::std_specs::convert::FromSpecImpl<DerefMem<T>> for Mem<T> {
    open spec fn obeys_from_spec() -> bool {
        true
    }

    open spec fn from_spec(demem: DerefMem<T>) -> Mem<T> {
        match demem {
            DerefMem::SysMem(m) => Mem::SysMem(m),
            DerefMem::CudaUniMem(m) => Mem::CudaUniMem(m),
        }
    }
}

} // verus!
