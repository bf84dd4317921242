//! Plain data types of the CUDA runtime interface.

use vstd::prelude::*;

verus! {

/// Status codes the runtime reports.
#[derive(Debug, Clone, Copy, PartialEq, Eq, Structural)]
pub enum CudaError {
    Success,
    MemoryAllocation,
}

impl CudaError {
    /// The numeric code of the status, as the C interface reports it.
    pub fn code(&self) -> (c: i32)
        ensures
            c == (match self {
                CudaError::Success => 0i32,
                CudaError::MemoryAllocation => 2i32,
            }),
    {
        match self {
            CudaError::Success => 0,
            CudaError::MemoryAllocation => 2,
        }
    }
}

/// Opaque context handle.
#[allow(non_camel_case_types)]
pub struct CUctx_st {
    _junk: (),
}

/// Opaque module handle.
#[allow(non_camel_case_types)]
pub struct CUmod_st {
    _junk: (),
}

/// Opaque function handle.
#[allow(non_camel_case_types)]
pub struct CUfunc_st {
    _junk: (),
}

/// Opaque stream handle.
#[allow(non_camel_case_types)]
pub struct CUstream_st {
    _junk: (),
}

/// Opaque kernel handle.
#[allow(non_camel_case_types)]
pub struct cudaKernel_t {
    _junk: (),
}

/// A three-component unsigned vector.
#[allow(non_camel_case_types)]
#[derive(Debug, Clone, Copy, PartialEq, Eq, Structural)]
pub struct uint3 {
    pub x: u32,
    pub y: u32,
    pub z: u32,
}

/// Grid or block dimensions.
#[allow(non_camel_case_types)]
#[derive(Debug, Clone, Copy, PartialEq, Eq, Structural)]
pub struct dim3 {
    pub x: u32,
    pub y: u32,
    pub z: u32,
}

impl dim3 {
    /// The all-zero dimensions.
    pub fn zero() -> (d: dim3)
        ensures
            d == (dim3 { x: 0, y: 0, z: 0 }),
    {
        dim3 { x: 0, y: 0, z: 0 }
    }
}

/// Direction of a memory copy.
#[derive(Debug, Clone, Copy, PartialEq, Eq, Structural)]
pub enum CUmemcpyKind {
    HostToHost,
    HostToDevice,
    DeviceToHost,
    DeviceToDevice,
}

impl CUmemcpyKind {
    /// The copy direction with the given C code (0 to 3), if any.
    pub fn from_code(code: u32) -> (k: Option<CUmemcpyKind>)
        ensures
            k == (if code == 0 {
                Some(CUmemcpyKind::HostToHost)
            } else if code == 1 {
                Some(CUmemcpyKind::HostToDevice)
            } else if code == 2 {
                Some(CUmemcpyKind::DeviceToHost)
            } else if code == 3 {
                Some(CUmemcpyKind::DeviceToDevice)
            } else {
                None
            }),
    {
        if code == 0 {
            Some(CUmemcpyKind::HostToHost)
        } else if code == 1 {
            Some(CUmemcpyKind::HostToDevice)
        } else if code == 2 {
            Some(CUmemcpyKind::DeviceToHost)
        } else if code == 3 {
            Some(CUmemcpyKind::DeviceToDevice)
        } else {
            None
        }
    }
}

} // verus!
