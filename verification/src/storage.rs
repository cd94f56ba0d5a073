//! Device-resident data buffers.
//!
//! Every buffer carries raw little-endian element bytes together with its
//! element type; an accelerator buffer also carries the device holding it.

use vstd::prelude::*;
use crate::device::{CudaDevice, Device};
use crate::dtype::DType;

verus! {

/// What a storage is: its element type, its placement, and its bytes.
pub ghost struct StorageModel {
    pub dtype: DType,
    pub device: Device,
    pub data: Seq<u8>,
}

/// A host-resident buffer of raw element bytes.
pub struct CpuStorage {
    pub dtype: DType,
    pub data: Vec<u8>,
}

/// A model of a device-resident buffer: the bytes it holds and the device
/// holding it.
pub struct CudaStorage {
    pub device: CudaDevice,
    pub dtype: DType,
    pub data: Vec<u8>,
}

/// A buffer on either kind of device.
pub enum Storage {
    Cpu(CpuStorage),
    Cuda(CudaStorage),
}

impl View for Storage {
    type V = StorageModel;

    open spec fn view(&self) -> StorageModel {
        match *self {
            Storage::Cpu(s) => StorageModel { dtype: s.dtype, device: Device::Cpu, data: s.data@ },
            Storage::Cuda(s) => StorageModel {
                dtype: s.dtype,
                device: Device::Cuda(s.device),
                data: s.data@,
            },
        }
    }
}

impl Storage {
    pub fn dtype(&self) -> (r: DType)
        ensures
            r == self@.dtype,
    {
        match self {
            Storage::Cpu(s) => s.dtype,
            Storage::Cuda(s) => s.dtype,
        }
    }

    pub fn device(&self) -> (r: Device)
        ensures
            r == self@.device,
    {
        match self {
            Storage::Cpu(_) => Device::Cpu,
            Storage::Cuda(s) => Device::Cuda(s.device),
        }
    }

    pub fn data(&self) -> (r: &Vec<u8>)
        ensures
            r@ == self@.data,
    {
        match self {
            Storage::Cpu(s) => &s.data,
            Storage::Cuda(s) => &s.data,
        }
    }

    /// Place a host buffer on the given device: the host consumes it
    /// directly, an accelerator receives a transfer of it.
    pub fn place(cpu: CpuStorage, device: &Device) -> (r: Storage)
        ensures
            r@.dtype == cpu.dtype,
            r@.device == *device,
            r@.data == cpu.data@,
    {
        match device {
            Device::Cpu => Storage::Cpu(cpu),
            Device::Cuda(c) => Storage::Cuda(
                CudaStorage { device: *c, dtype: cpu.dtype, data: cpu.data },
            ),
        }
    }
}

} // verus!
