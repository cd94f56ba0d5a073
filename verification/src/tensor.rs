//! Immutable tensor handles.
//!
//! A tensor is a shape over a device-placed, dtype-tagged data buffer; its
//! data length always equals its element count times its element width.

use vstd::prelude::*;
use crate::device::Device;
use crate::dtype::DType;
use crate::error::Error;
use crate::shape::{byte_count, prod, prods_fit};
use crate::storage::{CpuStorage, Storage};

verus! {

/// What a tensor is: its element type, placement, extents and data bytes.
pub ghost struct TensorModel {
    pub dtype: DType,
    pub device: Device,
    pub shape: Seq<usize>,
    pub data: Seq<u8>,
}

impl TensorModel {
    /// A well-formed tensor: the running element count stays within `usize`
    /// and the data length is the element count times the element width.
    pub open spec fn wf(self) -> bool {
        prods_fit(self.shape) && self.data.len() == prod(self.shape) * self.dtype.size()
    }
}

/// An immutable handle on shaped, device-placed data.
pub struct Tensor {
    storage: Storage,
    shape: Vec<usize>,
}

impl View for Tensor {
    type V = TensorModel;

    closed spec fn view(&self) -> TensorModel {
        TensorModel {
            dtype: self.storage@.dtype,
            device: self.storage@.device,
            shape: self.shape@,
            data: self.storage@.data,
        }
    }
}

impl Tensor {
    /// Every tensor's model is well formed; constructors establish this
    /// and nothing can break it.
    #[verifier::type_invariant]
    pub open spec fn type_inv(self) -> bool {
        self@.wf()
    }

    /// Wrap a storage at the given shape; the data length must be the
    /// element count times the element width.
    pub fn from_storage(storage: Storage, shape: Vec<usize>) -> (r: Result<Tensor, Error>)
        ensures
            r is Ok <==> prods_fit(shape@) && storage@.data.len() == prod(shape@)
                * storage@.dtype.size(),
            r matches Ok(t) ==> t@ == (TensorModel {
                dtype: storage@.dtype,
                device: storage@.device,
                shape: shape@,
                data: storage@.data,
            }),
    {
        let len = storage.data().len();
        match byte_count(&shape, storage.dtype().size_in_bytes()) {
            Some(n) if n == len => Ok(Tensor { storage, shape }),
            _ => Err(
                Error::UnsupportedOperation {
                    reason: "data length does not match the declared shape".to_owned(),
                },
            ),
        }
    }

    /// Build a tensor from raw little-endian bytes, tagged with the given
    /// element type and shape and placed on the given device.
    pub fn from_raw_buffer(data: Vec<u8>, dtype: DType, shape: &Vec<usize>, device: &Device) -> (r:
        Result<Tensor, Error>)
        ensures
            r is Ok <==> prods_fit(shape@) && data@.len() == prod(shape@) * dtype.size(),
            r matches Ok(t) ==> t@ == (TensorModel {
                dtype,
                device: *device,
                shape: shape@,
                data: data@,
            }),
    {
        let storage = Storage::place(CpuStorage { dtype, data }, device);
        Tensor::from_storage(storage, copy_dims(shape))
    }

    /// An all-zero tensor of the given shape and element type on the given
    /// device.
    pub fn zeros(shape: &Vec<usize>, dtype: DType, device: &Device) -> (r: Result<Tensor, Error>)
        ensures
            r is Ok <==> prods_fit(shape@) && prod(shape@) * dtype.size() <= usize::MAX,
            r matches Ok(t) ==> t@ == (TensorModel {
                dtype,
                device: *device,
                shape: shape@,
                data: Seq::new((prod(shape@) * dtype.size()) as nat, |i: int| 0u8),
            }),
    {
        let storage = device.zeros(shape, dtype)?;
        proof {
            crate::shape::lemma_prod_nonneg(shape@);
            vstd::arithmetic::mul::lemma_mul_nonnegative(prod(shape@), dtype.size() as int);
        }
        let shape2 = copy_dims(shape);
        match Tensor::from_storage(storage, shape2) {
            Ok(t) => Ok(t),
            Err(e) => Err(e),
        }
    }

    /// The extents of the tensor.
    pub fn shape(&self) -> (r: &Vec<usize>)
        ensures
            r@ == self@.shape,
            self@.wf(),
    {
        proof {
            use_type_invariant(self);
        }
        &self.shape
    }

    /// The element type of the tensor.
    pub fn dtype(&self) -> (r: DType)
        ensures
            r == self@.dtype,
    {
        self.storage.dtype()
    }

    /// The device holding the tensor.
    pub fn device(&self) -> (r: Device)
        ensures
            r == self@.device,
    {
        self.storage.device()
    }

    /// The raw little-endian data bytes of the tensor; their length always
    /// matches the shape, since every tensor is well formed.
    pub fn data(&self) -> (r: &Vec<u8>)
        ensures
            r@ == self@.data,
            self@.wf(),
    {
        proof {
            use_type_invariant(self);
        }
        self.storage.data()
    }
}

impl Clone for Tensor {
    fn clone(&self) -> (r: Tensor)
        ensures
            r@ == self@,
    {
        proof {
            use_type_invariant(self);
        }
        let storage = match &self.storage {
            Storage::Cpu(s) => Storage::Cpu(CpuStorage { dtype: s.dtype, data: copy_bytes(&s.data) }),
            Storage::Cuda(s) => Storage::Cuda(
                crate::storage::CudaStorage {
                    device: s.device,
                    dtype: s.dtype,
                    data: copy_bytes(&s.data),
                },
            ),
        };
        Tensor { storage, shape: copy_dims(&self.shape) }
    }
}

/// A fresh copy of a byte buffer.
pub fn copy_bytes(v: &Vec<u8>) -> (r: Vec<u8>)
    ensures
        r@ == v@,
{
    let mut r: Vec<u8> = Vec::new();
    let mut i: usize = 0;
    while i < v.len()
        invariant
            i <= v@.len(),
            r@ == v@.subrange(0, i as int),
        decreases v@.len() - i,
    {
        r.push(v[i]);
        proof {
            assert(r@ =~= v@.subrange(0, i + 1));
        }
        i = i + 1;
    }
    proof {
        assert(v@.subrange(0, v@.len() as int) =~= v@);
    }
    r
}

/// A fresh copy of a shape.
pub fn copy_dims(v: &Vec<usize>) -> (r: Vec<usize>)
    ensures
        r@ == v@,
{
    let mut r: Vec<usize> = Vec::new();
    let mut i: usize = 0;
    while i < v.len()
        invariant
            i <= v@.len(),
            r@ == v@.subrange(0, i as int),
        decreases v@.len() - i,
    {
        r.push(v[i]);
        proof {
            assert(r@ =~= v@.subrange(0, i + 1));
        }
        i = i + 1;
    }
    proof {
        assert(v@.subrange(0, v@.len() as int) =~= v@);
    }
    r
}

} // verus!
