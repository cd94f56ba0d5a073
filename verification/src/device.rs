//! Compute targets and the dispatch of storage-producing operations.
//!
//! A device is either the host or an accelerator bound to a physical
//! ordinal. The accelerator backend is modeled in-process: a device-resident
//! buffer is carried as the bytes it holds together with the device holding
//! it, so every storage-producing operation is dispatched here and verified
//! once per device kind.

use vstd::prelude::*;
use crate::dtype::DType;
use crate::error::Error;
use crate::shape::{byte_count, prod, prods_fit};
use crate::storage::{CpuStorage, CudaStorage, Storage};

verus! {

/// A physical device location; several `Device` values can share one
/// location.
#[derive(Clone, Copy, Debug, PartialEq, Eq, Hash, Structural)]
pub enum DeviceLocation {
    Cpu,
    Cuda { gpu_id: usize },
}

/// A handle to one accelerator, identified by its physical ordinal.
#[derive(Clone, Copy, Debug, PartialEq, Eq, Structural)]
pub struct CudaDevice {
    pub ordinal: usize,
}

impl CudaDevice {
    pub fn new(ordinal: usize) -> (r: CudaDevice)
        ensures
            r.ordinal == ordinal,
    {
        CudaDevice { ordinal }
    }

    pub fn same_device(&self, rhs: &CudaDevice) -> (r: bool)
        ensures
            r == (self.ordinal == rhs.ordinal),
    {
        self.ordinal == rhs.ordinal
    }

    pub fn location(&self) -> (r: DeviceLocation)
        ensures
            r == (DeviceLocation::Cuda { gpu_id: self.ordinal }),
    {
        DeviceLocation::Cuda { gpu_id: self.ordinal }
    }
}

/// A compute target: the host, or one accelerator.
#[derive(Clone, Copy, Debug, PartialEq, Eq, Structural)]
pub enum Device {
    Cpu,
    Cuda(CudaDevice),
}

impl Device {
    /// Whether two devices are the same physical target: the host matches
    /// the host, an accelerator matches an accelerator of the same ordinal,
    /// and nothing else matches.
    pub open spec fn is_same_device(self, rhs: Device) -> bool {
        match (self, rhs) {
            (Device::Cpu, Device::Cpu) => true,
            (Device::Cuda(l), Device::Cuda(r)) => l.ordinal == r.ordinal,
            _ => false,
        }
    }

    pub open spec fn loc(self) -> DeviceLocation {
        match self {
            Device::Cpu => DeviceLocation::Cpu,
            Device::Cuda(c) => DeviceLocation::Cuda { gpu_id: c.ordinal },
        }
    }

    pub fn new_cuda(ordinal: usize) -> (r: Result<Device, Error>)
        ensures
            r matches Ok(d) && d == Device::Cuda(CudaDevice { ordinal }),
    {
        Ok(Device::Cuda(CudaDevice::new(ordinal)))
    }

    pub fn same_device(&self, rhs: &Device) -> (r: bool)
        ensures
            r == self.is_same_device(*rhs),
    {
        match (self, rhs) {
            (Device::Cpu, Device::Cpu) => true,
            (Device::Cuda(lhs), Device::Cuda(rhs)) => lhs.same_device(rhs),
            _ => false,
        }
    }

    pub fn location(&self) -> (r: DeviceLocation)
        ensures
            r == self.loc(),
    {
        match self {
            Device::Cpu => DeviceLocation::Cpu,
            Device::Cuda(device) => device.location(),
        }
    }

    pub fn is_cuda(&self) -> (r: bool)
        ensures
            r == (*self is Cuda),
    {
        match self {
            Device::Cpu => false,
            Device::Cuda(_) => true,
        }
    }

    /// The accelerator backend is modeled in-process, so an accelerator
    /// handle can always be had.
    pub fn cuda_if_available(ordinal: usize) -> (r: Result<Device, Error>)
        ensures
            r matches Ok(d) && d == Device::Cuda(CudaDevice { ordinal }),
    {
        Device::new_cuda(ordinal)
    }
}

/// One element value that tensor data is made of, carried as little-endian
/// bytes.
pub trait WithDType: Copy + Sized {
    /// The element type such values encode.
    spec fn dt() -> DType;

    /// The little-endian bytes of this value.
    spec fn le(self) -> Seq<u8>;

    /// An element encodes to exactly the element type's width.
    proof fn le_len(self)
        ensures
            self.le().len() == Self::dt().size(),
    ;

    /// The element type such values encode.
    fn dtype_of() -> (r: DType)
        ensures
            r == Self::dt(),
    ;

    /// Append the little-endian bytes of this value.
    fn append_le(self, out: &mut Vec<u8>)
        ensures
            final(out)@ == old(out)@ + self.le(),
    ;
}

impl WithDType for u8 {
    open spec fn dt() -> DType {
        DType::U8
    }

    open spec fn le(self) -> Seq<u8> {
        seq![self]
    }

    proof fn le_len(self) {
    }

    fn dtype_of() -> (r: DType) {
        DType::U8
    }

    fn append_le(self, out: &mut Vec<u8>) {
        out.push(self);
    }
}

impl WithDType for u32 {
    open spec fn dt() -> DType {
        DType::U32
    }

    open spec fn le(self) -> Seq<u8> {
        vstd::bytes::spec_u32_to_le_bytes(self)
    }

    proof fn le_len(self) {
        vstd::bytes::lemma_auto_spec_u32_to_from_le_bytes();
    }

    fn dtype_of() -> (r: DType) {
        DType::U32
    }

    fn append_le(self, out: &mut Vec<u8>) {
        let mut bytes = vstd::bytes::u32_to_le_bytes(self);
        out.append(&mut bytes);
    }
}

/// The little-endian bytes of a sequence of elements, in order.
pub open spec fn le_concat<S: WithDType>(s: Seq<S>) -> Seq<u8>
    decreases s.len(),
{
    if s.len() == 0 {
        Seq::empty()
    } else {
        le_concat(s.drop_last()) + s.last().le()
    }
}

/// A host buffer holding the elements of a slice, in order.
pub fn cpu_storage_of_slice<S: WithDType>(v: &[S]) -> (r: CpuStorage)
    ensures
        r.dtype == S::dt(),
        r.data@ == le_concat(v@),
{
    let mut data: Vec<u8> = Vec::new();
    let mut i: usize = 0;
    while i < v.len()
        invariant
            i <= v@.len(),
            data@ == le_concat(v@.subrange(0, i as int)),
        decreases v@.len() - i,
    {
        proof {
            assert(v@.subrange(0, i + 1).drop_last() =~= v@.subrange(0, i as int));
            assert(v@.subrange(0, i + 1).last() == v@[i as int]);
        }
        let s: S = v[i];
        s.append_le(&mut data);
        i = i + 1;
    }
    proof {
        assert(v@.subrange(0, v@.len() as int) =~= v@);
    }
    CpuStorage { dtype: S::dtype_of(), data }
}

/// A host buffer consuming an owned vector of elements.
pub fn cpu_storage_owned<S: WithDType>(v: Vec<S>) -> (r: CpuStorage)
    ensures
        r.dtype == S::dt(),
        r.data@ == le_concat(v@),
{
    cpu_storage_of_slice(v.as_slice())
}

/// A fixed-shape host value that can be ingested as tensor data: it exposes
/// its extents and converts into a host-resident buffer.
pub trait NdArray {
    /// The element type of the value.
    spec fn model_dtype(&self) -> DType;

    /// The extents of the value.
    spec fn model_shape(&self) -> Seq<usize>;

    /// The little-endian data bytes of the value, row-major.
    spec fn model_bytes(&self) -> Seq<u8>;

    /// The extents of the value.
    fn shape(&self) -> (r: Vec<usize>)
        ensures
            r@ == self.model_shape(),
    ;

    /// A host buffer holding the value's data.
    fn to_cpu_storage(&self) -> (r: CpuStorage)
        ensures
            r.dtype == self.model_dtype(),
            r.data@ == self.model_bytes(),
    ;
}

impl<S: WithDType> NdArray for S {
    open spec fn model_dtype(&self) -> DType {
        S::dt()
    }

    open spec fn model_shape(&self) -> Seq<usize> {
        Seq::empty()
    }

    open spec fn model_bytes(&self) -> Seq<u8> {
        self.le()
    }

    fn shape(&self) -> Vec<usize> {
        Vec::new()
    }

    fn to_cpu_storage(&self) -> (r: CpuStorage) {
        let mut data: Vec<u8> = Vec::new();
        self.append_le(&mut data);
        CpuStorage { dtype: S::dtype_of(), data }
    }
}

impl<S: WithDType> NdArray for &[S] {
    open spec fn model_dtype(&self) -> DType {
        S::dt()
    }

    open spec fn model_shape(&self) -> Seq<usize> {
        seq![(*self)@.len() as usize]
    }

    open spec fn model_bytes(&self) -> Seq<u8> {
        le_concat((*self)@)
    }

    fn shape(&self) -> (r: Vec<usize>) {
        let mut r: Vec<usize> = Vec::new();
        r.push(self.len());
        r
    }

    fn to_cpu_storage(&self) -> (r: CpuStorage) {
        cpu_storage_of_slice(*self)
    }
}

impl<S: WithDType, const N: usize> NdArray for &[S; N] {
    open spec fn model_dtype(&self) -> DType {
        S::dt()
    }

    open spec fn model_shape(&self) -> Seq<usize> {
        seq![N]
    }

    open spec fn model_bytes(&self) -> Seq<u8> {
        le_concat((*self)@)
    }

    fn shape(&self) -> (r: Vec<usize>) {
        let mut r: Vec<usize> = Vec::new();
        r.push(N);
        r
    }

    fn to_cpu_storage(&self) -> (r: CpuStorage) {
        cpu_storage_of_slice(self.as_slice())
    }
}

/// The elements of a sequence of rows, flattened in row order.
pub open spec fn flat2<S, const N: usize>(rows: Seq<[S; N]>) -> Seq<S>
    decreases rows.len(),
{
    if rows.len() == 0 {
        Seq::empty()
    } else {
        flat2(rows.drop_last()) + rows.last()@
    }
}

/// The rows of a sequence of planes, flattened in plane order.
pub open spec fn flat3<S, const N2: usize, const N3: usize>(
    planes: Seq<[[S; N3]; N2]>,
) -> Seq<[S; N3]>
    decreases planes.len(),
{
    if planes.len() == 0 {
        Seq::empty()
    } else {
        flat3(planes.drop_last()) + planes.last()@
    }
}

/// Push every element of a row.
fn push_row<S: Copy, const N: usize>(row: &[S; N], out: &mut Vec<S>)
    ensures
        final(out)@ == old(out)@ + row@,
{
    let mut j: usize = 0;
    while j < N
        invariant
            j <= N,
            row@.len() == N,
            out@ == old(out)@ + row@.subrange(0, j as int),
        decreases N - j,
    {
        let s: S = row[j];
        out.push(s);
        proof {
            assert(row@.subrange(0, j + 1) =~= row@.subrange(0, j as int).push(row@[j as int]));
            assert(out@ =~= old(out)@ + row@.subrange(0, j + 1));
        }
        j = j + 1;
    }
    proof {
        assert(row@.subrange(0, N as int) =~= row@);
    }
}

impl<S: WithDType, const N: usize, const M: usize> NdArray for &[[S; N]; M] {
    open spec fn model_dtype(&self) -> DType {
        S::dt()
    }

    open spec fn model_shape(&self) -> Seq<usize> {
        seq![M, N]
    }

    open spec fn model_bytes(&self) -> Seq<u8> {
        le_concat(flat2((*self)@))
    }

    fn shape(&self) -> (r: Vec<usize>) {
        let mut r: Vec<usize> = Vec::new();
        r.push(M);
        r.push(N);
        r
    }

    fn to_cpu_storage(&self) -> (r: CpuStorage) {
        let mut elems: Vec<S> = Vec::new();
        let mut i: usize = 0;
        while i < M
            invariant
                i <= M,
                (*self)@.len() == M,
                elems@ == flat2((*self)@.subrange(0, i as int)),
            decreases M - i,
        {
            proof {
                assert((*self)@.subrange(0, i + 1).drop_last() =~= (*self)@.subrange(0, i as int));
                assert((*self)@.subrange(0, i + 1).last() == (*self)@[i as int]);
            }
            push_row(&self[i], &mut elems);
            i = i + 1;
        }
        proof {
            assert((*self)@.subrange(0, M as int) =~= (*self)@);
        }
        cpu_storage_owned(elems)
    }
}

impl<S: WithDType, const N1: usize, const N2: usize, const N3: usize> NdArray for &[[[S; N3]; N2];
    N1] {
    open spec fn model_dtype(&self) -> DType {
        S::dt()
    }

    open spec fn model_shape(&self) -> Seq<usize> {
        seq![N1, N2, N3]
    }

    open spec fn model_bytes(&self) -> Seq<u8> {
        le_concat(flat2(flat3((*self)@)))
    }

    fn shape(&self) -> (r: Vec<usize>) {
        let mut r: Vec<usize> = Vec::new();
        r.push(N1);
        r.push(N2);
        r.push(N3);
        r
    }

    fn to_cpu_storage(&self) -> (r: CpuStorage) {
        let mut rows: Vec<[S; N3]> = Vec::new();
        let mut i1: usize = 0;
        while i1 < N1
            invariant
                i1 <= N1,
                (*self)@.len() == N1,
                rows@ == flat3((*self)@.subrange(0, i1 as int)),
            decreases N1 - i1,
        {
            proof {
                assert((*self)@.subrange(0, i1 + 1).drop_last() =~= (*self)@.subrange(
                    0,
                    i1 as int,
                ));
                assert((*self)@.subrange(0, i1 + 1).last() == (*self)@[i1 as int]);
            }
            push_row(&self[i1], &mut rows);
            i1 = i1 + 1;
        }
        proof {
            assert((*self)@.subrange(0, N1 as int) =~= (*self)@);
        }
        let mut elems: Vec<S> = Vec::new();
        let mut i2: usize = 0;
        while i2 < rows.len()
            invariant
                i2 <= rows@.len(),
                elems@ == flat2(rows@.subrange(0, i2 as int)),
            decreases rows@.len() - i2,
        {
            proof {
                assert(rows@.subrange(0, i2 + 1).drop_last() =~= rows@.subrange(0, i2 as int));
                assert(rows@.subrange(0, i2 + 1).last() == rows@[i2 as int]);
            }
            push_row(&rows[i2], &mut elems);
            i2 = i2 + 1;
        }
        proof {
            assert(rows@.subrange(0, rows@.len() as int) =~= rows@);
        }
        cpu_storage_owned(elems)
    }
}

impl Device {
    /// An all-zero buffer for the given shape and element type, placed on
    /// this device.
    pub fn zeros(&self, shape: &Vec<usize>, dtype: DType) -> (r: Result<Storage, Error>)
        ensures
            r is Ok <==> prods_fit(shape@) && prod(shape@) * dtype.size() <= usize::MAX,
            r matches Ok(s) ==> s@.dtype == dtype && s@.device == *self && s@.data == Seq::new(
                (prod(shape@) * dtype.size()) as nat,
                |i: int| 0u8,
            ),
            r matches Err(e) ==> e is UnsupportedOperation,
    {
        let n = match byte_count(shape, dtype.size_in_bytes()) {
            Some(n) => n,
            None => {
                return Err(
                    Error::UnsupportedOperation {
                        reason: "tensor byte size leaves usize".to_owned(),
                    },
                );
            },
        };
        let mut data: Vec<u8> = Vec::new();
        let mut i: usize = 0;
        while i < n
            invariant
                i <= n,
                data@ =~= Seq::new(i as nat, |j: int| 0u8),
            decreases n - i,
        {
            data.push(0u8);
            i = i + 1;
        }
        Ok(Storage::place(CpuStorage { dtype, data }, self))
    }

    /// An all-one buffer for the given shape and element type, placed on
    /// this device: the one-pattern of the element type, repeated once per
    /// element.
    pub fn ones(&self, shape: &Vec<usize>, dtype: DType) -> (r: Result<Storage, Error>)
        ensures
            r is Ok <==> prods_fit(shape@) && prod(shape@) * dtype.size() <= usize::MAX,
            r matches Ok(s) ==> s@.dtype == dtype && s@.device == *self && s@.data == repeated(
                one_bytes(dtype),
                prod(shape@) as nat,
            ),
            r matches Err(e) ==> e is UnsupportedOperation,
    {
        let count = match byte_count(shape, dtype.size_in_bytes()) {
            Some(_) => {
                match crate::shape::elem_count(shape) {
                    Some(n) => n,
                    None => {
                        return Err(
                            Error::UnsupportedOperation {
                                reason: "tensor byte size leaves usize".to_owned(),
                            },
                        );
                    },
                }
            },
            None => {
                return Err(
                    Error::UnsupportedOperation {
                        reason: "tensor byte size leaves usize".to_owned(),
                    },
                );
            },
        };
        let pat = one_pattern(dtype);
        let mut data: Vec<u8> = Vec::new();
        let mut i: usize = 0;
        while i < count
            invariant
                i <= count,
                pat@ == one_bytes(dtype),
                data@ == repeated(one_bytes(dtype), i as nat),
            decreases count - i,
        {
            let mut j: usize = 0;
            while j < pat.len()
                invariant
                    j <= pat@.len(),
                    pat@ == one_bytes(dtype),
                    data@ == repeated(one_bytes(dtype), i as nat) + pat@.subrange(0, j as int),
                decreases pat@.len() - j,
            {
                data.push(pat[j]);
                proof {
                    assert(pat@.subrange(0, j + 1) =~= pat@.subrange(0, j as int).push(pat@[
                        j as int]));
                    assert(data@ =~= repeated(one_bytes(dtype), i as nat) + pat@.subrange(
                        0,
                        j + 1,
                    ));
                }
                j = j + 1;
            }
            proof {
                assert(pat@.subrange(0, pat@.len() as int) =~= pat@);
                assert(data@ =~= repeated(one_bytes(dtype), (i + 1) as nat));
            }
            i = i + 1;
        }
        Ok(Storage::place(CpuStorage { dtype, data }, self))
    }

    /// A buffer of the right size filled from the entropy source, placed on
    /// this device. The shaping of the fill into a uniform sample is the
    /// numeric backend's work on element values, of which nothing is
    /// promised here.
    pub fn rand_uniform(&self, shape: &Vec<usize>, dtype: DType) -> (r: Result<Storage, Error>)
        ensures
            r is Ok <==> prods_fit(shape@) && prod(shape@) * dtype.size() <= usize::MAX,
            r matches Ok(s) ==> s@.dtype == dtype && s@.device == *self && s@.data.len() == prod(
                shape@,
            ) * dtype.size(),
            r matches Err(e) ==> e is UnsupportedOperation,
    {
        let n = match byte_count(shape, dtype.size_in_bytes()) {
            Some(n) => n,
            None => {
                return Err(
                    Error::UnsupportedOperation {
                        reason: "tensor byte size leaves usize".to_owned(),
                    },
                );
            },
        };
        let data = crate::rng::random_bytes(n);
        Ok(Storage::place(CpuStorage { dtype, data }, self))
    }

    /// A buffer of the right size filled from the entropy source, placed on
    /// this device. The shaping of the fill into a normal sample is the
    /// numeric backend's work on element values, of which nothing is
    /// promised here.
    pub fn rand_normal(&self, shape: &Vec<usize>, dtype: DType) -> (r: Result<Storage, Error>)
        ensures
            r is Ok <==> prods_fit(shape@) && prod(shape@) * dtype.size() <= usize::MAX,
            r matches Ok(s) ==> s@.dtype == dtype && s@.device == *self && s@.data.len() == prod(
                shape@,
            ) * dtype.size(),
            r matches Err(e) ==> e is UnsupportedOperation,
    {
        let n = match byte_count(shape, dtype.size_in_bytes()) {
            Some(n) => n,
            None => {
                return Err(
                    Error::UnsupportedOperation {
                        reason: "tensor byte size leaves usize".to_owned(),
                    },
                );
            },
        };
        let data = crate::rng::random_bytes(n);
        Ok(Storage::place(CpuStorage { dtype, data }, self))
    }

    /// Ingest a fixed-shape host value: the host consumes its buffer
    /// directly, an accelerator receives a transfer of it.
    pub fn storage<A: NdArray>(&self, array: A) -> (r: Result<Storage, Error>)
        ensures
            r matches Ok(s) && s@.dtype == array.model_dtype() && s@.device == *self && s@.data
                == array.model_bytes(),
    {
        let cpu = array.to_cpu_storage();
        Ok(Storage::place(cpu, self))
    }

    /// Ingest an owned host vector of elements as a flat buffer.
    pub fn storage_owned<S: WithDType>(&self, data: Vec<S>) -> (r: Result<Storage, Error>)
        ensures
            r matches Ok(s) && s@.dtype == S::dt() && s@.device == *self && s@.data == le_concat(
                data@,
            ),
    {
        let cpu = cpu_storage_owned(data);
        Ok(Storage::place(cpu, self))
    }
}

/// The little-endian encoding of the value one in each element type.
pub open spec fn one_bytes(d: DType) -> Seq<u8> {
    match d {
        DType::U8 => seq![1u8],
        DType::U32 => seq![1u8, 0u8, 0u8, 0u8],
        DType::BF16 => seq![0x80u8, 0x3fu8],
        DType::F16 => seq![0x00u8, 0x3cu8],
        DType::F32 => seq![0x00u8, 0x00u8, 0x80u8, 0x3fu8],
        DType::F64 => seq![0u8, 0u8, 0u8, 0u8, 0u8, 0u8, 0xf0u8, 0x3fu8],
    }
}

/// A pattern, repeated `n` times.
pub open spec fn repeated(pattern: Seq<u8>, n: nat) -> Seq<u8>
    decreases n,
{
    if n == 0 {
        Seq::empty()
    } else {
        repeated(pattern, (n - 1) as nat) + pattern
    }
}

pub proof fn lemma_repeated_len(p: Seq<u8>, n: nat)
    ensures
        repeated(p, n).len() == n * p.len(),
    decreases n,
{
    if n > 0 {
        lemma_repeated_len(p, (n - 1) as nat);
        assert(repeated(p, n) == repeated(p, (n - 1) as nat) + p);
        assert(repeated(p, n).len() == (n - 1) as nat * p.len() + p.len());
        assert(n * p.len() == (n - 1) as nat * p.len() + p.len()) by (nonlinear_arith)
            requires
                n > 0,
        ;
    } else {
        assert(n * p.len() == 0) by (nonlinear_arith)
            requires
                n == 0,
        ;
    }
}

pub proof fn lemma_one_bytes_len(d: DType)
    ensures
        one_bytes(d).len() == d.size(),
{
}

/// The one-pattern of an element type.
fn one_pattern(d: DType) -> (r: Vec<u8>)
    ensures
        r@ == one_bytes(d),
{
    let mut r: Vec<u8> = Vec::new();
    match d {
        DType::U8 => {
            r.push(1u8);
        },
        DType::U32 => {
            r.push(1u8);
            r.push(0u8);
            r.push(0u8);
            r.push(0u8);
        },
        DType::BF16 => {
            r.push(0x80u8);
            r.push(0x3fu8);
        },
        DType::F16 => {
            r.push(0x00u8);
            r.push(0x3cu8);
        },
        DType::F32 => {
            r.push(0x00u8);
            r.push(0x00u8);
            r.push(0x80u8);
            r.push(0x3fu8);
        },
        DType::F64 => {
            r.push(0u8);
            r.push(0u8);
            r.push(0u8);
            r.push(0u8);
            r.push(0u8);
            r.push(0u8);
            r.push(0xf0u8);
            r.push(0x3fu8);
        },
    }
    proof {
        assert(r@ =~= one_bytes(d));
    }
    r
}

} // verus!
