//! Element types of tensor data.

use vstd::prelude::*;

verus! {

/// The element type of a tensor's data buffer.
///
/// Values of every element type are carried as raw little-endian bytes, so
/// the type is a tag that fixes the width of one element.
#[derive(Clone, Copy, Debug, PartialEq, Eq, Structural)]
pub enum DType {
    U8,
    U32,
    BF16,
    F16,
    F32,
    F64,
}

impl DType {
    /// The width of one element, in bytes.
    pub open spec fn size(self) -> nat {
        match self {
            DType::U8 => 1,
            DType::U32 => 4,
            DType::BF16 => 2,
            DType::F16 => 2,
            DType::F32 => 4,
            DType::F64 => 8,
        }
    }

    /// The width of one element, in bytes.
    pub fn size_in_bytes(self) -> (r: usize)
        ensures
            r == self.size(),
    {
        match self {
            DType::U8 => 1,
            DType::U32 => 4,
            DType::BF16 => 2,
            DType::F16 => 2,
            DType::F32 => 4,
            DType::F64 => 8,
        }
    }
}

} // verus!
