//! Initialization policies for newly created variables.

use vstd::prelude::*;
use crate::device::{one_bytes, repeated, Device};
use crate::dtype::DType;
use crate::error::Error;
use crate::shape::{prod, prods_fit};
use crate::tensor::{Tensor, TensorModel};
use crate::variable::Variable;

verus! {

/// How a missing variable is materialized: all zeros, all ones, or a fill
/// from the entropy source. The shaping of a random fill into a uniform or
/// normal sample is the numeric backend's work on element values, of which
/// nothing is promised here.
#[derive(Clone, Copy, Debug, PartialEq, Eq, Structural)]
pub enum Init {
    Zeros,
    Ones,
    RandUniform,
    RandNormal,
}

impl Init {
    /// Materialize a fresh variable of the given shape, element type and
    /// device under this policy.
    pub fn var(self, shape: &Vec<usize>, dtype: DType, device: &Device) -> (r: Result<
        Variable,
        Error,
    >)
        ensures
            r is Ok <==> prods_fit(shape@) && prod(shape@) * dtype.size() <= usize::MAX,
            r matches Ok(v) ==> v@.shape == shape@ && v@.dtype == dtype && v@.device == *device
                && v@.wf(),
            self is Zeros ==> (r matches Ok(v) ==> v@.data == Seq::new(
                (prod(shape@) * dtype.size()) as nat,
                |i: int| 0u8,
            )),
            self is Ones ==> (r matches Ok(v) ==> v@.data == repeated(
                one_bytes(dtype),
                prod(shape@) as nat,
            )),
            r matches Err(e) ==> e is UnsupportedOperation,
    {
        let storage = match self {
            Init::Zeros => device.zeros(shape, dtype)?,
            Init::Ones => device.ones(shape, dtype)?,
            Init::RandUniform => device.rand_uniform(shape, dtype)?,
            Init::RandNormal => device.rand_normal(shape, dtype)?,
        };
        proof {
            crate::shape::lemma_prod_nonneg(shape@);
            vstd::arithmetic::mul::lemma_mul_nonnegative(prod(shape@), dtype.size() as int);
            crate::device::lemma_one_bytes_len(dtype);
            crate::device::lemma_repeated_len(one_bytes(dtype), prod(shape@) as nat);
            vstd::arithmetic::mul::lemma_mul_is_commutative(prod(shape@), dtype.size() as int);
        }
        match Tensor::from_storage(storage, crate::tensor::copy_dims(shape)) {
            Ok(t) => Ok(Variable::new(t)),
            Err(e) => Err(e),
        }
    }
}

} // verus!
