//! Mutable single-slot containers for tensors.

use vstd::prelude::*;
use crate::error::Error;
use crate::tensor::{Tensor, TensorModel};

verus! {

/// A variable is a wrapper around a tensor, however variables can have their
/// content modified whereas tensors are immutable. A replacement must keep
/// the shape, element type and device of the original.
pub struct Variable {
    tensor: Tensor,
}

impl View for Variable {
    type V = TensorModel;

    closed spec fn view(&self) -> TensorModel {
        self.tensor@
    }
}

impl Variable {
    /// Wrap a tensor as a fresh variable.
    pub fn new(tensor: Tensor) -> (r: Variable)
        ensures
            r@ == tensor@,
    {
        Variable { tensor }
    }

    /// The current value; its model is well formed, as every tensor's is.
    pub fn as_tensor(&self) -> (r: &Tensor)
        ensures
            r@ == self@,
            self@.wf(),
    {
        proof {
            use_type_invariant(&self.tensor);
        }
        &self.tensor
    }

    /// Consumes this `Variable` and return the underlying tensor.
    pub fn into_inner(self) -> (r: Tensor)
        ensures
            r@ == self@,
    {
        self.tensor
    }

    /// Replace the value as a whole. The new value must agree with the old
    /// one on shape, element type and device; on failure nothing changes.
    pub fn set(&mut self, value: &Tensor) -> (r: Result<(), Error>)
        ensures
            r is Ok <==> value@.shape == old(self)@.shape && value@.dtype == old(self)@.dtype
                && value@.device == old(self)@.device,
            r is Ok ==> final(self)@ == value@,
            r is Err ==> final(self)@ == old(self)@,
            r matches Err(e) ==> (e is ShapeMismatch || e is UnsupportedOperation
                || e is DeviceMismatch),
    {
        if !crate::shape::dims_eq(value.shape(), self.tensor.shape()) {
            return Err(
                Error::ShapeMismatch {
                    path: String::new(),
                    expected: crate::tensor::copy_dims(self.tensor.shape()),
                    got: crate::tensor::copy_dims(value.shape()),
                },
            );
        }
        if value.dtype() != self.tensor.dtype() {
            return Err(
                Error::UnsupportedOperation {
                    reason: "replacement value changes the element type".to_owned(),
                },
            );
        }
        if value.device() != self.tensor.device() {
            return Err(Error::DeviceMismatch);
        }
        self.tensor = value.clone();
        Ok(())
    }
}

impl Clone for Variable {
    fn clone(&self) -> (r: Variable)
        ensures
            r@ == self@,
    {
        Variable { tensor: self.tensor.clone() }
    }
}

} // verus!
