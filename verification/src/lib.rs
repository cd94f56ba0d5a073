//! Named-tensor variable storage and resolution.
//!
//! The crate models tensors as dtype-tagged, device-placed byte buffers and
//! provides a registry of mutable named variables together with a
//! hierarchical resolver over several kinds of backing sources, including
//! serialized weight files read through the `safetensors` crate.

pub mod device;
pub mod dtype;
pub mod error;
pub mod init;
pub mod rng;
pub mod storage;
pub mod tensor;
pub mod variable;
pub mod varmap;
pub mod var_builder;
pub mod shape;
pub mod shard;
pub mod stfile;

pub use device::{CudaDevice, Device, DeviceLocation, NdArray, WithDType};
pub use dtype::DType;
pub use error::Error;
pub use init::Init;
pub use tensor::Tensor;
pub use var_builder::VarBuilder;
pub use variable::Variable;
pub use varmap::VarMap;
