//! Forward passes of a Llama-style decoder with low-rank adapters.
//!
//! The crate holds the numeric kernels (matrix product, broadcasting
//! element-wise operations, normalisation, rotary position embedding,
//! softmax) and what is built from them: linear layers with adapters,
//! grouped-query attention, decoder layers and the model.
//!
//! Everything is generic over the element type. The kernels decide which
//! elements meet in which operation and in which order, and answer operands
//! that do not fit with a [`error::TensorError`]; the element type, see
//! [`scalar::Scalar`], brings the arithmetic.

pub mod algebra;
pub mod broadcasting;
pub mod determinism;
pub mod elementwise;
pub mod error;
pub mod kernels;
pub mod layout;
pub mod matmul;
pub mod models;
pub mod rmsnorm;
pub mod rope;
pub mod scalar;
pub mod shape;
pub mod softmax;
pub mod tensor;
