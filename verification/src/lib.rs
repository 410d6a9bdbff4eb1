//! A small N-dimensional numeric array ("tensor") core.
//!
//! A tensor owns a flat buffer of elements, a shape giving its extent along
//! each axis, and the row-major strides derived from that shape.  The crate
//! provides element-wise arithmetic, scalar scaling, multi-index access,
//! sub-range slicing, and batched matrix multiplication with broadcasting of
//! leading batch dimensions.  Every operation carries a contract describing
//! exactly which inputs succeed, which error each rejected input produces,
//! and the value of every element of the result.

pub mod shape;
pub mod elems;
pub mod tensor;
pub mod ops;
pub mod matmul;
pub mod tensor_builder;
pub mod laws;
