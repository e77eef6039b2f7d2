//! Einstein-summation tensor contraction, split in two halves: a verified
//! compiler from einsum equations to a textual expression program for an
//! external evaluation engine, and a plain n-dimensional array container.

pub mod dims;
pub mod einsum;
pub mod equation;
pub mod ndarray;
pub mod text;

pub use dims::{resolve_dims, DimTable};
pub use einsum::{compile_equation, EinsumError};
pub use equation::{parse_equation, EquationSpec};
pub use ndarray::NDArray;
