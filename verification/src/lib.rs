//! Kernel-building blocks of a GPU compute library: the intermediate
//! representation that unary operations expand into, and the index
//! arithmetic that moves matrix-multiply accumulators from shared memory
//! into the output tensor.

pub mod ir;
pub mod unary;
pub mod cmma;
pub mod write_output;
pub mod write_output_laws;
pub mod copy_laws;
pub mod write_to_output_laws;
