//! Shape, layout and bookkeeping logic of a small multi-layer perceptron
//! for 28x28 digit images: how layers chain, how matrices are padded for
//! the GPU and read back, how parameters are flattened into one record and
//! rebuilt from it, how a training set is cut into batches, and how a
//! prediction is judged.  Arithmetic on the weights themselves (floating
//! point) lives in the application around this library.

mod arith;

pub mod data;
pub mod dataset;
pub mod dispatch;
pub mod eval;
pub mod gpu_plan;
pub mod padding;
pub mod perceptron;
pub mod shape;
