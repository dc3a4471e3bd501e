//! Symbolic computation in a sixteen-element graded algebra.
pub mod basis;
pub mod product;
pub mod magnitude;
pub mod order;
pub mod xi;
pub mod term;
pub mod multivector;
pub mod ops;
pub mod differential;
pub mod division;
pub mod catalog;
pub mod notation;
pub mod values;
pub mod candidates;
pub mod laws;
mod iters;
