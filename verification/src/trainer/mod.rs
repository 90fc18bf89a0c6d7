//! Training data: positions, batches, and the export of trained weights.

pub mod batch;
pub mod loader;
pub mod quant;
