//! Construction and validation of tensor computation graphs for training
//! scalar-output networks, together with per-weight optimiser state.
//!
//! The functions of this crate are verified against the contracts written
//! in their headers; the two calls into the `bulletformat` crate in
//! [`trainer::loader`] are wrapped, and their contracts are taken on
//! trust. Single-precision numbers never take part in arithmetic here:
//! they are carried as bit patterns (see [`scalar::Scalar`]) and handed to a
//! [`device::Device`], which owns the numeric kernels.
//!
//! - [`graph`]: shapes of operations, the builder with its root set, and
//!   the built graph.
//! - [`optimiser`]: the optimiser interface, Adam, and the checkpoint file
//!   layout.
//! - [`frontend`]: a builder that also remembers how weights are
//!   initialised.
//! - [`trainer`]: batches of training positions and quantised export.

pub mod bytes;
pub mod device;
pub mod frontend;
pub mod graph;
pub mod optimiser;
pub mod scalar;
pub mod shape;
pub mod tensor;
pub mod trainer;
