//! Optimisers: what every optimiser offers, Adam, and checkpoints of
//! optimiser state.

pub mod adam;
pub mod checkpoint;
pub mod checkpoint_laws;
pub mod names;
pub mod restore;

use vstd::prelude::*;
use crate::optimiser::checkpoint::CheckpointError;
use crate::device::Device;
use crate::scalar::Scalar;
use crate::tensor::DenseMatrix;

verus! {

/// One of the buffers that take part in an update.
#[derive(Clone, Copy, Debug, PartialEq, Eq)]
pub enum Operand {
    Weights,
    Gradients,
    Momentum,
    Velocity,
}

/// Why an update was refused.
#[derive(Clone, Copy, Debug, PartialEq, Eq)]
pub enum OptimiserError {
    /// The buffer holds a batch; parameters and their state never do.
    Batched(Operand),
    /// The buffer does not have as many elements as the weights.
    SizeMismatch(Operand),
}

/// The state an optimiser keeps for one weight, and the rule that updates
/// the weight.
pub trait OptimiserState<D: Device>: Sized {
    /// The hyperparameters of the algorithm.
    type Params;

    /// State for a weight of `size` elements, all zero.
    fn new(device: &D, size: usize, default_params: Self::Params) -> Result<
        Self,
        D::DeviceError,
    >;

    /// One update of `weights` against `gradients`, both without a batch
    /// and of the element count of this state. Gradients are scaled by
    /// `gradient_factor`, the step by `learning_rate`.
    fn update(
        &mut self,
        weights: &mut DenseMatrix<D>,
        gradients: &mut DenseMatrix<D>,
        gradient_factor: Scalar,
        learning_rate: Scalar,
    ) -> Result<(), OptimiserError>;

    /// Sets the state to zero.
    fn reset(&mut self);

    /// Replaces the hyperparameters and leaves the state alone.
    fn set_params(&mut self, params: Self::Params);

    /// The names of the files of a checkpoint, one for each kind of buffer.
    fn checkpoint_files() -> Vec<String>;

    /// The contents of the files of a checkpoint of the collection, in the
    /// order of [`OptimiserState::checkpoint_files`].
    fn write_to_checkpoint(map: &Vec<(String, Self)>) -> Result<Vec<Vec<u8>>, CheckpointError>;

    /// Restores the collection from the contents of the files of a
    /// checkpoint, in the order of [`OptimiserState::checkpoint_files`].
    fn load_from_checkpoint(
        map: &mut Vec<(String, Self)>,
        files: &Vec<Vec<u8>>,
        old_format: bool,
    ) -> Result<(), CheckpointError>;
}

} // verus!
