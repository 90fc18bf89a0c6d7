//! The compute backend, as far as the graph and the optimiser need it.

use vstd::prelude::*;
use crate::scalar::Scalar;

verus! {

/// A compute backend: it owns the storage of every buffer and runs the
/// numeric kernels.
///
/// Nothing is assumed of an implementation. The library keeps the element
/// count of each buffer on its own side and checks it before every call
/// that depends on it.
pub trait Device: Sized {
    /// A device-resident buffer of numbers.
    type Buffer;

    /// What the device reports when an allocation or a kernel fails.
    type DeviceError;

    /// Allocates a buffer of `size` numbers, all zero.
    fn allocate(&self, size: usize) -> Result<Self::Buffer, Self::DeviceError>;

    /// Sets every number of the buffer to zero.
    fn set_zero(buffer: &mut Self::Buffer);

    /// Replaces the contents of the buffer by the given numbers.
    fn load(buffer: &mut Self::Buffer, values: &Vec<Scalar>);

    /// Reads the contents of the buffer.
    fn store(buffer: &Self::Buffer) -> Vec<Scalar>;

    /// Draws every number of the buffer from a normal distribution, or a
    /// uniform one, with the given mean and standard deviation.
    fn seed_random(buffer: &mut Self::Buffer, mean: Scalar, stdev: Scalar, normal: bool) -> Result<
        (),
        Self::DeviceError,
    >;

    /// One step of Adam on `size` weights: updates the moving averages of
    /// the gradient (`momentum`, decay `beta1`) and of its square
    /// (`velocity`, decay `beta2`), and moves each weight against the
    /// ratio of momentum to the root of velocity, scaled by
    /// `learning_rate`; gradients are scaled by `gradient_factor` first.
    fn adam(
        size: usize,
        weights: &mut Self::Buffer,
        gradients: &Self::Buffer,
        momentum: &mut Self::Buffer,
        velocity: &mut Self::Buffer,
        beta1: Scalar,
        beta2: Scalar,
        gradient_factor: Scalar,
        learning_rate: Scalar,
        denominator: bool,
    );
}

/// Whether `answer` is an answer of the device to a request for a buffer
/// of `size` numbers.
pub open spec fn allocates<D: Device>(
    device: &D,
    size: usize,
    answer: Result<D::Buffer, D::DeviceError>,
) -> bool {
    call_ensures(D::allocate, (device, size), answer)
}

/// Whether `values` is what the device hands back when it is asked for the
/// contents of the buffer.
pub open spec fn stores<D: Device>(buffer: D::Buffer, values: Vec<Scalar>) -> bool {
    call_ensures(D::store, (&buffer,), values)
}

} // verus!
