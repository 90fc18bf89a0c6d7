//! Device buffers together with what the library knows of them.

use vstd::prelude::*;
use crate::device::{allocates, stores, Device};
use crate::graph::node::Node;
use crate::graph::operation::Operation;
use crate::scalar::Scalar;

verus! {

/// Why numbers could not be loaded into a matrix.
#[derive(Clone, Copy, Debug, PartialEq, Eq)]
pub enum LoadError {
    /// A batch of no examples was asked for.
    EmptyBatch,
    /// The count of numbers is not the element count times the batch size.
    WrongLength,
}

/// A dense buffer on a device: `size` numbers for each example of a batch,
/// or `size` numbers in all where there is no batch.
pub struct DenseMatrix<D: Device> {
    buf: D::Buffer,
    size: usize,
    batch_size: Option<usize>,
}

impl<D: Device> DenseMatrix<D> {
    /// The element count of one example.
    pub closed spec fn spec_size(&self) -> usize {
        self.size
    }

    /// The number of examples, where the matrix holds a batch.
    pub closed spec fn spec_batch_size(&self) -> Option<usize> {
        self.batch_size
    }

    /// The buffer on the device.
    pub closed spec fn spec_buffer(&self) -> D::Buffer {
        self.buf
    }

    /// What is made of numbers read from the device: they are kept if they
    /// are as many as the matrix holds.
    pub open spec fn accepted(&self, values: Vec<Scalar>) -> Option<Vec<Scalar>> {
        if Self::expected_len(self.spec_size() as int, self.spec_batch_size()) == Some(
            values@.len() as int,
        ) {
            Some(values)
        } else {
            None
        }
    }

    /// How many numbers a load must bring for the given batch size, if any
    /// count will do.
    pub open spec fn expected_len(size: int, batch_size: Option<usize>) -> Option<int> {
        match batch_size {
            Some(b) => if b == 0 {
                None
            } else {
                Some(size * b)
            },
            None => Some(size),
        }
    }

    /// The matrix that holds a buffer of `size` numbers, without a batch.
    pub fn from_buffer(buf: D::Buffer, size: usize) -> (m: Self)
        ensures
            m.spec_buffer() == buf,
            m.spec_size() == size,
            m.spec_batch_size() is None,
    {
        DenseMatrix { buf, size, batch_size: None }
    }

    /// What an allocation of `size` numbers gives: the matrix that holds
    /// the buffer, or the device's error.
    pub fn from_allocation(allocated: Result<D::Buffer, D::DeviceError>, size: usize) -> (r: Result<
        Self,
        D::DeviceError,
    >)
        ensures
            match allocated {
                Ok(buf) => r matches Ok(m) && m.spec_buffer() == buf && m.spec_size() == size
                    && m.spec_batch_size() is None,
                Err(e) => r matches Err(f) && f == e,
            },
    {
        match allocated {
            Ok(buf) => Ok(DenseMatrix::from_buffer(buf, size)),
            Err(e) => Err(e),
        }
    }

    /// A matrix of `size` zeros without a batch, unless the device cannot
    /// allocate it: the device is asked for `size` numbers once, and
    /// [`DenseMatrix::from_allocation`] says what comes of its answer.
    pub fn zeroed(device: &D, size: usize) -> (r: Result<Self, D::DeviceError>)
        ensures
            match r {
                Ok(m) => {
                    &&& allocates(device, size, Ok::<D::Buffer, D::DeviceError>(m.spec_buffer()))
                    &&& m.spec_size() == size
                    &&& m.spec_batch_size() is None
                },
                Err(e) => allocates(device, size, Err::<D::Buffer, D::DeviceError>(e)),
            },
    {
        DenseMatrix::from_allocation(device.allocate(size), size)
    }

    /// The element count of one example.
    #[verifier::when_used_as_spec(spec_size)]
    pub fn size(&self) -> (n: usize)
        ensures
            n == self.spec_size(),
    {
        self.size
    }

    /// The number of examples, where the matrix holds a batch.
    #[verifier::when_used_as_spec(spec_batch_size)]
    pub fn batch_size(&self) -> (b: Option<usize>)
        ensures
            b == self.spec_batch_size(),
    {
        self.batch_size
    }

    /// Has the device set every number to zero: the buffer becomes what the
    /// device makes of it. Element count and batch stay.
    pub fn set_zero(&mut self)
        ensures
            exists|buffer: &mut D::Buffer|
                {
                    &&& *buffer == old(self).spec_buffer()
                    &&& *final(buffer) == final(self).spec_buffer()
                    &&& #[trigger] call_ensures(D::set_zero, (buffer,), ())
                },
            final(self).spec_size() == old(self).spec_size(),
            final(self).spec_batch_size() == old(self).spec_batch_size(),
    {
        D::set_zero(&mut self.buf);
    }

    /// Has the device replace the contents by `values`, read as
    /// `batch_size` examples: the buffer becomes what the device makes of
    /// it.
    ///
    /// The count of values must be the element count times the batch size
    /// (times one without a batch), and a batch must not be empty;
    /// otherwise nothing changes.
    pub fn load_from_slice(&mut self, batch_size: Option<usize>, values: &Vec<Scalar>) -> (r:
        Result<(), LoadError>)
        ensures
            final(self).spec_size() == old(self).spec_size(),
            match r {
                Ok(()) => {
                    &&& Self::expected_len(old(self).spec_size() as int, batch_size) == Some(
                        values@.len() as int,
                    )
                    &&& final(self).spec_batch_size() == batch_size
                    &&& exists|buffer: &mut D::Buffer|
                        {
                            &&& *buffer == old(self).spec_buffer()
                            &&& *final(buffer) == final(self).spec_buffer()
                            &&& #[trigger] call_ensures(D::load, (buffer, values), ())
                        }
                },
                Err(e) => {
                    &&& *final(self) == *old(self)
                    &&& Self::expected_len(old(self).spec_size() as int, batch_size) != Some(
                        values@.len() as int,
                    )
                    &&& e == (if batch_size == Some(0usize) {
                        LoadError::EmptyBatch
                    } else {
                        LoadError::WrongLength
                    })
                },
            },
    {
        let examples: usize = match batch_size {
            Some(b) => b,
            None => 1,
        };
        if examples == 0 {
            return Err(LoadError::EmptyBatch);
        }
        match self.size.checked_mul(examples) {
            Some(n) => {
                if n != values.len() {
                    return Err(LoadError::WrongLength);
                }
            },
            None => {
                let _ = values.len();
                return Err(LoadError::WrongLength);
            },
        }
        D::load(&mut self.buf, values);
        self.batch_size = batch_size;
        Ok(())
    }

    /// The numbers that were read from the device, if they are as many as
    /// the matrix holds.
    pub fn accept(&self, values: Vec<Scalar>) -> (r: Option<Vec<Scalar>>)
        ensures
            r == self.accepted(values),
    {
        let examples: usize = match self.batch_size {
            Some(b) => b,
            None => 1,
        };
        if examples == 0 {
            return None;
        }
        match self.size.checked_mul(examples) {
            Some(n) => if n == values.len() {
                Some(values)
            } else {
                None
            },
            None => {
                let _ = values.len();
                None
            },
        }
    }

    /// The contents, if the device hands back as many numbers as the
    /// matrix holds: the device is asked for the contents of the buffer,
    /// and [`DenseMatrix::accept`] says what comes of its answer.
    pub fn to_vec(&self) -> (r: Option<Vec<Scalar>>)
        ensures
            exists|values: Vec<Scalar>| #[trigger]
                stores::<D>(self.spec_buffer(), values) && r == self.accepted(values),
            r matches Some(v) ==> Self::expected_len(
                self.spec_size() as int,
                self.spec_batch_size(),
            ) == Some(v@.len() as int),
    {
        let values = D::store(&self.buf);
        assert(stores::<D>(self.spec_buffer(), values));
        self.accept(values)
    }

    /// Has the device draw every number from a normal distribution, or a
    /// uniform one: the buffer becomes what the device makes of it, and the
    /// device's answer is returned. Element count and batch stay, whatever
    /// the device reports.
    pub fn seed_random(&mut self, mean: Scalar, stdev: Scalar, normal: bool) -> (r: Result<
        (),
        D::DeviceError,
    >)
        ensures
            exists|buffer: &mut D::Buffer|
                {
                    &&& *buffer == old(self).spec_buffer()
                    &&& *final(buffer) == final(self).spec_buffer()
                    &&& #[trigger] call_ensures(D::seed_random, (buffer, mean, stdev, normal), r)
                },
            final(self).spec_size() == old(self).spec_size(),
            final(self).spec_batch_size() == old(self).spec_batch_size(),
    {
        D::seed_random(&mut self.buf, mean, stdev, normal)
    }

    /// Runs one step of Adam on the device: `weights` against `gradients`,
    /// with the moving averages `momentum` and `velocity`. The device gets
    /// the element count of `weights`, the four buffers, the decay rates
    /// and the factors as they are given, and is told to use the
    /// denominator; the three buffers become what the device makes of
    /// them. Element counts and batches stay.
    pub fn adam(
        weights: &mut DenseMatrix<D>,
        gradients: &DenseMatrix<D>,
        momentum: &mut DenseMatrix<D>,
        velocity: &mut DenseMatrix<D>,
        beta1: Scalar,
        beta2: Scalar,
        gradient_factor: Scalar,
        learning_rate: Scalar,
    )
        ensures
            exists|w: &mut D::Buffer, m: &mut D::Buffer, v: &mut D::Buffer|
                {
                    &&& *w == old(weights).spec_buffer()
                    &&& *final(w) == final(weights).spec_buffer()
                    &&& *m == old(momentum).spec_buffer()
                    &&& *final(m) == final(momentum).spec_buffer()
                    &&& *v == old(velocity).spec_buffer()
                    &&& *final(v) == final(velocity).spec_buffer()
                    &&& #[trigger] call_ensures(
                        D::adam,
                        (
                            old(weights).spec_size(),
                            w,
                            &gradients.spec_buffer(),
                            m,
                            v,
                            beta1,
                            beta2,
                            gradient_factor,
                            learning_rate,
                            true,
                        ),
                        (),
                    )
                },
            final(weights).spec_size() == old(weights).spec_size(),
            final(weights).spec_batch_size() == old(weights).spec_batch_size(),
            final(momentum).spec_size() == old(momentum).spec_size(),
            final(momentum).spec_batch_size() == old(momentum).spec_batch_size(),
            final(velocity).spec_size() == old(velocity).spec_size(),
            final(velocity).spec_batch_size() == old(velocity).spec_batch_size(),
    {
        let size = weights.size;
        D::adam(
            size,
            &mut weights.buf,
            &gradients.buf,
            &mut momentum.buf,
            &mut velocity.buf,
            beta1,
            beta2,
            gradient_factor,
            learning_rate,
            true,
        );
        assert(gradients.spec_buffer() == gradients.buf);
        assert(old(weights).spec_size() == size);
    }
}

/// The storage of one node: its values, its gradients where they are
/// computed, and what the node is.
pub struct Tensor<D: Device> {
    values: DenseMatrix<D>,
    gradients: Option<DenseMatrix<D>>,
    operation: Option<Operation>,
    own: Node,
}

impl<D: Device> Tensor<D> {
    /// The element count.
    pub closed spec fn spec_size(&self) -> usize {
        self.values.spec_size()
    }

    /// Whether the tensor has a buffer for gradients.
    pub closed spec fn spec_requires_grad(&self) -> bool {
        self.gradients is Some
    }

    /// The operation that computes the node.
    pub closed spec fn spec_operation(&self) -> Option<Operation> {
        self.operation
    }

    /// The node's handle.
    pub closed spec fn spec_own(&self) -> Node {
        self.own
    }

    /// Whether the buffers agree on the element count.
    pub closed spec fn wf(&self) -> bool {
        self.gradients matches Some(g) ==> g.spec_size() == self.values.spec_size()
            && g.spec_batch_size() is None
    }

    /// The values.
    pub closed spec fn spec_values(&self) -> DenseMatrix<D> {
        self.values
    }

    /// The gradients, where they are computed.
    pub closed spec fn spec_gradients(&self) -> Option<DenseMatrix<D>> {
        self.gradients
    }

    /// Whether the buffers of the tensor are answers of the device to
    /// requests for `size` numbers each.
    pub open spec fn allocated_on(&self, device: &D, size: usize) -> bool {
        &&& allocates(
            device,
            size,
            Ok::<D::Buffer, D::DeviceError>(self.spec_values().spec_buffer()),
        )
        &&& self.spec_gradients() matches Some(g) ==> allocates(
            device,
            size,
            Ok::<D::Buffer, D::DeviceError>(g.spec_buffer()),
        )
    }

    /// The storage of a node of `size` elements, with a buffer for
    /// gradients if they are required.
    ///
    /// The device is asked for `size` numbers for the values and, if
    /// gradients are required, for `size` numbers more. Each buffer is the
    /// device's answer; the first request that the device refuses ends the
    /// call with the device's error.
    pub fn new(
        device: &D,
        size: usize,
        requires_grad: bool,
        operation: Option<Operation>,
        own: Node,
    ) -> (r: Result<Self, D::DeviceError>)
        ensures
            match r {
                Ok(t) => {
                    &&& t.wf()
                    &&& t.spec_size() == size
                    &&& t.spec_requires_grad() == requires_grad
                    &&& t.spec_operation() == operation
                    &&& t.spec_own() == own
                    &&& t.spec_values().spec_batch_size() is None
                    &&& t.allocated_on(device, size)
                },
                Err(e) => allocates(device, size, Err::<D::Buffer, D::DeviceError>(e)),
            },
    {
        let values = match DenseMatrix::zeroed(device, size) {
            Ok(m) => m,
            Err(e) => {
                return Err(e);
            },
        };
        let gradients = if requires_grad {
            match DenseMatrix::zeroed(device, size) {
                Ok(m) => Some(m),
                Err(e) => {
                    return Err(e);
                },
            }
        } else {
            None
        };
        Ok(Tensor { values, gradients, operation, own })
    }

    /// The element count.
    #[verifier::when_used_as_spec(spec_size)]
    pub fn size(&self) -> (n: usize)
        ensures
            n == self.spec_size(),
    {
        self.values.size()
    }

    /// Whether the tensor has a buffer for gradients.
    #[verifier::when_used_as_spec(spec_requires_grad)]
    pub fn requires_grad(&self) -> (b: bool)
        ensures
            b == self.spec_requires_grad(),
    {
        self.gradients.is_some()
    }

    /// The operation that computes the node.
    #[verifier::when_used_as_spec(spec_operation)]
    pub fn operation(&self) -> (op: Option<Operation>)
        ensures
            op == self.spec_operation(),
    {
        self.operation
    }

    /// The node's handle.
    #[verifier::when_used_as_spec(spec_own)]
    pub fn own(&self) -> (n: Node)
        ensures
            n == self.spec_own(),
    {
        self.own
    }

    /// The values.
    pub fn values(&self) -> (m: &DenseMatrix<D>)
        ensures
            *m == self.spec_values(),
            m.spec_size() == self.spec_size(),
    {
        &self.values
    }

    /// Has the device draw the values from a normal distribution, or a
    /// uniform one: the buffer of the values becomes what the device makes
    /// of it, and the device's answer is returned. The gradients and what
    /// the tensor is stay as they are.
    pub fn seed_random(&mut self, mean: Scalar, stdev: Scalar, normal: bool) -> (r: Result<
        (),
        D::DeviceError,
    >)
        ensures
            exists|buffer: &mut D::Buffer|
                {
                    &&& *buffer == old(self).spec_values().spec_buffer()
                    &&& *final(buffer) == final(self).spec_values().spec_buffer()
                    &&& #[trigger] call_ensures(D::seed_random, (buffer, mean, stdev, normal), r)
                },
            final(self).spec_gradients() == old(self).spec_gradients(),
            final(self).spec_values().spec_batch_size() == old(
                self,
            ).spec_values().spec_batch_size(),
            final(self).wf() == old(self).wf(),
            final(self).spec_size() == old(self).spec_size(),
            final(self).spec_requires_grad() == old(self).spec_requires_grad(),
            final(self).spec_operation() == old(self).spec_operation(),
            final(self).spec_own() == old(self).spec_own(),
    {
        self.values.seed_random(mean, stdev, normal)
    }
}

} // verus!
