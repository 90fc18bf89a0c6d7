//! Adam: moving averages of the gradient and of its square for each weight.

use vstd::prelude::*;
use vstd::string::{StrSliceExecFns, StringExecFns};
use vstd::utf8::encode_utf8;
use crate::optimiser::checkpoint::{
    encode_all, encode_checkpoint, is_valid_name, parse_all, parse_checkpoint, records_view,
    valid_name, CheckpointError, CheckpointRecord,
};
use crate::optimiser::checkpoint::{lemma_round_trip, valid_record};
use crate::optimiser::checkpoint_laws::{lemma_checkpoint_round_trip, records_for, sizes_for, writable};
use crate::optimiser::names::has_duplicate;
use crate::device::{allocates, stores, Device};
use crate::optimiser::{Operand, OptimiserError, OptimiserState};
use crate::optimiser::names::is_sorted_order;
use crate::optimiser::checkpoint::Record;
use crate::optimiser::restore::{
    any_duplicate, is_plan, lemma_position_from, names_of, names_view, pairs_first,
    pairs_second, plan_restore, position, restore_fault, sorted_order, Assignment,
};
use crate::optimiser::names::name_lt;
use crate::scalar::Scalar;
use crate::tensor::DenseMatrix;

verus! {

/// The decay rates of the two moving averages.
#[derive(Clone, Copy, Debug, PartialEq, Eq, Structural)]
pub struct AdamParams {
    /// The decay of the average of the gradient.
    pub beta1: Scalar,
    /// The decay of the average of the squared gradient.
    pub beta2: Scalar,
}

/// The bit pattern of 0.9.
pub const DEFAULT_BETA1: u32 = 0x3F66_6666;

/// The bit pattern of 0.999.
pub const DEFAULT_BETA2: u32 = 0x3F7F_BE77;

impl Default for AdamParams {
    /// `beta1 = 0.9`, `beta2 = 0.999`.
    fn default() -> (p: AdamParams)
        ensures
            p == (AdamParams {
                beta1: Scalar { bits: DEFAULT_BETA1 },
                beta2: Scalar { bits: DEFAULT_BETA2 },
            }),
    {
        AdamParams {
            beta1: Scalar::from_bits(DEFAULT_BETA1),
            beta2: Scalar::from_bits(DEFAULT_BETA2),
        }
    }
}

/// The state of Adam for one weight.
pub struct Adam<D: Device> {
    momentum: DenseMatrix<D>,
    velocity: DenseMatrix<D>,
    params: AdamParams,
}

/// The names of a collection as they stand in a checkpoint: in UTF-8.
pub open spec fn collection_names<D: Device>(map: Seq<(String, Adam<D>)>) -> Seq<Seq<u8>> {
    Seq::new(map.len(), |i: int| encode_utf8(map[i].0@))
}

/// The element counts of momentum and velocity of each state.
pub open spec fn collection_sizes<D: Device>(map: Seq<(String, Adam<D>)>) -> Seq<(usize, usize)> {
    Seq::new(
        map.len(),
        |i: int| (map[i].1.spec_momentum().spec_size(), map[i].1.spec_velocity().spec_size()),
    )
}

/// The element counts of one buffer of each state: velocity if the flag
/// is set, momentum if not.
pub open spec fn buffer_sizes<D: Device>(map: Seq<(String, Adam<D>)>, velocity: bool) -> Seq<
    usize,
> {
    Seq::new(
        map.len(),
        |i: int|
            if velocity {
                collection_sizes(map)[i].1
            } else {
                collection_sizes(map)[i].0
            },
    )
}

/// The hyperparameters of each state.
pub open spec fn collection_params<D: Device>(map: Seq<(String, Adam<D>)>) -> Seq<AdamParams> {
    Seq::new(map.len(), |i: int| map[i].1.spec_params())
}

/// Whether the bytes are the file that holds `values[i]` under `names[i]`,
/// the names in the order of a dictionary, and `values[i]` has as many
/// numbers as `sizes` says.
pub open spec fn is_file_with(
    bytes: Seq<u8>,
    names: Seq<Seq<u8>>,
    sizes: Seq<usize>,
    values: Seq<Seq<Scalar>>,
    order: Seq<usize>,
) -> bool {
    &&& writable(names, values)
    &&& forall|i: int| 0 <= i < names.len() ==> (#[trigger] values[i]).len() == sizes[i]
    &&& is_sorted_order(order, names)
    &&& bytes == encode_all(records_for(names, values, order))
}

/// Whether the bytes are a file that holds, under each name, as many
/// numbers as `sizes` says, the names in the order of a dictionary.
pub open spec fn is_file_of(bytes: Seq<u8>, names: Seq<Seq<u8>>, sizes: Seq<usize>) -> bool {
    exists|values: Seq<Seq<Scalar>>, order: Seq<usize>|
        #[trigger] is_file_with(bytes, names, sizes, values, order)
}

/// One buffer of state `i`: the velocity if the flag is set, the momentum
/// if not.
pub open spec fn buffer_of<D: Device>(map: Seq<(String, Adam<D>)>, i: int, velocity: bool)
    -> DenseMatrix<D> {
    if velocity {
        map[i].1.spec_velocity()
    } else {
        map[i].1.spec_momentum()
    }
}

/// Whether `values` are numbers that the device hands back when it is
/// asked for the contents of the buffer.
pub open spec fn read_from<D: Device>(buffer: D::Buffer, values: Seq<Scalar>) -> bool {
    exists|v: Vec<Scalar>| #[trigger] stores::<D>(buffer, v) && v@ == values
}

/// Whether `values[i]` are numbers that the device hands back for the
/// buffer of state `i`, for every state.
pub open spec fn holds_contents<D: Device>(
    map: Seq<(String, Adam<D>)>,
    velocity: bool,
    values: Seq<Seq<Scalar>>,
) -> bool {
    forall|i: int|
        0 <= i < map.len() ==> read_from::<D>(
            buffer_of(map, i, velocity).spec_buffer(),
            #[trigger] values[i],
        )
}

/// Whether the bytes are the file of one kind of buffer of the collection:
/// under each state's name stand numbers that the device hands back for
/// that state's buffer, as many as the buffer has elements, and the names
/// come in the order of a dictionary.
pub open spec fn is_checkpoint_of<D: Device>(
    bytes: Seq<u8>,
    map: Seq<(String, Adam<D>)>,
    velocity: bool,
) -> bool {
    exists|values: Seq<Seq<Scalar>>, order: Seq<usize>| #[trigger]
        is_file_with(bytes, collection_names(map), buffer_sizes(map, velocity), values, order)
            && holds_contents(map, velocity, values)
}

/// Whether the device hands back, for one buffer of state `i`, numbers
/// that are not as many as the buffer has elements.
pub open spec fn misread<D: Device>(map: Seq<(String, Adam<D>)>, i: int, velocity: bool) -> bool {
    0 <= i < map.len() && exists|v: Vec<Scalar>| #[trigger]
        stores::<D>(buffer_of(map, i, velocity).spec_buffer(), v) && v@.len() != buffer_of(
            map,
            i,
            velocity,
        ).spec_size()
}

/// Whether the device hands back the wrong count of numbers for a buffer
/// of the collection.
pub open spec fn some_misread<D: Device>(map: Seq<(String, Adam<D>)>) -> bool {
    exists|i: int, velocity: bool| #[trigger] misread(map, i, velocity)
}

/// Whether a buffer of the collection holds a batch.
pub open spec fn some_batched<D: Device>(map: Seq<(String, Adam<D>)>) -> bool {
    exists|i: int, velocity: bool|
        0 <= i < map.len() && (#[trigger] buffer_of(map, i, velocity)).spec_batch_size() is Some
}

/// Whether a name of the collection holds a line feed.
pub open spec fn some_invalid_name<D: Device>(map: Seq<(String, Adam<D>)>) -> bool {
    exists|i: int| 0 <= i < map.len() && !valid_name(#[trigger] collection_names(map)[i])
}

/// Why the collection cannot be written whatever the device does, if it
/// cannot: no name may hold a line feed, no name may be given twice, and
/// no buffer may hold a batch. The tests are made in this order.
pub open spec fn write_fault<D: Device>(map: Seq<(String, Adam<D>)>) -> Option<CheckpointError> {
    if some_invalid_name(map) {
        Some(CheckpointError::InvalidName)
    } else if has_duplicate(collection_names(map)) {
        Some(CheckpointError::DuplicateName)
    } else if some_batched(map) {
        Some(CheckpointError::DeviceRead)
    } else {
        None
    }
}

/// Why the files of a checkpoint cannot be restored into a collection with
/// the given names and element counts, if they cannot: there must be two
/// files, each made of whole records, and the records must fit the
/// collection (see [`restore_fault`]).
pub open spec fn load_fault(
    names: Seq<Seq<u8>>,
    sizes: Seq<(usize, usize)>,
    files: Seq<Seq<u8>>,
    old_format: bool,
) -> Option<CheckpointError> {
    if files.len() != 2 {
        Some(CheckpointError::Malformed)
    } else {
        match (parse_all(files[0], 0, old_format), parse_all(files[1], 0, old_format)) {
            (Some(first), Some(second)) => restore_fault(names, sizes, first, second),
            _ => Some(CheckpointError::Malformed),
        }
    }
}

/// The records of file `n` of a checkpoint that can be restored.
pub open spec fn parsed(files: Seq<Seq<u8>>, n: int, old_format: bool) -> Seq<Record> {
    parse_all(files[n], 0, old_format)->Some_0
}

/// Whether record `k` is for state `i`: state `i` is the first state that
/// has the name of the record.
pub open spec fn is_for(names: Seq<Seq<u8>>, records: Seq<Record>, k: int, i: int) -> bool {
    0 <= k < records.len() && 0 <= i < names.len() && position(names, records[k].name) == Some(i)
}

/// Whether no record is for state `i`.
pub open spec fn without_record(names: Seq<Seq<u8>>, records: Seq<Record>, i: int) -> bool {
    forall|k: int| !#[trigger] is_for(names, records, k, i)
}

/// Whether one of the first `upto` assignments of the plan is to state `i`.
pub open spec fn targeted(plan: Seq<Assignment>, upto: int, i: int) -> bool {
    exists|w: int| 0 <= w < upto && w < plan.len() && (#[trigger] plan[w]).target == i
}

/// The contents of the files, as sequences.
pub open spec fn files_view(files: Seq<Vec<u8>>) -> Seq<Seq<u8>> {
    Seq::new(files.len(), |i: int| files[i]@)
}

impl<D: Device> Adam<D> {
    /// The moving average of the gradient.
    pub closed spec fn spec_momentum(&self) -> DenseMatrix<D> {
        self.momentum
    }

    /// The moving average of the squared gradient.
    pub closed spec fn spec_velocity(&self) -> DenseMatrix<D> {
        self.velocity
    }

    /// The hyperparameters.
    pub closed spec fn spec_params(&self) -> AdamParams {
        self.params
    }

    /// Why an update of `weights` against `gradients` is refused, if it is:
    /// none of the four buffers may hold a batch, and gradients, momentum
    /// and velocity must have as many elements as the weights. The tests
    /// are made in this order.
    pub open spec fn update_fault(
        &self,
        weights: DenseMatrix<D>,
        gradients: DenseMatrix<D>,
    ) -> Option<OptimiserError> {
        if weights.spec_batch_size() is Some {
            Some(OptimiserError::Batched(Operand::Weights))
        } else if gradients.spec_batch_size() is Some {
            Some(OptimiserError::Batched(Operand::Gradients))
        } else if self.spec_momentum().spec_batch_size() is Some {
            Some(OptimiserError::Batched(Operand::Momentum))
        } else if self.spec_velocity().spec_batch_size() is Some {
            Some(OptimiserError::Batched(Operand::Velocity))
        } else if gradients.spec_size() != weights.spec_size() {
            Some(OptimiserError::SizeMismatch(Operand::Gradients))
        } else if self.spec_momentum().spec_size() != weights.spec_size() {
            Some(OptimiserError::SizeMismatch(Operand::Momentum))
        } else if self.spec_velocity().spec_size() != weights.spec_size() {
            Some(OptimiserError::SizeMismatch(Operand::Velocity))
        } else {
            None
        }
    }

    /// The state with the given averages and decay rates.
    pub fn from_buffers(momentum: DenseMatrix<D>, velocity: DenseMatrix<D>, params: AdamParams)
        -> (state: Self)
        ensures
            state.spec_momentum() == momentum,
            state.spec_velocity() == velocity,
            state.spec_params() == params,
    {
        Adam { momentum, velocity, params }
    }

    /// The hyperparameters.
    pub fn params(&self) -> (p: AdamParams)
        ensures
            p == self.spec_params(),
    {
        self.params
    }

    /// The moving average of the gradient.
    pub fn momentum(&self) -> (m: &DenseMatrix<D>)
        ensures
            *m == self.spec_momentum(),
    {
        &self.momentum
    }

    /// The moving average of the squared gradient.
    pub fn velocity(&self) -> (m: &DenseMatrix<D>)
        ensures
            *m == self.spec_velocity(),
    {
        &self.velocity
    }

    /// Loads both buffers, which must have the element counts of the
    /// state.
    fn restore(&mut self, momentum: &Vec<Scalar>, velocity: &Vec<Scalar>)
        requires
            momentum@.len() == old(self).spec_momentum().spec_size(),
            velocity@.len() == old(self).spec_velocity().spec_size(),
        ensures
            exists|buffer: &mut D::Buffer|
                {
                    &&& *buffer == old(self).spec_momentum().spec_buffer()
                    &&& *final(buffer) == final(self).spec_momentum().spec_buffer()
                    &&& #[trigger] call_ensures(D::load, (buffer, momentum), ())
                },
            exists|buffer: &mut D::Buffer|
                {
                    &&& *buffer == old(self).spec_velocity().spec_buffer()
                    &&& *final(buffer) == final(self).spec_velocity().spec_buffer()
                    &&& #[trigger] call_ensures(D::load, (buffer, velocity), ())
                },
            final(self).spec_momentum().spec_size() == old(self).spec_momentum().spec_size(),
            final(self).spec_velocity().spec_size() == old(self).spec_velocity().spec_size(),
            final(self).spec_momentum().spec_batch_size() is None,
            final(self).spec_velocity().spec_batch_size() is None,
            final(self).spec_params() == old(self).spec_params(),
    {
        let first = self.momentum.load_from_slice(None, momentum);
        let second = self.velocity.load_from_slice(None, velocity);
        assert(first is Ok && second is Ok);
    }

    /// The names of the collection, in UTF-8.
    fn names(map: &Vec<(String, Self)>) -> (names: Vec<Vec<u8>>)
        ensures
            names_view(names@) == collection_names(map@),
            names@.len() == map@.len(),
    {
        let mut names: Vec<Vec<u8>> = Vec::new();
        let mut i: usize = 0;
        while i < map.len()
            invariant
                i <= map.len(),
                names@.len() == i,
                forall|k: int| 0 <= k < i ==> (#[trigger] names@[k])@ == encode_utf8(map@[k].0@),
            decreases map.len() - i,
        {
            names.push(map[i].0.as_str().as_bytes_vec());
            i += 1;
        }
        assert(names_view(names@) =~= collection_names(map@));
        names
    }

    /// The element counts of the collection.
    fn sizes(map: &Vec<(String, Self)>) -> (sizes: Vec<(usize, usize)>)
        ensures
            sizes@ == collection_sizes(map@),
    {
        let mut sizes: Vec<(usize, usize)> = Vec::new();
        let mut i: usize = 0;
        while i < map.len()
            invariant
                i <= map.len(),
                sizes@.len() == i,
                forall|k: int| 0 <= k < i ==> (#[trigger] sizes@[k]) == collection_sizes(map@)[k],
            decreases map.len() - i,
        {
            sizes.push((map[i].1.momentum.size(), map[i].1.velocity.size()));
            i += 1;
        }
        assert(sizes@ =~= collection_sizes(map@));
        sizes
    }

    /// The file that holds one buffer of every state: velocity if the flag
    /// is set, momentum if not. All names must be fit to be written, and
    /// no buffer may hold a batch.
    fn write_buffers(map: &Vec<(String, Self)>, names: &Vec<Vec<u8>>, velocity: bool) -> (r:
        Result<Vec<u8>, CheckpointError>)
        requires
            names_view(names@) == collection_names(map@),
            names@.len() == map@.len(),
            forall|i: int| 0 <= i < names@.len() ==> valid_name(#[trigger] names@[i]@),
            !some_batched(map@),
        ensures
            match r {
                Ok(bytes) => is_checkpoint_of(bytes@, map@, velocity),
                Err(e) => e == CheckpointError::DeviceRead && some_misread(map@),
            },
    {
        let ghost all = collection_names(map@);
        let ghost sizes = buffer_sizes(map@, velocity);
        let order = sorted_order(names);
        let mut records: Vec<CheckpointRecord> = Vec::new();
        let mut k: usize = 0;
        while k < order.len()
            invariant
                k <= order.len(),
                names@.len() == map@.len(),
                all == collection_names(map@),
                all == names_view(names@),
                is_sorted_order(order@, all),
                sizes == buffer_sizes(map@, velocity),
                !some_batched(map@),
                records@.len() == k,
                forall|w: int|
                    0 <= w < k ==> {
                        let record = #[trigger] records@[w];
                        &&& record.name@ == all[order@[w] as int]
                        &&& record.values@.len() == sizes[order@[w] as int]
                        &&& read_from::<D>(
                            buffer_of(map@, order@[w] as int, velocity).spec_buffer(),
                            record.values@,
                        )
                    },
            decreases order.len() - k,
        {
            let i = order[k];
            let buffer = if velocity {
                &map[i].1.velocity
            } else {
                &map[i].1.momentum
            };
            assert(*buffer == buffer_of(map@, i as int, velocity));
            assert(buffer.spec_batch_size() is None);
            let values = match buffer.to_vec() {
                Some(values) => values,
                None => {
                    proof {
                        let v = choose|v: Vec<Scalar>| #[trigger]
                            stores::<D>(buffer.spec_buffer(), v) && buffer.accepted(v) is None;
                        assert(stores::<D>(buffer_of(map@, i as int, velocity).spec_buffer(), v));
                        assert(misread(map@, i as int, velocity));
                    }
                    return Err(CheckpointError::DeviceRead);
                },
            };
            proof {
                let v = choose|v: Vec<Scalar>| #[trigger]
                    stores::<D>(buffer.spec_buffer(), v) && Some(values) == buffer.accepted(v);
                assert(v == values);
                assert(read_from::<D>(
                    buffer_of(map@, i as int, velocity).spec_buffer(),
                    values@,
                ));
            }
            assert(all[i as int] == names@[i as int]@);
            records.push(CheckpointRecord { name: names[i].clone(), values });
            k += 1;
        }
        let ghost values = Seq::new(
            all.len(),
            |i: int| records@[choose|w: int| 0 <= w < order@.len() && order@[w] == i as usize].values@,
        );
        proof {
            assert forall|w: int| 0 <= w < order@.len() implies values[order@[w] as int]
                == records@[w].values@ by {
                let i = order@[w] as int;
                let found = choose|v: int| 0 <= v < order@.len() && order@[v] == i as usize;
                assert(order@[w] == i as usize);
                if found < w {
                    assert(order@[found] != order@[w]);
                } else if w < found {
                    assert(order@[w] != order@[found]);
                }
            }
            assert(records_view(records@) =~= records_for(all, values, order@));
            assert forall|i: int| 0 <= i < all.len() implies valid_name(#[trigger] all[i]) by {
                assert(all[i] == names@[i]@);
            }
            assert forall|i: int| 0 <= i < all.len() implies (#[trigger] values[i]).len()
                == sizes[i] && read_from::<D>(
                buffer_of(map@, i, velocity).spec_buffer(),
                values[i],
            ) by {
                assert(order@.contains(i as usize));
                let w = choose|w: int| 0 <= w < order@.len() && order@[w] == i as usize;
                assert(values[order@[w] as int] == records@[w].values@);
            }
            assert(holds_contents(map@, velocity, values));
        }
        match encode_checkpoint(&records) {
            Ok(bytes) => {
                assert(is_file_with(bytes@, all, sizes, values, order@));
                Ok(bytes)
            },
            Err(_) => {
                proof {
                    let w = choose|w: int|
                        0 <= w < records@.len() && !valid_name(#[trigger] records@[w].name@);
                    assert(records@[w].name@ == all[order@[w] as int]);
                }
                unreached()
            },
        }
    }
}

impl<D: Device> OptimiserState<D> for Adam<D> {
    type Params = AdamParams;

    /// State for a weight of `size` elements, without a batch.
    ///
    /// The device is asked for `size` numbers for the momentum and then
    /// for `size` numbers for the velocity. Each average is the device's
    /// answer; the first request that the device refuses ends the call
    /// with the device's error.
    fn new(device: &D, size: usize, default_params: AdamParams) -> (r: Result<
        Self,
        D::DeviceError,
    >)
        ensures
            match r {
                Ok(state) => {
                    &&& allocates(
                        device,
                        size,
                        Ok::<D::Buffer, D::DeviceError>(state.spec_momentum().spec_buffer()),
                    )
                    &&& allocates(
                        device,
                        size,
                        Ok::<D::Buffer, D::DeviceError>(state.spec_velocity().spec_buffer()),
                    )
                    &&& state.spec_momentum().spec_size() == size
                    &&& state.spec_velocity().spec_size() == size
                    &&& state.spec_momentum().spec_batch_size() is None
                    &&& state.spec_velocity().spec_batch_size() is None
                    &&& state.spec_params() == default_params
                },
                Err(e) => allocates(device, size, Err::<D::Buffer, D::DeviceError>(e)),
            },
    {
        let momentum = match DenseMatrix::zeroed(device, size) {
            Ok(m) => m,
            Err(e) => {
                return Err(e);
            },
        };
        let velocity = match DenseMatrix::zeroed(device, size) {
            Ok(m) => m,
            Err(e) => {
                return Err(e);
            },
        };
        Ok(Adam::from_buffers(momentum, velocity, default_params))
    }

    /// One step of Adam.
    ///
    /// The step is refused, before any buffer is touched, if one of the
    /// buffers holds a batch or does not have as many elements as the
    /// weights; see [`Adam::update_fault`]. Otherwise the device runs one
    /// step of Adam on the element count of the weights, with the buffers
    /// of weights, gradients, momentum and velocity, the state's decay
    /// rates and the two factors given, and the three buffers become what
    /// the device makes of them; element counts, batches and
    /// hyperparameters stay as they are.
    fn update(
        &mut self,
        weights: &mut DenseMatrix<D>,
        gradients: &mut DenseMatrix<D>,
        gradient_factor: Scalar,
        learning_rate: Scalar,
    ) -> (r: Result<(), OptimiserError>)
        ensures
            *final(gradients) == *old(gradients),
            match r {
                Ok(()) => {
                    &&& old(self).update_fault(*old(weights), *old(gradients)) is None
                    &&& exists|w: &mut D::Buffer, m: &mut D::Buffer, v: &mut D::Buffer|
                        {
                            &&& *w == old(weights).spec_buffer()
                            &&& *final(w) == final(weights).spec_buffer()
                            &&& *m == old(self).spec_momentum().spec_buffer()
                            &&& *final(m) == final(self).spec_momentum().spec_buffer()
                            &&& *v == old(self).spec_velocity().spec_buffer()
                            &&& *final(v) == final(self).spec_velocity().spec_buffer()
                            &&& #[trigger] call_ensures(
                                D::adam,
                                (
                                    old(weights).spec_size(),
                                    w,
                                    &old(gradients).spec_buffer(),
                                    m,
                                    v,
                                    old(self).spec_params().beta1,
                                    old(self).spec_params().beta2,
                                    gradient_factor,
                                    learning_rate,
                                    true,
                                ),
                                (),
                            )
                        }
                    &&& final(weights).spec_size() == old(weights).spec_size()
                    &&& final(weights).spec_batch_size() is None
                    &&& final(self).spec_momentum().spec_size() == old(weights).spec_size()
                    &&& final(self).spec_velocity().spec_size() == old(weights).spec_size()
                    &&& final(self).spec_momentum().spec_batch_size() is None
                    &&& final(self).spec_velocity().spec_batch_size() is None
                    &&& final(self).spec_params() == old(self).spec_params()
                },
                Err(e) => {
                    &&& old(self).update_fault(*old(weights), *old(gradients)) == Some(e)
                    &&& *final(self) == *old(self)
                    &&& *final(weights) == *old(weights)
                },
            },
    {
        if weights.batch_size().is_some() {
            return Err(OptimiserError::Batched(Operand::Weights));
        }
        if gradients.batch_size().is_some() {
            return Err(OptimiserError::Batched(Operand::Gradients));
        }
        if self.momentum.batch_size().is_some() {
            return Err(OptimiserError::Batched(Operand::Momentum));
        }
        if self.velocity.batch_size().is_some() {
            return Err(OptimiserError::Batched(Operand::Velocity));
        }
        if gradients.size() != weights.size() {
            return Err(OptimiserError::SizeMismatch(Operand::Gradients));
        }
        if self.momentum.size() != weights.size() {
            return Err(OptimiserError::SizeMismatch(Operand::Momentum));
        }
        if self.velocity.size() != weights.size() {
            return Err(OptimiserError::SizeMismatch(Operand::Velocity));
        }
        DenseMatrix::adam(
            weights,
            gradients,
            &mut self.momentum,
            &mut self.velocity,
            self.params.beta1,
            self.params.beta2,
            gradient_factor,
            learning_rate,
        );
        Ok(())
    }

    /// Has the device set both averages to zero: each buffer becomes what
    /// the device makes of it. Element counts, batches and hyperparameters
    /// stay as they are.
    fn reset(&mut self)
        ensures
            exists|buffer: &mut D::Buffer|
                {
                    &&& *buffer == old(self).spec_momentum().spec_buffer()
                    &&& *final(buffer) == final(self).spec_momentum().spec_buffer()
                    &&& #[trigger] call_ensures(D::set_zero, (buffer,), ())
                },
            exists|buffer: &mut D::Buffer|
                {
                    &&& *buffer == old(self).spec_velocity().spec_buffer()
                    &&& *final(buffer) == final(self).spec_velocity().spec_buffer()
                    &&& #[trigger] call_ensures(D::set_zero, (buffer,), ())
                },
            final(self).spec_momentum().spec_size() == old(self).spec_momentum().spec_size(),
            final(self).spec_velocity().spec_size() == old(self).spec_velocity().spec_size(),
            final(self).spec_momentum().spec_batch_size() == old(
                self,
            ).spec_momentum().spec_batch_size(),
            final(self).spec_velocity().spec_batch_size() == old(
                self,
            ).spec_velocity().spec_batch_size(),
            final(self).spec_params() == old(self).spec_params(),
    {
        self.momentum.set_zero();
        self.velocity.set_zero();
    }

    /// Replaces the decay rates. The averages stay as they are.
    fn set_params(&mut self, params: AdamParams)
        ensures
            final(self).spec_params() == params,
            final(self).spec_momentum() == old(self).spec_momentum(),
            final(self).spec_velocity() == old(self).spec_velocity(),
    {
        self.params = params;
    }

    /// `momentum.bin`, then `velocity.bin`.
    fn checkpoint_files() -> (names: Vec<String>)
        ensures
            names@.len() == 2,
            names@[0]@ == "momentum.bin"@,
            names@[1]@ == "velocity.bin"@,
    {
        vec![String::from_str("momentum.bin"), String::from_str("velocity.bin")]
    }

    /// The contents of the two files of a checkpoint: the momentum of
    /// every state, then the velocity of every state, each under the
    /// state's name and in the order of the names. The numbers under a
    /// name are those the device hands back for that state's buffer.
    ///
    /// Nothing is written, and the device is not asked, if a name holds a
    /// line feed, if a name is given to two states, or if a buffer holds a
    /// batch (see [`write_fault`]). Otherwise the call fails only if the
    /// device hands back, for some buffer, numbers that are not as many as
    /// the buffer has elements.
    fn write_to_checkpoint(map: &Vec<(String, Self)>) -> (r: Result<Vec<Vec<u8>>, CheckpointError>)
        ensures
            match r {
                Ok(files) => {
                    &&& write_fault(map@) is None
                    &&& files@.len() == 2
                    &&& is_checkpoint_of(files@[0]@, map@, false)
                    &&& is_checkpoint_of(files@[1]@, map@, true)
                },
                Err(e) => match write_fault(map@) {
                    Some(fault) => e == fault,
                    None => e == CheckpointError::DeviceRead && some_misread(map@),
                },
            },
    {
        let names = Self::names(map);
        let ghost all = collection_names(map@);
        let mut i: usize = 0;
        while i < names.len()
            invariant
                i <= names.len(),
                names@.len() == map@.len(),
                all == collection_names(map@),
                names_view(names@) == all,
                forall|k: int| 0 <= k < i ==> valid_name(#[trigger] all[k]),
            decreases names.len() - i,
        {
            assert(all[i as int] == names@[i as int]@);
            if !is_valid_name(names[i].as_slice()) {
                assert(!valid_name(collection_names(map@)[i as int]));
                return Err(CheckpointError::InvalidName);
            }
            i += 1;
        }
        assert forall|k: int| 0 <= k < names@.len() implies valid_name(#[trigger] names@[k]@) by {
            assert(all[k] == names@[k]@);
        }
        assert(!some_invalid_name(map@));
        if any_duplicate(&names) {
            return Err(CheckpointError::DuplicateName);
        }
        let mut i: usize = 0;
        while i < map.len()
            invariant
                i <= map.len(),
                !some_invalid_name(map@),
                !has_duplicate(collection_names(map@)),
                forall|k: int, velocity: bool|
                    0 <= k < i ==> (#[trigger] buffer_of(map@, k, velocity)).spec_batch_size()
                        is None,
            decreases map.len() - i,
        {
            if map[i].1.momentum.batch_size().is_some() {
                assert(buffer_of(map@, i as int, false).spec_batch_size() is Some);
                assert(some_batched(map@));
                return Err(CheckpointError::DeviceRead);
            }
            if map[i].1.velocity.batch_size().is_some() {
                assert(buffer_of(map@, i as int, true).spec_batch_size() is Some);
                assert(some_batched(map@));
                return Err(CheckpointError::DeviceRead);
            }
            assert forall|k: int, velocity: bool| 0 <= k < i + 1 implies (#[trigger] buffer_of(
                map@,
                k,
                velocity,
            )).spec_batch_size() is None by {
                if k == i {
                    if velocity {
                    } else {
                    }
                }
            }
            i += 1;
        }
        assert(!some_batched(map@));
        let momentum = match Self::write_buffers(map, &names, false) {
            Ok(bytes) => bytes,
            Err(e) => {
                return Err(e);
            },
        };
        let velocity = match Self::write_buffers(map, &names, true) {
            Ok(bytes) => bytes,
            Err(e) => {
                return Err(e);
            },
        };
        Ok(vec![momentum, velocity])
    }

    /// Restores the collection from the contents of the two files of a
    /// checkpoint, momentum first.
    ///
    /// The records of both files are put in the order of their names and
    /// paired; each pair is loaded into the first state of that name. If
    /// anything is wrong (see [`load_fault`]) nothing is loaded at all.
    /// Otherwise, for every record of the first file the device loads the
    /// record's numbers into the momentum of the state the record is for,
    /// and for every record of the second file into the velocity; a state
    /// that no record is for stays as it is. Names, element counts and
    /// hyperparameters always stay as they are.
    fn load_from_checkpoint(
        map: &mut Vec<(String, Self)>,
        files: &Vec<Vec<u8>>,
        old_format: bool,
    ) -> (r: Result<(), CheckpointError>)
        ensures
            collection_names(final(map)@) == collection_names(old(map)@),
            collection_sizes(final(map)@) == collection_sizes(old(map)@),
            collection_params(final(map)@) == collection_params(old(map)@),
            match r {
                Ok(()) => {
                    &&& load_fault(
                        collection_names(old(map)@),
                        collection_sizes(old(map)@),
                        files_view(files@),
                        old_format,
                    ) is None
                    &&& forall|i: int, k: int| #[trigger]
                        is_for(
                            collection_names(old(map)@),
                            parsed(files_view(files@), 0, old_format),
                            k,
                            i,
                        ) ==> exists|buffer: &mut D::Buffer, v: Vec<Scalar>|
                            {
                                &&& v@ == parsed(files_view(files@), 0, old_format)[k].values
                                &&& *buffer == old(map)@[i].1.spec_momentum().spec_buffer()
                                &&& *final(buffer) == final(map)@[i].1.spec_momentum().spec_buffer()
                                &&& #[trigger] call_ensures(D::load, (buffer, &v), ())
                            }
                    &&& forall|i: int, k: int| #[trigger]
                        is_for(
                            collection_names(old(map)@),
                            parsed(files_view(files@), 1, old_format),
                            k,
                            i,
                        ) ==> exists|buffer: &mut D::Buffer, v: Vec<Scalar>|
                            {
                                &&& v@ == parsed(files_view(files@), 1, old_format)[k].values
                                &&& *buffer == old(map)@[i].1.spec_velocity().spec_buffer()
                                &&& *final(buffer) == final(map)@[i].1.spec_velocity().spec_buffer()
                                &&& #[trigger] call_ensures(D::load, (buffer, &v), ())
                            }
                    &&& forall|i: int|
                        0 <= i < old(map)@.len() && #[trigger] without_record(
                            collection_names(old(map)@),
                            parsed(files_view(files@), 0, old_format),
                            i,
                        ) ==> final(map)@[i] == old(map)@[i]
                },
                Err(e) => *final(map) == *old(map) && load_fault(
                    collection_names(old(map)@),
                    collection_sizes(old(map)@),
                    files_view(files@),
                    old_format,
                ) == Some(e),
            },
    {
        if files.len() != 2 {
            return Err(CheckpointError::Malformed);
        }
        assert(files_view(files@)[0] == files@[0]@ && files_view(files@)[1] == files@[1]@);
        let first = match parse_checkpoint(files[0].as_slice(), old_format) {
            Ok(records) => records,
            Err(e) => {
                return Err(e);
            },
        };
        let second = match parse_checkpoint(files[1].as_slice(), old_format) {
            Ok(records) => records,
            Err(e) => {
                return Err(e);
            },
        };
        let names = Self::names(map);
        let sizes = Self::sizes(map);
        let plan = match plan_restore(&names, &sizes, &first, &second) {
            Ok(plan) => plan,
            Err(e) => {
                return Err(e);
            },
        };
        let ghost all = collection_names(map@);
        let ghost counts = collection_sizes(map@);
        let ghost params = collection_params(map@);
        let ghost rf = records_view(first@);
        let ghost rs = records_view(second@);
        assert(rf == parsed(files_view(files@), 0, old_format));
        assert(rs == parsed(files_view(files@), 1, old_format));
        let mut k: usize = 0;
        while k < plan.len()
            invariant
                k <= plan.len(),
                map@.len() == old(map)@.len(),
                collection_names(map@) == all,
                collection_sizes(map@) == counts,
                collection_params(map@) == params,
                rf == records_view(first@),
                rs == records_view(second@),
                is_plan(plan@, all, counts, rf, rs),
                forall|i: int|
                    0 <= i < map@.len() && !targeted(plan@, k as int, i) ==> #[trigger] map@[i]
                        == old(map)@[i],
                forall|w: int|
                    0 <= w < k ==> {
                        let a = #[trigger] plan@[w];
                        &&& a.target < map@.len()
                        &&& a.first < first@.len()
                        &&& a.second < second@.len()
                        &&& exists|buffer: &mut D::Buffer|
                            {
                                &&& *buffer == old(map)@[a.target as int].1.spec_momentum().spec_buffer()
                                &&& *final(buffer)
                                    == map@[a.target as int].1.spec_momentum().spec_buffer()
                                &&& #[trigger] call_ensures(
                                    D::load,
                                    (buffer, &first@[a.first as int].values),
                                    (),
                                )
                            }
                        &&& exists|buffer: &mut D::Buffer|
                            {
                                &&& *buffer == old(map)@[a.target as int].1.spec_velocity().spec_buffer()
                                &&& *final(buffer)
                                    == map@[a.target as int].1.spec_velocity().spec_buffer()
                                &&& #[trigger] call_ensures(
                                    D::load,
                                    (buffer, &second@[a.second as int].values),
                                    (),
                                )
                            }
                    },
            decreases plan.len() - k,
        {
            let a = plan[k];
            let ghost before = map@;
            proof {
                let pairs = Seq::new(plan@.len(), |w: int| (plan@[w].first, plan@[w].second));
                assert(pairs[k as int] == (a.first, a.second));
                assert(a == plan@[k as int]);
                assert(a.first < first@.len() && a.second < second@.len());
                assert(a.target < map@.len());
                if targeted(plan@, k as int, a.target as int) {
                    let w = choose|w: int|
                        0 <= w < k && w < plan@.len() && (#[trigger] plan@[w]).target
                            == a.target as int;
                    lemma_targets_distinct(plan@, all, counts, rf, rs, w, k as int);
                }
                assert(before[a.target as int] == old(map)@[a.target as int]);
            }
            assert(rf[a.first as int] == first@[a.first as int]@);
            assert(rs[a.second as int] == second@[a.second as int]@);
            assert(counts[a.target as int] == (
                map@[a.target as int].1.spec_momentum().spec_size(),
                map@[a.target as int].1.spec_velocity().spec_size(),
            ));
            map[a.target].1.restore(&first[a.first].values, &second[a.second].values);
            proof {
                assert(forall|i: int|
                    0 <= i < map@.len() && i != a.target ==> map@[i] == before[i]);
                assert(map@[a.target as int].0 == before[a.target as int].0);
                assert(collection_names(map@) =~= all) by {
                    assert forall|i: int| 0 <= i < map@.len() implies collection_names(map@)[i]
                        == all[i] by {
                        assert(all[i] == encode_utf8(before[i].0@));
                    }
                }
                assert(collection_sizes(map@) =~= counts) by {
                    assert forall|i: int| 0 <= i < map@.len() implies collection_sizes(map@)[i]
                        == counts[i] by {
                        assert(counts[i] == collection_sizes(before)[i]);
                    }
                }
                assert(collection_params(map@) =~= params) by {
                    assert forall|i: int| 0 <= i < map@.len() implies collection_params(map@)[i]
                        == params[i] by {
                        assert(params[i] == collection_params(before)[i]);
                    }
                }
                assert forall|i: int|
                    0 <= i < map@.len() && !targeted(plan@, k + 1, i) implies #[trigger] map@[i]
                    == old(map)@[i] by {
                    if i == a.target {
                        assert(plan@[k as int].target == i);
                        assert(targeted(plan@, k + 1, i));
                    } else {
                        if targeted(plan@, k as int, i) {
                            let w = choose|w: int|
                                0 <= w < k && w < plan@.len() && (#[trigger] plan@[w]).target == i;
                            assert(targeted(plan@, k + 1, i));
                        }
                        assert(before[i] == old(map)@[i]);
                    }
                }
                assert forall|w: int| 0 <= w < k implies map@[(#[trigger] plan@[w]).target as int]
                    == before[plan@[w].target as int] by {
                    lemma_targets_distinct(plan@, all, counts, rf, rs, w, k as int);
                }
            }
            k += 1;
        }
        proof {
            let names = collection_names(old(map)@);
            let pairs = Seq::new(plan@.len(), |w: int| (plan@[w].first, plan@[w].second));
            assert forall|i: int, k0: int| #[trigger] is_for(names, rf, k0, i) implies exists|
                buffer: &mut D::Buffer,
                v: Vec<Scalar>,
            |
                {
                    &&& v@ == rf[k0].values
                    &&& *buffer == old(map)@[i].1.spec_momentum().spec_buffer()
                    &&& *final(buffer) == map@[i].1.spec_momentum().spec_buffer()
                    &&& #[trigger] call_ensures(D::load, (buffer, &v), ())
                } by {
                assert(pairs_first(pairs, k0));
                let w = choose|w: int| 0 <= w < pairs.len() && (#[trigger] pairs[w]).0 == k0;
                let a = plan@[w];
                assert(a.first == k0 && a.target == i);
                assert(first@[k0].values@ == rf[k0].values);
            }
            assert forall|i: int, k0: int| #[trigger] is_for(names, rs, k0, i) implies exists|
                buffer: &mut D::Buffer,
                v: Vec<Scalar>,
            |
                {
                    &&& v@ == rs[k0].values
                    &&& *buffer == old(map)@[i].1.spec_velocity().spec_buffer()
                    &&& *final(buffer) == map@[i].1.spec_velocity().spec_buffer()
                    &&& #[trigger] call_ensures(D::load, (buffer, &v), ())
                } by {
                assert(pairs_second(pairs, k0));
                let w = choose|w: int| 0 <= w < pairs.len() && (#[trigger] pairs[w]).1 == k0;
                let a = plan@[w];
                assert(pairs[w] == (a.first, a.second));
                assert(names_of(rf)[a.first as int] == names_of(rs)[a.second as int]);
                assert(a.second == k0 && a.target == i);
                assert(second@[k0].values@ == rs[k0].values);
            }
            assert forall|i: int|
                0 <= i < old(map)@.len() && #[trigger] without_record(names, rf, i) implies map@[i]
                == old(map)@[i] by {
                if targeted(plan@, plan@.len() as int, i) {
                    let w = choose|w: int|
                        0 <= w < plan@.len() && w < plan@.len() && (#[trigger] plan@[w]).target
                            == i;
                    let a = plan@[w];
                    assert(pairs[w] == (a.first, a.second));
                    assert(is_for(names, rf, a.first as int, i));
                }
            }
        }
        Ok(())
    }
}

/// The files written for a collection whose names differ from one another
/// can be loaded into every collection with the same names and element
/// counts.
pub proof fn lemma_written_checkpoint_loads(
    names: Seq<Seq<u8>>,
    sizes: Seq<(usize, usize)>,
    files: Seq<Seq<u8>>,
)
    requires
        !has_duplicate(names),
        sizes.len() == names.len(),
        files.len() == 2,
        is_file_of(files[0], names, Seq::new(names.len(), |i: int| sizes[i].0)),
        is_file_of(files[1], names, Seq::new(names.len(), |i: int| sizes[i].1)),
    ensures
        load_fault(names, sizes, files, false) is None,
{
    let first_sizes = Seq::new(names.len(), |i: int| sizes[i].0);
    let second_sizes = Seq::new(names.len(), |i: int| sizes[i].1);
    let (momentum, first_order) = choose|values: Seq<Seq<Scalar>>, order: Seq<usize>|
        #[trigger] is_file_with(files[0], names, first_sizes, values, order);
    let (velocity, second_order) = choose|values: Seq<Seq<Scalar>>, order: Seq<usize>|
        #[trigger] is_file_with(files[1], names, second_sizes, values, order);
    let first = records_for(names, momentum, first_order);
    let second = records_for(names, velocity, second_order);
    assert forall|k: int| 0 <= k < first.len() implies valid_record(#[trigger] first[k]) by {
        assert(valid_name(names[first_order[k] as int]));
        assert(momentum[first_order[k] as int].len() <= usize::MAX);
    }
    assert forall|k: int| 0 <= k < second.len() implies valid_record(#[trigger] second[k]) by {
        assert(valid_name(names[second_order[k] as int]));
        assert(velocity[second_order[k] as int].len() <= usize::MAX);
    }
    lemma_round_trip(first);
    lemma_round_trip(second);
    lemma_checkpoint_round_trip(
        names,
        momentum,
        velocity,
        first_order,
        second_order,
        first,
        second,
        Seq::empty(),
    );
    assert(sizes_for(momentum, velocity) =~= sizes) by {
        assert forall|i: int| 0 <= i < names.len() implies sizes_for(momentum, velocity)[i]
            == sizes[i] by {
            assert(momentum[i].len() == first_sizes[i]);
            assert(velocity[i].len() == second_sizes[i]);
        }
    }
}

/// Two assignments of a plan are to two states.
pub proof fn lemma_targets_distinct(
    plan: Seq<Assignment>,
    names: Seq<Seq<u8>>,
    sizes: Seq<(usize, usize)>,
    first: Seq<Record>,
    second: Seq<Record>,
    w: int,
    k: int,
)
    requires
        is_plan(plan, names, sizes, first, second),
        0 <= w < plan.len(),
        0 <= k < plan.len(),
        w != k,
    ensures
        plan[w].target != plan[k].target,
{
    let pairs = Seq::new(plan.len(), |x: int| (plan[x].first, plan[x].second));
    assert(pairs[w] == (plan[w].first, plan[w].second));
    assert(pairs[k] == (plan[k].first, plan[k].second));
    let a = names_of(first)[plan[w].first as int];
    let b = names_of(first)[plan[k].first as int];
    if w < k {
        assert(name_lt(a, b));
    } else {
        assert(name_lt(b, a));
    }
    lemma_position_from(names, a, 0);
    lemma_position_from(names, b, 0);
}

/// The file of one kind of buffer of a collection is a file of the
/// collection's names and element counts.
pub proof fn lemma_checkpoint_is_file<D: Device>(
    bytes: Seq<u8>,
    map: Seq<(String, Adam<D>)>,
    velocity: bool,
)
    requires
        is_checkpoint_of(bytes, map, velocity),
    ensures
        is_file_of(bytes, collection_names(map), buffer_sizes(map, velocity)),
{
    let (values, order) = choose|values: Seq<Seq<Scalar>>, order: Seq<usize>| #[trigger]
        is_file_with(bytes, collection_names(map), buffer_sizes(map, velocity), values, order)
            && holds_contents(map, velocity, values);
    assert(is_file_with(bytes, collection_names(map), buffer_sizes(map, velocity), values, order));
}

/// In the file that holds `values[i]` under `names[i]`, the names differing
/// from one another, the record that is for state `i` holds `values[i]`:
/// what is loaded into a state is what was written for it, bit for bit,
/// whatever the order of the records.
pub proof fn lemma_record_holds_its_state(
    bytes: Seq<u8>,
    names: Seq<Seq<u8>>,
    sizes: Seq<usize>,
    values: Seq<Seq<Scalar>>,
    order: Seq<usize>,
    k: int,
    i: int,
)
    requires
        !has_duplicate(names),
        is_file_with(bytes, names, sizes, values, order),
        parse_all(bytes, 0, false) is Some,
        is_for(names, parse_all(bytes, 0, false)->Some_0, k, i),
    ensures
        parse_all(bytes, 0, false)->Some_0[k].values == values[i],
{
    let records = records_for(names, values, order);
    assert forall|w: int| 0 <= w < records.len() implies valid_record(#[trigger] records[w]) by {
        assert(valid_name(names[order[w] as int]));
        assert(values[order[w] as int].len() <= usize::MAX);
    }
    lemma_round_trip(records);
    let t = order[k] as int;
    lemma_position_from(names, names[t], 0);
    if i < t {
        assert(names[i] == names[t]);
    } else if t < i {
        assert(names[t] == names[i]);
    }
}

} // verus!
