//! Batches of training positions, laid out as the graph's inputs want them.

use vstd::prelude::*;
use crate::trainer::loader::GameResult;
use crate::scalar::{Scalar, ONE, ZERO};
use crate::shape::{valid_dims, Shape};

verus! {

/// What is read of one position: the active features, each as the index
/// seen by the side to move and the index seen by the other side; the
/// output bucket; the game's result; and the target value, which is used
/// unless the targets are win, draw and loss.
#[derive(Clone, Debug, PartialEq, Eq)]
pub struct Example {
    pub features: Vec<(usize, usize)>,
    pub bucket: u8,
    pub result: GameResult,
    pub target: Scalar,
}

/// A dense input: a shape and its numbers, column after column.
#[derive(Clone, Debug, PartialEq, Eq)]
pub struct DenseInput {
    pub shape: Shape,
    pub value: Vec<Scalar>,
}

/// A sparse input: a shape and, for each column, up to `max_active`
/// indices of the rows that are set.
#[derive(Clone, Debug, PartialEq, Eq)]
pub struct SparseInput {
    pub shape: Shape,
    pub value: Vec<i32>,
    pub max_active: usize,
}

/// The inputs, buckets and targets of one batch, laid out for the graph.
#[derive(Clone, Debug, PartialEq, Eq)]
pub struct PreparedBatch {
    pub batch_size: usize,
    pub stm: SparseInput,
    pub nstm: SparseInput,
    pub dstm: DenseInput,
    pub dnstm: DenseInput,
    pub buckets: SparseInput,
    pub targets: DenseInput,
}

/// How a batch is to be laid out.
#[derive(Clone, Copy, Debug, PartialEq, Eq)]
pub struct BatchFormat {
    /// The number of features a position can have.
    pub input_size: usize,
    /// The largest number of features that are active at once.
    pub max_active: usize,
    /// The number of output buckets.
    pub buckets: usize,
    /// Whether the targets are win, draw and loss rather than one value.
    pub wdl: bool,
    /// Whether the inputs are written densely.
    pub dense: bool,
}

/// Why no batch was made.
#[derive(Clone, Copy, Debug, PartialEq, Eq)]
pub enum PrepareError {
    /// There is no position.
    EmptyBatch,
    /// An input would have no element, or more than can be counted.
    InvalidShape,
    /// The position with this index has more active features than the
    /// format allows.
    TooManyFeatures(usize),
    /// The position with this index has a feature beyond the input size,
    /// and the inputs are dense.
    FeatureOutOfRange(usize),
}

/// The index of a feature as one side sees it.
pub open spec fn seen(feature: (usize, usize), other_side: bool) -> usize {
    if other_side {
        feature.1
    } else {
        feature.0
    }
}

/// The sparse column of one position: the indices of its features as one
/// side sees them, then a `-1` if there is room, then zeros.
pub open spec fn sparse_column(features: Seq<(usize, usize)>, max_active: int, other_side: bool)
    -> Seq<i32> {
    Seq::new(
        max_active as nat,
        |j: int|
            if j < features.len() {
                seen(features[j], other_side) as i32
            } else if j == features.len() {
                -1i32
            } else {
                0i32
            },
    )
}

/// Whether one of the first `upto` features has the index `x` as one side
/// sees it.
pub open spec fn active(features: Seq<(usize, usize)>, other_side: bool, x: int, upto: int)
    -> bool {
    exists|j: int| 0 <= j < upto && j < features.len() && seen(#[trigger] features[j], other_side) == x
}

/// The dense column of one position: one where a feature is active, zero
/// elsewhere.
pub open spec fn dense_column(features: Seq<(usize, usize)>, input_size: int, other_side: bool)
    -> Seq<Scalar> {
    dense_column_upto(features, input_size, other_side, features.len() as int)
}

/// The dense column that the first `upto` features of a position give.
pub open spec fn dense_column_upto(
    features: Seq<(usize, usize)>,
    input_size: int,
    other_side: bool,
    upto: int,
) -> Seq<Scalar> {
    Seq::new(
        input_size as nat,
        |x: int|
            if active(features, other_side, x, upto) {
                Scalar { bits: ONE }
            } else {
                Scalar { bits: ZERO }
            },
    )
}

/// The three targets of a position whose targets are win, draw and loss:
/// one at the index of the result, zero elsewhere.
pub open spec fn wdl_column(result: GameResult) -> Seq<Scalar> {
    Seq::new(
        3,
        |k: int|
            if k == result.spec_index() {
                Scalar { bits: ONE }
            } else {
                Scalar { bits: ZERO }
            },
    )
}

/// The examples, as sequences.
pub open spec fn examples_view(examples: Seq<Example>) -> Seq<ExampleView> {
    Seq::new(examples.len(), |i: int| examples[i]@)
}

/// What is read of one position, as sequences.
pub struct ExampleView {
    pub features: Seq<(usize, usize)>,
    pub bucket: u8,
    pub result: GameResult,
    pub target: Scalar,
}

impl View for Example {
    type V = ExampleView;

    open spec fn view(&self) -> ExampleView {
        ExampleView {
            features: self.features@,
            bucket: self.bucket,
            result: self.result,
            target: self.target,
        }
    }
}

impl BatchFormat {
    /// The number of targets of one position.
    pub open spec fn output_size(self) -> int {
        if self.wdl {
            3
        } else {
            1
        }
    }

    /// Whether the position has a feature beyond the input size.
    pub open spec fn out_of_range(self, example: ExampleView) -> bool {
        exists|j: int|
            0 <= j < example.features.len() && ((#[trigger] example.features[j]).0
                >= self.input_size || example.features[j].1 >= self.input_size)
    }

    /// Why the position cannot be laid out, if it cannot: it may not have
    /// more features than `max_active`, and with dense inputs none beyond
    /// the input size.
    pub open spec fn example_fault(self, example: ExampleView, index: usize) -> Option<
        PrepareError,
    > {
        if example.features.len() > self.max_active {
            Some(PrepareError::TooManyFeatures(index))
        } else if self.dense && self.out_of_range(example) {
            Some(PrepareError::FeatureOutOfRange(index))
        } else {
            None
        }
    }

    /// The fault of the first position from `from` on that has one.
    pub open spec fn first_fault(self, examples: Seq<ExampleView>, from: int) -> Option<
        PrepareError,
    >
        decreases examples.len() - from,
    {
        if from < 0 || from >= examples.len() {
            None
        } else if self.example_fault(examples[from], from as usize) is Some {
            self.example_fault(examples[from], from as usize)
        } else {
            self.first_fault(examples, from + 1)
        }
    }

    /// Why no batch can be made of the positions, if none can: there must
    /// be a position; the shapes of the inputs, the buckets and the targets
    /// must be shapes; and every position must be fit to be laid out.
    pub open spec fn fault(self, examples: Seq<ExampleView>) -> Option<PrepareError> {
        if examples.len() == 0 {
            Some(PrepareError::EmptyBatch)
        } else if !valid_dims(self.input_size as int, examples.len() as int) || !valid_dims(
            self.buckets as int,
            examples.len() as int,
        ) || !valid_dims(self.output_size(), examples.len() as int) {
            Some(PrepareError::InvalidShape)
        } else {
            self.first_fault(examples, 0)
        }
    }

    /// The sparse input of one side: the positions' sparse columns one
    /// after the other; with dense inputs, one zero for each position.
    pub open spec fn sparse_values(self, examples: Seq<ExampleView>, other_side: bool) -> Seq<i32>
        decreases examples.len(),
    {
        if examples.len() == 0 {
            Seq::empty()
        } else {
            self.sparse_values(examples.drop_last(), other_side) + (if self.dense {
                seq![0i32]
            } else {
                sparse_column(examples.last().features, self.max_active as int, other_side)
            })
        }
    }

    /// The dense input of one side: the positions' dense columns one after
    /// the other; with sparse inputs, one zero for each position.
    pub open spec fn dense_values(self, examples: Seq<ExampleView>, other_side: bool) -> Seq<
        Scalar,
    >
        decreases examples.len(),
    {
        if examples.len() == 0 {
            Seq::empty()
        } else {
            self.dense_values(examples.drop_last(), other_side) + (if self.dense {
                dense_column(examples.last().features, self.input_size as int, other_side)
            } else {
                seq![Scalar { bits: ZERO }]
            })
        }
    }

    /// The bucket of each position.
    pub open spec fn bucket_values(self, examples: Seq<ExampleView>) -> Seq<i32> {
        Seq::new(examples.len(), |i: int| examples[i].bucket as i32)
    }

    /// The targets: for each position its target value, or one among three
    /// if the targets are win, draw and loss.
    pub open spec fn target_values(self, examples: Seq<ExampleView>) -> Seq<Scalar>
        decreases examples.len(),
    {
        if examples.len() == 0 {
            Seq::empty()
        } else {
            self.target_values(examples.drop_last()) + (if self.wdl {
                wdl_column(examples.last().result)
            } else {
                seq![examples.last().target]
            })
        }
    }

    /// Whether `batch` is the batch made of the positions.
    pub open spec fn lays_out(self, examples: Seq<ExampleView>, batch: PreparedBatch) -> bool {
        let n = examples.len() as usize;
        let input = Shape::spec_new(self.input_size, n);
        &&& batch.batch_size == n
        &&& batch.stm.shape == input
        &&& batch.nstm.shape == input
        &&& batch.dstm.shape == input
        &&& batch.dnstm.shape == input
        &&& batch.buckets.shape == Shape::spec_new(self.buckets, n)
        &&& batch.targets.shape == Shape::spec_new(self.output_size() as usize, n)
        &&& batch.stm.max_active == self.max_active
        &&& batch.nstm.max_active == self.max_active
        &&& batch.buckets.max_active == 1
        &&& batch.stm.value@ == self.sparse_values(examples, false)
        &&& batch.nstm.value@ == self.sparse_values(examples, true)
        &&& batch.dstm.value@ == self.dense_values(examples, false)
        &&& batch.dnstm.value@ == self.dense_values(examples, true)
        &&& batch.buckets.value@ == self.bucket_values(examples)
        &&& batch.targets.value@ == self.target_values(examples)
    }

    /// Tests one position; see [`BatchFormat::example_fault`].
    fn check(&self, example: &Example, index: usize) -> (r: Option<PrepareError>)
        ensures
            r == self.example_fault(example@, index),
    {
        if example.features.len() > self.max_active {
            return Some(PrepareError::TooManyFeatures(index));
        }
        if self.dense {
            let mut j: usize = 0;
            while j < example.features.len()
                invariant
                    j <= example.features.len(),
                    self.dense,
                    example.features@.len() <= self.max_active,
                    forall|k: int|
                        0 <= k < j ==> (#[trigger] example.features@[k]).0 < self.input_size
                            && example.features@[k].1 < self.input_size,
                decreases example.features.len() - j,
            {
                if example.features[j].0 >= self.input_size || example.features[j].1
                    >= self.input_size {
                    assert(example@.features[j as int].0 >= self.input_size
                        || example@.features[j as int].1 >= self.input_size);
                    assert(self.out_of_range(example@));
                    return Some(PrepareError::FeatureOutOfRange(index));
                }
                j += 1;
            }
            assert(!self.out_of_range(example@));
        }
        None
    }

    /// Appends one sparse column.
    fn push_sparse(&self, out: &mut Vec<i32>, features: &Vec<(usize, usize)>, other_side: bool)
        requires
            features@.len() <= self.max_active,
        ensures
            final(out)@ == old(out)@ + sparse_column(features@, self.max_active as int, other_side),
    {
        let ghost column = sparse_column(features@, self.max_active as int, other_side);
        let mut j: usize = 0;
        while j < self.max_active
            invariant
                j <= self.max_active,
                features@.len() <= self.max_active,
                column == sparse_column(features@, self.max_active as int, other_side),
                out@ == old(out)@ + column.subrange(0, j as int),
            decreases self.max_active - j,
        {
            let x: i32 = if j < features.len() {
                let f = features[j];
                if other_side {
                    #[verifier::truncate]
                    (f.1 as i32)
                } else {
                    #[verifier::truncate]
                    (f.0 as i32)
                }
            } else if j == features.len() {
                -1
            } else {
                0
            };
            out.push(x);
            assert(out@ =~= old(out)@ + column.subrange(0, j + 1));
            j += 1;
        }
        assert(column.subrange(0, self.max_active as int) =~= column);
    }

    /// Appends one dense column.
    fn push_dense(&self, out: &mut Vec<Scalar>, features: &Vec<(usize, usize)>, other_side: bool)
        requires
            forall|k: int|
                0 <= k < features@.len() ==> (#[trigger] features@[k]).0 < self.input_size
                    && features@[k].1 < self.input_size,
        ensures
            final(out)@ == old(out)@ + dense_column(features@, self.input_size as int, other_side),
    {
        let base = out.len();
        let mut x: usize = 0;
        while x < self.input_size
            invariant
                x <= self.input_size,
                base == old(out)@.len(),
                out@ == old(out)@ + Seq::new(x as nat, |k: int| Scalar { bits: ZERO }),
            decreases self.input_size - x,
        {
            out.push(Scalar::from_bits(ZERO));
            assert(out@ =~= old(out)@ + Seq::new((x + 1) as nat, |k: int| Scalar { bits: ZERO }));
            x += 1;
        }
        assert(out@ =~= old(out)@ + dense_column_upto(
            features@,
            self.input_size as int,
            other_side,
            0,
        ));
        let _ = out.len();
        let mut j: usize = 0;
        while j < features.len()
            invariant
                j <= features.len(),
                base == old(out)@.len(),
                out@.len() == base + self.input_size,
                forall|k: int|
                    0 <= k < features@.len() ==> (#[trigger] features@[k]).0 < self.input_size
                        && features@[k].1 < self.input_size,
                out@ == old(out)@ + dense_column_upto(
                    features@,
                    self.input_size as int,
                    other_side,
                    j as int,
                ),
            decreases features.len() - j,
        {
            let f = features[j];
            let _ = out.len();
            let at = if other_side {
                f.1
            } else {
                f.0
            };
            let ghost before = dense_column_upto(
                features@,
                self.input_size as int,
                other_side,
                j as int,
            );
            let ghost after = dense_column_upto(
                features@,
                self.input_size as int,
                other_side,
                j + 1,
            );
            out[base + at] = Scalar::from_bits(ONE);
            proof {
                assert forall|x: int| 0 <= x < self.input_size implies after[x] == (if x == at {
                    Scalar { bits: ONE }
                } else {
                    before[x]
                }) by {
                    if x == at {
                        assert(seen(features@[j as int], other_side) == x);
                        assert(active(features@, other_side, x, j + 1));
                    } else {
                        if active(features@, other_side, x, j + 1) {
                            let w = choose|w: int|
                                0 <= w < j + 1 && w < features@.len() && seen(
                                    #[trigger] features@[w],
                                    other_side,
                                ) == x;
                            assert(w < j);
                            assert(active(features@, other_side, x, j as int));
                        }
                        if active(features@, other_side, x, j as int) {
                            let w = choose|w: int|
                                0 <= w < j && w < features@.len() && seen(
                                    #[trigger] features@[w],
                                    other_side,
                                ) == x;
                            assert(active(features@, other_side, x, j + 1));
                        }
                    }
                }
                assert(out@ =~= old(out)@ + after);
            }
            j += 1;
        }
    }

    /// Lays the positions out as a batch.
    ///
    /// No batch is made of no positions, of positions with more features
    /// than `max_active`, or, with dense inputs, with a feature beyond the
    /// input size; nor where a shape would be none. The error is the one
    /// [`BatchFormat::fault`] gives.
    pub fn prepare(&self, examples: &Vec<Example>) -> (r: Result<PreparedBatch, PrepareError>)
        ensures
            match r {
                Ok(batch) => self.fault(examples_view(examples@)) is None && self.lays_out(
                    examples_view(examples@),
                    batch,
                ),
                Err(e) => self.fault(examples_view(examples@)) == Some(e),
            },
    {
        let ghost all = examples_view(examples@);
        let n = examples.len();
        if n == 0 {
            return Err(PrepareError::EmptyBatch);
        }
        let output_size: usize = if self.wdl {
            3
        } else {
            1
        };
        let input = match Shape::try_new(self.input_size, n) {
            Some(s) => s,
            None => {
                return Err(PrepareError::InvalidShape);
            },
        };
        let bucket_shape = match Shape::try_new(self.buckets, n) {
            Some(s) => s,
            None => {
                return Err(PrepareError::InvalidShape);
            },
        };
        let target_shape = match Shape::try_new(output_size, n) {
            Some(s) => s,
            None => {
                return Err(PrepareError::InvalidShape);
            },
        };
        let mut stm: Vec<i32> = Vec::new();
        let mut nstm: Vec<i32> = Vec::new();
        let mut dstm: Vec<Scalar> = Vec::new();
        let mut dnstm: Vec<Scalar> = Vec::new();
        let mut buckets: Vec<i32> = Vec::new();
        let mut targets: Vec<Scalar> = Vec::new();
        let mut i: usize = 0;
        while i < n
            invariant
                i <= n,
                n == examples.len(),
                n > 0,
                all == examples_view(examples@),
                valid_dims(self.input_size as int, n as int),
                valid_dims(self.buckets as int, n as int),
                valid_dims(self.output_size(), n as int),
                self.first_fault(all, 0) == self.first_fault(all, i as int),
                stm@ == self.sparse_values(all.subrange(0, i as int), false),
                nstm@ == self.sparse_values(all.subrange(0, i as int), true),
                dstm@ == self.dense_values(all.subrange(0, i as int), false),
                dnstm@ == self.dense_values(all.subrange(0, i as int), true),
                buckets@ == self.bucket_values(all.subrange(0, i as int)),
                targets@ == self.target_values(all.subrange(0, i as int)),
            decreases n - i,
        {
            let example = &examples[i];
            assert(all[i as int] == example@);
            match self.check(example, i) {
                Some(e) => {
                    return Err(e);
                },
                None => {},
            }
            let ghost done = all.subrange(0, i as int);
            let ghost next = all.subrange(0, i + 1);
            proof {
                assert(next.drop_last() =~= done);
                assert(next.last() == example@);
            }
            if self.dense {
                stm.push(0);
                nstm.push(0);
                proof {
                    assert forall|k: int| 0 <= k < example.features@.len() implies (
                    #[trigger] example.features@[k]).0 < self.input_size
                        && example.features@[k].1 < self.input_size by {
                        if !(example.features@[k].0 < self.input_size && example.features@[k].1
                            < self.input_size) {
                            assert(self.out_of_range(example@));
                        }
                    }
                }
                self.push_dense(&mut dstm, &example.features, false);
                self.push_dense(&mut dnstm, &example.features, true);
            } else {
                self.push_sparse(&mut stm, &example.features, false);
                self.push_sparse(&mut nstm, &example.features, true);
                dstm.push(Scalar::from_bits(ZERO));
                dnstm.push(Scalar::from_bits(ZERO));
            }
            buckets.push(example.bucket as i32);
            if self.wdl {
                let hot = example.result.index();
                let mut k: u8 = 0;
                let ghost before = targets@;
                while k < 3
                    invariant
                        k <= 3,
                        hot == example.result.spec_index(),
                        targets@ == before + wdl_column(example.result).subrange(0, k as int),
                    decreases 3 - k,
                {
                    targets.push(
                        if k == hot {
                            Scalar::from_bits(ONE)
                        } else {
                            Scalar::from_bits(ZERO)
                        },
                    );
                    assert(targets@ =~= before + wdl_column(example.result).subrange(0, k + 1));
                    k += 1;
                }
                assert(wdl_column(example.result).subrange(0, 3) =~= wdl_column(example.result));
            } else {
                targets.push(example.target);
            }
            proof {
                assert(stm@ =~= self.sparse_values(next, false));
                assert(nstm@ =~= self.sparse_values(next, true));
                assert(dstm@ =~= self.dense_values(next, false));
                assert(dnstm@ =~= self.dense_values(next, true));
                assert(buckets@ =~= self.bucket_values(next));
                assert(targets@ =~= self.target_values(next));
            }
            i += 1;
        }
        assert(all.subrange(0, n as int) =~= all);
        Ok(
            PreparedBatch {
                batch_size: n,
                stm: SparseInput { shape: input, value: stm, max_active: self.max_active },
                nstm: SparseInput { shape: input, value: nstm, max_active: self.max_active },
                dstm: DenseInput { shape: input, value: dstm },
                dnstm: DenseInput { shape: input, value: dnstm },
                buckets: SparseInput { shape: bucket_shape, value: buckets, max_active: 1 },
                targets: DenseInput { shape: target_shape, value: targets },
            },
        )
    }
}

/// Whether `size` is the least chunk size with which `threads` chunks hold
/// `batch_size` positions.
pub open spec fn is_chunk_size(size: int, batch_size: int, threads: int) -> bool {
    (size - 1) * threads < batch_size <= size * threads
}

/// The number of positions each worker gets when a batch is shared out
/// among `threads` workers: the batch size divided by the number of
/// workers, rounded up. There is none without a worker.
pub fn chunk_size(batch_size: usize, threads: usize) -> (r: Option<usize>)
    ensures
        match r {
            Some(size) => threads > 0 && is_chunk_size(
                size as int,
                batch_size as int,
                threads as int,
            ),
            None => threads == 0,
        },
{
    if threads == 0 {
        return None;
    }
    let whole = batch_size / threads;
    let rest = batch_size % threads;
    assert(batch_size == whole * threads + rest) by (nonlinear_arith)
        requires
            threads > 0,
            whole == batch_size / threads,
            rest == batch_size % threads,
    ;
    if rest == 0 {
        assert((whole - 1) * threads < whole * threads) by (nonlinear_arith)
            requires
                threads > 0,
        ;
        Some(whole)
    } else {
        assert(whole < batch_size) by (nonlinear_arith)
            requires
                batch_size == whole * threads + rest,
                rest > 0,
                threads > 0,
                whole >= 0,
        ;
        assert((whole + 1) * threads == whole * threads + threads) by (nonlinear_arith);
        Some(whole + 1)
    }
}

/// Whether the ranges share out the positions `0` to `batch_size` in
/// chunks of `size`: they follow one another without a gap, from the first
/// position to the last; each holds `size` positions, but the last, which
/// holds at least one and at most `size`.
pub open spec fn shares_out(ranges: Seq<(usize, usize)>, batch_size: int, size: int) -> bool {
    &&& ranges.len() > 0
    &&& ranges[0].0 == 0
    &&& ranges.last().1 == batch_size
    &&& forall|k: int|
        0 <= k < ranges.len() ==> (#[trigger] ranges[k]).0 == k * size && ranges[k].0
            < ranges[k].1 <= ranges[k].0 + size
    &&& forall|k: int| 0 <= k < ranges.len() - 1 ==> (#[trigger] ranges[k]).1 == ranges[k + 1].0
}

/// Shares a batch out among `threads` workers: the ranges of positions,
/// one for each worker that gets any.
///
/// No worker writes where another does: the ranges follow one another
/// without a gap or an overlap, and there are at most `threads` of them.
/// There is nothing to share out without a position or without a worker.
pub fn chunks(batch_size: usize, threads: usize) -> (r: Option<Vec<(usize, usize)>>)
    ensures
        match r {
            Some(ranges) => batch_size > 0 && threads > 0 && ranges@.len() <= threads
                && exists|size: int|
                is_chunk_size(size, batch_size as int, threads as int) && #[trigger] shares_out(
                    ranges@,
                    batch_size as int,
                    size,
                ),
            None => batch_size == 0 || threads == 0,
        },
{
    if batch_size == 0 {
        return None;
    }
    let size = match chunk_size(batch_size, threads) {
        Some(size) => size,
        None => {
            return None;
        },
    };
    assert(size > 0) by (nonlinear_arith)
        requires
            batch_size > 0,
            threads > 0,
            batch_size <= size * threads,
    ;
    let mut ranges: Vec<(usize, usize)> = Vec::new();
    let mut start: usize = 0;
    while start < batch_size
        invariant
            size > 0,
            threads > 0,
            batch_size > 0,
            batch_size <= size * threads,
            start <= batch_size,
            start < batch_size ==> start == ranges@.len() * size,
            start == batch_size ==> ranges@.len() > 0 && ranges@.last().1 == batch_size,
            ranges@.len() > 0 ==> ranges@[0].0 == 0 && ranges@.last().1 == start,
            ranges@.len() == 0 ==> start == 0,
            ranges@.len() <= threads,
            forall|k: int|
                0 <= k < ranges@.len() ==> (#[trigger] ranges@[k]).0 == k * size && ranges@[k].0
                    < ranges@[k].1 <= ranges@[k].0 + size,
            forall|k: int|
                0 <= k < ranges@.len() - 1 ==> (#[trigger] ranges@[k]).1 == ranges@[k + 1].0,
        decreases batch_size - start,
    {
        let end = if batch_size - start <= size {
            batch_size
        } else {
            start + size
        };
        let ghost count = ranges@.len() as int;
        assert(count < threads) by (nonlinear_arith)
            requires
                start == count * size,
                start < batch_size,
                batch_size <= size * threads,
                size > 0,
        ;
        assert((count + 1) * size == count * size + size) by (nonlinear_arith);
        ranges.push((start, end));
        start = end;
    }
    assert(shares_out(ranges@, batch_size as int, size as int));
    Some(ranges)
}

} // verus!
