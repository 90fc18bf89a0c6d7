//! The operations a graph is made of, and the shape each one produces.

use vstd::prelude::*;
use crate::graph::error::{GraphBuilderErrorType, ShapeFault};
use crate::graph::node::Node;
use crate::scalar::Scalar;
use crate::shape::{valid_dims, Shape};

verus! {

broadcast use {Shape::lemma_new_dims, Shape::lemma_is_new};

/// The element-wise functions a node can be passed through.
#[derive(Clone, Copy, Debug, PartialEq, Eq, Structural, Hash)]
pub enum Activation {
    Identity,
    ReLU,
    CReLU,
    SCReLU,
    SqrReLU,
    Sigmoid,
}

/// One step of a computation: which nodes it reads and with which
/// parameters. Numbers are carried as bit patterns.
#[derive(Clone, Copy, Debug, PartialEq, Eq)]
pub enum Operation {
    /// The activation applied to every element.
    Activate(Node, Activation),
    /// `weights * input + bias`.
    Affine(Node, Node, Node),
    /// `weights * input + bias` for a sparse input; the bias is optional.
    SparseAffine(Node, Node, Option<Node>),
    /// The affine map applied to two sparse inputs of one shape, activated
    /// and stacked: weights, first input, second input, bias.
    SparseAffineDualActivate(Node, Node, Node, Node, Activation),
    /// The second node's rows below the first's.
    Concat(Node, Node),
    /// The rows of a column vector picked by a column of indices.
    Gather(Node, Node),
    /// `alpha * a + beta * b`.
    LinearCombination(Scalar, Node, Scalar, Node),
    /// The input with the entries outside the mask set to zero.
    Mask(Node, Node),
    /// The matrix product, each factor transposed first if its flag is set.
    Matmul(Node, bool, Node, bool),
    /// The upper half of the rows times the lower half, element by element;
    /// with the flag set, each half of the rows is treated so on its own.
    PairwiseMul(Node, bool),
    /// The summed power of the absolute difference to a target.
    PowerError(Node, Node, Scalar),
    /// The sum over all examples of a batch.
    ReduceAcrossBatch(Node),
    /// One block of rows out of equally many blocks, picked by a bucket.
    Select(Node, Node),
    /// The rows from `start` up to, not including, `end`.
    Slice(Node, usize, usize),
    /// A sparse input written out densely.
    ToDense(Node),
    /// Softmax cross-entropy over the masked entries: mask, input, target.
    MaskedSoftmaxCrossEntropyLoss(Node, Node, Node),
    /// Softmax cross-entropy against a target.
    SoftmaxCrossEntropyLoss(Node, Node),
}

/// The shape `rows` by `cols` if there is one; otherwise the operands are
/// reported as giving too large a result.
pub open spec fn sized(rows: int, cols: int, operands: Seq<Shape>) -> Result<Shape, ShapeFault> {
    if valid_dims(rows, cols) {
        Ok(Shape::spec_new(rows as usize, cols as usize))
    } else {
        Err(ShapeFault::TooLarge(operands))
    }
}

/// The shape of the matrix product `a * b`: the inner dimensions must agree.
pub open spec fn product(a: Shape, b: Shape, operands: Seq<Shape>) -> Result<Shape, ShapeFault> {
    if a.spec_cols() == b.spec_rows() {
        sized(a.spec_rows() as int, b.spec_cols() as int, operands)
    } else {
        Err(ShapeFault::Mismatched(operands))
    }
}

/// The shape `out` if `a` and `b` are the same shape.
pub open spec fn alike(a: Shape, b: Shape, out: Shape, operands: Seq<Shape>) -> Result<
    Shape,
    ShapeFault,
> {
    if a == b {
        Ok(out)
    } else {
        Err(ShapeFault::Mismatched(operands))
    }
}

/// The shape of a single number.
pub open spec fn scalar_shape() -> Shape {
    Shape::spec_new(1, 1)
}

impl Operation {
    /// The nodes the operation reads, in the order they are written.
    pub open spec fn operands(self) -> Seq<Node> {
        match self {
            Operation::Activate(x, _) => seq![x],
            Operation::Affine(w, x, b) => seq![w, x, b],
            Operation::SparseAffine(w, x, Some(b)) => seq![w, x, b],
            Operation::SparseAffine(w, x, None) => seq![w, x],
            Operation::SparseAffineDualActivate(w, s, n, b, _) => seq![w, s, n, b],
            Operation::Concat(a, b) => seq![a, b],
            Operation::Gather(x, i) => seq![x, i],
            Operation::LinearCombination(_, a, _, b) => seq![a, b],
            Operation::Mask(x, m) => seq![x, m],
            Operation::Matmul(a, _, b, _) => seq![a, b],
            Operation::PairwiseMul(x, _) => seq![x],
            Operation::PowerError(a, b, _) => seq![a, b],
            Operation::ReduceAcrossBatch(x) => seq![x],
            Operation::Select(x, b) => seq![x, b],
            Operation::Slice(x, _, _) => seq![x],
            Operation::ToDense(x) => seq![x],
            Operation::MaskedSoftmaxCrossEntropyLoss(m, x, t) => seq![m, x, t],
            Operation::SoftmaxCrossEntropyLoss(a, b) => seq![a, b],
        }
    }

    /// The shapes of the operands, in operand order.
    pub open spec fn operand_shapes(self) -> Seq<Shape> {
        Seq::new(self.operands().len(), |i: int| self.operands()[i].shape)
    }

    /// Whether the operation reads the node with index `idx`.
    pub open spec fn reads(self, idx: int) -> bool {
        exists|k: int| 0 <= k < self.operands().len() && #[trigger] self.operands()[k].idx == idx
    }

    /// The shape the operation produces, or why its operands do not fit.
    ///
    /// - `Activate`, `ToDense`: the operand's shape.
    /// - `Affine`, `SparseAffine`: the weights' columns must equal the
    ///   input's rows; the result has the weights' rows and the input's
    ///   columns.
    /// - `SparseAffineDualActivate`: as `SparseAffine` for two inputs of one
    ///   shape; the result has twice the weights' rows.
    /// - `Matmul`: as `Affine`, on the factors after transposition.
    /// - `Concat`: equal columns; the rows add up.
    /// - `Gather`: both operands are single columns; the result has the
    ///   shape of the indices.
    /// - `LinearCombination`, `Mask`: identical shapes, which is the result.
    /// - `PairwiseMul`: the rows must be a multiple of two (of four with the
    ///   flag set); the result has half the rows.
    /// - `Select`: equal columns, and the input's rows a multiple of the
    ///   buckets' rows; the result has the quotient as rows.
    /// - `Slice`: `start < end <= rows`; the result has `end - start` rows.
    /// - `PowerError`, `SoftmaxCrossEntropyLoss`: identical shapes; the
    ///   result is a single number.
    /// - `MaskedSoftmaxCrossEntropyLoss`: mask and input of one shape, the
    ///   target with as many columns; the result is a single number.
    /// - `ReduceAcrossBatch`: any operand; the result is a single number.
    pub open spec fn shape_rule(self) -> Result<Shape, ShapeFault> {
        let all = self.operand_shapes();
        match self {
            Operation::Activate(x, _) => Ok(x.shape),
            Operation::ToDense(x) => Ok(x.shape),
            Operation::Affine(w, x, _) => product(w.shape, x.shape, all),
            Operation::SparseAffine(w, x, _) => product(w.shape, x.shape, all),
            Operation::SparseAffineDualActivate(w, s, n, _, _) => if w.shape.spec_cols()
                == s.shape.spec_rows() && s.shape == n.shape {
                sized(2 * w.shape.spec_rows(), s.shape.spec_cols() as int, all)
            } else {
                Err(ShapeFault::Mismatched(all))
            },
            Operation::Matmul(a, ta, b, tb) => product(
                a.shape.spec_maybe_transpose(ta),
                b.shape.spec_maybe_transpose(tb),
                all,
            ),
            Operation::Concat(a, b) => if a.shape.spec_cols() == b.shape.spec_cols() {
                sized(a.shape.spec_rows() + b.shape.spec_rows(), a.shape.spec_cols() as int, all)
            } else {
                Err(ShapeFault::Mismatched(all))
            },
            Operation::Gather(x, i) => if x.shape.spec_cols() == 1 && i.shape.spec_cols() == 1 {
                Ok(i.shape)
            } else {
                Err(ShapeFault::Mismatched(all))
            },
            Operation::LinearCombination(_, a, _, b) => alike(a.shape, b.shape, a.shape, all),
            Operation::Mask(x, m) => alike(x.shape, m.shape, x.shape, all),
            Operation::PairwiseMul(x, both_halves) => {
                let unit: int = if both_halves {
                    4
                } else {
                    2
                };
                if x.shape.spec_rows() as int % unit == 0 {
                    Ok(Shape::spec_new((x.shape.spec_rows() / 2) as usize, x.shape.spec_cols()))
                } else {
                    Err(ShapeFault::InvalidInput(x.shape))
                }
            },
            Operation::Select(x, b) => if x.shape.spec_cols() == b.shape.spec_cols()
                && x.shape.spec_rows() as int % b.shape.spec_rows() as int == 0 {
                Ok(
                    Shape::spec_new(
                        (x.shape.spec_rows() as int / b.shape.spec_rows() as int) as usize,
                        x.shape.spec_cols(),
                    ),
                )
            } else {
                Err(ShapeFault::Mismatched(all))
            },
            Operation::Slice(x, start, end) => if start < end && end <= x.shape.spec_rows() {
                Ok(Shape::spec_new((end - start) as usize, x.shape.spec_cols()))
            } else {
                Err(ShapeFault::InvalidInput(x.shape))
            },
            Operation::PowerError(a, b, _) => alike(a.shape, b.shape, scalar_shape(), all),
            Operation::SoftmaxCrossEntropyLoss(a, b) => alike(
                a.shape,
                b.shape,
                scalar_shape(),
                all,
            ),
            Operation::MaskedSoftmaxCrossEntropyLoss(m, x, t) => if m.shape == x.shape
                && t.shape.spec_cols() == x.shape.spec_cols() {
                Ok(scalar_shape())
            } else {
                Err(ShapeFault::Mismatched(all))
            },
            Operation::ReduceAcrossBatch(_) => Ok(scalar_shape()),
        }
    }

    /// The nodes the operation reads, in the order they are written.
    pub fn nodes(&self) -> (v: Vec<Node>)
        ensures
            v@ == self.operands(),
    {
        let v = match self {
            Operation::Activate(x, _) => vec![*x],
            Operation::Affine(w, x, b) => vec![*w, *x, *b],
            Operation::SparseAffine(w, x, Some(b)) => vec![*w, *x, *b],
            Operation::SparseAffine(w, x, None) => vec![*w, *x],
            Operation::SparseAffineDualActivate(w, s, n, b, _) => vec![*w, *s, *n, *b],
            Operation::Concat(a, b) => vec![*a, *b],
            Operation::Gather(x, i) => vec![*x, *i],
            Operation::LinearCombination(_, a, _, b) => vec![*a, *b],
            Operation::Mask(x, m) => vec![*x, *m],
            Operation::Matmul(a, _, b, _) => vec![*a, *b],
            Operation::PairwiseMul(x, _) => vec![*x],
            Operation::PowerError(a, b, _) => vec![*a, *b],
            Operation::ReduceAcrossBatch(x) => vec![*x],
            Operation::Select(x, b) => vec![*x, *b],
            Operation::Slice(x, _, _) => vec![*x],
            Operation::ToDense(x) => vec![*x],
            Operation::MaskedSoftmaxCrossEntropyLoss(m, x, t) => vec![*m, *x, *t],
            Operation::SoftmaxCrossEntropyLoss(a, b) => vec![*a, *b],
        };
        assert(v@ =~= self.operands());
        v
    }

    /// The shapes of the operands, in operand order.
    pub fn input_shapes(&self) -> (v: Vec<Shape>)
        ensures
            v@ == self.operand_shapes(),
    {
        let nodes = self.nodes();
        let mut v: Vec<Shape> = Vec::new();
        let mut i: usize = 0;
        while i < nodes.len()
            invariant
                i <= nodes.len(),
                nodes@ == self.operands(),
                v@.len() == i,
                forall|k: int| 0 <= k < i ==> v@[k] == self.operands()[k].shape,
            decreases nodes.len() - i,
        {
            v.push(nodes[i].shape);
            i += 1;
        }
        assert(v@ =~= self.operand_shapes());
        v
    }

    /// The shape the operation produces, or why its operands do not fit:
    /// exactly what [`Operation::shape_rule`] says.
    pub fn output_shape(&self) -> (r: Result<Shape, GraphBuilderErrorType>)
        ensures
            match r {
                Ok(s) => self.shape_rule() == Ok::<Shape, ShapeFault>(s) && s.wf(),
                Err(e) => self.shape_rule() == Err::<Shape, ShapeFault>(e@),
            },
    {
        match self {
            Operation::Activate(x, _) => keep(x.shape),
            Operation::ToDense(x) => keep(x.shape),
            Operation::Affine(w, x, _) => exec_product(w.shape, x.shape, self.input_shapes()),
            Operation::SparseAffine(w, x, _) => exec_product(w.shape, x.shape, self.input_shapes()),
            Operation::SparseAffineDualActivate(w, s, n, _, _) => {
                if w.shape.cols() == s.shape.rows() && s.shape.same_as(&n.shape) {
                    match w.shape.rows().checked_mul(2) {
                        Some(rows) => exec_sized(rows, s.shape.cols(), self.input_shapes()),
                        None => {
                            let cols = s.shape.cols();
                            assert(!valid_dims(2 * w.shape.spec_rows(), cols as int))
                                by (nonlinear_arith)
                                requires
                                    2 * w.shape.spec_rows() > usize::MAX,
                                    cols >= 1,
                            ;
                            Err(GraphBuilderErrorType::OutputTooLarge(self.input_shapes()))
                        },
                    }
                } else {
                    Err(GraphBuilderErrorType::MismatchedInputShapes(self.input_shapes()))
                }
            },
            Operation::Matmul(a, ta, b, tb) => exec_product(
                a.shape.maybe_transpose(*ta),
                b.shape.maybe_transpose(*tb),
                self.input_shapes(),
            ),
            Operation::Concat(a, b) => {
                if a.shape.cols() == b.shape.cols() {
                    match a.shape.rows().checked_add(b.shape.rows()) {
                        Some(rows) => exec_sized(rows, a.shape.cols(), self.input_shapes()),
                        None => {
                            let cols = a.shape.cols();
                            assert(!valid_dims(
                                a.shape.spec_rows() + b.shape.spec_rows(),
                                cols as int,
                            )) by (nonlinear_arith)
                                requires
                                    a.shape.spec_rows() + b.shape.spec_rows() > usize::MAX,
                                    cols >= 1,
                            ;
                            Err(GraphBuilderErrorType::OutputTooLarge(self.input_shapes()))
                        },
                    }
                } else {
                    Err(GraphBuilderErrorType::MismatchedInputShapes(self.input_shapes()))
                }
            },
            Operation::Gather(x, i) => {
                if x.shape.cols() == 1 && i.shape.cols() == 1 {
                    Ok(i.shape)
                } else {
                    Err(GraphBuilderErrorType::MismatchedInputShapes(self.input_shapes()))
                }
            },
            Operation::LinearCombination(_, a, _, b) => exec_alike(
                a.shape,
                b.shape,
                a.shape,
                self.input_shapes(),
            ),
            Operation::Mask(x, m) => exec_alike(x.shape, m.shape, x.shape, self.input_shapes()),
            Operation::PairwiseMul(x, both_halves) => {
                let unit: usize = if *both_halves {
                    4
                } else {
                    2
                };
                let rows = x.shape.rows();
                let cols = x.shape.cols();
                if rows % unit == 0 {
                    assert(valid_dims((rows / 2) as int, cols as int)) by (nonlinear_arith)
                        requires
                            valid_dims(rows as int, cols as int),
                            rows % 2 == 0,
                    ;
                    Ok(Shape::new(rows / 2, cols))
                } else {
                    Err(GraphBuilderErrorType::InvalidInputShape(x.shape))
                }
            },
            Operation::Select(x, b) => {
                let rows = x.shape.rows();
                let cols = x.shape.cols();
                let blocks = b.shape.rows();
                if cols == b.shape.cols() && rows % blocks == 0 {
                    assert(valid_dims((rows / blocks) as int, cols as int)) by (nonlinear_arith)
                        requires
                            valid_dims(rows as int, cols as int),
                            blocks > 0,
                            rows % blocks == 0,
                    ;
                    Ok(Shape::new(rows / blocks, cols))
                } else {
                    Err(GraphBuilderErrorType::MismatchedInputShapes(self.input_shapes()))
                }
            },
            Operation::Slice(x, start, end) => {
                let rows = x.shape.rows();
                let cols = x.shape.cols();
                if *start < *end && *end <= rows {
                    assert(valid_dims((*end - *start) as int, cols as int)) by (nonlinear_arith)
                        requires
                            valid_dims(rows as int, cols as int),
                            *start < *end <= rows,
                    ;
                    Ok(Shape::new(*end - *start, cols))
                } else {
                    Err(GraphBuilderErrorType::InvalidInputShape(x.shape))
                }
            },
            Operation::PowerError(a, b, _) => exec_alike(
                a.shape,
                b.shape,
                Shape::new(1, 1),
                self.input_shapes(),
            ),
            Operation::SoftmaxCrossEntropyLoss(a, b) => exec_alike(
                a.shape,
                b.shape,
                Shape::new(1, 1),
                self.input_shapes(),
            ),
            Operation::MaskedSoftmaxCrossEntropyLoss(m, x, t) => {
                if m.shape.same_as(&x.shape) && t.shape.cols() == x.shape.cols() {
                    Ok(Shape::new(1, 1))
                } else {
                    Err(GraphBuilderErrorType::MismatchedInputShapes(self.input_shapes()))
                }
            },
            Operation::ReduceAcrossBatch(_) => Ok(Shape::new(1, 1)),
        }
    }
}

fn keep(shape: Shape) -> (r: Result<Shape, GraphBuilderErrorType>)
    ensures
        r == Ok::<Shape, GraphBuilderErrorType>(shape),
        shape.wf(),
{
    let _ = shape.rows();
    Ok(shape)
}

fn exec_sized(rows: usize, cols: usize, operands: Vec<Shape>) -> (r: Result<
    Shape,
    GraphBuilderErrorType,
>)
    ensures
        match r {
            Ok(s) => sized(rows as int, cols as int, operands@) == Ok::<Shape, ShapeFault>(s)
                && s.wf(),
            Err(e) => sized(rows as int, cols as int, operands@) == Err::<Shape, ShapeFault>(e@),
        },
{
    match Shape::try_new(rows, cols) {
        Some(s) => Ok(s),
        None => Err(GraphBuilderErrorType::OutputTooLarge(operands)),
    }
}

fn exec_product(a: Shape, b: Shape, operands: Vec<Shape>) -> (r: Result<
    Shape,
    GraphBuilderErrorType,
>)
    ensures
        match r {
            Ok(s) => product(a, b, operands@) == Ok::<Shape, ShapeFault>(s) && s.wf(),
            Err(e) => product(a, b, operands@) == Err::<Shape, ShapeFault>(e@),
        },
{
    if a.cols() == b.rows() {
        exec_sized(a.rows(), b.cols(), operands)
    } else {
        Err(GraphBuilderErrorType::MismatchedInputShapes(operands))
    }
}

fn exec_alike(a: Shape, b: Shape, out: Shape, operands: Vec<Shape>) -> (r: Result<
    Shape,
    GraphBuilderErrorType,
>)
    ensures
        match r {
            Ok(s) => alike(a, b, out, operands@) == Ok::<Shape, ShapeFault>(s) && s.wf(),
            Err(e) => alike(a, b, out, operands@) == Err::<Shape, ShapeFault>(e@),
        },
{
    let _ = out.rows();
    if a.same_as(&b) {
        Ok(out)
    } else {
        Err(GraphBuilderErrorType::MismatchedInputShapes(operands))
    }
}

} // verus!
