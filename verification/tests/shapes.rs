use bullet_core::graph::error::GraphBuilderErrorType;
use bullet_core::graph::node::Node;
use bullet_core::graph::operation::{Activation, Operation};
use bullet_core::scalar::Scalar;
use bullet_core::shape::Shape;

fn node(idx: usize, rows: usize, cols: usize) -> Node {
    Node { idx, shape: Shape::new(rows, cols), sparse: None }
}

fn mismatch(shapes: &[(usize, usize)]) -> Result<Shape, GraphBuilderErrorType> {
    Err(GraphBuilderErrorType::MismatchedInputShapes(
        shapes.iter().map(|&(r, c)| Shape::new(r, c)).collect(),
    ))
}

fn one() -> Scalar {
    Scalar::from_bits(1.0f32.to_bits())
}

#[test]
fn shape_dimensions_and_size() {
    let s = Shape::new(3, 5);
    assert_eq!(s.rows(), 3);
    assert_eq!(s.cols(), 5);
    assert_eq!(s.size(), 15);
    assert_eq!(s.transpose(), Shape::new(5, 3));
    assert_eq!(s.maybe_transpose(false), s);
    assert_eq!(s.maybe_transpose(true), Shape::new(5, 3));
    assert!(s.same_as(&Shape::new(3, 5)));
    assert!(!s.same_as(&Shape::new(5, 3)));
    assert_ne!(s, Shape::new(5, 3));
}

#[test]
fn shape_try_new_tests_the_dimensions() {
    assert_eq!(Shape::try_new(2, 7), Some(Shape::new(2, 7)));
    assert_eq!(Shape::try_new(0, 7), None);
    assert_eq!(Shape::try_new(7, 0), None);
    assert_eq!(Shape::try_new(usize::MAX, 2), None);
    assert_eq!(Shape::try_new(usize::MAX, 1), Some(Shape::new(usize::MAX, 1)));
}

#[test]
fn scalar_keeps_its_bits() {
    let s = Scalar::from_bits(0.25f32.to_bits());
    assert_eq!(s.to_bits(), 0x3E80_0000);
    assert_eq!(f32::from_bits(s.to_bits()), 0.25);
    assert_ne!(Scalar::from_bits(0), Scalar::from_bits(0x8000_0000));
}

#[test]
fn operands_are_listed_in_order() {
    let a = node(0, 2, 3);
    let b = node(1, 3, 1);
    let c = node(2, 2, 1);
    let d = node(3, 2, 1);
    assert_eq!(Operation::Activate(a, Activation::ReLU).nodes(), vec![a]);
    assert_eq!(Operation::Affine(a, b, c).nodes(), vec![a, b, c]);
    assert_eq!(Operation::SparseAffine(a, b, Some(c)).nodes(), vec![a, b, c]);
    assert_eq!(Operation::SparseAffine(a, b, None).nodes(), vec![a, b]);
    assert_eq!(
        Operation::SparseAffineDualActivate(a, b, c, d, Activation::CReLU).nodes(),
        vec![a, b, c, d]
    );
    assert_eq!(Operation::Concat(a, b).nodes(), vec![a, b]);
    assert_eq!(Operation::Gather(a, b).nodes(), vec![a, b]);
    assert_eq!(Operation::LinearCombination(one(), a, one(), b).nodes(), vec![a, b]);
    assert_eq!(Operation::Mask(a, b).nodes(), vec![a, b]);
    assert_eq!(Operation::Matmul(a, true, b, false).nodes(), vec![a, b]);
    assert_eq!(Operation::PairwiseMul(a, false).nodes(), vec![a]);
    assert_eq!(Operation::PowerError(a, b, one()).nodes(), vec![a, b]);
    assert_eq!(Operation::ReduceAcrossBatch(a).nodes(), vec![a]);
    assert_eq!(Operation::Select(a, b).nodes(), vec![a, b]);
    assert_eq!(Operation::Slice(a, 0, 1).nodes(), vec![a]);
    assert_eq!(Operation::ToDense(a).nodes(), vec![a]);
    assert_eq!(Operation::MaskedSoftmaxCrossEntropyLoss(a, b, c).nodes(), vec![a, b, c]);
    assert_eq!(Operation::SoftmaxCrossEntropyLoss(a, b).nodes(), vec![a, b]);
    assert_eq!(
        Operation::Affine(a, b, c).input_shapes(),
        vec![Shape::new(2, 3), Shape::new(3, 1), Shape::new(2, 1)]
    );
}

#[test]
fn activate_and_to_dense_keep_the_shape() {
    let a = node(0, 7, 2);
    assert_eq!(Operation::Activate(a, Activation::Sigmoid).output_shape(), Ok(Shape::new(7, 2)));
    assert_eq!(Operation::ToDense(a).output_shape(), Ok(Shape::new(7, 2)));
}

#[test]
fn affine_shapes() {
    let w = node(0, 16, 768);
    let x = node(1, 768, 1);
    let b = node(2, 16, 1);
    assert_eq!(Operation::Affine(w, x, b).output_shape(), Ok(Shape::new(16, 1)));
    assert_eq!(Operation::SparseAffine(w, x, Some(b)).output_shape(), Ok(Shape::new(16, 1)));
    assert_eq!(Operation::SparseAffine(w, x, None).output_shape(), Ok(Shape::new(16, 1)));
    let bad = node(3, 767, 1);
    assert_eq!(
        Operation::Affine(w, bad, b).output_shape(),
        mismatch(&[(16, 768), (767, 1), (16, 1)])
    );
    assert_eq!(
        Operation::SparseAffine(w, bad, None).output_shape(),
        mismatch(&[(16, 768), (767, 1)])
    );
}

#[test]
fn sparse_affine_dual_shapes() {
    let w = node(0, 16, 768);
    let s = node(1, 768, 1);
    let n = node(2, 768, 1);
    let b = node(3, 16, 1);
    assert_eq!(
        Operation::SparseAffineDualActivate(w, s, n, b, Activation::SCReLU).output_shape(),
        Ok(Shape::new(32, 1))
    );
    let other = node(4, 768, 2);
    assert_eq!(
        Operation::SparseAffineDualActivate(w, s, other, b, Activation::SCReLU).output_shape(),
        mismatch(&[(16, 768), (768, 1), (768, 2), (16, 1)])
    );
}

#[test]
fn matmul_shapes() {
    let a = node(0, 2, 3);
    let b = node(1, 3, 5);
    assert_eq!(Operation::Matmul(a, false, b, false).output_shape(), Ok(Shape::new(2, 5)));
    assert_eq!(Operation::Matmul(a, true, b, false).output_shape(), mismatch(&[(2, 3), (3, 5)]));
    let c = node(2, 2, 4);
    assert_eq!(Operation::Matmul(a, true, c, false).output_shape(), Ok(Shape::new(3, 4)));
    let d = node(3, 7, 3);
    assert_eq!(Operation::Matmul(a, false, d, true).output_shape(), Ok(Shape::new(2, 7)));
    assert_eq!(Operation::Matmul(a, false, d, false).output_shape(), mismatch(&[(2, 3), (7, 3)]));
}

#[test]
fn matmul_result_must_be_countable() {
    let a = node(0, usize::MAX, 1);
    let b = node(1, 1, 2);
    assert_eq!(
        Operation::Matmul(a, false, b, false).output_shape(),
        Err(GraphBuilderErrorType::OutputTooLarge(vec![Shape::new(usize::MAX, 1), Shape::new(1, 2)]))
    );
}

#[test]
fn concat_shapes() {
    let a = node(0, 2, 3);
    let b = node(1, 5, 3);
    assert_eq!(Operation::Concat(a, b).output_shape(), Ok(Shape::new(7, 3)));
    let c = node(2, 5, 2);
    assert_eq!(Operation::Concat(a, c).output_shape(), mismatch(&[(2, 3), (5, 2)]));
    let huge = node(3, usize::MAX, 1);
    let one_more = node(4, 1, 1);
    assert_eq!(
        Operation::Concat(huge, one_more).output_shape(),
        Err(GraphBuilderErrorType::OutputTooLarge(vec![Shape::new(usize::MAX, 1), Shape::new(1, 1)]))
    );
}

#[test]
fn slice_shapes() {
    let x = node(0, 10, 1);
    assert_eq!(Operation::Slice(x, 2, 7).output_shape(), Ok(Shape::new(5, 1)));
    assert_eq!(Operation::Slice(x, 0, 10).output_shape(), Ok(Shape::new(10, 1)));
    let invalid = Err(GraphBuilderErrorType::InvalidInputShape(Shape::new(10, 1)));
    assert_eq!(Operation::Slice(x, 3, 3).output_shape(), invalid);
    assert_eq!(Operation::Slice(x, 4, 3).output_shape(), invalid);
    assert_eq!(Operation::Slice(x, 2, 11).output_shape(), invalid);
}

#[test]
fn linear_combination_and_mask_need_identical_shapes() {
    let a = node(0, 4, 2);
    let b = node(1, 4, 2);
    let c = node(2, 2, 4);
    assert_eq!(Operation::LinearCombination(one(), a, one(), b).output_shape(), Ok(Shape::new(4, 2)));
    assert_eq!(
        Operation::LinearCombination(one(), a, one(), c).output_shape(),
        mismatch(&[(4, 2), (2, 4)])
    );
    assert_eq!(Operation::Mask(a, b).output_shape(), Ok(Shape::new(4, 2)));
    assert_eq!(Operation::Mask(a, c).output_shape(), mismatch(&[(4, 2), (2, 4)]));
}

#[test]
fn gather_takes_columns() {
    let x = node(0, 10, 1);
    let i = node(1, 4, 1);
    assert_eq!(Operation::Gather(x, i).output_shape(), Ok(Shape::new(4, 1)));
    let wide = node(2, 10, 2);
    assert_eq!(Operation::Gather(wide, i).output_shape(), mismatch(&[(10, 2), (4, 1)]));
}

#[test]
fn pairwise_mul_halves_the_rows() {
    let x = node(0, 8, 3);
    assert_eq!(Operation::PairwiseMul(x, false).output_shape(), Ok(Shape::new(4, 3)));
    assert_eq!(Operation::PairwiseMul(x, true).output_shape(), Ok(Shape::new(4, 3)));
    let six = node(1, 6, 1);
    assert_eq!(Operation::PairwiseMul(six, false).output_shape(), Ok(Shape::new(3, 1)));
    assert_eq!(
        Operation::PairwiseMul(six, true).output_shape(),
        Err(GraphBuilderErrorType::InvalidInputShape(Shape::new(6, 1)))
    );
    let odd = node(2, 5, 1);
    assert_eq!(
        Operation::PairwiseMul(odd, false).output_shape(),
        Err(GraphBuilderErrorType::InvalidInputShape(Shape::new(5, 1)))
    );
}

#[test]
fn select_takes_one_block() {
    let x = node(0, 24, 1);
    let buckets = node(1, 8, 1);
    assert_eq!(Operation::Select(x, buckets).output_shape(), Ok(Shape::new(3, 1)));
    let seven = node(2, 7, 1);
    assert_eq!(Operation::Select(x, seven).output_shape(), mismatch(&[(24, 1), (7, 1)]));
    let wide = node(3, 8, 2);
    assert_eq!(Operation::Select(x, wide).output_shape(), mismatch(&[(24, 1), (8, 2)]));
}

#[test]
fn losses_are_scalar() {
    let a = node(0, 1000, 3);
    let b = node(1, 1000, 3);
    let c = node(2, 3, 1000);
    assert_eq!(Operation::PowerError(a, b, one()).output_shape(), Ok(Shape::new(1, 1)));
    assert_eq!(Operation::PowerError(a, c, one()).output_shape(), mismatch(&[(1000, 3), (3, 1000)]));
    assert_eq!(Operation::SoftmaxCrossEntropyLoss(a, b).output_shape(), Ok(Shape::new(1, 1)));
    assert_eq!(
        Operation::SoftmaxCrossEntropyLoss(a, c).output_shape(),
        mismatch(&[(1000, 3), (3, 1000)])
    );
    assert_eq!(Operation::ReduceAcrossBatch(a).output_shape(), Ok(Shape::new(1, 1)));
    assert_eq!(Operation::ReduceAcrossBatch(node(3, 1, 1)).output_shape(), Ok(Shape::new(1, 1)));
    let t = node(4, 8, 3);
    assert_eq!(
        Operation::MaskedSoftmaxCrossEntropyLoss(a, b, t).output_shape(),
        Ok(Shape::new(1, 1))
    );
    assert_eq!(
        Operation::MaskedSoftmaxCrossEntropyLoss(c, b, t).output_shape(),
        mismatch(&[(3, 1000), (1000, 3), (8, 3)])
    );
    let narrow = node(5, 8, 1);
    assert_eq!(
        Operation::MaskedSoftmaxCrossEntropyLoss(a, b, narrow).output_shape(),
        mismatch(&[(1000, 3), (1000, 3), (8, 1)])
    );
}
