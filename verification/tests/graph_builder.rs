use bullet_core::graph::builder::GraphBuilder;
use bullet_core::graph::error::{GraphBuilderError, GraphBuilderErrorType, OutputError};
use bullet_core::graph::node::Node;
use bullet_core::graph::operation::{Activation, Operation};
use bullet_core::scalar::Scalar;
use bullet_core::shape::Shape;

fn two() -> Scalar {
    Scalar::from_bits(2.0f32.to_bits())
}

#[test]
fn new_builder_is_empty() {
    let builder = GraphBuilder::new();
    assert_eq!(builder.len(), 0);
    assert_eq!(builder.num_roots(), 0);
    assert_eq!(builder.single_root(), None);
    assert_eq!(builder.output(), Err(OutputError::NotSingleOutput));
    let by_default = GraphBuilder::default();
    assert_eq!(by_default.len(), 0);
}

#[test]
fn leaves_get_consecutive_indices_and_are_roots() {
    let mut builder = GraphBuilder::new();
    let w = builder.create_weights("w", Shape::new(2, 3)).unwrap();
    let x = builder.create_dense_input("x", Shape::new(3, 1)).unwrap();
    let s = builder.create_sparse_input("s", Shape::new(768, 1), 32).unwrap();
    assert_eq!(w, Node { idx: 0, shape: Shape::new(2, 3), sparse: None });
    assert_eq!(x, Node { idx: 1, shape: Shape::new(3, 1), sparse: None });
    assert_eq!(s, Node { idx: 2, shape: Shape::new(768, 1), sparse: Some(32) });
    assert!(!w.is_sparse());
    assert!(s.is_sparse());
    assert_eq!(s.shape(), Shape::new(768, 1));
    assert_eq!(builder.len(), 3);
    assert_eq!(builder.num_roots(), 3);
    assert!(builder.is_root(w) && builder.is_root(x) && builder.is_root(s));
    assert!(builder.get_node(w).requires_grad());
    assert!(!builder.get_node(x).requires_grad());
    assert!(!builder.get_node(s).requires_grad());
    assert_eq!(builder.get_node(w).size(), 6);
    assert_eq!(builder.get_node(s).size(), 768);
    assert_eq!(builder.get_node(x).id(), &Some("x".to_string()));
    assert_eq!(builder.get_node(x).parent_operation(), None);
    assert_eq!(builder.get_node(s).own(), s);
    assert!(builder.has_id("w") && builder.has_id("x") && builder.has_id("s"));
    assert!(!builder.has_id("y"));
}

#[test]
fn duplicate_weights_id_is_refused_and_adds_no_node() {
    let mut builder = GraphBuilder::new();
    let first = builder.create_weights("w", Shape::new(1, 4));
    assert!(first.is_ok());
    assert_eq!(builder.len(), 1);
    let second = builder.create_weights("w", Shape::new(1, 4));
    assert_eq!(second, Err(GraphBuilderError::DuplicateId("w".to_string())));
    assert_eq!(builder.len(), 1);
    assert_eq!(builder.num_roots(), 1);
}

#[test]
fn an_id_is_shared_between_inputs_and_weights() {
    let mut builder = GraphBuilder::new();
    builder.create_dense_input("a", Shape::new(2, 2)).unwrap();
    assert_eq!(
        builder.create_weights("a", Shape::new(5, 5)),
        Err(GraphBuilderError::DuplicateId("a".to_string()))
    );
    assert_eq!(
        builder.create_sparse_input("a", Shape::new(5, 5), 3),
        Err(GraphBuilderError::DuplicateId("a".to_string()))
    );
    assert_eq!(
        builder.create_dense_input("a", Shape::new(2, 2)),
        Err(GraphBuilderError::DuplicateId("a".to_string()))
    );
    assert_eq!(builder.len(), 1);
}

#[test]
fn sparse_input_without_non_zeros_is_refused() {
    let mut builder = GraphBuilder::new();
    assert_eq!(
        builder.create_sparse_input("s", Shape::new(8, 1), 0),
        Err(GraphBuilderError::ZeroNonZeros)
    );
    assert_eq!(builder.len(), 0);
    assert!(!builder.has_id("s"));
    // the name is still free
    assert!(builder.create_sparse_input("s", Shape::new(8, 1), 1).is_ok());
}

#[test]
fn operation_moves_roots() {
    let mut builder = GraphBuilder::new();
    let a = builder.create_weights("a", Shape::new(2, 3)).unwrap();
    let b = builder.create_dense_input("b", Shape::new(3, 1)).unwrap();
    let c = builder.create_dense_input("c", Shape::new(2, 1)).unwrap();
    let y = builder.create_result_of_operation(Operation::Matmul(a, false, b, false), true).unwrap();
    assert_eq!(y, Node { idx: 3, shape: Shape::new(2, 1), sparse: None });
    assert!(!builder.is_root(a));
    assert!(!builder.is_root(b));
    assert!(builder.is_root(c));
    assert!(builder.is_root(y));
    assert_eq!(builder.num_roots(), 2);
    assert_eq!(builder.single_root(), None);
    assert_eq!(
        builder.get_node(y).parent_operation(),
        Some(Operation::Matmul(a, false, b, false))
    );
    assert_eq!(builder.get_node(y).id(), &None);
    // a node that was read stays out of the roots when it is read again
    let z = builder.create_result_of_operation(Operation::Activate(a, Activation::ReLU), true).unwrap();
    assert!(!builder.is_root(a));
    assert!(builder.is_root(z));
    assert_eq!(builder.num_roots(), 3);
}

#[test]
fn matmul_with_mismatched_inner_dimensions_is_refused() {
    let mut builder = GraphBuilder::new();
    let a = builder.create_weights("a", Shape::new(2, 3)).unwrap();
    let b = builder.create_dense_input("b", Shape::new(4, 1)).unwrap();
    let r = builder.create_result_of_operation(Operation::Matmul(a, false, b, false), true);
    assert_eq!(
        r,
        Err(GraphBuilderError::Shape(GraphBuilderErrorType::MismatchedInputShapes(vec![
            Shape::new(2, 3),
            Shape::new(4, 1)
        ])))
    );
    assert_eq!(builder.len(), 2);
    assert_eq!(builder.num_roots(), 2);
    assert!(builder.is_root(a));
    assert!(builder.is_root(b));
}

#[test]
fn unknown_operand_is_refused() {
    let mut builder = GraphBuilder::new();
    let a = builder.create_weights("a", Shape::new(2, 3)).unwrap();
    let stranger = Node { idx: 7, shape: Shape::new(3, 1), sparse: None };
    assert!(builder.owns(a));
    assert!(!builder.owns(stranger));
    assert_eq!(
        builder.create_result_of_operation(Operation::Matmul(a, false, stranger, false), true),
        Err(GraphBuilderError::UnknownNode(stranger))
    );
    // a handle with the index of a node but another element count
    let forged = Node { idx: 0, shape: Shape::new(4, 4), sparse: None };
    assert!(!builder.owns(forged));
    assert_eq!(
        builder.create_result_of_operation(Operation::Activate(forged, Activation::Identity), true),
        Err(GraphBuilderError::UnknownNode(forged))
    );
    // a handle that claims to be sparse
    let sparse = Node { idx: 0, shape: Shape::new(2, 3), sparse: Some(1) };
    assert!(!builder.owns(sparse));
    assert_eq!(builder.len(), 1);
    assert!(builder.is_root(a));
}

#[test]
fn reshaped_handle_is_still_the_node() {
    let mut builder = GraphBuilder::new();
    let a = builder.create_weights("a", Shape::new(2, 3)).unwrap();
    let flat = a.reshape(Shape::new(6, 1)).unwrap();
    assert_eq!(flat, Node { idx: 0, shape: Shape::new(6, 1), sparse: None });
    assert!(builder.owns(flat));
    assert_eq!(
        a.reshape(Shape::new(4, 1)),
        Err(GraphBuilderErrorType::MismatchedInputShapes(vec![Shape::new(2, 3), Shape::new(4, 1)]))
    );
    let y = builder.create_result_of_operation(Operation::Activate(flat, Activation::SCReLU), true).unwrap();
    assert_eq!(y.shape(), Shape::new(6, 1));
    // reading the reshaped handle takes the node itself out of the roots
    assert!(!builder.is_root(a));
    assert_eq!(builder.single_root(), Some(y));
}

#[test]
fn scalar_loss_graph_has_one_root() {
    let mut builder = GraphBuilder::new();
    let w = builder.create_weights("w", Shape::new(1, 4)).unwrap();
    let x = builder.create_dense_input("x", Shape::new(4, 1)).unwrap();
    let t = builder.create_dense_input("t", Shape::new(1, 1)).unwrap();
    let y = builder.create_result_of_operation(Operation::Matmul(w, false, x, false), true).unwrap();
    assert_eq!(y.shape(), Shape::new(1, 1));
    let e = builder.create_result_of_operation(Operation::PowerError(y, t, two()), true).unwrap();
    let loss = builder.create_result_of_operation(Operation::ReduceAcrossBatch(e), true).unwrap();
    assert_eq!(loss.shape(), Shape::new(1, 1));
    assert_eq!(builder.num_roots(), 1);
    assert_eq!(builder.root(), loss);
    assert_eq!(builder.single_root(), Some(loss));
    assert_eq!(builder.output(), Ok(loss));
    assert!(builder.get_node(loss).requires_grad());
    assert_eq!(builder.get_node(loss).size(), 1);
}

#[test]
fn output_must_be_single() {
    let mut builder = GraphBuilder::new();
    builder.create_weights("a", Shape::new(1, 1)).unwrap();
    let b = builder.create_dense_input("b", Shape::new(1, 1)).unwrap();
    assert_eq!(builder.output(), Err(OutputError::NotSingleOutput));
    let _ = b;
}

#[test]
fn output_must_require_gradients() {
    let mut builder = GraphBuilder::new();
    builder.create_dense_input("x", Shape::new(1, 1)).unwrap();
    assert_eq!(builder.output(), Err(OutputError::OutputIsInput));
    let mut builder = GraphBuilder::new();
    let x = builder.create_dense_input("x", Shape::new(1, 1)).unwrap();
    builder.create_result_of_operation(Operation::Activate(x, Activation::ReLU), false).unwrap();
    assert_eq!(builder.output(), Err(OutputError::OutputIsInput));
}

#[test]
fn output_must_not_be_weights() {
    let mut builder = GraphBuilder::new();
    builder.create_weights("w", Shape::new(1, 1)).unwrap();
    assert_eq!(builder.output(), Err(OutputError::OutputIsWeights));
}

#[test]
fn output_must_be_scalar() {
    let mut builder = GraphBuilder::new();
    let w = builder.create_weights("w", Shape::new(2, 1)).unwrap();
    builder.create_result_of_operation(Operation::Activate(w, Activation::ReLU), true).unwrap();
    assert_eq!(builder.output(), Err(OutputError::OutputNotScalar(Shape::new(2, 1))));
}
