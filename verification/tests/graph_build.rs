use bullet_core::graph::builder::GraphBuilder;
use bullet_core::device::Device;
use bullet_core::graph::error::{GraphError, OutputError};
use bullet_core::graph::Graph;
use bullet_core::graph::operation::{Activation, Operation};
use bullet_core::scalar::Scalar;
use bullet_core::shape::Shape;
use bullet_core::tensor::{DenseMatrix, LoadError, Tensor};
use std::cell::Cell;
use std::rc::Rc;

/// A device in main memory that can be told to fail after a number of
/// allocations.
struct Host {
    allowed: usize,
    made: Rc<Cell<usize>>,
}

impl Host {
    fn new() -> Host {
        Host { allowed: usize::MAX, made: Rc::new(Cell::new(0)) }
    }

    fn failing_after(allowed: usize) -> Host {
        Host { allowed, made: Rc::new(Cell::new(0)) }
    }
}

impl Device for Host {
    type Buffer = Vec<u32>;
    type DeviceError = String;

    fn allocate(&self, size: usize) -> Result<Vec<u32>, String> {
        if self.made.get() >= self.allowed {
            return Err(format!("out of memory at allocation {}", self.made.get()));
        }
        self.made.set(self.made.get() + 1);
        Ok(vec![0; size])
    }

    fn set_zero(buffer: &mut Vec<u32>) {
        for x in buffer.iter_mut() {
            *x = 0;
        }
    }

    fn load(buffer: &mut Vec<u32>, values: &Vec<Scalar>) {
        *buffer = values.iter().map(|s| s.to_bits()).collect();
    }

    fn store(buffer: &Vec<u32>) -> Vec<Scalar> {
        buffer.iter().map(|&b| Scalar::from_bits(b)).collect()
    }

    fn seed_random(buffer: &mut Vec<u32>, mean: Scalar, _stdev: Scalar, _normal: bool) -> Result<(), String> {
        for x in buffer.iter_mut() {
            *x = mean.to_bits();
        }
        Ok(())
    }

    fn adam(
        _size: usize,
        _weights: &mut Vec<u32>,
        _gradients: &Vec<u32>,
        _momentum: &mut Vec<u32>,
        _velocity: &mut Vec<u32>,
        _beta1: Scalar,
        _beta2: Scalar,
        _gradient_factor: Scalar,
        _learning_rate: Scalar,
        _denominator: bool,
    ) {
    }
}

fn scalars(values: &[f32]) -> Vec<Scalar> {
    values.iter().map(|v| Scalar::from_bits(v.to_bits())).collect()
}

fn loss_builder() -> GraphBuilder {
    let mut builder = GraphBuilder::new();
    let w = builder.create_weights("w", Shape::new(1, 4)).unwrap();
    let x = builder.create_dense_input("x", Shape::new(4, 1)).unwrap();
    let t = builder.create_dense_input("t", Shape::new(1, 1)).unwrap();
    let y = builder.create_result_of_operation(Operation::Matmul(w, false, x, false), true).unwrap();
    let two = Scalar::from_bits(2.0f32.to_bits());
    let e = builder.create_result_of_operation(Operation::PowerError(y, t, two), true).unwrap();
    builder.create_result_of_operation(Operation::ReduceAcrossBatch(e), true).unwrap();
    builder
}

fn built() -> Graph<Host> {
    loss_builder().build(Host::new()).unwrap()
}

#[test]
fn scalar_loss_graph_builds() {
    let builder = loss_builder();
    let root = builder.root();
    let graph = builder.build(Host::new()).unwrap();
    assert_eq!(graph.root(), root);
    assert_eq!(graph.root().shape(), Shape::new(1, 1));
    assert_eq!(graph.len(), 6);
    let top = graph.get_node(graph.root());
    assert!(top.requires_grad());
    assert_eq!(top.size(), 1);
    assert_eq!(top.own(), root);
    assert!(matches!(top.operation(), Some(Operation::ReduceAcrossBatch(_))));
}

#[test]
fn built_graph_lists_inputs_and_weights_by_name() {
    let graph = built();
    let w = graph.weight("w").unwrap();
    let x = graph.input("x").unwrap();
    let t = graph.input("t").unwrap();
    assert_eq!((w.idx, x.idx, t.idx), (0, 1, 2));
    assert_eq!(w.shape(), Shape::new(1, 4));
    assert_eq!(graph.weight("x"), None);
    assert_eq!(graph.input("w"), None);
    assert_eq!(graph.input("nothing"), None);
    assert_eq!(graph.get_node(w).size(), 4);
    assert!(graph.get_node(w).requires_grad());
    assert!(!graph.get_node(x).requires_grad());
    assert_eq!(graph.get_node(x).operation(), None);
    assert_eq!(graph.get_node(x).values().size(), 4);
}

#[test]
fn build_allocates_values_and_gradients() {
    let host = Host::new();
    let made = host.made.clone();
    let graph = loss_builder().build(host).unwrap();
    // six nodes; four of them require gradients
    assert_eq!(made.get(), 10);
    assert_eq!(graph.device().made.get(), 10);
}

#[test]
fn build_passes_on_the_device_error() {
    let r = loss_builder().build(Host::failing_after(3));
    assert_eq!(r.err(), Some(GraphError::Device("out of memory at allocation 3".to_string())));
    let r = loss_builder().build(Host::failing_after(0));
    assert_eq!(r.err(), Some(GraphError::Device("out of memory at allocation 0".to_string())));
}

#[test]
fn graph_that_cannot_be_built_does_not_touch_the_device() {
    let mut builder = GraphBuilder::new();
    builder.create_weights("a", Shape::new(1, 1)).unwrap();
    builder.create_weights("b", Shape::new(1, 1)).unwrap();
    let host = Host::new();
    let made = host.made.clone();
    assert_eq!(builder.build(host).err(), Some(GraphError::Output(OutputError::NotSingleOutput)));
    assert_eq!(made.get(), 0);

    let mut builder = GraphBuilder::new();
    builder.create_weights("w", Shape::new(1, 1)).unwrap();
    assert_eq!(
        builder.build(Host::new()).err(),
        Some(GraphError::Output(OutputError::OutputIsWeights))
    );

    let mut builder = GraphBuilder::new();
    builder.create_dense_input("x", Shape::new(1, 1)).unwrap();
    assert_eq!(builder.build(Host::new()).err(), Some(GraphError::Output(OutputError::OutputIsInput)));

    let mut builder = GraphBuilder::new();
    let w = builder.create_weights("w", Shape::new(3, 1)).unwrap();
    builder.create_result_of_operation(Operation::Activate(w, Activation::ReLU), true).unwrap();
    assert_eq!(
        builder.build(Host::new()).err(),
        Some(GraphError::Output(OutputError::OutputNotScalar(Shape::new(3, 1))))
    );

    assert_eq!(
        GraphBuilder::new().build(Host::new()).err(),
        Some(GraphError::Output(OutputError::NotSingleOutput))
    );
}

#[test]
fn unknown_names_are_not_found() {
    let mut graph = built();
    assert_eq!(
        graph.get_weights_mut("v").err(),
        Some(GraphError::NotFound("v".to_string()))
    );
    assert_eq!(graph.get_input_mut("w").err(), Some(GraphError::NotFound("w".to_string())));
    assert_eq!(graph.get_weights_mut("x").err(), Some(GraphError::NotFound("x".to_string())));
}

#[test]
fn weights_and_inputs_can_be_changed_by_name() {
    let mut graph = built();
    {
        let w = graph.get_weights_mut("w").unwrap();
        assert_eq!(w.own().idx, 0);
        w.seed_random(Scalar::from_bits(0.5f32.to_bits()), Scalar::from_bits(0), true).unwrap();
        assert_eq!(w.values().to_vec(), Some(scalars(&[0.5, 0.5, 0.5, 0.5])));
    }
    {
        let x = graph.get_input_mut("x").unwrap();
        assert_eq!(x.own().idx, 1);
        assert_eq!(x.values().to_vec(), Some(scalars(&[0.0, 0.0, 0.0, 0.0])));
    }
    let w = graph.weight("w").unwrap();
    assert_eq!(graph.get_node(w).values().to_vec(), Some(scalars(&[0.5, 0.5, 0.5, 0.5])));
}

#[test]
fn tensor_has_gradients_only_where_required() {
    let host = Host::new();
    let own = loss_builder().root();
    let with = Tensor::new(&host, 3, true, None, own).unwrap();
    let without = Tensor::new(&host, 3, false, None, own).unwrap();
    assert!(with.requires_grad());
    assert!(!without.requires_grad());
    assert_eq!(with.size(), 3);
    assert_eq!(host.made.get(), 3);
    assert!(Tensor::new(&Host::failing_after(1), 3, true, None, own).is_err());
    assert!(Tensor::new(&Host::failing_after(1), 3, false, None, own).is_ok());
}

#[test]
fn dense_matrix_is_loaded_in_whole_examples() {
    let host = Host::new();
    let mut m: DenseMatrix<Host> = DenseMatrix::zeroed(&host, 2).unwrap();
    assert_eq!(m.size(), 2);
    assert_eq!(m.batch_size(), None);
    assert_eq!(m.to_vec(), Some(scalars(&[0.0, 0.0])));
    assert_eq!(m.load_from_slice(None, &scalars(&[1.0, 2.0])), Ok(()));
    assert_eq!(m.to_vec(), Some(scalars(&[1.0, 2.0])));
    assert_eq!(m.load_from_slice(None, &scalars(&[1.0, 2.0, 3.0])), Err(LoadError::WrongLength));
    assert_eq!(m.load_from_slice(Some(0), &scalars(&[])), Err(LoadError::EmptyBatch));
    assert_eq!(m.load_from_slice(Some(2), &scalars(&[1.0, 2.0, 3.0])), Err(LoadError::WrongLength));
    // a refused load leaves the matrix as it was
    assert_eq!(m.batch_size(), None);
    assert_eq!(m.to_vec(), Some(scalars(&[1.0, 2.0])));
    assert_eq!(m.load_from_slice(Some(3), &scalars(&[1.0, 2.0, 3.0, 4.0, 5.0, 6.0])), Ok(()));
    assert_eq!(m.batch_size(), Some(3));
    assert_eq!(m.size(), 2);
    assert_eq!(m.to_vec(), Some(scalars(&[1.0, 2.0, 3.0, 4.0, 5.0, 6.0])));
    m.set_zero();
    assert_eq!(m.to_vec(), Some(scalars(&[0.0; 6])));
    assert_eq!(m.batch_size(), Some(3));
    assert!(DenseMatrix::<Host>::zeroed(&Host::failing_after(0), 2).is_err());
}
