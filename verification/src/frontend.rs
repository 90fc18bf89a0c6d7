//! A network described layer by layer: a builder that also remembers how
//! each weight is to be initialised.

use vstd::prelude::*;
use vstd::string::StringExecFns;
use crate::graph::builder::GraphBuilder;
use crate::device::Device;
use crate::graph::error::{
    BuilderFault, GraphBuilderError, GraphBuilderErrorType, GraphError, OutputError, ShapeFault,
};
use crate::graph::{lemma_lookup_is_listed, Graph};
use crate::graph::node::Node;
use crate::graph::operation::{scalar_shape, Activation, Operation};
use crate::scalar::{Scalar, MINUS_ONE, ONE, TWO};
use crate::shape::Shape;
use crate::graph::state::BuilderState;
use crate::device::allocates;
use crate::graph::state::lookup;
use crate::graph::state_lemmas::{lemma_named, lemma_named_lists_members};

verus! {

broadcast use {Shape::lemma_new_dims, Shape::lemma_is_new};

/// How a weight is filled before training starts.
#[derive(Clone, Copy, Debug, PartialEq, Eq)]
pub enum InitSettings {
    /// With zeros.
    Zeroed,
    /// With numbers drawn from a normal distribution.
    Normal { mean: Scalar, stdev: Scalar },
    /// With numbers drawn from a uniform distribution.
    Uniform { mean: Scalar, stdev: Scalar },
}

impl InitSettings {
    /// The mean of the distribution; zero for `Zeroed`.
    pub open spec fn mean_of(self) -> Scalar {
        match self {
            InitSettings::Zeroed => Scalar { bits: 0 },
            InitSettings::Normal { mean, stdev } => mean,
            InitSettings::Uniform { mean, stdev } => mean,
        }
    }

    /// The standard deviation of the distribution; zero for `Zeroed`.
    pub open spec fn stdev_of(self) -> Scalar {
        match self {
            InitSettings::Zeroed => Scalar { bits: 0 },
            InitSettings::Normal { mean, stdev } => stdev,
            InitSettings::Uniform { mean, stdev } => stdev,
        }
    }

    /// Whether the distribution is normal rather than uniform.
    pub open spec fn is_normal(self) -> bool {
        !(self is Uniform)
    }
}

/// Whether the device refuses, with the error `e`, to draw the numbers of
/// some buffer.
pub open spec fn seeding_refused<D: Device>(e: D::DeviceError) -> bool {
    exists|buffer: &mut D::Buffer, mean: Scalar, stdev: Scalar, normal: bool| #[trigger]
        call_ensures(
            D::seed_random,
            (buffer, mean, stdev, normal),
            Err::<(), D::DeviceError>(e),
        )
}

/// A graph under construction together with the initial settings of its
/// weights, under the weights' names.
pub struct NetworkState {
    pub graph: BuilderState,
    pub init: Seq<(Seq<char>, InitSettings)>,
}

impl NetworkState {
    /// Whether the name is that of a weight of the graph.
    pub open spec fn names_weight(self, id: Seq<char>) -> bool {
        exists|i: int|
            0 <= i < self.graph.nodes.len() && self.graph.weights.contains(i as usize) && (
            #[trigger] self.graph.nodes[i]).id == Some(id)
    }

    /// The graph is well formed, every initial setting is for one of its
    /// weights, and no two settings stand under one name.
    pub open spec fn wf(self) -> bool {
        &&& self.graph.wf()
        &&& forall|k: int| 0 <= k < self.init.len() ==> self.names_weight((#[trigger] self.init[k]).0)
        &&& forall|k: int, l: int|
            0 <= k < l < self.init.len() ==> (#[trigger] self.init[k]).0 != (
            #[trigger] self.init[l]).0
    }

    /// Whether one of the first `upto` settings stands under the name.
    pub open spec fn has_setting(self, upto: int, id: Seq<char>) -> bool {
        exists|w: int| 0 <= w < upto && w < self.init.len() && (#[trigger] self.init[w]).0 == id
    }

    /// The one of the first `upto` settings that stands under the name;
    /// `Zeroed` if there is none, or no name.
    pub open spec fn setting_upto(self, upto: int, id: Option<Seq<char>>) -> InitSettings {
        match id {
            Some(id) => if self.has_setting(upto, id) {
                self.init[choose|w: int|
                    0 <= w < upto && w < self.init.len() && (#[trigger] self.init[w]).0 == id].1
            } else {
                InitSettings::Zeroed
            },
            None => InitSettings::Zeroed,
        }
    }

    /// How node `i` of the graph with the reduction on top is initialised:
    /// as the setting under its name says, with zeros if there is none.
    pub open spec fn setting(self, i: int) -> InitSettings {
        self.setting_upto(self.init.len() as int, self.reduced().nodes[i].id)
    }

    /// The outcome `r` of a call that adds the result of `op`, and the
    /// state `after` it, are what [`BuilderState::apply`] says of `self`.
    pub open spec fn applies(
        self,
        op: Operation,
        requires_grad: bool,
        r: Result<NetworkBuilderNode, GraphBuilderError>,
        after: NetworkState,
    ) -> bool {
        &&& after.init == self.init
        &&& match r {
            Ok(n) => self.graph.apply(op, requires_grad) == Ok::<(BuilderState, Node), BuilderFault>(
                (after.graph, n.node),
            ),
            Err(e) => self.graph.apply(op, requires_grad) == Err::<
                (BuilderState, Node),
                BuilderFault,
            >(e@) && after.graph == self.graph,
        }
    }

    /// The graph with the reduction across the batch put on top of its
    /// root.
    pub open spec fn reduced(self) -> BuilderState {
        let root = self.graph.nodes[self.graph.roots.choose() as int].own;
        self.graph.with_operation(Operation::ReduceAcrossBatch(root), scalar_shape(), true)
    }
}

/// Builds a network and remembers how its weights are to be initialised.
pub struct NetworkBuilder {
    graph_builder: GraphBuilder,
    init_data: Vec<(String, InitSettings)>,
}

impl View for NetworkBuilder {
    type V = NetworkState;

    closed spec fn view(&self) -> NetworkState {
        NetworkState {
            graph: self.graph_builder@,
            init: Seq::new(
                self.init_data@.len(),
                |k: int| (self.init_data@[k].0@, self.init_data@[k].1),
            ),
        }
    }
}

/// A node of a network under construction.
#[derive(Clone, Copy, Debug, PartialEq, Eq)]
pub struct NetworkBuilderNode {
    pub node: Node,
}

/// The weights and the bias of an affine layer.
#[derive(Clone, Copy, Debug, PartialEq, Eq)]
pub struct Affine {
    pub weights: Node,
    pub bias: Node,
}

impl Default for NetworkBuilder {
    fn default() -> (b: NetworkBuilder)
        ensures
            b.wf(),
            b@.graph == BuilderState::empty(),
            b@.init.len() == 0,
    {
        NetworkBuilder::new()
    }
}

impl NetworkBuilder {
    /// Whether the builder is as every builder is; see
    /// [`NetworkState::wf`].
    pub open spec fn wf(&self) -> bool {
        self@.wf()
    }

    /// A builder without nodes.
    pub fn new() -> (b: NetworkBuilder)
        ensures
            b.wf(),
            b@.graph == BuilderState::empty(),
            b@.init.len() == 0,
    {
        NetworkBuilder { graph_builder: GraphBuilder::new(), init_data: Vec::new() }
    }

    /// The graph under construction.
    pub fn builder(&self) -> (b: &GraphBuilder)
        ensures
            b@ == self@.graph,
    {
        &self.graph_builder
    }

    /// Adds a dense input; see [`GraphBuilder::create_dense_input`].
    pub fn new_dense_input(&mut self, id: &str, shape: Shape) -> (r: Result<
        NetworkBuilderNode,
        GraphBuilderError,
    >)
        requires
            old(self).wf(),
        ensures
            final(self).wf(),
            final(self)@.init == old(self)@.init,
            match r {
                Ok(n) => old(self)@.graph.create_input(id@, shape, None) == Ok::<
                    (BuilderState, Node),
                    BuilderFault,
                >((final(self)@.graph, n.node)),
                Err(e) => old(self)@.graph.create_input(id@, shape, None) == Err::<
                    (BuilderState, Node),
                    BuilderFault,
                >(e@) && final(self)@.graph == old(self)@.graph,
            },
    {
        let r = self.graph_builder.create_dense_input(id, shape);
        proof {
            lemma_growth_keeps_weights(old(self)@, self@);
        }
        match r {
            Ok(node) => Ok(NetworkBuilderNode { node }),
            Err(e) => Err(e),
        }
    }

    /// Adds a sparse input; see [`GraphBuilder::create_sparse_input`].
    pub fn new_sparse_input(&mut self, id: &str, shape: Shape, nnz: usize) -> (r: Result<
        NetworkBuilderNode,
        GraphBuilderError,
    >)
        requires
            old(self).wf(),
        ensures
            final(self).wf(),
            final(self)@.init == old(self)@.init,
            match r {
                Ok(n) => old(self)@.graph.create_input(id@, shape, Some(nnz)) == Ok::<
                    (BuilderState, Node),
                    BuilderFault,
                >((final(self)@.graph, n.node)),
                Err(e) => old(self)@.graph.create_input(id@, shape, Some(nnz)) == Err::<
                    (BuilderState, Node),
                    BuilderFault,
                >(e@) && final(self)@.graph == old(self)@.graph,
            },
    {
        let r = self.graph_builder.create_sparse_input(id, shape, nnz);
        proof {
            lemma_growth_keeps_weights(old(self)@, self@);
        }
        match r {
            Ok(node) => Ok(NetworkBuilderNode { node }),
            Err(e) => Err(e),
        }
    }

    /// Adds weights and remembers how they are to be initialised; see
    /// [`GraphBuilder::create_weights`]. If the weights are refused,
    /// nothing is remembered.
    pub fn new_weights(&mut self, id: &str, shape: Shape, init: InitSettings) -> (r: Result<
        NetworkBuilderNode,
        GraphBuilderError,
    >)
        requires
            old(self).wf(),
        ensures
            final(self).wf(),
            match r {
                Ok(n) => old(self)@.graph.create_weights(id@, shape) == Ok::<
                    (BuilderState, Node),
                    BuilderFault,
                >((final(self)@.graph, n.node)) && final(self)@.init == old(self)@.init.push(
                    (id@, init),
                ),
                Err(e) => old(self)@.graph.create_weights(id@, shape) == Err::<
                    (BuilderState, Node),
                    BuilderFault,
                >(e@) && final(self)@ == old(self)@,
            },
    {
        match self.graph_builder.create_weights(id, shape) {
            Ok(node) => {
                self.init_data.push((String::from_str(id), init));
                proof {
                    let before = old(self)@;
                    let after = self@;
                    let n = before.graph.nodes.len() as int;
                    assert(after.init =~= before.init.push((id@, init)));
                    assert(after.graph == before.graph.with_weights(id@, shape));
                    assert forall|k: int| 0 <= k < after.init.len() implies after.names_weight(
                        (#[trigger] after.init[k]).0,
                    ) by {
                        if k < before.init.len() {
                            let name = before.init[k].0;
                            assert(before.names_weight(name));
                            let i = choose|i: int|
                                0 <= i < before.graph.nodes.len() && before.graph.weights.contains(
                                    i as usize,
                                ) && (#[trigger] before.graph.nodes[i]).id == Some(name);
                            assert(after.graph.nodes[i] == before.graph.nodes[i]);
                            assert(after.graph.weights.contains(i as usize));
                        } else {
                            assert(after.graph.nodes[n].id == Some(id@));
                            assert(after.graph.weights.contains(n as usize));
                        }
                    }
                }
                Ok(NetworkBuilderNode { node })
            },
            Err(e) => Err(e),
        }
    }

    /// Adds the weights and the bias of an affine layer with a bias of one
    /// column; see [`NetworkBuilder::new_affine_custom`].
    pub fn new_affine(&mut self, id: &str, input_size: usize, output_size: usize, init: InitSettings)
        -> (r: Result<Affine, GraphBuilderError>)
        requires
            old(self).wf(),
            valid_layer(input_size, output_size, 1),
        ensures
            final(self).wf(),
            old(self)@.affine(id@, input_size, output_size, 1, init, r, final(self)@),
    {
        self.new_affine_custom(id, input_size, output_size, 1, init)
    }

    /// Adds the weights and the bias of an affine layer: weights of
    /// `output_size` by `input_size` under the name `id` followed by `w`,
    /// initialised as `init` says, and a bias of `output_size` by
    /// `bias_cols` under the name `id` followed by `b`, initialised with
    /// zeros.
    ///
    /// If the weights are refused, nothing changes. If the bias is
    /// refused, the weights stay.
    pub fn new_affine_custom(
        &mut self,
        id: &str,
        input_size: usize,
        output_size: usize,
        bias_cols: usize,
        init: InitSettings,
    ) -> (r: Result<Affine, GraphBuilderError>)
        requires
            old(self).wf(),
            valid_layer(input_size, output_size, bias_cols),
        ensures
            final(self).wf(),
            old(self)@.affine(id@, input_size, output_size, bias_cols, init, r, final(self)@),
    {
        let wid = String::from_str(id).concat("w");
        let bid = String::from_str(id).concat("b");
        let weights = match self.new_weights(
            wid.as_str(),
            Shape::new(output_size, input_size),
            init,
        ) {
            Ok(n) => n,
            Err(e) => {
                return Err(e);
            },
        };
        let bias = match self.new_weights(
            bid.as_str(),
            Shape::new(output_size, bias_cols),
            InitSettings::Zeroed,
        ) {
            Ok(n) => n,
            Err(e) => {
                return Err(e);
            },
        };
        Ok(Affine { weights: weights.node, bias: bias.node })
    }

    /// Adds the result of an operation, with gradients; see
    /// [`GraphBuilder::create_result_of_operation`].
    pub fn apply(&mut self, operation: Operation) -> (r: Result<
        NetworkBuilderNode,
        GraphBuilderError,
    >)
        requires
            old(self).wf(),
        ensures
            final(self).wf(),
            old(self)@.applies(operation, true, r, final(self)@),
    {
        self.apply_with(operation, true)
    }

    /// Adds the result of an operation, with or without gradients.
    pub fn apply_with(&mut self, operation: Operation, requires_grad: bool) -> (r: Result<
        NetworkBuilderNode,
        GraphBuilderError,
    >)
        requires
            old(self).wf(),
        ensures
            final(self).wf(),
            old(self)@.applies(operation, requires_grad, r, final(self)@),
    {
        let r = self.graph_builder.create_result_of_operation(operation, requires_grad);
        proof {
            lemma_growth_keeps_weights(old(self)@, self@);
        }
        match r {
            Ok(node) => Ok(NetworkBuilderNode { node }),
            Err(e) => Err(e),
        }
    }

    /// Builds the network on a device.
    ///
    /// The graph must have exactly one root. The sum over the batch is put
    /// on top of it and is the output of the built graph. Then the storage
    /// of every node is allocated as [`GraphBuilder::build`] says, and for
    /// every weight whose setting is not `Zeroed` the device is asked to
    /// draw the values with the mean and deviation of the setting, from a
    /// normal or a uniform distribution as the setting says. The first
    /// request that the device refuses ends the build with the device's
    /// error.
    pub fn build<D: Device>(self, device: D) -> (r: Result<Graph<D>, GraphError<D::DeviceError>>)
        requires
            self.wf(),
        ensures
            match r {
                Ok(graph) => {
                    &&& self@.graph.roots.len() == 1
                    &&& graph.wf()
                    &&& graph@ == self@.reduced().topology()
                    &&& graph.spec_device() == device
                    &&& forall|i: int|
                        0 <= i < self@.reduced().nodes.len() ==> {
                            let t = #[trigger] graph.tensor(i);
                            let size = self@.reduced().nodes[i].size as usize;
                            {
                                let setting = self@.setting(i);
                                if setting is Zeroed {
                                    t.allocated_on(&device, size)
                                } else {
                                    &&& t.spec_gradients() matches Some(g) ==> allocates(
                                        &device,
                                        size,
                                        Ok::<D::Buffer, D::DeviceError>(g.spec_buffer()),
                                    )
                                    &&& exists|buffer: &mut D::Buffer|
                                        {
                                            &&& allocates(
                                                &device,
                                                size,
                                                Ok::<D::Buffer, D::DeviceError>(*buffer),
                                            )
                                            &&& *final(buffer) == t.spec_values().spec_buffer()
                                            &&& #[trigger] call_ensures(
                                                D::seed_random,
                                                (
                                                    buffer,
                                                    setting.mean_of(),
                                                    setting.stdev_of(),
                                                    setting.is_normal(),
                                                ),
                                                Ok::<(), D::DeviceError>(()),
                                            )
                                        }
                                }
                            }
                        }
                },
                Err(GraphError::Output(e)) => self@.graph.roots.len() != 1 && e
                    == OutputError::NotSingleOutput,
                Err(GraphError::Device(e)) => self@.graph.roots.len() == 1 && (
                self@.reduced().refused_for_a_node(&device, e) || seeding_refused::<D>(e)),
                Err(_) => false,
            },
    {
        let mut builder = self.graph_builder;
        let init_data = self.init_data;
        let ghost start = builder@;
        let ghost init = Seq::new(init_data@.len(), |k: int| (init_data@[k].0@, init_data@[k].1));
        let ghost state = NetworkState { graph: start, init };
        let root = match builder.single_root() {
            Some(node) => node,
            None => {
                return Err(GraphError::Output(OutputError::NotSingleOutput));
            },
        };
        proof {
            Set::lemma_is_singleton(start.roots);
            assert(start.roots.contains(root.idx));
            assert(start.roots.len() == 1);
            assert(start.roots.contains(start.roots.choose()));
            assert(start.record_wf(root.idx as int));
            lemma_owns_own(start, root.idx as int);
        }
        let op = Operation::ReduceAcrossBatch(root);
        assert(op.operands() =~= seq![root]);
        proof {
            reveal_with_fuel(BuilderState::first_foreign, 2);
            assert(start.first_foreign(op.operands()) is None);
        }
        match builder.create_result_of_operation(op, true) {
            Ok(_) => {},
            Err(_) => unreached(),
        }
        let ghost grown = builder@;
        proof {
            assert(grown == state.reduced());
            lemma_reduced_is_output(start, root, grown);
            lemma_growth_keeps_weights(
                state,
                NetworkState { graph: grown, init },
            );
        }
        let ghost net = NetworkState { graph: grown, init };
        let ghost dev = device;
        let mut graph = match builder.build(device) {
            Ok(graph) => graph,
            Err(GraphError::Device(e)) => {
                return Err(GraphError::Device(e));
            },
            Err(_) => unreached(),
        };
        let ghost topology = graph@;
        let mut k: usize = 0;
        while k < init_data.len()
            invariant
                k <= init_data.len(),
                graph.wf(),
                graph@ == topology,
                graph.spec_device() == dev,
                topology == grown.topology(),
                grown.wf(),
                init == Seq::new(init_data@.len(), |k: int| (init_data@[k].0@, init_data@[k].1)),
                net == (NetworkState { graph: grown, init }),
                net.wf(),
                start.roots.len() == 1,
                self@.graph == start,
                forall|i: int|
                    0 <= i < grown.nodes.len() ==> {
                        let t = #[trigger] graph.tensor(i);
                        let size = grown.nodes[i].size as usize;
                        {
                            let setting = net.setting_upto(k as int, grown.nodes[i].id);
                            if setting is Zeroed {
                                t.allocated_on(&dev, size)
                            } else {
                                &&& t.spec_gradients() matches Some(g) ==> allocates(
                                    &dev,
                                    size,
                                    Ok::<D::Buffer, D::DeviceError>(g.spec_buffer()),
                                )
                                &&& exists|buffer: &mut D::Buffer|
                                    {
                                        &&& allocates(
                                            &dev,
                                            size,
                                            Ok::<D::Buffer, D::DeviceError>(*buffer),
                                        )
                                        &&& *final(buffer) == t.spec_values().spec_buffer()
                                        &&& #[trigger] call_ensures(
                                            D::seed_random,
                                            (
                                                buffer,
                                                setting.mean_of(),
                                                setting.stdev_of(),
                                                setting.is_normal(),
                                            ),
                                            Ok::<(), D::DeviceError>(()),
                                        )
                                    }
                            }
                        }
                    },
            decreases init_data.len() - k,
        {
            let (mean, stdev, normal, fill) = match init_data[k].1 {
                InitSettings::Zeroed => (Scalar::from_bits(0), Scalar::from_bits(0), true, false),
                InitSettings::Normal { mean, stdev } => (mean, stdev, true, true),
                InitSettings::Uniform { mean, stdev } => (mean, stdev, false, true),
            };
            let ghost before = graph;
            let ghost id = init_data@[k as int].0@;
            assert(net.init[k as int] == (id, init_data@[k as int].1));
            if fill {
                proof {
                    assert(net.names_weight(net.init[k as int].0));
                    let i = choose|i: int|
                        0 <= i < grown.nodes.len() && grown.weights.contains(i as usize) && (
                        #[trigger] grown.nodes[i]).id == Some(id);
                    lemma_named_lists_members(grown, grown.weights, grown.nodes.len() as int, i);
                    lemma_lookup_is_listed(topology.weights, id);
                    lemma_named(grown, grown.weights, grown.nodes.len() as int);
                }
                let tensor = match graph.get_weights_mut(init_data[k].0.as_str()) {
                    Ok(tensor) => tensor,
                    Err(_) => unreached(),
                };
                let ghost idx = tensor.spec_own().idx as int;
                let ghost allocated = *tensor;
                proof {
                    let node = lookup(topology.weights, id)->Some_0;
                    let w = choose|w: int|
                        0 <= w < topology.weights.len() && #[trigger] topology.weights[w] == (
                            id,
                            node,
                        );
                    assert(grown.nodes[idx].id == Some(id));
                    assert(allocated == before.tensor(idx));
                    lemma_setting_step(net, k as int, grown.nodes[idx].id);
                }
                let seeded = tensor.seed_random(mean, stdev, normal);
                proof {
                    Graph::lemma_follows_keeps_topology(graph, before, idx, *tensor);
                    Graph::lemma_follows_tensors(graph, before, idx, *tensor);
                }
                match seeded {
                    Ok(()) => {
                        proof {
                            assert forall|i: int| 0 <= i < grown.nodes.len() && i != idx implies {
                                let t = #[trigger] graph.tensor(i);
                                let size = grown.nodes[i].size as usize;
                                {
                                    let setting = net.setting_upto(k + 1, grown.nodes[i].id);
                                    if setting is Zeroed {
                                        t.allocated_on(&dev, size)
                                    } else {
                                        &&& t.spec_gradients() matches Some(g) ==> allocates(
                                            &dev,
                                            size,
                                            Ok::<D::Buffer, D::DeviceError>(g.spec_buffer()),
                                        )
                                        &&& exists|buffer: &mut D::Buffer|
                                            {
                                                &&& allocates(
                                                    &dev,
                                                    size,
                                                    Ok::<D::Buffer, D::DeviceError>(*buffer),
                                                )
                                                &&& *final(buffer) == t.spec_values().spec_buffer()
                                                &&& #[trigger] call_ensures(
                                                    D::seed_random,
                                                    (
                                                        buffer,
                                                        setting.mean_of(),
                                                        setting.stdev_of(),
                                                        setting.is_normal(),
                                                    ),
                                                    Ok::<(), D::DeviceError>(()),
                                                )
                                            }
                                    }
                                }
                            } by {
                                lemma_setting_step(net, k as int, grown.nodes[i].id);
                                lemma_one_name(grown, i, idx);
                                assert(graph.tensor(i) == before.tensor(i));
                                assert(net.setting_upto(k + 1, grown.nodes[i].id)
                                    == net.setting_upto(k as int, grown.nodes[i].id));
                            }
                            let size = grown.nodes[idx].size as usize;
                            lemma_setting_step(net, k as int, grown.nodes[idx].id);
                            assert(net.setting_upto(k + 1, grown.nodes[idx].id)
                                == net.init[k as int].1);
                            assert(net.init[k as int].1.mean_of() == mean
                                && net.init[k as int].1.stdev_of() == stdev
                                && net.init[k as int].1.is_normal() == normal
                                && !(net.init[k as int].1 is Zeroed));
                            assert(net.setting_upto(k as int, grown.nodes[idx].id)
                                == InitSettings::Zeroed);
                            assert(before.tensor(idx).allocated_on(&dev, size));
                            assert(graph.tensor(idx) == *tensor);
                            assert(tensor.spec_gradients() == allocated.spec_gradients());
                            assert(seeded is Ok);
                            assert(seeded->Ok_0 == ());
                            assert(seeded == Ok::<(), D::DeviceError>(()));
                            assert(exists|buffer: &mut D::Buffer|
                                {
                                    &&& allocates(
                                        &dev,
                                        size,
                                        Ok::<D::Buffer, D::DeviceError>(*buffer),
                                    )
                                    &&& *final(buffer) == graph.tensor(
                                        idx,
                                    ).spec_values().spec_buffer()
                                    &&& #[trigger] call_ensures(
                                        D::seed_random,
                                        (buffer, mean, stdev, normal),
                                        Ok::<(), D::DeviceError>(()),
                                    )
                                });
                            assert(graph.tensor(idx).spec_gradients() matches Some(g)
                                ==> allocates(
                                &dev,
                                size,
                                Ok::<D::Buffer, D::DeviceError>(g.spec_buffer()),
                            ));

                        }
                    },
                    Err(e) => {
                        assert(seeding_refused::<D>(e));
                        return Err(GraphError::Device(e));
                    },
                }
            } else {
                proof {
                    assert forall|i: int| 0 <= i < grown.nodes.len() implies {
                                let t = #[trigger] graph.tensor(i);
                                let size = grown.nodes[i].size as usize;
                                {
                                    let setting = net.setting_upto(k + 1, grown.nodes[i].id);
                                    if setting is Zeroed {
                                        t.allocated_on(&dev, size)
                                    } else {
                                        &&& t.spec_gradients() matches Some(g) ==> allocates(
                                            &dev,
                                            size,
                                            Ok::<D::Buffer, D::DeviceError>(g.spec_buffer()),
                                        )
                                        &&& exists|buffer: &mut D::Buffer|
                                            {
                                                &&& allocates(
                                                    &dev,
                                                    size,
                                                    Ok::<D::Buffer, D::DeviceError>(*buffer),
                                                )
                                                &&& *final(buffer) == t.spec_values().spec_buffer()
                                                &&& #[trigger] call_ensures(
                                                    D::seed_random,
                                                    (
                                                        buffer,
                                                        setting.mean_of(),
                                                        setting.stdev_of(),
                                                        setting.is_normal(),
                                                    ),
                                                    Ok::<(), D::DeviceError>(()),
                                                )
                                            }
                                    }
                                }
                            } by {
                        lemma_setting_step(net, k as int, grown.nodes[i].id);
                        assert(init_data@[k as int].1 is Zeroed);
                        assert(graph.tensor(i) == before.tensor(i));
                    }
                }
            }
            k += 1;
        }
        proof {
            assert forall|i: int| 0 <= i < grown.nodes.len() implies net.setting_upto(
                init_data@.len() as int,
                #[trigger] grown.nodes[i].id,
            ) == self@.setting(i) by {}
        }
        Ok(graph)
    }
}

/// Whether an affine layer of these sizes has weights and a bias that are
/// shapes.
pub open spec fn valid_layer(input_size: usize, output_size: usize, bias_cols: usize) -> bool {
    crate::shape::valid_dims(output_size as int, input_size as int) && crate::shape::valid_dims(
        output_size as int,
        bias_cols as int,
    )
}

impl NetworkState {
    /// What adding an affine layer does: the weights are added under the
    /// name followed by `w` and the bias under the name followed by `b`,
    /// one after the other, each as [`BuilderState::create_weights`] says.
    pub open spec fn affine(
        self,
        id: Seq<char>,
        input_size: usize,
        output_size: usize,
        bias_cols: usize,
        init: InitSettings,
        r: Result<Affine, GraphBuilderError>,
        after: NetworkState,
    ) -> bool {
        let wid = id + "w"@;
        let bid = id + "b"@;
        let wshape = Shape::spec_new(output_size, input_size);
        let bshape = Shape::spec_new(output_size, bias_cols);
        match self.graph.create_weights(wid, wshape) {
            Err(fault) => r matches Err(e) && e@ == fault && after == self,
            Ok((with_weights, weights)) => match with_weights.create_weights(bid, bshape) {
                Err(fault) => {
                    &&& r matches Err(e)
                    &&& e@ == fault
                    &&& after.graph == with_weights
                    &&& after.init == self.init.push((wid, init))
                },
                Ok((with_bias, bias)) => {
                    &&& r == Ok::<Affine, GraphBuilderError>(Affine { weights, bias })
                    &&& after.graph == with_bias
                    &&& after.init == self.init.push((wid, init)).push(
                        (bid, InitSettings::Zeroed),
                    )
                },
            },
        }
    }
}

/// What the next setting changes: under its own name the setting is now
/// the one that was added, where there was none before; under every other
/// name, and for a node without a name, nothing changes.
proof fn lemma_setting_step(net: NetworkState, k: int, id: Option<Seq<char>>)
    requires
        net.wf(),
        0 <= k < net.init.len(),
    ensures
        id == Some(net.init[k].0) ==> net.setting_upto(k, id) == InitSettings::Zeroed
            && net.setting_upto(k + 1, id) == net.init[k].1,
        id != Some(net.init[k].0) ==> net.setting_upto(k + 1, id) == net.setting_upto(k, id),
{
    if id is Some {
        let name = id->Some_0;
        if name == net.init[k].0 {
            if net.has_setting(k, name) {
                let w = choose|w: int|
                    0 <= w < k && w < net.init.len() && (#[trigger] net.init[w]).0 == name;
                assert(net.init[w].0 != net.init[k].0);
            }
            assert(net.has_setting(k + 1, name));
            let w = choose|w: int|
                0 <= w < k + 1 && w < net.init.len() && (#[trigger] net.init[w]).0 == name;
            if w < k {
                assert(net.init[w].0 != net.init[k].0);
            }
        } else {
            if net.has_setting(k + 1, name) {
                let w = choose|w: int|
                    0 <= w < k + 1 && w < net.init.len() && (#[trigger] net.init[w]).0 == name;
                assert(w < k);
                assert(net.has_setting(k, name));
                let v = choose|v: int|
                    0 <= v < k && v < net.init.len() && (#[trigger] net.init[v]).0 == name;
                if v < w {
                    assert(net.init[v].0 != net.init[w].0);
                } else if w < v {
                    assert(net.init[w].0 != net.init[v].0);
                }
            } else {
                if net.has_setting(k, name) {
                    let v = choose|v: int|
                        0 <= v < k && v < net.init.len() && (#[trigger] net.init[v]).0 == name;
                    assert(net.has_setting(k + 1, name));
                }
            }
        }
    }
}

/// Two nodes of a well-formed graph do not share a name.
proof fn lemma_one_name(state: BuilderState, i: int, j: int)
    requires
        state.wf(),
        0 <= i < state.nodes.len(),
        0 <= j < state.nodes.len(),
        i != j,
        state.nodes[j].id is Some,
    ensures
        state.nodes[i].id != state.nodes[j].id,
{
    if i < j {
        if state.nodes[i].id is Some {
            assert(state.nodes[i].id != state.nodes[j].id);
        }
    } else {
        assert(state.nodes[j].id != state.nodes[i].id);
    }
}

/// A graph that only grew still has the weights it had.
proof fn lemma_growth_keeps_weights(before: NetworkState, after: NetworkState)
    requires
        before.wf(),
        after.init == before.init,
        after.graph.wf(),
        after.graph.nodes.len() >= before.graph.nodes.len(),
        forall|i: int|
            0 <= i < before.graph.nodes.len() ==> after.graph.nodes[i] == before.graph.nodes[i],
        forall|i: usize| before.graph.weights.contains(i) ==> after.graph.weights.contains(i),
    ensures
        after.wf(),
{
    assert forall|k: int| 0 <= k < after.init.len() implies after.names_weight(
        (#[trigger] after.init[k]).0,
    ) by {
        let id = before.init[k].0;
        assert(before.names_weight(id));
        let i = choose|i: int|
            0 <= i < before.graph.nodes.len() && before.graph.weights.contains(i as usize) && (
            #[trigger] before.graph.nodes[i]).id == Some(id);
        assert(after.graph.nodes[i].id == Some(id));
    }
}

/// The handle on record for a node is a handle of the graph.
proof fn lemma_owns_own(state: BuilderState, i: int)
    requires
        state.wf(),
        0 <= i < state.nodes.len(),
    ensures
        state.owns(state.nodes[i].own),
{
    assert(state.record_wf(i));
}

/// With the reduction across the batch on top of its one root, a graph
/// can be built, and the reduction is its output.
proof fn lemma_reduced_is_output(start: BuilderState, root: Node, grown: BuilderState)
    requires
        start.wf(),
        start.nodes.len() < usize::MAX,
        start.roots == set![root.idx],
        start.owns(root),
        grown == start.with_operation(Operation::ReduceAcrossBatch(root), scalar_shape(), true),
        grown.wf(),
    ensures
        grown.output() is Ok,
        grown.output()->Ok_0.idx == start.nodes.len(),
{
    let op = Operation::ReduceAcrossBatch(root);
    let top = start.nodes.len() as usize;
    assert(op.operands() =~= seq![root]);
    assert(op.operands()[0].idx == root.idx);
    assert(op.reads(root.idx as int));
    assert(grown.roots =~= set![top]) by {
        assert forall|i: usize| grown.roots.contains(i) implies i == top by {
            if i != top {
                assert(start.roots.contains(i));
            }
        }
    }
    assert(grown.roots.len() == 1);
    assert(grown.roots.contains(grown.roots.choose()));
    assert(grown.record_wf(top as int));
}

impl NetworkBuilderNode {
    /// The handle of the node.
    pub fn node(self) -> (n: Node)
        ensures
            n == self.node,
    {
        self.node
    }

    /// Reads the node with another shape of the same element count; see
    /// [`Node::reshape`].
    pub fn reshape(self, shape: Shape) -> (r: Result<NetworkBuilderNode, GraphBuilderErrorType>)
        ensures
            match r {
                Ok(n) => self.node.spec_reshape(shape) == Ok::<Node, ShapeFault>(n.node),
                Err(e) => self.node.spec_reshape(shape) == Err::<Node, ShapeFault>(e@),
            },
    {
        match self.node.reshape(shape) {
            Ok(node) => Ok(NetworkBuilderNode { node }),
            Err(e) => Err(e),
        }
    }

    /// The node passed through an activation.
    pub fn activate(self, builder: &mut NetworkBuilder, activation: Activation) -> (r: Result<
        NetworkBuilderNode,
        GraphBuilderError,
    >)
        requires
            old(builder).wf(),
        ensures
            final(builder).wf(),
            old(builder)@.applies(
                Operation::Activate(self.node, activation),
                true,
                r,
                final(builder)@,
            ),
    {
        builder.apply(Operation::Activate(self.node, activation))
    }

    /// One block of the node's rows, picked by the bucket.
    pub fn select(self, builder: &mut NetworkBuilder, buckets: NetworkBuilderNode) -> (r: Result<
        NetworkBuilderNode,
        GraphBuilderError,
    >)
        requires
            old(builder).wf(),
        ensures
            final(builder).wf(),
            old(builder)@.applies(
                Operation::Select(self.node, buckets.node),
                true,
                r,
                final(builder)@,
            ),
    {
        builder.apply(Operation::Select(self.node, buckets.node))
    }

    /// The rows of `rhs` below the node's.
    pub fn concat(self, builder: &mut NetworkBuilder, rhs: NetworkBuilderNode) -> (r: Result<
        NetworkBuilderNode,
        GraphBuilderError,
    >)
        requires
            old(builder).wf(),
        ensures
            final(builder).wf(),
            old(builder)@.applies(Operation::Concat(self.node, rhs.node), true, r, final(builder)@),
    {
        builder.apply(Operation::Concat(self.node, rhs.node))
    }

    /// `alpha` times the node plus `beta` times `rhs`.
    pub fn linear_comb(
        self,
        builder: &mut NetworkBuilder,
        alpha: Scalar,
        rhs: NetworkBuilderNode,
        beta: Scalar,
    ) -> (r: Result<NetworkBuilderNode, GraphBuilderError>)
        requires
            old(builder).wf(),
        ensures
            final(builder).wf(),
            old(builder)@.applies(
                Operation::LinearCombination(alpha, self.node, beta, rhs.node),
                true,
                r,
                final(builder)@,
            ),
    {
        builder.apply(Operation::LinearCombination(alpha, self.node, beta, rhs.node))
    }

    /// The node plus `rhs`.
    pub fn add(self, builder: &mut NetworkBuilder, rhs: NetworkBuilderNode) -> (r: Result<
        NetworkBuilderNode,
        GraphBuilderError,
    >)
        requires
            old(builder).wf(),
        ensures
            final(builder).wf(),
            old(builder)@.applies(
                Operation::LinearCombination(
                    Scalar { bits: ONE },
                    self.node,
                    Scalar { bits: ONE },
                    rhs.node,
                ),
                true,
                r,
                final(builder)@,
            ),
    {
        self.linear_comb(builder, Scalar::from_bits(ONE), rhs, Scalar::from_bits(ONE))
    }

    /// The node minus `rhs`.
    pub fn sub(self, builder: &mut NetworkBuilder, rhs: NetworkBuilderNode) -> (r: Result<
        NetworkBuilderNode,
        GraphBuilderError,
    >)
        requires
            old(builder).wf(),
        ensures
            final(builder).wf(),
            old(builder)@.applies(
                Operation::LinearCombination(
                    Scalar { bits: ONE },
                    self.node,
                    Scalar { bits: MINUS_ONE },
                    rhs.node,
                ),
                true,
                r,
                final(builder)@,
            ),
    {
        self.linear_comb(builder, Scalar::from_bits(ONE), rhs, Scalar::from_bits(MINUS_ONE))
    }

    /// The node times `rhs`: a sparse affine map without bias if `rhs` is
    /// sparse, a matrix product without transposition if not.
    pub fn matmul(self, builder: &mut NetworkBuilder, rhs: NetworkBuilderNode) -> (r: Result<
        NetworkBuilderNode,
        GraphBuilderError,
    >)
        requires
            old(builder).wf(),
        ensures
            final(builder).wf(),
            old(builder)@.applies(
                if rhs.node.sparse is Some {
                    Operation::SparseAffine(self.node, rhs.node, None)
                } else {
                    Operation::Matmul(self.node, false, rhs.node, false)
                },
                true,
                r,
                final(builder)@,
            ),
    {
        if rhs.node.is_sparse() {
            builder.apply(Operation::SparseAffine(self.node, rhs.node, None))
        } else {
            builder.apply(Operation::Matmul(self.node, false, rhs.node, false))
        }
    }

    /// The matrix product of the node and `rhs`, each transposed first if
    /// its flag is set.
    pub fn gemm(
        self,
        builder: &mut NetworkBuilder,
        transa: bool,
        rhs: NetworkBuilderNode,
        transb: bool,
    ) -> (r: Result<NetworkBuilderNode, GraphBuilderError>)
        requires
            old(builder).wf(),
        ensures
            final(builder).wf(),
            old(builder)@.applies(
                Operation::Matmul(self.node, transa, rhs.node, transb),
                true,
                r,
                final(builder)@,
            ),
    {
        builder.apply(Operation::Matmul(self.node, transa, rhs.node, transb))
    }

    /// The error of the node against `targets`, to the given power.
    pub fn mpe(self, builder: &mut NetworkBuilder, targets: NetworkBuilderNode, power: Scalar)
        -> (r: Result<NetworkBuilderNode, GraphBuilderError>)
        requires
            old(builder).wf(),
        ensures
            final(builder).wf(),
            old(builder)@.applies(
                Operation::PowerError(self.node, targets.node, power),
                true,
                r,
                final(builder)@,
            ),
    {
        builder.apply(Operation::PowerError(self.node, targets.node, power))
    }

    /// The squared error of the node against `targets`.
    pub fn mse(self, builder: &mut NetworkBuilder, targets: NetworkBuilderNode) -> (r: Result<
        NetworkBuilderNode,
        GraphBuilderError,
    >)
        requires
            old(builder).wf(),
        ensures
            final(builder).wf(),
            old(builder)@.applies(
                Operation::PowerError(self.node, targets.node, Scalar { bits: TWO }),
                true,
                r,
                final(builder)@,
            ),
    {
        self.mpe(builder, targets, Scalar::from_bits(TWO))
    }

    /// The upper half of the node's rows times the lower half.
    pub fn pairwise_mul(self, builder: &mut NetworkBuilder) -> (r: Result<
        NetworkBuilderNode,
        GraphBuilderError,
    >)
        requires
            old(builder).wf(),
        ensures
            final(builder).wf(),
            old(builder)@.applies(Operation::PairwiseMul(self.node, false), true, r, final(builder)@),
    {
        builder.apply(Operation::PairwiseMul(self.node, false))
    }

    /// As [`NetworkBuilderNode::pairwise_mul`], on each half of the rows
    /// by itself: for the output of a layer applied to two inputs.
    pub fn pairwise_mul_post_affine_dual(self, builder: &mut NetworkBuilder) -> (r: Result<
        NetworkBuilderNode,
        GraphBuilderError,
    >)
        requires
            old(builder).wf(),
        ensures
            final(builder).wf(),
            old(builder)@.applies(Operation::PairwiseMul(self.node, true), true, r, final(builder)@),
    {
        builder.apply(Operation::PairwiseMul(self.node, true))
    }

    /// The node with the entries outside `mask` set to zero.
    pub fn mask(self, builder: &mut NetworkBuilder, mask: NetworkBuilderNode) -> (r: Result<
        NetworkBuilderNode,
        GraphBuilderError,
    >)
        requires
            old(builder).wf(),
        ensures
            final(builder).wf(),
            old(builder)@.applies(Operation::Mask(self.node, mask.node), true, r, final(builder)@),
    {
        builder.apply(Operation::Mask(self.node, mask.node))
    }

    /// The rows of the node picked by `indices`.
    pub fn gather(self, builder: &mut NetworkBuilder, indices: NetworkBuilderNode) -> (r: Result<
        NetworkBuilderNode,
        GraphBuilderError,
    >)
        requires
            old(builder).wf(),
        ensures
            final(builder).wf(),
            old(builder)@.applies(
                Operation::Gather(self.node, indices.node),
                true,
                r,
                final(builder)@,
            ),
    {
        builder.apply(Operation::Gather(self.node, indices.node))
    }

    /// The softmax cross-entropy of the node against `targets`.
    pub fn softmax_crossentropy_loss(
        self,
        builder: &mut NetworkBuilder,
        targets: NetworkBuilderNode,
    ) -> (r: Result<NetworkBuilderNode, GraphBuilderError>)
        requires
            old(builder).wf(),
        ensures
            final(builder).wf(),
            old(builder)@.applies(
                Operation::SoftmaxCrossEntropyLoss(self.node, targets.node),
                true,
                r,
                final(builder)@,
            ),
    {
        builder.apply(Operation::SoftmaxCrossEntropyLoss(self.node, targets.node))
    }

    /// The softmax cross-entropy of the masked entries of the node against
    /// `targets`.
    pub fn masked_softmax_crossentropy_loss(
        self,
        builder: &mut NetworkBuilder,
        targets: NetworkBuilderNode,
        mask: NetworkBuilderNode,
    ) -> (r: Result<NetworkBuilderNode, GraphBuilderError>)
        requires
            old(builder).wf(),
        ensures
            final(builder).wf(),
            old(builder)@.applies(
                Operation::MaskedSoftmaxCrossEntropyLoss(mask.node, self.node, targets.node),
                true,
                r,
                final(builder)@,
            ),
    {
        builder.apply(Operation::MaskedSoftmaxCrossEntropyLoss(mask.node, self.node, targets.node))
    }

    /// The rows of the node from `start` up to, not including, `end`.
    pub fn slice_rows(self, builder: &mut NetworkBuilder, start: usize, end: usize) -> (r: Result<
        NetworkBuilderNode,
        GraphBuilderError,
    >)
        requires
            old(builder).wf(),
        ensures
            final(builder).wf(),
            old(builder)@.applies(
                Operation::Slice(self.node, start, end),
                true,
                r,
                final(builder)@,
            ),
    {
        builder.apply(Operation::Slice(self.node, start, end))
    }

    /// The sparse node written out densely; no gradients are computed for
    /// it.
    pub fn to_dense(self, builder: &mut NetworkBuilder) -> (r: Result<
        NetworkBuilderNode,
        GraphBuilderError,
    >)
        requires
            old(builder).wf(),
        ensures
            final(builder).wf(),
            old(builder)@.applies(Operation::ToDense(self.node), false, r, final(builder)@),
    {
        builder.apply_with(Operation::ToDense(self.node), false)
    }
}

impl Affine {
    /// The layer applied to an input: a sparse affine map if the input is
    /// sparse, an affine map if not.
    pub fn forward(self, builder: &mut NetworkBuilder, input: NetworkBuilderNode) -> (r: Result<
        NetworkBuilderNode,
        GraphBuilderError,
    >)
        requires
            old(builder).wf(),
        ensures
            final(builder).wf(),
            old(builder)@.applies(
                if input.node.sparse is Some {
                    Operation::SparseAffine(self.weights, input.node, Some(self.bias))
                } else {
                    Operation::Affine(self.weights, input.node, self.bias)
                },
                true,
                r,
                final(builder)@,
            ),
    {
        if input.node.is_sparse() {
            builder.apply(Operation::SparseAffine(self.weights, input.node, Some(self.bias)))
        } else {
            builder.apply(Operation::Affine(self.weights, input.node, self.bias))
        }
    }

    /// The layer applied to two sparse inputs, activated and stacked.
    pub fn forward_sparse_dual_with_activation(
        self,
        builder: &mut NetworkBuilder,
        stm: NetworkBuilderNode,
        ntm: NetworkBuilderNode,
        activation: Activation,
    ) -> (r: Result<NetworkBuilderNode, GraphBuilderError>)
        requires
            old(builder).wf(),
        ensures
            final(builder).wf(),
            old(builder)@.applies(
                Operation::SparseAffineDualActivate(
                    self.weights,
                    stm.node,
                    ntm.node,
                    self.bias,
                    activation,
                ),
                true,
                r,
                final(builder)@,
            ),
    {
        builder.apply(
            Operation::SparseAffineDualActivate(
                self.weights,
                stm.node,
                ntm.node,
                self.bias,
                activation,
            ),
        )
    }
}

} // verus!
