//! Graphs: their construction, and the built graph on a device.

pub mod builder;
pub mod builder_laws;
pub mod error;
pub mod node;
pub mod operation;
pub mod state;
pub mod state_lemmas;

use vstd::prelude::*;
use vstd::string::StringExecFns;
use crate::device::Device;
use crate::graph::error::GraphError;
use crate::graph::node::Node;
use crate::graph::state::{lookup, TensorRecord, Topology};
use crate::tensor::Tensor;

verus! {

/// A built graph on a device: the storage of every node, the root, and the
/// inputs and weights by name. Its topology never changes.
pub struct Graph<D: Device> {
    nodes: Vec<Tensor<D>>,
    root: Node,
    inputs: Vec<(String, Node)>,
    weights: Vec<(String, Node)>,
    device: D,
}

/// The names and handles of a list, as sequences.
pub open spec fn entries_view(entries: Seq<(String, Node)>) -> Seq<(Seq<char>, Node)> {
    Seq::new(entries.len(), |i: int| (entries[i].0@, entries[i].1))
}

/// The view of a graph is its topology. The device and the buffers of the
/// nodes are not part of it: see [`Graph::spec_device`] and
/// [`Graph::tensor`].
impl<D: Device> View for Graph<D> {
    type V = Topology;

    closed spec fn view(&self) -> Topology {
        Topology {
            nodes: Seq::new(
                self.nodes@.len(),
                |i: int|
                    TensorRecord {
                        size: self.nodes@[i].spec_size() as nat,
                        requires_grad: self.nodes@[i].spec_requires_grad(),
                        operation: self.nodes@[i].spec_operation(),
                        own: self.nodes@[i].spec_own(),
                    },
            ),
            root: self.root,
            inputs: entries_view(self.inputs@),
            weights: entries_view(self.weights@),
        }
    }
}

/// The first node listed under the name.
fn find(entries: &Vec<(String, Node)>, id: &str) -> (r: Option<Node>)
    ensures
        r == lookup(entries_view(entries@), id@),
{
    let wanted = String::from_str(id);
    let ghost all = entries_view(entries@);
    let mut i: usize = 0;
    assert(all.subrange(0, all.len() as int) =~= all);
    while i < entries.len()
        invariant
            i <= entries.len(),
            wanted@ == id@,
            all == entries_view(entries@),
            lookup(all, id@) == lookup(all.subrange(i as int, all.len() as int), id@),
        decreases entries.len() - i,
    {
        let ghost rest = all.subrange(i as int, all.len() as int);
        assert(rest[0] == all[i as int]);
        assert(rest.drop_first() =~= all.subrange(i + 1, all.len() as int));
        if entries[i].0 == wanted {
            return Some(entries[i].1);
        }
        i += 1;
    }
    None
}

/// What `lookup` finds is an entry of the list.
pub proof fn lemma_lookup_is_listed(entries: Seq<(Seq<char>, Node)>, id: Seq<char>)
    ensures
        lookup(entries, id) matches Some(node) ==> exists|i: int|
            0 <= i < entries.len() && #[trigger] entries[i] == (id, node),
        lookup(entries, id) is None ==> forall|i: int|
            0 <= i < entries.len() ==> (#[trigger] entries[i]).0 != id,
    decreases entries.len(),
{
    if entries.len() == 0 {
    } else if entries[0].0 == id {
    } else {
        let rest = entries.drop_first();
        lemma_lookup_is_listed(rest, id);
        assert forall|i: int| 0 <= i < rest.len() implies rest[i] == entries[i + 1] by {}
        if lookup(rest, id) is Some {
            let node = lookup(rest, id)->Some_0;
            let i = choose|i: int| 0 <= i < rest.len() && #[trigger] rest[i] == (id, node);
            assert(entries[i + 1] == (id, node));
        } else {
            assert forall|i: int| 0 <= i < entries.len() implies (#[trigger] entries[i]).0
                != id by {
                if i > 0 {
                    assert(rest[i - 1] == entries[i]);
                }
            }
        }
    }
}

impl<D: Device> Graph<D> {
    /// Whether the graph is as every built graph is; see [`Topology::wf`].
    pub closed spec fn wf(&self) -> bool {
        &&& self@.wf()
        &&& forall|i: int| 0 <= i < self.nodes@.len() ==> (#[trigger] self.nodes@[i]).wf()
    }

    /// Puts a graph together from its parts.
    pub(crate) fn assemble(
        nodes: Vec<Tensor<D>>,
        root: Node,
        inputs: Vec<(String, Node)>,
        weights: Vec<(String, Node)>,
        device: D,
    ) -> (g: Graph<D>)
        requires
            forall|i: int| 0 <= i < nodes@.len() ==> (#[trigger] nodes@[i]).wf(),
        ensures
            g@.root == root,
            g@.inputs == entries_view(inputs@),
            g@.weights == entries_view(weights@),
            g@.nodes.len() == nodes@.len(),
            forall|i: int|
                0 <= i < nodes@.len() ==> #[trigger] g@.nodes[i] == (TensorRecord {
                    size: nodes@[i].spec_size() as nat,
                    requires_grad: nodes@[i].spec_requires_grad(),
                    operation: nodes@[i].spec_operation(),
                    own: nodes@[i].spec_own(),
                }),
            g@.wf() ==> g.wf(),
            g.spec_device() == device,
            g@.nodes.len() == nodes@.len(),
            forall|i: int| 0 <= i < nodes@.len() ==> #[trigger] g.tensor(i) == nodes@[i],
    {
        Graph { nodes, root, inputs, weights, device }
    }

    /// The root: the node that holds the loss.
    pub fn root(&self) -> (node: Node)
        ensures
            node == self@.root,
    {
        self.root
    }

    /// The number of nodes.
    pub fn len(&self) -> (n: usize)
        ensures
            n == self@.nodes.len(),
    {
        self.nodes.len()
    }

    /// The device the graph lives on.
    pub closed spec fn spec_device(&self) -> D {
        self.device
    }

    /// The device the graph lives on.
    pub fn device(&self) -> (device: &D)
        ensures
            *device == self.spec_device(),
    {
        &self.device
    }

    /// The input of that name, if there is one.
    pub fn input(&self, id: &str) -> (r: Option<Node>)
        ensures
            r == lookup(self@.inputs, id@),
    {
        find(&self.inputs, id)
    }

    /// The weight of that name, if there is one.
    pub fn weight(&self, id: &str) -> (r: Option<Node>)
        ensures
            r == lookup(self@.weights, id@),
    {
        find(&self.weights, id)
    }

    /// The storage of the weight of that name, to change its contents.
    pub fn get_weights_mut(&mut self, id: &str) -> (r: Result<
        &mut Tensor<D>,
        GraphError<D::DeviceError>,
    >)
        requires
            old(self).wf(),
        ensures
            match r {
                Ok(t) => {
                    &&& lookup(old(self)@.weights, id@) matches Some(node)
                    &&& node.idx < old(self)@.nodes.len()
                    &&& *t == old(self).tensor(node.idx as int)
                    &&& t.spec_own() == node
                    &&& t.wf()
                    &&& final(self).follows(*old(self), node.idx as int, *final(t))
                },
                Err(e) => {
                    &&& lookup(old(self)@.weights, id@) is None
                    &&& *final(self) == *old(self)
                    &&& e matches GraphError::NotFound(name)
                    &&& name@ == id@
                },
            },
    {
        match find(&self.weights, id) {
            Some(node) => {
                proof {
                    lemma_lookup_is_listed(self@.weights, id@);
                }
                Ok(&mut self.nodes[node.idx])
            },
            None => Err(GraphError::NotFound(String::from_str(id))),
        }
    }

    /// The storage of the input of that name, to change its contents.
    pub fn get_input_mut(&mut self, id: &str) -> (r: Result<
        &mut Tensor<D>,
        GraphError<D::DeviceError>,
    >)
        requires
            old(self).wf(),
        ensures
            match r {
                Ok(t) => {
                    &&& lookup(old(self)@.inputs, id@) matches Some(node)
                    &&& node.idx < old(self)@.nodes.len()
                    &&& *t == old(self).tensor(node.idx as int)
                    &&& t.spec_own() == node
                    &&& t.wf()
                    &&& final(self).follows(*old(self), node.idx as int, *final(t))
                },
                Err(e) => {
                    &&& lookup(old(self)@.inputs, id@) is None
                    &&& *final(self) == *old(self)
                    &&& e matches GraphError::NotFound(name)
                    &&& name@ == id@
                },
            },
    {
        match find(&self.inputs, id) {
            Some(node) => {
                proof {
                    lemma_lookup_is_listed(self@.inputs, id@);
                }
                Ok(&mut self.nodes[node.idx])
            },
            None => Err(GraphError::NotFound(String::from_str(id))),
        }
    }

    /// The storage of node `idx`.
    pub closed spec fn tensor(&self, idx: int) -> Tensor<D> {
        self.nodes@[idx]
    }

    /// A graph stays as it is, and as every built graph is, when the
    /// storage of a node is replaced by one of the same node, element count
    /// and operation, with gradients as before.
    pub proof fn lemma_follows_keeps_topology(
        after: Graph<D>,
        before: Graph<D>,
        idx: int,
        tensor: Tensor<D>,
    )
        requires
            before.wf(),
            0 <= idx < before@.nodes.len(),
            after.follows(before, idx, tensor),
            tensor.wf(),
            tensor.spec_own() == before.tensor(idx).spec_own(),
            tensor.spec_size() == before.tensor(idx).spec_size(),
            tensor.spec_operation() == before.tensor(idx).spec_operation(),
            tensor.spec_requires_grad() == before.tensor(idx).spec_requires_grad(),
        ensures
            after.wf(),
            after@ == before@,
    {
        assert(after@.nodes =~= before@.nodes);
    }

    /// A graph that follows another has that graph's device and tensors,
    /// but for the tensor that was replaced.
    pub proof fn lemma_follows_tensors(
        after: Graph<D>,
        before: Graph<D>,
        idx: int,
        tensor: Tensor<D>,
    )
        requires
            0 <= idx < before@.nodes.len(),
            after.follows(before, idx, tensor),
        ensures
            after.spec_device() == before.spec_device(),
            after.tensor(idx) == tensor,
            forall|j: int|
                0 <= j < before@.nodes.len() && j != idx ==> #[trigger] after.tensor(j)
                    == before.tensor(j),
    {
    }

    /// Whether this graph is `before` with the storage of node `idx`
    /// replaced by `tensor`.
    pub closed spec fn follows(&self, before: Graph<D>, idx: int, tensor: Tensor<D>) -> bool {
        &&& self.nodes@ == before.nodes@.update(idx, tensor)
        &&& self.root == before.root
        &&& self.inputs == before.inputs
        &&& self.weights == before.weights
        &&& self.device == before.device
    }

    /// The storage of the node with the handle's index.
    pub fn get_node(&self, node: Node) -> (t: &Tensor<D>)
        requires
            node.idx < self@.nodes.len(),
        ensures
            *t == self.tensor(node.idx as int),
            t.spec_own() == self@.nodes[node.idx as int].own,
            t.spec_size() == self@.nodes[node.idx as int].size,
            t.spec_requires_grad() == self@.nodes[node.idx as int].requires_grad,
            t.spec_operation() == self@.nodes[node.idx as int].operation,
    {
        &self.nodes[node.idx]
    }
}

} // verus!
