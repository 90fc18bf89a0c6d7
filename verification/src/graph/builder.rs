//! The builder: the one place where nodes are added to a graph.

use std::collections::HashSet;
use vstd::prelude::*;
use vstd::string::StringExecFns;
use crate::device::Device;
use crate::graph::error::{BuilderFault, GraphBuilderError, GraphError, OutputError};
use crate::graph::{entries_view, Graph};
use crate::tensor::Tensor;
use crate::graph::node::Node;
use crate::graph::operation::Operation;
use crate::shape::Shape;
use crate::graph::state::{BuilderState, NodeRecord};
use crate::graph::state_lemmas::{
    lemma_last_is_root, lemma_topology_wf, lemma_with_input_wf, lemma_with_operation_wf,
    lemma_with_weights_wf,
};

verus! {

broadcast use vstd::std_specs::hash::group_hash_axioms;

/// What the arena holds for one node.
pub struct NodeData {
    id: Option<String>,
    size: usize,
    requires_grad: bool,
    parent_operation: Option<Operation>,
    own: Node,
}

impl View for NodeData {
    type V = NodeRecord;

    closed spec fn view(&self) -> NodeRecord {
        NodeRecord {
            id: match self.id {
                Some(s) => Some(s@),
                None => None,
            },
            size: self.size as nat,
            requires_grad: self.requires_grad,
            parent: self.parent_operation,
            own: self.own,
        }
    }
}

impl NodeData {
    fn new(
        id: Option<String>,
        parent_operation: Option<Operation>,
        requires_grad: bool,
        own: Node,
    ) -> (data: NodeData)
        requires
            own.shape.wf(),
        ensures
            data@ == (NodeRecord {
                id: match id {
                    Some(s) => Some(s@),
                    None => None,
                },
                size: own.shape.spec_size() as nat,
                requires_grad,
                parent: parent_operation,
                own,
            }),
    {
        let size = own.shape.size();
        NodeData { id, size, requires_grad, parent_operation, own }
    }

    /// The identifier of an input or a weight.
    pub fn id(&self) -> (id: &Option<String>)
        ensures
            match *id {
                Some(s) => self@.id == Some(s@),
                None => self@.id is None,
            },
    {
        &self.id
    }

    /// The element count.
    pub fn size(&self) -> (n: usize)
        ensures
            n == self@.size,
    {
        self.size
    }

    /// Whether gradients are computed for the node.
    pub fn requires_grad(&self) -> (b: bool)
        ensures
            b == self@.requires_grad,
    {
        self.requires_grad
    }

    /// The operation that computes the node.
    pub fn parent_operation(&self) -> (op: Option<Operation>)
        ensures
            op == self@.parent,
    {
        self.parent_operation
    }

    /// The handle that was handed out for the node.
    pub fn own(&self) -> (n: Node)
        ensures
            n == self@.own,
    {
        self.own
    }
}

/// A graph under construction.
///
/// The builder owns the arena of nodes and keeps track of the roots, the
/// nodes that nothing reads yet. Nodes are only ever added, and an
/// operation can only read nodes that are already there, so the graph has
/// no cycle.
pub struct GraphBuilder {
    nodes: Vec<NodeData>,
    roots: HashSet<usize>,
    inputs: HashSet<usize>,
    weights: HashSet<usize>,
}

impl View for GraphBuilder {
    type V = BuilderState;

    closed spec fn view(&self) -> BuilderState {
        BuilderState {
            nodes: Seq::new(self.nodes@.len(), |i: int| self.nodes@[i]@),
            roots: self.roots@,
            inputs: self.inputs@,
            weights: self.weights@,
        }
    }
}

/// Whether one of the first `upto` handles has the index `i`.
spec fn read_among(handles: Seq<Node>, upto: int, i: int) -> bool {
    exists|k: int| 0 <= k < upto && k < handles.len() && #[trigger] handles[k].idx == i
}

impl Default for GraphBuilder {
    fn default() -> (b: GraphBuilder)
        ensures
            b@ == BuilderState::empty(),
            b.wf(),
    {
        GraphBuilder::new()
    }
}

impl GraphBuilder {
    /// Whether the builder holds a well-formed graph. Every builder made
    /// and changed through the functions of this type does.
    pub open spec fn wf(&self) -> bool {
        self@.wf()
    }

    /// The builder of a graph without nodes.
    pub fn new() -> (b: GraphBuilder)
        ensures
            b@ == BuilderState::empty(),
            b.wf(),
    {
        let b = GraphBuilder {
            nodes: Vec::new(),
            roots: HashSet::new(),
            inputs: HashSet::new(),
            weights: HashSet::new(),
        };
        assert(b@.nodes =~= Seq::empty());
        assert forall|i: usize| !b@.consumed(i as int) by {
            if b@.consumed(i as int) {
                let j = choose|j: int| #[trigger] b@.node_reads(j, i as int);
            }
        }
        b
    }

    /// The number of nodes.
    pub fn len(&self) -> (n: usize)
        ensures
            n == self@.nodes.len(),
    {
        self.nodes.len()
    }

    /// The number of roots.
    pub fn num_roots(&self) -> (n: usize)
        requires
            self.wf(),
        ensures
            n == self@.roots.len(),
    {
        self.roots.len()
    }

    /// Whether the handle stands for a node of this graph.
    pub fn owns(&self, node: Node) -> (b: bool)
        requires
            self.wf(),
        ensures
            b == self@.owns(node),
    {
        if node.idx < self.nodes.len() {
            let data = &self.nodes[node.idx];
            assert(self@.nodes[node.idx as int] == data@);
            assert(self@.record_wf(node.idx as int));
            let size = node.shape.size();
            let same_sparse = match (node.sparse, data.own.sparse) {
                (Some(a), Some(b)) => a == b,
                (None, None) => true,
                _ => false,
            };
            same_sparse && size == data.size
        } else {
            let _ = node.shape.rows();
            false
        }
    }

    /// Whether nothing reads the node yet.
    pub fn is_root(&self, node: Node) -> (b: bool)
        requires
            self.wf(),
        ensures
            b == self@.roots.contains(node.idx),
    {
        self.roots.contains(&node.idx)
    }

    /// What the arena holds for the node with the handle's index.
    pub fn get_node(&self, node: Node) -> (data: &NodeData)
        requires
            node.idx < self@.nodes.len(),
        ensures
            data@ == self@.nodes[node.idx as int],
    {
        &self.nodes[node.idx]
    }

    /// Whether some input or weight carries the identifier.
    pub fn has_id(&self, id: &str) -> (b: bool)
        ensures
            b == self@.has_id(id@),
    {
        let wanted = String::from_str(id);
        let mut i: usize = 0;
        while i < self.nodes.len()
            invariant
                i <= self.nodes.len(),
                wanted@ == id@,
                forall|k: int| 0 <= k < i ==> (#[trigger] self@.nodes[k]).id != Some(id@),
            decreases self.nodes.len() - i,
        {
            assert(self@.nodes[i as int] == self.nodes@[i as int]@);
            match &self.nodes[i].id {
                Some(s) => {
                    if *s == wanted {
                        return true;
                    }
                },
                None => {},
            }
            i += 1;
        }
        false
    }

    /// Adds a node: it gets the next index and becomes a root, and the
    /// nodes its operation reads are roots no longer.
    fn create_node(
        &mut self,
        id: Option<String>,
        parent_operation: Option<Operation>,
        requires_grad: bool,
        shape: Shape,
        sparse: Option<usize>,
    ) -> (node: Node)
        requires
            old(self).wf(),
            shape.wf(),
        ensures
            node == (Node { idx: old(self)@.next_idx(), shape, sparse }),
            old(self)@.nodes.len() < usize::MAX,
            final(self)@ == old(self)@.with_node(
                match id {
                    Some(s) => Some(s@),
                    None => None,
                },
                parent_operation,
                shape,
                sparse,
                requires_grad,
            ),
    {
        let ghost before = self@;
        let node = Node { idx: self.nodes.len(), shape, sparse };
        let data = NodeData::new(id, parent_operation, requires_grad, node);
        if let Some(op) = &parent_operation {
            let operands = op.nodes();
            let mut k: usize = 0;
            while k < operands.len()
                invariant
                    k <= operands.len(),
                    operands@ == op.operands(),
                    self.nodes == old(self).nodes,
                    self.inputs == old(self).inputs,
                    self.weights == old(self).weights,
                    self.roots@.finite(),
                    forall|i: usize| #[trigger]
                        self.roots@.contains(i) <==> before.roots.contains(i) && !read_among(
                            operands@,
                            k as int,
                            i as int,
                        ),
                decreases operands.len() - k,
            {
                let ghost roots_before = self.roots@;
                let idx = operands[k].idx;
                self.roots.remove(&idx);
                assert(self.roots@ == roots_before.remove(idx));
                assert forall|i: usize| #[trigger]
                    self.roots@.contains(i) <==> before.roots.contains(i) && !read_among(
                        operands@,
                        k + 1,
                        i as int,
                    ) by {
                    if read_among(operands@, k + 1, i as int) {
                        let w = choose|w: int|
                            0 <= w < k + 1 && w < operands@.len() && #[trigger] operands@[w].idx
                                == i as int;
                        if w < k {
                            assert(read_among(operands@, k as int, i as int));
                        }
                    }
                    if read_among(operands@, k as int, i as int) {
                        let w = choose|w: int|
                            0 <= w < k && w < operands@.len() && #[trigger] operands@[w].idx
                                == i as int;
                        assert(read_among(operands@, k + 1, i as int));
                    }
                    if i == idx {
                        assert(operands@[k as int].idx == i as int);
                        assert(read_among(operands@, k + 1, i as int));
                    }
                }
                k += 1;
            }
            assert forall|i: usize| #[trigger]
                self.roots@.contains(i) <==> before.roots.contains(i) && !op.reads(i as int) by {
                if op.reads(i as int) {
                    let w = choose|w: int|
                        0 <= w < op.operands().len() && #[trigger] op.operands()[w].idx == i as int;
                    assert(operands@[w].idx == i as int);
                    assert(read_among(operands@, k as int, i as int));
                }
                if read_among(operands@, k as int, i as int) {
                    let w = choose|w: int|
                        0 <= w < k && w < operands@.len() && #[trigger] operands@[w].idx
                            == i as int;
                    assert(op.operands()[w].idx == i as int);
                }
            }
            assert(self.roots@ =~= before.roots.filter(|i: usize| !op.reads(i as int)));
        }
        self.nodes.push(data);
        self.roots.insert(node.idx);
        let _ = self.nodes.len();
        assert(self@.nodes =~= before.nodes.push(data@));
        node
    }

    /// Adds a dense input under a new identifier.
    ///
    /// An identifier that is already in use is refused, and nothing
    /// changes.
    pub fn create_dense_input(&mut self, id: &str, shape: Shape) -> (r: Result<
        Node,
        GraphBuilderError,
    >)
        requires
            old(self).wf(),
        ensures
            final(self).wf(),
            match r {
                Ok(node) => old(self)@.create_input(id@, shape, None) == Ok::<(BuilderState, Node), BuilderFault>(
                    (final(self)@, node),
                ),
                Err(e) => old(self)@.create_input(id@, shape, None) == Err::<(BuilderState, Node), BuilderFault>(e@)
                    && final(self)@ == old(self)@,
            },
    {
        self.create_input(id, shape, None)
    }

    /// Adds a sparse input with at most `nnz` non-zero entries in a column
    /// under a new identifier.
    ///
    /// `nnz == 0` is refused, and so is an identifier that is already in
    /// use; nothing changes then.
    pub fn create_sparse_input(&mut self, id: &str, shape: Shape, nnz: usize) -> (r: Result<
        Node,
        GraphBuilderError,
    >)
        requires
            old(self).wf(),
        ensures
            final(self).wf(),
            match r {
                Ok(node) => old(self)@.create_input(id@, shape, Some(nnz)) == Ok::<(BuilderState, Node), BuilderFault>(
                    (final(self)@, node),
                ),
                Err(e) => old(self)@.create_input(id@, shape, Some(nnz)) == Err::<(BuilderState, Node), BuilderFault>(e@)
                    && final(self)@ == old(self)@,
            },
    {
        if nnz == 0 {
            return Err(GraphBuilderError::ZeroNonZeros);
        }
        self.create_input(id, shape, Some(nnz))
    }

    fn create_input(&mut self, id: &str, shape: Shape, sparse: Option<usize>) -> (r: Result<
        Node,
        GraphBuilderError,
    >)
        requires
            old(self).wf(),
            sparse matches Some(nnz) ==> nnz > 0,
        ensures
            final(self).wf(),
            match r {
                Ok(node) => old(self)@.create_input(id@, shape, sparse) == Ok::<(BuilderState, Node), BuilderFault>(
                    (final(self)@, node),
                ),
                Err(e) => old(self)@.create_input(id@, shape, sparse) == Err::<(BuilderState, Node), BuilderFault>(e@)
                    && final(self)@ == old(self)@,
            },
    {
        if self.has_id(id) {
            return Err(GraphBuilderError::DuplicateId(String::from_str(id)));
        }
        let _ = shape.rows();
        let node = self.create_node(Some(String::from_str(id)), None, false, shape, sparse);
        self.inputs.insert(node.idx);
        proof {
            lemma_with_input_wf(old(self)@, id@, shape, sparse);
        }
        Ok(node)
    }

    /// Adds trainable weights under a new identifier. Weights require
    /// gradients.
    ///
    /// An identifier that is already in use is refused, and nothing
    /// changes.
    pub fn create_weights(&mut self, id: &str, shape: Shape) -> (r: Result<
        Node,
        GraphBuilderError,
    >)
        requires
            old(self).wf(),
        ensures
            final(self).wf(),
            match r {
                Ok(node) => old(self)@.create_weights(id@, shape) == Ok::<(BuilderState, Node), BuilderFault>(
                    (final(self)@, node),
                ),
                Err(e) => old(self)@.create_weights(id@, shape) == Err::<(BuilderState, Node), BuilderFault>(e@)
                    && final(self)@ == old(self)@,
            },
    {
        if self.has_id(id) {
            return Err(GraphBuilderError::DuplicateId(String::from_str(id)));
        }
        let _ = shape.rows();
        let node = self.create_node(Some(String::from_str(id)), None, true, shape, None);
        self.weights.insert(node.idx);
        proof {
            lemma_with_weights_wf(old(self)@, id@, shape);
        }
        Ok(node)
    }

    /// The first operand that does not stand for a node of this graph.
    fn find_foreign(&self, op: &Operation) -> (r: Option<Node>)
        requires
            self.wf(),
        ensures
            r == self@.first_foreign(op.operands()),
    {
        let operands = op.nodes();
        let mut k: usize = 0;
        assert(operands@.subrange(0, operands@.len() as int) =~= operands@);
        while k < operands.len()
            invariant
                self.wf(),
                k <= operands.len(),
                operands@ == op.operands(),
                self@.first_foreign(op.operands()) == self@.first_foreign(
                    operands@.subrange(k as int, operands@.len() as int),
                ),
            decreases operands.len() - k,
        {
            let ghost rest = operands@.subrange(k as int, operands@.len() as int);
            assert(rest[0] == operands@[k as int]);
            assert(rest.drop_first() =~= operands@.subrange(k + 1, operands@.len() as int));
            if !self.owns(operands[k]) {
                return Some(operands[k]);
            }
            k += 1;
        }
        assert(operands@.subrange(k as int, operands@.len() as int).len() == 0);
        None
    }

    /// Adds the result of an operation.
    ///
    /// The operation must read nodes of this graph only, and its shape rule
    /// must accept them; otherwise the error says what is wrong and nothing
    /// changes. On success the new node is a root, and the operands are
    /// roots no longer.
    pub fn create_result_of_operation(&mut self, operation: Operation, requires_grad: bool) -> (r:
        Result<Node, GraphBuilderError>)
        requires
            old(self).wf(),
        ensures
            final(self).wf(),
            match r {
                Ok(node) => old(self)@.apply(operation, requires_grad) == Ok::<(BuilderState, Node), BuilderFault>(
                    (final(self)@, node),
                ),
                Err(e) => old(self)@.apply(operation, requires_grad) == Err::<(BuilderState, Node), BuilderFault>(e@)
                    && final(self)@ == old(self)@,
            },
    {
        if let Some(n) = self.find_foreign(&operation) {
            return Err(GraphBuilderError::UnknownNode(n));
        }
        match operation.output_shape() {
            Ok(shape) => {
                let node = self.create_node(None, Some(operation), requires_grad, shape, None);
                proof {
                    lemma_with_operation_wf(old(self)@, operation, shape, requires_grad);
                }
                Ok(node)
            },
            Err(ty) => Err(GraphBuilderError::Shape(ty)),
        }
    }

    /// The one root, if the graph has exactly one.
    pub fn single_root(&self) -> (r: Option<Node>)
        requires
            self.wf(),
        ensures
            match r {
                Some(node) => {
                    &&& self@.roots == set![node.idx]
                    &&& node.idx < self@.nodes.len()
                    &&& node == self@.nodes[node.idx as int].own
                },
                None => self@.roots.len() != 1,
            },
    {
        if self.roots.len() == 1 && self.nodes.len() > 0 {
            let last = self.nodes.len() - 1;
            proof {
                lemma_last_is_root(self@);
                Set::lemma_is_singleton(self@.roots);
                assert(self@.roots.is_singleton());
                assert(self@.roots.contains(last));
                assert forall|i: usize| self@.roots.contains(i) implies i == last by {}
                assert(self@.roots =~= set![last]);
                assert(self@.nodes[last as int] == self.nodes@[last as int]@);
                assert(self@.record_wf(last as int));
            }
            Some(self.nodes[last].own)
        } else {
            proof {
                if self.nodes.len() == 0 && self@.roots.len() != 0 {
                    let i = self@.roots.choose();
                    assert(self@.roots.contains(i));
                }
            }
            None
        }
    }

    /// The one root of the graph.
    ///
    /// Only a graph with exactly one root has one; see
    /// [`GraphBuilder::single_root`] for a test.
    pub fn root(&self) -> (node: Node)
        requires
            self.wf(),
            self@.roots.len() == 1,
        ensures
            self@.roots == set![node.idx],
            node.idx < self@.nodes.len(),
            node == self@.nodes[node.idx as int].own,
    {
        match self.single_root() {
            Some(node) => node,
            None => unreached(),
        }
    }

    /// The root of a graph that can be built, or why it cannot be built:
    /// there must be exactly one root, it must require gradients, be no
    /// weight, and be a single number.
    pub fn output(&self) -> (r: Result<Node, OutputError>)
        requires
            self.wf(),
        ensures
            r == self@.output(),
    {
        let root = match self.single_root() {
            Some(node) => node,
            None => {
                return Err(OutputError::NotSingleOutput);
            },
        };
        proof {
            assert(self@.roots.contains(root.idx));
            Set::lemma_is_singleton(self@.roots);
            assert(self@.roots.len() == 1);
            assert(self@.roots.contains(self@.roots.choose()));
            assert(self@.roots.choose() == root.idx);
            assert(self@.nodes[root.idx as int] == self.nodes@[root.idx as int]@);
        }
        if !self.get_node(root).requires_grad {
            return Err(OutputError::OutputIsInput);
        }
        if self.weights.contains(&root.idx) {
            return Err(OutputError::OutputIsWeights);
        }
        if root.shape.rows() != 1 || root.shape.cols() != 1 {
            return Err(OutputError::OutputNotScalar(root.shape));
        }
        Ok(root)
    }

    /// The names and handles of the nodes in `members`, in the order the
    /// nodes were added.
    fn named(&self, members: &HashSet<usize>) -> (v: Vec<(String, Node)>)
        requires
            self.wf(),
        ensures
            entries_view(v@) == self@.named(members@, self@.nodes.len() as int),
    {
        let mut v: Vec<(String, Node)> = Vec::new();
        let mut i: usize = 0;
        assert(entries_view(v@) =~= self@.named(members@, 0));
        while i < self.nodes.len()
            invariant
                i <= self.nodes.len(),
                entries_view(v@) == self@.named(members@, i as int),
            decreases self.nodes.len() - i,
        {
            let ghost before = entries_view(v@);
            assert(self@.nodes[i as int] == self.nodes@[i as int]@);
            if members.contains(&i) {
                match &self.nodes[i].id {
                    Some(s) => {
                        v.push((s.clone(), self.nodes[i].own));
                        assert(entries_view(v@) =~= before.push((s@, self.nodes@[i as int].own)));
                    },
                    None => {},
                }
            }
            i += 1;
        }
        v
    }

    /// The storage of every node, allocated in the order of the nodes; or
    /// the error with which the device refused the first request that it
    /// refused.
    fn allocate<D: Device>(&self, device: &D) -> (r: Result<Vec<Tensor<D>>, D::DeviceError>)
        ensures
            match r {
                Ok(nodes) => {
                    &&& nodes@.len() == self@.nodes.len()
                    &&& forall|k: int|
                        0 <= k < nodes@.len() ==> {
                            let t = #[trigger] nodes@[k];
                            &&& t.wf()
                            &&& t.spec_size() == self@.nodes[k].size
                            &&& t.spec_requires_grad() == self@.nodes[k].requires_grad
                            &&& t.spec_operation() == self@.nodes[k].parent
                            &&& t.spec_own() == self@.nodes[k].own
                            &&& t.allocated_on(device, self@.nodes[k].size as usize)
                            &&& t.spec_values().spec_batch_size() is None
                        }
                },
                Err(e) => self@.refused_for_a_node(device, e),
            },
    {
        let mut nodes: Vec<Tensor<D>> = Vec::new();
        let mut i: usize = 0;
        while i < self.nodes.len()
            invariant
                i <= self.nodes.len(),
                nodes@.len() == i,
                forall|k: int|
                    0 <= k < i ==> {
                        let t = #[trigger] nodes@[k];
                        &&& t.wf()
                        &&& t.spec_size() == self@.nodes[k].size
                        &&& t.spec_requires_grad() == self@.nodes[k].requires_grad
                        &&& t.spec_operation() == self@.nodes[k].parent
                        &&& t.spec_own() == self@.nodes[k].own
                        &&& t.allocated_on(device, self@.nodes[k].size as usize)
                        &&& t.spec_values().spec_batch_size() is None
                    },
            decreases self.nodes.len() - i,
        {
            let data = &self.nodes[i];
            assert(self@.nodes[i as int] == data@);
            match Tensor::new(
                device,
                data.size,
                data.requires_grad,
                data.parent_operation,
                data.own,
            ) {
                Ok(tensor) => {
                    nodes.push(tensor);
                },
                Err(e) => {
                    assert(self@.refused(device, i as int, e));
                    return Err(e);
                },
            }
            i += 1;
        }
        Ok(nodes)
    }

    /// Builds the graph on a device.
    ///
    /// The graph must be one that can be built (see
    /// [`GraphBuilder::output`]); otherwise the reason is returned and the
    /// device is not touched. Then the storage of every node is allocated,
    /// in the order of the nodes: the device is asked for as many numbers
    /// as the node has elements, for the values and, where gradients are
    /// required, for the gradients. The first request that the device
    /// refuses ends the build with the device's error; if it refuses none,
    /// the built graph lives on the device, has the topology of this
    /// graph, and holds the buffers the device answered with.
    pub fn build<D: Device>(self, device: D) -> (r: Result<Graph<D>, GraphError<D::DeviceError>>)
        requires
            self.wf(),
        ensures
            match r {
                Ok(graph) => {
                    &&& self@.output() is Ok
                    &&& graph@ == self@.topology()
                    &&& graph.wf()
                    &&& graph.spec_device() == device
                    &&& forall|i: int|
                        0 <= i < self@.nodes.len() ==> (#[trigger] graph.tensor(i)).allocated_on(
                            &device,
                            self@.nodes[i].size as usize,
                        ) && graph.tensor(i).spec_values().spec_batch_size() is None
                },
                Err(GraphError::Output(e)) => self@.output() == Err::<Node, OutputError>(e),
                Err(GraphError::Device(e)) => self@.output() is Ok && self@.refused_for_a_node(
                    &device,
                    e,
                ),
                Err(_) => false,
            },
    {
        let root = match self.output() {
            Ok(node) => node,
            Err(e) => {
                return Err(GraphError::Output(e));
            },
        };
        let nodes = match self.allocate(&device) {
            Ok(nodes) => nodes,
            Err(e) => {
                return Err(GraphError::Device(e));
            },
        };
        let inputs = self.named(&self.inputs);
        let weights = self.named(&self.weights);
        let graph = Graph::assemble(nodes, root, inputs, weights, device);
        proof {
            lemma_topology_wf(self@);
            assert(graph@.nodes =~= self@.tensors());
        }
        Ok(graph)
    }
}

} // verus!
