//! The mathematical model of a graph under construction.

use vstd::prelude::*;
use crate::device::{allocates, Device};
use crate::graph::error::{BuilderFault, OutputError};
use crate::graph::node::Node;
use crate::graph::operation::Operation;
use crate::shape::Shape;

verus! {

/// What the builder records for one node.
pub struct NodeRecord {
    /// The identifier of an input or a weight; none for a computed node.
    pub id: Option<Seq<char>>,
    /// The element count.
    pub size: nat,
    /// Whether gradients are computed for the node.
    pub requires_grad: bool,
    /// The operation that computes the node; none for an input or a weight.
    pub parent: Option<Operation>,
    /// The handle that was handed out for the node.
    pub own: Node,
}

/// What a built graph keeps of one node.
pub struct TensorRecord {
    pub size: nat,
    pub requires_grad: bool,
    pub operation: Option<Operation>,
    pub own: Node,
}

/// A built graph: one record for each node, the root, and the inputs and
/// the weights by name, each in the order the nodes were added.
pub struct Topology {
    pub nodes: Seq<TensorRecord>,
    pub root: Node,
    pub inputs: Seq<(Seq<char>, Node)>,
    pub weights: Seq<(Seq<char>, Node)>,
}

/// The first node listed under the name, if there is one.
pub open spec fn lookup(entries: Seq<(Seq<char>, Node)>, id: Seq<char>) -> Option<Node>
    decreases entries.len(),
{
    if entries.len() == 0 {
        None
    } else if entries[0].0 == id {
        Some(entries[0].1)
    } else {
        lookup(entries.drop_first(), id)
    }
}

impl Topology {
    /// What holds of every built graph: node `i` has index `i` and at least
    /// one element; the root is a node of the graph, requires gradients and
    /// is a single number; every name stands for a node of the graph, and
    /// no name is listed twice.
    pub open spec fn wf(self) -> bool {
        &&& forall|i: int|
            0 <= i < self.nodes.len() ==> (#[trigger] self.nodes[i]).own.idx == i
                && self.nodes[i].size > 0
        &&& self.root.idx < self.nodes.len()
        &&& self.nodes[self.root.idx as int].own == self.root
        &&& self.nodes[self.root.idx as int].requires_grad
        &&& self.root.shape.is_scalar()
        &&& self.listed(self.inputs)
        &&& self.listed(self.weights)
        &&& forall|i: int, j: int|
            0 <= i < self.inputs.len() && 0 <= j < self.weights.len() ==> (
            #[trigger] self.inputs[i]).0 != (#[trigger] self.weights[j]).0
    }

    /// Whether every entry stands for a node of the graph under a name of
    /// its own.
    pub open spec fn listed(self, entries: Seq<(Seq<char>, Node)>) -> bool {
        &&& forall|i: int|
            0 <= i < entries.len() ==> (#[trigger] entries[i]).1.idx < self.nodes.len()
                && self.nodes[entries[i].1.idx as int].own == entries[i].1
        &&& forall|i: int, j: int|
            0 <= i < j < entries.len() ==> (#[trigger] entries[i]).0 != (#[trigger] entries[j]).0
    }
}

/// A graph under construction: the nodes in the order they were added, the
/// indices of those that nothing reads yet, and of the inputs and weights.
pub struct BuilderState {
    pub nodes: Seq<NodeRecord>,
    pub roots: Set<usize>,
    pub inputs: Set<usize>,
    pub weights: Set<usize>,
}

impl BuilderState {
    /// The graph without nodes.
    pub open spec fn empty() -> BuilderState {
        BuilderState {
            nodes: Seq::empty(),
            roots: Set::empty(),
            inputs: Set::empty(),
            weights: Set::empty(),
        }
    }

    /// Whether the handle stands for a node of this graph: the index is in
    /// range, and sparsity and element count are those on record. The shape
    /// may differ from the recorded one (see [`Node::reshape`]).
    pub open spec fn owns(self, node: Node) -> bool {
        &&& node.idx < self.nodes.len()
        &&& node.shape.wf()
        &&& node.sparse == self.nodes[node.idx as int].own.sparse
        &&& node.shape.spec_size() == self.nodes[node.idx as int].size
    }

    /// The first of the handles that does not stand for a node of this
    /// graph, if there is one.
    pub open spec fn first_foreign(self, handles: Seq<Node>) -> Option<Node>
        decreases handles.len(),
    {
        if handles.len() == 0 {
            None
        } else if !self.owns(handles[0]) {
            Some(handles[0])
        } else {
            self.first_foreign(handles.drop_first())
        }
    }

    /// Whether some input or weight carries the identifier.
    pub open spec fn has_id(self, id: Seq<char>) -> bool {
        exists|i: int| 0 <= i < self.nodes.len() && (#[trigger] self.nodes[i]).id == Some(id)
    }

    /// Whether node `j` is computed by an operation that reads node `i`.
    pub open spec fn node_reads(self, j: int, i: int) -> bool {
        &&& 0 <= j < self.nodes.len()
        &&& self.nodes[j].parent matches Some(op)
        &&& op.reads(i)
    }

    /// Whether some node of the graph reads node `i`.
    pub open spec fn consumed(self, i: int) -> bool {
        exists|j: int| #[trigger] self.node_reads(j, i)
    }

    /// What holds of the record at index `i` in a well-formed graph.
    pub open spec fn record_wf(self, i: int) -> bool {
        let r = self.nodes[i];
        &&& r.own.idx == i
        &&& r.own.shape.wf()
        &&& r.size == r.own.shape.spec_size()
        &&& r.size > 0
        &&& (r.own.sparse matches Some(nnz) ==> nnz > 0)
        &&& match r.parent {
            Some(op) => {
                &&& r.id is None
                &&& r.own.sparse is None
                &&& !self.inputs.contains(i as usize)
                &&& !self.weights.contains(i as usize)
                &&& forall|k: int|
                    0 <= k < op.operands().len() ==> (#[trigger] op.operands()[k]).idx < i
            },
            None => {
                &&& r.id is Some
                &&& self.inputs.contains(i as usize) != self.weights.contains(i as usize)
                &&& self.weights.contains(i as usize) == r.requires_grad
                &&& (self.weights.contains(i as usize) ==> r.own.sparse is None)
            },
        }
    }

    /// What holds of every graph the builder can reach:
    /// - each record is as [`BuilderState::record_wf`] says; in particular
    ///   an operation only reads nodes that were added before it;
    /// - no identifier is used twice;
    /// - the roots are exactly the nodes that no node reads;
    /// - inputs and weights are nodes of the graph.
    pub open spec fn wf(self) -> bool {
        &&& self.nodes.len() <= usize::MAX
        &&& self.roots.finite()
        &&& self.inputs.finite()
        &&& self.weights.finite()
        &&& forall|i: int| 0 <= i < self.nodes.len() ==> #[trigger] self.record_wf(i)
        &&& forall|i: int, j: int|
            0 <= i < j < self.nodes.len() && (#[trigger] self.nodes[i]).id is Some
                ==> self.nodes[i].id != (#[trigger] self.nodes[j]).id
        &&& forall|i: usize| #[trigger]
            self.roots.contains(i) <==> i < self.nodes.len() && !self.consumed(i as int)
        &&& forall|i: usize| #[trigger] self.inputs.contains(i) ==> i < self.nodes.len()
        &&& forall|i: usize| #[trigger] self.weights.contains(i) ==> i < self.nodes.len()
    }

    /// The index the next node will get.
    pub open spec fn next_idx(self) -> usize {
        self.nodes.len() as usize
    }

    /// The graph after a node was added: the node stands last and is a
    /// root, and the nodes its operation reads are roots no longer.
    pub open spec fn with_node(
        self,
        id: Option<Seq<char>>,
        parent: Option<Operation>,
        shape: Shape,
        sparse: Option<usize>,
        requires_grad: bool,
    ) -> BuilderState {
        let idx = self.next_idx();
        let record = NodeRecord {
            id,
            size: shape.spec_size() as nat,
            requires_grad,
            parent,
            own: Node { idx, shape, sparse },
        };
        let kept = match parent {
            Some(op) => self.roots.filter(|i: usize| !op.reads(i as int)),
            None => self.roots,
        };
        BuilderState {
            nodes: self.nodes.push(record),
            roots: kept.insert(idx),
            inputs: self.inputs,
            weights: self.weights,
        }
    }

    /// The graph after an input was added.
    pub open spec fn with_input(self, id: Seq<char>, shape: Shape, sparse: Option<usize>)
        -> BuilderState {
        let next = self.with_node(Some(id), None, shape, sparse, false);
        BuilderState { inputs: self.inputs.insert(self.next_idx()), ..next }
    }

    /// The graph after a weight was added.
    pub open spec fn with_weights(self, id: Seq<char>, shape: Shape) -> BuilderState {
        let next = self.with_node(Some(id), None, shape, None, true);
        BuilderState { weights: self.weights.insert(self.next_idx()), ..next }
    }

    /// The graph after the result of an operation was added.
    pub open spec fn with_operation(self, op: Operation, shape: Shape, requires_grad: bool)
        -> BuilderState {
        self.with_node(None, Some(op), shape, None, requires_grad)
    }

    /// The root of a graph that can be built, or why it cannot: there must
    /// be exactly one root, it must require gradients, be no weight, and be
    /// a single number.
    pub open spec fn output(self) -> Result<Node, OutputError> {
        if self.roots.len() != 1 {
            Err(OutputError::NotSingleOutput)
        } else {
            let record = self.nodes[self.roots.choose() as int];
            if !record.requires_grad {
                Err(OutputError::OutputIsInput)
            } else if self.weights.contains(self.roots.choose()) {
                Err(OutputError::OutputIsWeights)
            } else if !record.own.shape.is_scalar() {
                Err(OutputError::OutputNotScalar(record.own.shape))
            } else {
                Ok(record.own)
            }
        }
    }

    /// Whether the device refuses, with the error `e`, a request for as many
    /// numbers as node `k` has elements.
    pub open spec fn refused<D: Device>(self, device: &D, k: int, e: D::DeviceError) -> bool {
        0 <= k < self.nodes.len() && allocates(
            device,
            self.nodes[k].size as usize,
            Err::<D::Buffer, D::DeviceError>(e),
        )
    }

    /// Whether the device refuses, with the error `e`, a request for as many
    /// numbers as some node has elements.
    pub open spec fn refused_for_a_node<D: Device>(self, device: &D, e: D::DeviceError) -> bool {
        exists|k: int| #[trigger] self.refused(device, k, e)
    }

    /// The names and handles of those of the first `upto` nodes that are in
    /// `members`, in the order the nodes were added.
    pub open spec fn named(self, members: Set<usize>, upto: int) -> Seq<(Seq<char>, Node)>
        decreases upto,
    {
        if upto <= 0 {
            Seq::empty()
        } else {
            let before = self.named(members, upto - 1);
            let record = self.nodes[upto - 1];
            if members.contains((upto - 1) as usize) && record.id is Some {
                before.push((record.id->Some_0, record.own))
            } else {
                before
            }
        }
    }

    /// What a built graph keeps of the nodes.
    pub open spec fn tensors(self) -> Seq<TensorRecord> {
        Seq::new(
            self.nodes.len(),
            |i: int|
                TensorRecord {
                    size: self.nodes[i].size,
                    requires_grad: self.nodes[i].requires_grad,
                    operation: self.nodes[i].parent,
                    own: self.nodes[i].own,
                },
        )
    }

    /// The graph that is built from this one, given that it can be built.
    pub open spec fn topology(self) -> Topology {
        Topology {
            nodes: self.tensors(),
            root: self.output()->Ok_0,
            inputs: self.named(self.inputs, self.nodes.len() as int),
            weights: self.named(self.weights, self.nodes.len() as int),
        }
    }

    /// What adding an input does: an identifier that is in use is refused,
    /// and so is a sparse input without non-zero entries; otherwise the
    /// graph grows by the input, and its handle is returned.
    pub open spec fn create_input(self, id: Seq<char>, shape: Shape, sparse: Option<usize>)
        -> Result<(BuilderState, Node), BuilderFault> {
        if sparse == Some(0usize) {
            Err(BuilderFault::ZeroNonZeros)
        } else if self.has_id(id) {
            Err(BuilderFault::DuplicateId(id))
        } else {
            Ok((self.with_input(id, shape, sparse), Node { idx: self.next_idx(), shape, sparse }))
        }
    }

    /// What adding a weight does: an identifier that is in use is refused;
    /// otherwise the graph grows by the weight, and its handle is returned.
    pub open spec fn create_weights(self, id: Seq<char>, shape: Shape) -> Result<
        (BuilderState, Node),
        BuilderFault,
    > {
        if self.has_id(id) {
            Err(BuilderFault::DuplicateId(id))
        } else {
            Ok((self.with_weights(id, shape), Node { idx: self.next_idx(), shape, sparse: None }))
        }
    }

    /// What applying an operation does: an operand that is no node of this
    /// graph is refused, and so are operands that the operation's shape
    /// rule rejects; otherwise the graph grows by the result, which has the
    /// shape the rule gives, and its handle is returned.
    pub open spec fn apply(self, op: Operation, requires_grad: bool) -> Result<
        (BuilderState, Node),
        BuilderFault,
    > {
        match self.first_foreign(op.operands()) {
            Some(n) => Err(BuilderFault::UnknownNode(n)),
            None => match op.shape_rule() {
                Ok(shape) => Ok(
                    (
                        self.with_operation(op, shape, requires_grad),
                        Node { idx: self.next_idx(), shape, sparse: None },
                    ),
                ),
                Err(fault) => Err(BuilderFault::Shape(fault)),
            },
        }
    }
}

} // verus!
