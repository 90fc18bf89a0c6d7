//! Handles to the nodes of a graph under construction.

use vstd::prelude::*;
use crate::graph::error::{GraphBuilderErrorType, ShapeFault};
use crate::shape::Shape;

verus! {

/// A handle to one node of a graph: its index in the builder's arena, the
/// shape it is read with, and, for a sparse input, the largest number of
/// non-zero entries in a column.
///
/// A handle owns no data. Two handles are equal when index, shape and
/// sparsity agree.
#[derive(Clone, Copy, Debug, Hash, PartialEq, Eq, Structural)]
pub struct Node {
    pub idx: usize,
    pub shape: Shape,
    pub sparse: Option<usize>,
}

impl Node {
    /// The handle with the same index and sparsity that is read as `shape`.
    pub open spec fn with_shape(self, shape: Shape) -> Node {
        Node { idx: self.idx, shape, sparse: self.sparse }
    }

    /// What `reshape` returns.
    pub open spec fn spec_reshape(self, shape: Shape) -> Result<Node, ShapeFault> {
        if self.shape.spec_size() == shape.spec_size() {
            Ok(self.with_shape(shape))
        } else {
            Err(ShapeFault::Mismatched(seq![self.shape, shape]))
        }
    }

    /// The shape this handle is read with.
    pub fn shape(&self) -> (s: Shape)
        ensures
            s == self.shape,
    {
        self.shape
    }

    /// Reads the node with another shape of the same element count.
    ///
    /// A shape with a different element count is refused, and the error
    /// names the old and the new shape.
    pub fn reshape(self, shape: Shape) -> (r: Result<Node, GraphBuilderErrorType>)
        ensures
            match r {
                Ok(n) => self.spec_reshape(shape) == Ok::<Node, ShapeFault>(n),
                Err(e) => self.spec_reshape(shape) == Err::<Node, ShapeFault>(e@),
            },
    {
        if self.shape.size() == shape.size() {
            Ok(Node { idx: self.idx, shape, sparse: self.sparse })
        } else {
            Err(GraphBuilderErrorType::MismatchedInputShapes(vec![self.shape, shape]))
        }
    }

    /// Whether the node is a sparse input.
    pub fn is_sparse(&self) -> (b: bool)
        ensures
            b == self.sparse.is_some(),
    {
        self.sparse.is_some()
    }
}

} // verus!
