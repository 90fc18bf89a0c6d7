//! Errors raised while a graph is put together.

use vstd::prelude::*;
use crate::graph::node::Node;
use crate::shape::Shape;

verus! {

/// Why an operation's operands do not fit together.
#[derive(Clone, Debug, PartialEq, Eq)]
pub enum GraphBuilderErrorType {
    /// A single operand has a shape the operation cannot take.
    InvalidInputShape(Shape),
    /// The operands' shapes do not agree with each other; they are listed
    /// in operand order.
    MismatchedInputShapes(Vec<Shape>),
    /// The operands agree, but the result would have more elements than a
    /// `usize` can count; the operands' shapes are listed in operand order.
    OutputTooLarge(Vec<Shape>),
}

/// What a [`GraphBuilderErrorType`] says, with its shapes as a sequence.
pub enum ShapeFault {
    InvalidInput(Shape),
    Mismatched(Seq<Shape>),
    TooLarge(Seq<Shape>),
}

impl View for GraphBuilderErrorType {
    type V = ShapeFault;

    open spec fn view(&self) -> ShapeFault {
        match self {
            GraphBuilderErrorType::InvalidInputShape(s) => ShapeFault::InvalidInput(*s),
            GraphBuilderErrorType::MismatchedInputShapes(v) => ShapeFault::Mismatched(v@),
            GraphBuilderErrorType::OutputTooLarge(v) => ShapeFault::TooLarge(v@),
        }
    }
}

/// Why the builder refused to add a node.
#[derive(Clone, Debug, PartialEq, Eq)]
pub enum GraphBuilderError {
    /// The identifier already names an input or a weight.
    DuplicateId(String),
    /// A sparse input was asked for with no non-zero entry per column.
    ZeroNonZeros,
    /// The operation reads a node that this builder did not hand out.
    UnknownNode(Node),
    /// The operation's operands do not fit together.
    Shape(GraphBuilderErrorType),
}

/// What a [`GraphBuilderError`] says, over sequences.
pub enum BuilderFault {
    DuplicateId(Seq<char>),
    ZeroNonZeros,
    UnknownNode(Node),
    Shape(ShapeFault),
}

impl View for GraphBuilderError {
    type V = BuilderFault;

    open spec fn view(&self) -> BuilderFault {
        match self {
            GraphBuilderError::DuplicateId(id) => BuilderFault::DuplicateId(id@),
            GraphBuilderError::ZeroNonZeros => BuilderFault::ZeroNonZeros,
            GraphBuilderError::UnknownNode(n) => BuilderFault::UnknownNode(*n),
            GraphBuilderError::Shape(ty) => BuilderFault::Shape(ty@),
        }
    }
}

/// Why a graph under construction cannot be built.
#[derive(Clone, Copy, Debug, PartialEq, Eq)]
pub enum OutputError {
    /// The graph does not have exactly one root.
    NotSingleOutput,
    /// The root does not require gradients.
    OutputIsInput,
    /// The root is a weight.
    OutputIsWeights,
    /// The root is not a single number; its shape is given.
    OutputNotScalar(Shape),
}

/// Why no graph was built, or why a built graph refused a call.
#[derive(Clone, Debug, PartialEq, Eq)]
pub enum GraphError<E> {
    /// The graph under construction cannot be built.
    Output(OutputError),
    /// The device failed; its own error is attached.
    Device(E),
    /// The built graph has no input or weight of that name.
    NotFound(String),
}

} // verus!
