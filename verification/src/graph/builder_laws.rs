//! What holds of every graph a builder can reach.

use vstd::prelude::*;
use crate::graph::error::BuilderFault;
use crate::graph::node::Node;
use crate::graph::operation::Operation;
use crate::shape::{valid_dims, Shape};
use crate::graph::state::BuilderState;
use crate::graph::state_lemmas::{
    lemma_first_foreign, lemma_with_input_wf, lemma_with_operation_wf, lemma_with_weights_wf,
};

verus! {

/// One call on a builder.
pub enum Step {
    /// Add an input; a sparse one if a count of non-zero entries is given.
    Input(Seq<char>, Shape, Option<usize>),
    /// Add a weight.
    Weights(Seq<char>, Shape),
    /// Add the result of an operation.
    Apply(Operation, bool),
}

impl Step {
    /// Whether the call can be made at all: its shape is a shape.
    pub open spec fn admissible(self) -> bool {
        match self {
            Step::Input(_, shape, _) => shape.wf(),
            Step::Weights(_, shape) => shape.wf(),
            Step::Apply(_, _) => true,
        }
    }

    /// The graph after the call: grown by a node if the call succeeds,
    /// unchanged if it is refused.
    pub open spec fn after(self, state: BuilderState) -> BuilderState {
        let outcome = match self {
            Step::Input(id, shape, sparse) => state.create_input(id, shape, sparse),
            Step::Weights(id, shape) => state.create_weights(id, shape),
            Step::Apply(op, requires_grad) => state.apply(op, requires_grad),
        };
        match outcome {
            Ok((next, _)) => next,
            Err(_) => state,
        }
    }
}

/// The graph after the calls were made in order on a new builder.
pub open spec fn after_all(steps: Seq<Step>) -> BuilderState
    decreases steps.len(),
{
    if steps.len() == 0 {
        BuilderState::empty()
    } else {
        steps.last().after(after_all(steps.drop_last()))
    }
}

/// The graph without nodes is well formed.
pub proof fn lemma_empty_wf()
    ensures
        BuilderState::empty().wf(),
{
    let state = BuilderState::empty();
    assert forall|i: usize| !state.consumed(i as int) by {
        if state.consumed(i as int) {
            let j = choose|j: int| #[trigger] state.node_reads(j, i as int);
        }
    }
}

/// A single call keeps a graph well formed, whether it succeeds or not.
pub proof fn lemma_step_keeps_wf(state: BuilderState, step: Step)
    requires
        state.wf(),
        state.nodes.len() < usize::MAX,
        step.admissible(),
    ensures
        step.after(state).wf(),
{
    match step {
        Step::Input(id, shape, sparse) => {
            if state.create_input(id, shape, sparse) is Ok {
                lemma_with_input_wf(state, id, shape, sparse);
            }
        },
        Step::Weights(id, shape) => {
            if state.create_weights(id, shape) is Ok {
                lemma_with_weights_wf(state, id, shape);
            }
        },
        Step::Apply(op, requires_grad) => {
            if state.apply(op, requires_grad) is Ok {
                let shape = op.shape_rule()->Ok_0;
                lemma_shape_rule_gives_shape(state, op);
                lemma_with_operation_wf(state, op, shape, requires_grad);
            }
        },
    }
}

/// A call adds at most one node.
pub proof fn lemma_step_adds_at_most_one(state: BuilderState, step: Step)
    ensures
        state.nodes.len() <= step.after(state).nodes.len() <= state.nodes.len() + 1,
{
}

/// Whatever calls are made on a new builder, with whatever outcome, after
/// each of them the roots are exactly the nodes that no node reads.
pub proof fn lemma_roots_are_the_unread(steps: Seq<Step>)
    requires
        steps.len() < usize::MAX,
        forall|k: int| 0 <= k < steps.len() ==> (#[trigger] steps[k]).admissible(),
    ensures
        after_all(steps).wf(),
        after_all(steps).nodes.len() <= steps.len(),
        forall|i: usize| #[trigger]
            after_all(steps).roots.contains(i) <==> i < after_all(steps).nodes.len()
                && !after_all(steps).consumed(i as int),
    decreases steps.len(),
{
    if steps.len() == 0 {
        lemma_empty_wf();
    } else {
        let before = steps.drop_last();
        lemma_roots_are_the_unread(before);
        lemma_step_adds_at_most_one(after_all(before), steps.last());
        lemma_step_keeps_wf(after_all(before), steps.last());
    }
}

/// An operation that is applied takes each of its operands out of the
/// roots, makes its result a root, and leaves every other node as it was.
pub proof fn lemma_apply_moves_roots(
    state: BuilderState,
    op: Operation,
    requires_grad: bool,
    next: BuilderState,
    node: Node,
)
    requires
        state.wf(),
        state.nodes.len() < usize::MAX,
        state.apply(op, requires_grad) == Ok::<(BuilderState, Node), BuilderFault>((next, node)),
    ensures
        next.nodes.len() == state.nodes.len() + 1,
        node.idx == state.nodes.len(),
        next.roots.contains(node.idx),
        forall|k: int|
            0 <= k < op.operands().len() ==> !next.roots.contains(
                (#[trigger] op.operands()[k]).idx,
            ),
        forall|i: usize|
            i != node.idx && !op.reads(i as int) ==> (next.roots.contains(i)
                == state.roots.contains(i)),
{
    assert forall|k: int| 0 <= k < op.operands().len() implies !next.roots.contains(
        (#[trigger] op.operands()[k]).idx,
    ) by {
        lemma_first_foreign(state, op.operands());
        assert(state.owns(op.operands()[k]));
        assert(op.reads(op.operands()[k].idx as int));
    }
}

/// A node that has been read never is a root again: whatever call follows,
/// a node of the graph that is no root stays none, and the nodes of the
/// graph stay as they are.
pub proof fn lemma_no_return_to_roots(state: BuilderState, step: Step, i: usize)
    requires
        state.wf(),
        i < state.nodes.len(),
        !state.roots.contains(i),
    ensures
        !step.after(state).roots.contains(i),
        step.after(state).nodes[i as int] == state.nodes[i as int],
{
}

/// Whether the node with index `idx` is fit to be the output of a built
/// graph: it is the only root, requires gradients, is no weight, and is a
/// single number.
pub open spec fn is_output(state: BuilderState, idx: usize) -> bool {
    &&& state.roots == set![idx]
    &&& idx < state.nodes.len()
    &&& state.nodes[idx as int].requires_grad
    &&& !state.weights.contains(idx)
    &&& state.nodes[idx as int].own.shape.is_scalar()
}

/// A graph can be built exactly if it has one root, and that root requires
/// gradients, is no weight and is a single number; the output is then that
/// root, with one element.
pub proof fn lemma_buildable(state: BuilderState)
    requires
        state.wf(),
    ensures
        state.output() is Ok <==> exists|idx: usize| #[trigger] is_output(state, idx),
        state.output() matches Ok(root) ==> is_output(state, root.idx)
            && state.nodes[root.idx as int].own == root && state.nodes[root.idx as int].size
            == 1,
{
    if state.roots.len() == 1 {
        let idx = state.roots.choose();
        Set::lemma_is_singleton(state.roots);
        assert(state.roots.contains(idx));
        assert(state.roots =~= set![idx]) by {
            assert forall|i: usize| state.roots.contains(i) implies i == idx by {}
        }
        assert(state.record_wf(idx as int));
        if state.output() is Ok {
            assert(is_output(state, idx));
            assert(state.nodes[idx as int].own.shape.spec_size() == 1) by (nonlinear_arith)
                requires
                    state.nodes[idx as int].own.shape.spec_rows() == 1,
                    state.nodes[idx as int].own.shape.spec_cols() == 1,
                    state.nodes[idx as int].own.shape.spec_size()
                        == state.nodes[idx as int].own.shape.spec_rows()
                        * state.nodes[idx as int].own.shape.spec_cols(),
            ;
        }
    }
    if exists|idx: usize| #[trigger] is_output(state, idx) {
        let idx = choose|idx: usize| #[trigger] is_output(state, idx);
        assert(set![idx].len() == 1) by {
            set![idx].lemma_singleton_size();
        }
        assert(state.roots.contains(idx));
        assert(state.roots.contains(state.roots.choose()));
    }
}

/// An identifier can be given once: after a weight was added under it,
/// neither a weight nor an input can be, whatever the shape.
pub proof fn lemma_second_registration_fails(
    state: BuilderState,
    id: Seq<char>,
    shape: Shape,
    next: BuilderState,
    node: Node,
    again: Shape,
    sparse: Option<usize>,
)
    requires
        state.create_weights(id, shape) == Ok::<(BuilderState, Node), BuilderFault>((next, node))
            || state.create_input(id, shape, sparse) == Ok::<(BuilderState, Node), BuilderFault>(
            (next, node),
        ),
    ensures
        next.has_id(id),
        next.create_weights(id, again) == Err::<(BuilderState, Node), BuilderFault>(
            BuilderFault::DuplicateId(id),
        ),
        sparse != Some(0usize) ==> next.create_input(id, again, sparse) == Err::<
            (BuilderState, Node),
            BuilderFault,
        >(BuilderFault::DuplicateId(id)),
{
    assert(next.nodes[state.nodes.len() as int].id == Some(id));
}

/// Operands that an operation's shape rule rejects are refused by every
/// graph, with the rule's own error unless an operand is unknown.
pub proof fn lemma_rejected_shapes_are_refused(
    state: BuilderState,
    op: Operation,
    requires_grad: bool,
)
    requires
        op.shape_rule() is Err,
    ensures
        state.apply(op, requires_grad) is Err,
        Step::Apply(op, requires_grad).after(state) == state,
        state.first_foreign(op.operands()) is None ==> state.apply(op, requires_grad) == Err::<
            (BuilderState, Node),
            BuilderFault,
        >(BuilderFault::Shape(op.shape_rule()->Err_0)),
{
}

/// A matrix product whose inner dimensions differ is rejected, and the
/// error names both shapes.
pub proof fn lemma_matmul_inner_dimensions(a: Node, trans_a: bool, b: Node, trans_b: bool)
    requires
        a.shape.spec_maybe_transpose(trans_a).spec_cols() != b.shape.spec_maybe_transpose(
            trans_b,
        ).spec_rows(),
    ensures
        Operation::Matmul(a, trans_a, b, trans_b).shape_rule() == Err::<
            Shape,
            crate::graph::error::ShapeFault,
        >(crate::graph::error::ShapeFault::Mismatched(seq![a.shape, b.shape])),
{
    let op = Operation::Matmul(a, trans_a, b, trans_b);
    assert(op.operand_shapes() =~= seq![a.shape, b.shape]);
}

/// What the shape rule gives for owned operands is a shape.
pub proof fn lemma_shape_rule_gives_shape(state: BuilderState, op: Operation)
    requires
        state.wf(),
        state.first_foreign(op.operands()) is None,
        op.shape_rule() is Ok,
    ensures
        op.shape_rule()->Ok_0.wf(),
{
    broadcast use {Shape::lemma_new_dims, Shape::lemma_is_new};

    lemma_first_foreign(state, op.operands());
    assert forall|k: int| 0 <= k < op.operands().len() implies (#[trigger] op.operands()[k]).shape.wf() by {
        assert(state.owns(op.operands()[k]));
    }
    match op {
        Operation::Activate(x, _) => {
            assert(op.operands()[0] == x);
        },
        Operation::ToDense(x) => {
            assert(op.operands()[0] == x);
        },
        Operation::SparseAffineDualActivate(w, s, _, _, _) => {
            lemma_valid_dims_fit(2 * w.shape.spec_rows(), s.shape.spec_cols() as int);
        },
        Operation::Concat(a, b) => {
            lemma_valid_dims_fit(
                a.shape.spec_rows() + b.shape.spec_rows(),
                a.shape.spec_cols() as int,
            );
        },
        Operation::Gather(_, i) => {
            assert(op.operands()[1] == i);
        },
        Operation::LinearCombination(_, a, _, _) => {
            assert(op.operands()[0] == a);
        },
        Operation::Mask(a, _) => {
            assert(op.operands()[0] == a);
        },
        Operation::PairwiseMul(x, _) => {
            assert(op.operands()[0] == x);
            let rows = x.shape.spec_rows();
            let cols = x.shape.spec_cols();
            assert(valid_dims((rows / 2) as int, cols as int)) by (nonlinear_arith)
                requires
                    valid_dims(rows as int, cols as int),
                    rows % 2 == 0,
            ;
        },
        Operation::Select(x, b) => {
            assert(op.operands()[0] == x);
            assert(op.operands()[1] == b);
            let rows = x.shape.spec_rows();
            let cols = x.shape.spec_cols();
            let blocks = b.shape.spec_rows();
            assert(valid_dims((rows as int / blocks as int), cols as int)) by (nonlinear_arith)
                requires
                    valid_dims(rows as int, cols as int),
                    blocks > 0,
                    rows as int % blocks as int == 0,
            ;
            assert(rows as int / blocks as int <= rows) by (nonlinear_arith)
                requires
                    rows >= 0,
                    blocks > 0,
            ;
        },
        Operation::Slice(x, start, end) => {
            assert(op.operands()[0] == x);
            let rows = x.shape.spec_rows();
            let cols = x.shape.spec_cols();
            assert(valid_dims((end - start) as int, cols as int)) by (nonlinear_arith)
                requires
                    valid_dims(rows as int, cols as int),
                    start < end <= rows,
            ;
        },
        Operation::Affine(_, _, _) => {},
        Operation::SparseAffine(_, _, _) => {},
        Operation::Matmul(_, _, _, _) => {},
        Operation::PowerError(_, _, _) => {},
        Operation::SoftmaxCrossEntropyLoss(_, _) => {},
        Operation::MaskedSoftmaxCrossEntropyLoss(_, _, _) => {},
        Operation::ReduceAcrossBatch(_) => {},
    }
}

/// Valid dimensions fit in a `usize` each.
pub proof fn lemma_valid_dims_fit(rows: int, cols: int)
    requires
        valid_dims(rows, cols),
    ensures
        rows <= usize::MAX,
        cols <= usize::MAX,
{
    assert(rows <= rows * cols && cols <= rows * cols) by (nonlinear_arith)
        requires
            rows > 0,
            cols > 0,
    ;
}

} // verus!
