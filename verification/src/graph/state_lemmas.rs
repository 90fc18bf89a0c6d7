//! Why the builder's steps keep a graph well formed.

use vstd::prelude::*;
use crate::graph::node::Node;
use crate::graph::operation::Operation;
use crate::shape::Shape;
use crate::graph::state::{BuilderState, NodeRecord};

verus! {

/// `first_foreign` finds nothing exactly when every handle is owned, and
/// what it finds is a handle of the sequence that is not owned.
pub proof fn lemma_first_foreign(state: BuilderState, handles: Seq<Node>)
    ensures
        state.first_foreign(handles) is None <==> forall|k: int|
            0 <= k < handles.len() ==> state.owns(#[trigger] handles[k]),
        state.first_foreign(handles) matches Some(n) ==> !state.owns(n) && handles.contains(n),
    decreases handles.len(),
{
    if handles.len() == 0 {
    } else if !state.owns(handles[0]) {
        assert(handles.contains(handles[0]));
    } else {
        let rest = handles.drop_first();
        lemma_first_foreign(state, rest);
        assert forall|k: int| 0 <= k < rest.len() implies rest[k] == handles[k + 1] by {}
        if state.first_foreign(rest) is None {
            assert forall|k: int| 0 <= k < handles.len() implies state.owns(
                #[trigger] handles[k],
            ) by {
                if k > 0 {
                    assert(rest[k - 1] == handles[k]);
                }
            }
        } else {
            let n = state.first_foreign(rest)->Some_0;
            let k = choose|k: int| 0 <= k < rest.len() && rest[k] == n;
            assert(handles[k + 1] == n);
        }
    }
}

/// In a well-formed graph a node is only read by nodes added after it.
pub proof fn lemma_readers_come_later(state: BuilderState, j: int, i: int)
    requires
        state.wf(),
        state.node_reads(j, i),
    ensures
        0 <= i < j < state.nodes.len(),
{
    assert(state.record_wf(j));
    let op = state.nodes[j].parent->Some_0;
    let k = choose|k: int| 0 <= k < op.operands().len() && #[trigger] op.operands()[k].idx == i;
    assert(op.operands()[k].idx < j);
}

/// In a well-formed graph the node added last is a root.
pub proof fn lemma_last_is_root(state: BuilderState)
    requires
        state.wf(),
        state.nodes.len() > 0,
    ensures
        state.roots.contains((state.nodes.len() - 1) as usize),
{
    let last = (state.nodes.len() - 1) as usize;
    if state.consumed(last as int) {
        let j = choose|j: int| #[trigger] state.node_reads(j, last as int);
        lemma_readers_come_later(state, j, last as int);
    }
}

/// Adding a node keeps the graph well formed, given that the new record
/// is: a fresh identifier for a leaf, owned operands for an operation.
proof fn lemma_with_node_records(
    state: BuilderState,
    next: BuilderState,
    record: NodeRecord,
)
    requires
        state.wf(),
        state.nodes.len() < usize::MAX,
        next.nodes == state.nodes.push(record),
        next.roots.finite(),
        next.inputs.finite(),
        next.weights.finite(),
        next.record_wf(state.nodes.len() as int),
        record.id matches Some(id) ==> !state.has_id(id),
        forall|i: usize|
            i < state.nodes.len() ==> (next.inputs.contains(i) == state.inputs.contains(i)
                && next.weights.contains(i) == state.weights.contains(i)),
        forall|i: usize| #[trigger] next.inputs.contains(i) ==> i <= state.nodes.len(),
        forall|i: usize| #[trigger] next.weights.contains(i) ==> i <= state.nodes.len(),
        forall|i: usize| #[trigger]
            next.roots.contains(i) <==> i == state.nodes.len() || (state.roots.contains(i) && !(
            record.parent matches Some(op) && op.reads(i as int))),
    ensures
        next.wf(),
{
    let n = state.nodes.len() as int;
    assert forall|i: int| 0 <= i < next.nodes.len() implies #[trigger] next.record_wf(i) by {
        if i < n {
            assert(state.record_wf(i));
            assert(next.nodes[i] == state.nodes[i]);
        }
    }
    assert forall|i: int, j: int|
        0 <= i < j < next.nodes.len() && (#[trigger] next.nodes[i]).id is Some implies next.nodes[i].id
        != (#[trigger] next.nodes[j]).id by {
        assert(next.nodes[i] == state.nodes[i]);
        if j < n {
            assert(next.nodes[j] == state.nodes[j]);
        } else {
            if record.id is Some && state.nodes[i].id == record.id {
                assert(state.has_id(record.id->Some_0));
            }
        }
    }
    assert forall|i: usize| #[trigger]
        next.roots.contains(i) <==> i < next.nodes.len() && !next.consumed(i as int) by {
        if i < n {
            if next.consumed(i as int) {
                let j = choose|j: int| #[trigger] next.node_reads(j, i as int);
                if j < n {
                    assert(next.nodes[j] == state.nodes[j]);
                    assert(state.node_reads(j, i as int));
                } else {
                    assert(next.nodes[j] == record);
                }
            }
            if state.consumed(i as int) {
                let j = choose|j: int| #[trigger] state.node_reads(j, i as int);
                assert(next.nodes[j] == state.nodes[j]);
                assert(next.node_reads(j, i as int));
            }
            if record.parent matches Some(op) && op.reads(i as int) {
                assert(next.nodes[n] == record);
                assert(next.node_reads(n, i as int));
            }
        } else if i == n {
            if next.consumed(i as int) {
                let j = choose|j: int| #[trigger] next.node_reads(j, i as int);
                assert(next.record_wf(j));
                let op = next.nodes[j].parent->Some_0;
                let k = choose|k: int|
                    0 <= k < op.operands().len() && #[trigger] op.operands()[k].idx == i;
                assert(op.operands()[k].idx < j);
            }
        } else {
        }
    }
}

/// Adding an input with a fresh identifier keeps the graph well formed.
pub proof fn lemma_with_input_wf(
    state: BuilderState,
    id: Seq<char>,
    shape: Shape,
    sparse: Option<usize>,
)
    requires
        state.wf(),
        state.nodes.len() < usize::MAX,
        !state.has_id(id),
        shape.wf(),
        sparse matches Some(nnz) ==> nnz > 0,
    ensures
        state.with_input(id, shape, sparse).wf(),
{
    let next = state.with_input(id, shape, sparse);
    let record = next.nodes[state.nodes.len() as int];
    lemma_size_positive(shape);
    if state.weights.contains(state.next_idx()) {
    }
    lemma_with_node_records(state, next, record);
}

/// Adding a weight with a fresh identifier keeps the graph well formed.
pub proof fn lemma_with_weights_wf(state: BuilderState, id: Seq<char>, shape: Shape)
    requires
        state.wf(),
        state.nodes.len() < usize::MAX,
        !state.has_id(id),
        shape.wf(),
    ensures
        state.with_weights(id, shape).wf(),
{
    let next = state.with_weights(id, shape);
    let record = next.nodes[state.nodes.len() as int];
    lemma_size_positive(shape);
    if state.inputs.contains(state.next_idx()) {
    }
    lemma_with_node_records(state, next, record);
}

/// Adding the result of an operation on owned nodes keeps the graph well
/// formed.
pub proof fn lemma_with_operation_wf(
    state: BuilderState,
    op: Operation,
    shape: Shape,
    requires_grad: bool,
)
    requires
        state.wf(),
        state.nodes.len() < usize::MAX,
        state.first_foreign(op.operands()) is None,
        shape.wf(),
    ensures
        state.with_operation(op, shape, requires_grad).wf(),
{
    let next = state.with_operation(op, shape, requires_grad);
    let record = next.nodes[state.nodes.len() as int];
    lemma_size_positive(shape);
    lemma_first_foreign(state, op.operands());
    assert forall|k: int| 0 <= k < op.operands().len() implies (#[trigger] op.operands()[k]).idx
        < state.nodes.len() by {
        assert(state.owns(op.operands()[k]));
    }
    if state.inputs.contains(state.next_idx()) {
    }
    if state.weights.contains(state.next_idx()) {
    }
    lemma_with_node_records(state, next, record);
}

/// What `named` lists: every entry is the identifier and the handle of a
/// member among the first `upto` nodes, and the entries come in the order of
/// their indices.
pub proof fn lemma_named(state: BuilderState, members: Set<usize>, upto: int)
    requires
        state.wf(),
        0 <= upto <= state.nodes.len(),
    ensures
        forall|k: int|
            0 <= k < state.named(members, upto).len() ==> {
                let entry = #[trigger] state.named(members, upto)[k];
                &&& entry.1.idx < upto
                &&& members.contains(entry.1.idx)
                &&& state.nodes[entry.1.idx as int].own == entry.1
                &&& state.nodes[entry.1.idx as int].id == Some(entry.0)
            },
        forall|k: int, l: int|
            0 <= k < l < state.named(members, upto).len() ==> (#[trigger] state.named(
                members,
                upto,
            )[k]).1.idx < (#[trigger] state.named(members, upto)[l]).1.idx,
    decreases upto,
{
    if upto > 0 {
        lemma_named(state, members, upto - 1);
        assert(state.record_wf(upto - 1));
    }
}

/// A member with a name is listed under that name.
pub proof fn lemma_named_lists_members(state: BuilderState, members: Set<usize>, upto: int, i: int)
    requires
        state.wf(),
        0 <= i < upto <= state.nodes.len(),
        members.contains(i as usize),
        state.nodes[i].id is Some,
    ensures
        crate::graph::state::lookup(state.named(members, upto), state.nodes[i].id->Some_0) is Some,
    decreases upto,
{
    let id = state.nodes[i].id->Some_0;
    let list = state.named(members, upto);
    if i < upto - 1 {
        lemma_named_lists_members(state, members, upto - 1, i);
        let before = state.named(members, upto - 1);
        lemma_lookup_grows(before, list, id);
    } else {
        let before = state.named(members, upto - 1);
        assert(list == before.push((id, state.nodes[i].own)));
        lemma_lookup_finds(list, id, list.len() - 1);
    }
}

/// A name that is listed is found.
pub proof fn lemma_lookup_finds(entries: Seq<(Seq<char>, Node)>, id: Seq<char>, at: int)
    requires
        0 <= at < entries.len(),
        entries[at].0 == id,
    ensures
        crate::graph::state::lookup(entries, id) is Some,
    decreases entries.len(),
{
    if entries[0].0 != id {
        let rest = entries.drop_first();
        assert(rest[at - 1] == entries[at]);
        lemma_lookup_finds(rest, id, at - 1);
    }
}

/// A name that is found in a list is found in every list that starts with
/// that list.
pub proof fn lemma_lookup_grows(
    before: Seq<(Seq<char>, Node)>,
    after: Seq<(Seq<char>, Node)>,
    id: Seq<char>,
)
    requires
        before.len() <= after.len(),
        forall|k: int| 0 <= k < before.len() ==> before[k] == after[k],
        crate::graph::state::lookup(before, id) is Some,
    ensures
        crate::graph::state::lookup(after, id) is Some,
{
    crate::graph::lemma_lookup_is_listed(before, id);
    let node = crate::graph::state::lookup(before, id)->Some_0;
    let k = choose|k: int| 0 <= k < before.len() && #[trigger] before[k] == (id, node);
    assert(after[k].0 == id);
    lemma_lookup_finds(after, id, k);
}

/// The graph built from a well-formed graph that can be built is as every
/// built graph is.
pub proof fn lemma_topology_wf(state: BuilderState)
    requires
        state.wf(),
        state.output() is Ok,
    ensures
        state.topology().wf(),
{
    let t = state.topology();
    let n = state.nodes.len() as int;
    let idx = state.roots.choose();
    Set::lemma_is_singleton(state.roots);
    assert(state.roots.contains(idx));
    assert(state.record_wf(idx as int));
    assert forall|i: int| 0 <= i < t.nodes.len() implies (#[trigger] t.nodes[i]).own.idx == i
        && t.nodes[i].size > 0 by {
        assert(state.record_wf(i));
    }
    lemma_named(state, state.inputs, n);
    lemma_named(state, state.weights, n);
    assert forall|i: int, j: int| 0 <= i < j < t.inputs.len() implies (#[trigger] t.inputs[i]).0
        != (#[trigger] t.inputs[j]).0 by {
        assert(state.nodes[t.inputs[i].1.idx as int].id is Some);
    }
    assert forall|i: int, j: int| 0 <= i < j < t.weights.len() implies (#[trigger] t.weights[i]).0
        != (#[trigger] t.weights[j]).0 by {
        assert(state.nodes[t.weights[i].1.idx as int].id is Some);
    }
    assert forall|i: int, j: int| 0 <= i < t.inputs.len() && 0 <= j < t.weights.len() implies (
    #[trigger] t.inputs[i]).0 != (#[trigger] t.weights[j]).0 by {
        let a = t.inputs[i].1.idx as int;
        let b = t.weights[j].1.idx as int;
        assert(state.record_wf(a));
        assert(state.record_wf(b));
        assert(state.nodes[a].id is Some);
        assert(state.nodes[b].id is Some);
        if a < b {
            assert(state.nodes[a].id != state.nodes[b].id);
        } else if b < a {
            assert(state.nodes[b].id != state.nodes[a].id);
        }
    }
}

/// A shape has at least one element.
pub proof fn lemma_size_positive(shape: Shape)
    requires
        shape.wf(),
    ensures
        shape.spec_size() > 0,
{
    assert(shape.spec_rows() * shape.spec_cols() > 0) by (nonlinear_arith)
        requires
            shape.spec_rows() > 0,
            shape.spec_cols() > 0,
    ;
}

} // verus!
