//! Writing a checkpoint and restoring it gives back what was written.

use vstd::prelude::*;
use crate::optimiser::checkpoint::{encode_all, lemma_round_trip, parse_all, valid_name, valid_record, Record};
use crate::optimiser::names::has_duplicate;
use crate::optimiser::restore::{
    all_fit, all_known, fits, is_plan, lemma_position_from, names_of, pairs_first, position,
    restore_fault, Assignment,
};
use crate::scalar::Scalar;

verus! {

/// Whether `order` lists each of the indices `0` to `n - 1` once.
pub open spec fn is_order(order: Seq<usize>, n: nat) -> bool {
    &&& order.len() == n
    &&& n <= usize::MAX
    &&& forall|k: int| 0 <= k < order.len() ==> (#[trigger] order[k]) < n
    &&& forall|k: int, l: int|
        0 <= k < l < order.len() ==> (#[trigger] order[k]) != (#[trigger] order[l])
    &&& forall|i: int| 0 <= i < n ==> #[trigger] order.contains(i as usize)
}

/// The records that hold `values[i]` under `names[i]`, in the given order
/// of the indices.
pub open spec fn records_for(names: Seq<Seq<u8>>, values: Seq<Seq<Scalar>>, order: Seq<usize>)
    -> Seq<Record> {
    Seq::new(
        order.len(),
        |k: int| Record { name: names[order[k] as int], values: values[order[k] as int] },
    )
}

/// The element counts of the states that hold `momentum[i]` and
/// `velocity[i]`.
pub open spec fn sizes_for(momentum: Seq<Seq<Scalar>>, velocity: Seq<Seq<Scalar>>) -> Seq<
    (usize, usize),
> {
    Seq::new(momentum.len(), |i: int| (momentum[i].len() as usize, velocity[i].len() as usize))
}

/// Whether buffers with the given contents can be written under the given
/// names: there is one for each name, no name holds a line feed, and every
/// count of numbers can be a buffer's length.
pub open spec fn writable(names: Seq<Seq<u8>>, values: Seq<Seq<Scalar>>) -> bool {
    &&& values.len() == names.len()
    &&& forall|i: int| 0 <= i < names.len() ==> valid_name(#[trigger] names[i])
    &&& forall|i: int| 0 <= i < values.len() ==> (#[trigger] values[i]).len() <= usize::MAX
}

/// Whether `records` is what is read from the file that holds `values[i]`
/// under `names[i]`, written in the given order.
pub open spec fn read_back(
    names: Seq<Seq<u8>>,
    values: Seq<Seq<Scalar>>,
    order: Seq<usize>,
    records: Seq<Record>,
) -> bool {
    parse_all(encode_all(records_for(names, values, order)), 0, false) == Some(records)
}

/// Whether the plan restores the state with index `t`.
pub open spec fn restores(plan: Seq<Assignment>, t: int) -> bool {
    exists|k: int| 0 <= k < plan.len() && (#[trigger] plan[k]).target == t
}

/// A collection of optimiser states that is written to a checkpoint can be
/// restored from it into a collection with the same names and element
/// counts, and each state then gets exactly the numbers that were written
/// for it, bit for bit.
///
/// Here `names[i]` is the name of state `i`, without a line feed and given
/// to no other state; `momentum[i]` and `velocity[i]` are its buffers;
/// each of the two files holds the states in an order of its own; `first`
/// and `second` are what is read back from the files; and `plan` is any
/// plan to restore these.
pub proof fn lemma_checkpoint_round_trip(
    names: Seq<Seq<u8>>,
    momentum: Seq<Seq<Scalar>>,
    velocity: Seq<Seq<Scalar>>,
    first_order: Seq<usize>,
    second_order: Seq<usize>,
    first: Seq<Record>,
    second: Seq<Record>,
    plan: Seq<Assignment>,
)
    requires
        !has_duplicate(names),
        writable(names, momentum),
        writable(names, velocity),
        is_order(first_order, names.len()),
        is_order(second_order, names.len()),
        read_back(names, momentum, first_order, first),
        read_back(names, velocity, second_order, second),
    ensures
        restore_fault(names, sizes_for(momentum, velocity), first, second) is None,
        is_plan(plan, names, sizes_for(momentum, velocity), first, second) ==> {
            &&& plan.len() == names.len()
            &&& forall|k: int|
                0 <= k < plan.len() ==> first[(#[trigger] plan[k]).first as int].values
                    == momentum[plan[k].target as int] && second[plan[k].second as int].values
                    == velocity[plan[k].target as int]
            &&& forall|t: int| 0 <= t < names.len() ==> #[trigger] restores(plan, t)
        },
{
    lemma_read_back(names, momentum, first_order, first);
    lemma_read_back(names, velocity, second_order, second);
    lemma_first_positions(names);
    lemma_restorable(names, momentum, velocity, first_order, second_order, first, second);
    lemma_plan_gives_each_its_own(
        names,
        momentum,
        velocity,
        first_order,
        second_order,
        first,
        second,
        plan,
    );
}

/// What is read back from the bytes written for some records are those
/// records.
proof fn lemma_read_back(
    names: Seq<Seq<u8>>,
    values: Seq<Seq<Scalar>>,
    order: Seq<usize>,
    records: Seq<Record>,
)
    requires
        writable(names, values),
        is_order(order, names.len()),
        read_back(names, values, order, records),
    ensures
        records == records_for(names, values, order),
{
    assert forall|k: int| 0 <= k < order.len() implies valid_record(
        #[trigger] records_for(names, values, order)[k],
    ) by {
        let i = order[k] as int;
        assert(valid_name(names[i]));
        assert(values[i].len() <= usize::MAX);
    }
    lemma_round_trip(records_for(names, values, order));
}

/// Among names without a duplicate each name is first found where it
/// stands.
proof fn lemma_first_positions(names: Seq<Seq<u8>>)
    requires
        !has_duplicate(names),
    ensures
        forall|i: int| 0 <= i < names.len() ==> position(names, #[trigger] names[i]) == Some(i),
{
    assert forall|i: int| 0 <= i < names.len() implies position(names, #[trigger] names[i])
        == Some(i) by {
        lemma_position_from(names, names[i], 0);
        let found = position(names, names[i])->Some_0;
        if found < i {
            assert(names[found] == names[i]);
        }
    }
}

/// Among names without a duplicate, equal names stand at equal indices.
proof fn lemma_same_index(names: Seq<Seq<u8>>, i: int, j: int)
    requires
        !has_duplicate(names),
        0 <= i < names.len(),
        0 <= j < names.len(),
        names[i] == names[j],
    ensures
        i == j,
{
    if i < j {
        assert(names[i] == names[j]);
    } else if j < i {
        assert(names[j] == names[i]);
    }
}

/// Names without a duplicate, listed in an order of their indices, are
/// still without a duplicate, and they are the same names.
proof fn lemma_reordered_names(names: Seq<Seq<u8>>, order: Seq<usize>, listed: Seq<Seq<u8>>)
    requires
        !has_duplicate(names),
        is_order(order, names.len()),
        listed == Seq::new(order.len(), |k: int| names[order[k] as int]),
    ensures
        !has_duplicate(listed),
        forall|x: Seq<u8>| listed.contains(x) <==> names.contains(x),
{
    if has_duplicate(listed) {
        let (k, l) = choose|k: int, l: int|
            0 <= k < l < listed.len() && #[trigger] listed[k] == #[trigger] listed[l];
        assert(order[k] != order[l]);
        lemma_same_index(names, order[k] as int, order[l] as int);
    }
    assert forall|x: Seq<u8>| listed.contains(x) <==> names.contains(x) by {
        if listed.contains(x) {
            let k = choose|k: int| 0 <= k < listed.len() && listed[k] == x;
            assert(names[order[k] as int] == x);
        }
        if names.contains(x) {
            let i = choose|i: int| 0 <= i < names.len() && names[i] == x;
            assert(order.contains(i as usize));
            let k = choose|k: int| 0 <= k < order.len() && order[k] == i as usize;
            assert(listed[k] == x);
        }
    }
}

/// Records that hold the states' buffers under the states' names can be
/// restored.
proof fn lemma_restorable(
    names: Seq<Seq<u8>>,
    momentum: Seq<Seq<Scalar>>,
    velocity: Seq<Seq<Scalar>>,
    first_order: Seq<usize>,
    second_order: Seq<usize>,
    first: Seq<Record>,
    second: Seq<Record>,
)
    requires
        !has_duplicate(names),
        writable(names, momentum),
        writable(names, velocity),
        is_order(first_order, names.len()),
        is_order(second_order, names.len()),
        first == records_for(names, momentum, first_order),
        second == records_for(names, velocity, second_order),
        forall|i: int| 0 <= i < names.len() ==> position(names, #[trigger] names[i]) == Some(i),
    ensures
        restore_fault(names, sizes_for(momentum, velocity), first, second) is None,
{
    let sizes = sizes_for(momentum, velocity);
    assert(names_of(first) =~= Seq::new(first_order.len(), |k: int| names[first_order[k] as int]));
    assert(names_of(second) =~= Seq::new(
        second_order.len(),
        |k: int| names[second_order[k] as int],
    ));
    lemma_reordered_names(names, first_order, names_of(first));
    lemma_reordered_names(names, second_order, names_of(second));
    assert(all_known(names, first)) by {
        assert forall|k: int| 0 <= k < first.len() implies names.contains(
            #[trigger] names_of(first)[k],
        ) by {
            assert(names_of(first).contains(names_of(first)[k]));
        }
    }
    assert(all_fit(names, sizes, first, second)) by {
        assert forall|k: int, l: int|
            0 <= k < first.len() && 0 <= l < second.len() && (#[trigger] first[k]).name == (
            #[trigger] second[l]).name implies fits(names, sizes, first, second, k, l) by {
            let i = first_order[k] as int;
            let j = second_order[l] as int;
            lemma_same_index(names, i, j);
            assert(position(names, names[i]) == Some(i));
            assert(momentum[i].len() <= usize::MAX);
            assert(velocity[i].len() <= usize::MAX);
        }
    }
}

/// Every plan to restore records that hold the states' buffers under the
/// states' names gives each state its own.
proof fn lemma_plan_gives_each_its_own(
    names: Seq<Seq<u8>>,
    momentum: Seq<Seq<Scalar>>,
    velocity: Seq<Seq<Scalar>>,
    first_order: Seq<usize>,
    second_order: Seq<usize>,
    first: Seq<Record>,
    second: Seq<Record>,
    plan: Seq<Assignment>,
)
    requires
        !has_duplicate(names),
        momentum.len() == names.len(),
        velocity.len() == names.len(),
        is_order(first_order, names.len()),
        is_order(second_order, names.len()),
        first == records_for(names, momentum, first_order),
        second == records_for(names, velocity, second_order),
        forall|i: int| 0 <= i < names.len() ==> position(names, #[trigger] names[i]) == Some(i),
    ensures
        is_plan(plan, names, sizes_for(momentum, velocity), first, second) ==> {
            &&& plan.len() == names.len()
            &&& forall|k: int|
                0 <= k < plan.len() ==> first[(#[trigger] plan[k]).first as int].values
                    == momentum[plan[k].target as int] && second[plan[k].second as int].values
                    == velocity[plan[k].target as int]
            &&& forall|t: int| 0 <= t < names.len() ==> #[trigger] restores(plan, t)
        },
{
    let sizes = sizes_for(momentum, velocity);
    if is_plan(plan, names, sizes, first, second) {
        let pairs = Seq::new(plan.len(), |k: int| (plan[k].first, plan[k].second));
        assert forall|k: int| 0 <= k < plan.len() implies first[(#[trigger] plan[k]).first as int].values
            == momentum[plan[k].target as int] && second[plan[k].second as int].values
            == velocity[plan[k].target as int] by {
            let a = plan[k];
            assert(pairs[k] == (a.first, a.second));
            let i = first_order[a.first as int] as int;
            let j = second_order[a.second as int] as int;
            assert(names_of(first)[a.first as int] == names_of(second)[a.second as int]);
            lemma_same_index(names, i, j);
            assert(position(names, names[i]) == Some(i));
        }
        assert forall|t: int| 0 <= t < names.len() implies #[trigger] restores(plan, t) by {
            assert(first_order.contains(t as usize));
            let w = choose|w: int| 0 <= w < first_order.len() && first_order[w] == t as usize;
            assert(pairs_first(pairs, w));
            let k = choose|k: int| 0 <= k < pairs.len() && (#[trigger] pairs[k]).0 == w;
            assert(plan[k].first == w);
            assert(position(names, names[t]) == Some(t));
            assert(first[w].name == names[t]);
            assert(plan[k].target == t);
        }
    }
}

} // verus!
