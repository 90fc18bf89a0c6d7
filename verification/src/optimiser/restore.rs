//! Pairing the records of two checkpoint files by name.

use vstd::prelude::*;
use crate::optimiser::checkpoint::{records_view, CheckpointError, CheckpointRecord, Record};
use crate::optimiser::names::{
    has_duplicate, is_sorted_order, is_stable, le, lemma_le_antisymmetric, lemma_le_total,
    lemma_le_transitive, lemma_neighbours_decide, name_le, name_lt, same, same_names,
};

verus! {

/// The names of the records, in the order of the records.
pub open spec fn names_of(records: Seq<Record>) -> Seq<Seq<u8>> {
    Seq::new(records.len(), |i: int| records[i].name)
}

/// The names of the records, copied.
pub fn record_names(records: &Vec<CheckpointRecord>) -> (list: Vec<Vec<u8>>)
    ensures
        names_view(list@) == names_of(records_view(records@)),
{
    let mut list: Vec<Vec<u8>> = Vec::new();
    let mut i: usize = 0;
    while i < records.len()
        invariant
            i <= records.len(),
            list@.len() == i,
            forall|k: int| 0 <= k < i ==> (#[trigger] list@[k])@ == records@[k].name@,
        decreases records.len() - i,
    {
        list.push(records[i].name.clone());
        i += 1;
    }
    assert(names_view(list@) =~= names_of(records_view(records@)));
    list
}

/// The indices of the names, put in the order of the names; equal names
/// keep the order they stand in.
pub fn sorted_order(list: &Vec<Vec<u8>>) -> (order: Vec<usize>)
    ensures
        is_sorted_order(order@, names_view(list@)),
        is_stable(order@, names_view(list@)),
{
    let ghost names = names_view(list@);
    let mut order: Vec<usize> = Vec::new();
    let mut i: usize = 0;
    while i < list.len()
        invariant
            i <= list.len(),
            names == names_view(list@),
            is_sorted_order(order@, names.subrange(0, i as int)),
            is_stable(order@, names.subrange(0, i as int)),
        decreases list.len() - i,
    {
        let ghost before = order@;
        let ghost known = names.subrange(0, i as int);
        let mut pos: usize = 0;
        let mut found = false;
        while pos < order.len() && !found
            invariant
                i < list.len(),
                pos <= order.len(),
                order@ == before,
                names == names_view(list@),
                known == names.subrange(0, i as int),
                is_sorted_order(before, known),
                is_stable(before, known),
                forall|k: int| 0 <= k < pos ==> name_le(known[before[k] as int], names[i as int]),
                found ==> pos < order.len() && !name_le(
                    known[before[pos as int] as int],
                    names[i as int],
                ),
            decreases order.len() - pos + (if found { 0int } else { 1int }),
        {
            let at = order[pos];
            assert(known[at as int] == list@[at as int]@);
            if le(list[at].as_slice(), list[i].as_slice()) {
                pos += 1;
            } else {
                found = true;
            }
        }
        order.insert(pos, i);
        proof {
            let after = order@;
            let next = names.subrange(0, i + 1);
            let fresh = names[i as int];
            assert(after == before.insert(pos as int, i));
            assert forall|k: int| 0 <= k < after.len() implies (#[trigger] after[k]) < next.len()
                && next[after[k] as int] == (if k == pos {
                fresh
            } else if k < pos {
                known[before[k] as int]
            } else {
                known[before[k - 1] as int]
            }) by {
                if k < pos {
                    assert(after[k] == before[k]);
                } else if k > pos {
                    assert(after[k] == before[k - 1]);
                }
            }
            assert forall|k: int, l: int| 0 <= k < l < after.len() implies (#[trigger] after[k])
                != (#[trigger] after[l]) by {
                if k != pos && l != pos {
                    let bk = if k < pos {
                        k
                    } else {
                        k - 1
                    };
                    let bl = if l < pos {
                        l
                    } else {
                        l - 1
                    };
                    assert(before[bk] != before[bl]);
                }
            }
            assert forall|j: int| 0 <= j < next.len() implies #[trigger] after.contains(
                j as usize,
            ) by {
                if j == i {
                    assert(after[pos as int] == i);
                } else {
                    assert(before.contains(j as usize));
                    let k = choose|k: int| 0 <= k < before.len() && before[k] == j as usize;
                    if k < pos {
                        assert(after[k] == j as usize);
                    } else {
                        assert(after[k + 1] == j as usize);
                    }
                }
            }
            assert forall|k: int, l: int|
                0 <= k < l < after.len() && next[(#[trigger] after[k]) as int] == next[(
                #[trigger] after[l]) as int] implies after[k] < after[l] by {
                if l == pos {
                    assert(after[k] == before[k]);
                } else if k == pos {
                    let first_later = known[before[pos as int] as int];
                    if l - 1 > pos {
                        assert(name_le(first_later, known[before[l - 1] as int]));
                    } else {
                        crate::optimiser::names::lemma_le_reflexive(first_later);
                    }
                    assert(false);
                } else {
                    let bk = if k < pos {
                        k
                    } else {
                        k - 1
                    };
                    let bl = if l < pos {
                        l
                    } else {
                        l - 1
                    };
                    assert(before[bk] < before[bl]);
                }
            }
            assert forall|k: int, l: int| 0 <= k < l < after.len() implies name_le(
                next[(#[trigger] after[k]) as int],
                next[(#[trigger] after[l]) as int],
            ) by {
                if l == pos {
                    // an earlier name against the new one
                } else if k == pos {
                    // the new name against a later one
                    let first_later = known[before[pos as int] as int];
                    lemma_le_total(first_later, fresh);
                    if l - 1 > pos {
                        assert(name_le(first_later, known[before[l - 1] as int]));
                        lemma_le_transitive(fresh, first_later, known[before[l - 1] as int]);
                    }
                } else {
                    let bk = if k < pos {
                        k
                    } else {
                        k - 1
                    };
                    let bl = if l < pos {
                        l
                    } else {
                        l - 1
                    };
                    assert(name_le(known[before[bk] as int], known[before[bl] as int]));
                }
            }
        }
        i += 1;
    }
    assert(names.subrange(0, names.len() as int) =~= names);
    order
}

/// Whether some name is listed twice.
pub fn any_duplicate(list: &Vec<Vec<u8>>) -> (r: bool)
    ensures
        r == has_duplicate(names_view(list@)),
{
    let order = sorted_order(list);
    neighbours_equal(list, &order)
}

/// Whether some name is listed twice, given the names' sorted order.
fn neighbours_equal(list: &Vec<Vec<u8>>, order: &Vec<usize>) -> (r: bool)
    requires
        is_sorted_order(order@, names_view(list@)),
    ensures
        r == has_duplicate(names_view(list@)),
{
    let ghost names = names_view(list@);
    proof {
        lemma_neighbours_decide(order@, names);
    }
    if order.len() == 0 {
        return false;
    }
    let mut k: usize = 0;
    while k < order.len() - 1
        invariant
            order.len() > 0,
            names == names_view(list@),
            is_sorted_order(order@, names),
            forall|w: int|
                0 <= w < k && w + 1 < order@.len() ==> names[(#[trigger] order@[w]) as int]
                    != names[order@[w + 1] as int],
        decreases order.len() - k,
    {
        let a = order[k];
        let b = order[k + 1];
        assert(names[a as int] == list@[a as int]@);
        assert(names[b as int] == list@[b as int]@);
        if same(list[a].as_slice(), list[b].as_slice()) {
            return true;
        }
        k += 1;
    }
    false
}

/// Whether a pair holds `i` as the index into the first file.
pub open spec fn pairs_first(pairs: Seq<(usize, usize)>, i: int) -> bool {
    exists|k: int| 0 <= k < pairs.len() && (#[trigger] pairs[k]).0 == i
}

/// Whether a pair holds `i` as the index into the second file.
pub open spec fn pairs_second(pairs: Seq<(usize, usize)>, i: int) -> bool {
    exists|k: int| 0 <= k < pairs.len() && (#[trigger] pairs[k]).1 == i
}

/// Whether `pairs` matches the records of two files by name: each pair
/// holds the index of a record in the first file and of one with the same
/// name in the second; every record stands in one pair; and the pairs come
/// in the order of their names, no name twice.
pub open spec fn is_pairing(
    pairs: Seq<(usize, usize)>,
    first: Seq<Seq<u8>>,
    second: Seq<Seq<u8>>,
) -> bool {
    &&& pairs.len() == first.len()
    &&& pairs.len() == second.len()
    &&& forall|k: int|
        0 <= k < pairs.len() ==> {
            let p = #[trigger] pairs[k];
            p.0 < first.len() && p.1 < second.len() && first[p.0 as int] == second[p.1 as int]
        }
    &&& forall|i: int| 0 <= i < first.len() ==> #[trigger] pairs_first(pairs, i)
    &&& forall|i: int| 0 <= i < second.len() ==> #[trigger] pairs_second(pairs, i)
    &&& forall|k: int, l: int|
        0 <= k < l < pairs.len() ==> name_lt(
            first[(#[trigger] pairs[k]).0 as int],
            first[(#[trigger] pairs[l]).0 as int],
        )
}

/// A name that stands in one sorted list where another name stands in the
/// other, all names before being the same, is missing from the other list.
proof fn lemma_mismatch_is_missing(
    a: Seq<Seq<u8>>,
    oa: Seq<usize>,
    b: Seq<Seq<u8>>,
    ob: Seq<usize>,
    k: int,
)
    requires
        is_sorted_order(oa, a),
        is_sorted_order(ob, b),
        !has_duplicate(a),
        !has_duplicate(b),
        0 <= k < oa.len(),
        forall|w: int| 0 <= w < k && w < ob.len() ==> a[oa[w] as int] == b[ob[w] as int],
        k <= ob.len(),
        k < ob.len() ==> name_lt(a[oa[k] as int], b[ob[k] as int]),
    ensures
        !b.contains(a[oa[k] as int]),
        a.contains(a[oa[k] as int]),
{
    let x = a[oa[k] as int];
    assert(a[oa[k] as int] == x);
    if b.contains(x) {
        let j = choose|j: int| 0 <= j < b.len() && b[j] == x;
        assert(ob.contains(j as usize));
        let w = choose|w: int| 0 <= w < ob.len() && ob[w] == j as usize;
        if w < k {
            // the same name stands at `w` and at `k` in the first list
            let i = oa[w] as int;
            let i2 = oa[k] as int;
            assert(oa[w] != oa[k]);
            if i < i2 {
                assert(a[i] == a[i2]);
            } else {
                assert(a[i2] == a[i]);
            }
        } else {
            let y = b[ob[k] as int];
            if w > k {
                assert(name_le(y, b[ob[w] as int]));
            }
            lemma_le_antisymmetric(x, y);
        }
    }
}

/// Matches the records of two files by name.
///
/// A name that is listed twice in a file is refused, and so are files that
/// do not list the same names.
pub fn pair_records(first: &Vec<CheckpointRecord>, second: &Vec<CheckpointRecord>) -> (r: Result<
    Vec<(usize, usize)>,
    CheckpointError,
>)
    ensures
        match r {
            Ok(pairs) => {
                &&& !has_duplicate(names_of(records_view(first@)))
                &&& !has_duplicate(names_of(records_view(second@)))
                &&& same_names(names_of(records_view(first@)), names_of(records_view(second@)))
                &&& is_pairing(pairs@, names_of(records_view(first@)), names_of(records_view(second@)))
            },
            Err(e) => if has_duplicate(names_of(records_view(first@))) || has_duplicate(names_of(records_view(second@))) {
                e == CheckpointError::DuplicateName
            } else {
                e == CheckpointError::NameMismatch && !same_names(
                    names_of(records_view(first@)),
                    names_of(records_view(second@)),
                )
            },
        },
{
    let ghost a = names_of(records_view(first@));
    let ghost b = names_of(records_view(second@));
    let na = record_names(first);
    let nb = record_names(second);
    let oa = sorted_order(&na);
    let ob = sorted_order(&nb);
    if neighbours_equal(&na, &oa) || neighbours_equal(&nb, &ob) {
        return Err(CheckpointError::DuplicateName);
    }
    let mut pairs: Vec<(usize, usize)> = Vec::new();
    let mut k: usize = 0;
    while k < oa.len()
        invariant
            k <= oa.len(),
            a == names_of(records_view(first@)),
            b == names_of(records_view(second@)),
            is_sorted_order(oa@, a),
            is_sorted_order(ob@, b),
            !has_duplicate(a),
            !has_duplicate(b),
            k <= ob.len(),
            pairs@.len() == k,
            forall|w: int| 0 <= w < k ==> (#[trigger] pairs@[w]) == (oa@[w], ob@[w]),
            forall|w: int| 0 <= w < k ==> a[oa@[w] as int] == b[ob@[w] as int],
        decreases oa.len() - k,
    {
        if k >= ob.len() {
            proof {
                lemma_mismatch_is_missing(a, oa@, b, ob@, k as int);
            }
            return Err(CheckpointError::NameMismatch);
        }
        let i = oa[k];
        let j = ob[k];
        assert(a[i as int] == first@[i as int].name@);
        assert(b[j as int] == second@[j as int].name@);
        if !same(first[i].name.as_slice(), second[j].name.as_slice()) {
            proof {
                lemma_le_total(a[i as int], b[j as int]);
                if name_le(a[i as int], b[j as int]) {
                    lemma_mismatch_is_missing(a, oa@, b, ob@, k as int);
                } else {
                    lemma_mismatch_is_missing(b, ob@, a, oa@, k as int);
                }
            }
            return Err(CheckpointError::NameMismatch);
        }
        pairs.push((i, j));
        k += 1;
    }
    if k < ob.len() {
        proof {
            lemma_mismatch_is_missing(b, ob@, a, oa@, k as int);
        }
        return Err(CheckpointError::NameMismatch);
    }
    proof {
        assert forall|x: Seq<u8>| a.contains(x) <==> b.contains(x) by {
            if a.contains(x) {
                let i = choose|i: int| 0 <= i < a.len() && a[i] == x;
                assert(oa@.contains(i as usize));
                let w = choose|w: int| 0 <= w < oa@.len() && oa@[w] == i as usize;
                assert(b[ob@[w] as int] == x);
            }
            if b.contains(x) {
                let j = choose|j: int| 0 <= j < b.len() && b[j] == x;
                assert(ob@.contains(j as usize));
                let w = choose|w: int| 0 <= w < ob@.len() && ob@[w] == j as usize;
                assert(a[oa@[w] as int] == x);
            }
        }
        assert forall|i: int| 0 <= i < a.len() implies #[trigger] pairs_first(pairs@, i) by {
            assert(oa@.contains(i as usize));
            let w = choose|w: int| 0 <= w < oa@.len() && oa@[w] == i as usize;
            assert(pairs@[w].0 == i);
        }
        assert forall|j: int| 0 <= j < b.len() implies #[trigger] pairs_second(pairs@, j) by {
            assert(ob@.contains(j as usize));
            let w = choose|w: int| 0 <= w < ob@.len() && ob@[w] == j as usize;
            assert(pairs@[w].1 == j);
        }
        assert forall|w: int, l: int| 0 <= w < l < pairs@.len() implies name_lt(
            a[(#[trigger] pairs@[w]).0 as int],
            a[(#[trigger] pairs@[l]).0 as int],
        ) by {
            let i = oa@[w] as int;
            let i2 = oa@[l] as int;
            assert(pairs@[w].0 == oa@[w] && pairs@[l].0 == oa@[l]);
            assert(oa@[w] != oa@[l]);
            assert(name_le(a[i], a[i2]));
            if i < i2 {
                assert(a[i] != a[i2]);
            } else {
                assert(a[i2] != a[i]);
            }
        }
    }
    Ok(pairs)
}

/// The index of the first name from `from` on that is `x`, if there is one.
pub open spec fn position_from(names: Seq<Seq<u8>>, x: Seq<u8>, from: int) -> Option<int>
    decreases names.len() - from,
{
    if from < 0 || from >= names.len() {
        None
    } else if names[from] == x {
        Some(from)
    } else {
        position_from(names, x, from + 1)
    }
}

/// The index of the first name that is `x`, if there is one.
pub open spec fn position(names: Seq<Seq<u8>>, x: Seq<u8>) -> Option<int> {
    position_from(names, x, 0)
}

/// What `position_from` finds is an index of `x` at or after `from`, and
/// it finds one if there is one.
pub proof fn lemma_position_from(names: Seq<Seq<u8>>, x: Seq<u8>, from: int)
    requires
        0 <= from,
    ensures
        match position_from(names, x, from) {
            Some(i) => from <= i < names.len() && names[i] == x && forall|k: int|
                from <= k < i ==> names[k] != x,
            None => forall|k: int| from <= k < names.len() ==> names[k] != x,
        },
    decreases names.len() - from,
{
    if from < names.len() && names[from] != x {
        lemma_position_from(names, x, from + 1);
    }
}

/// The index of the first name that is `x`, if there is one.
pub fn find_name(names: &Vec<Vec<u8>>, x: &[u8]) -> (r: Option<usize>)
    ensures
        match r {
            Some(i) => position(names_view(names@), x@) == Some(i as int),
            None => position(names_view(names@), x@) is None,
        },
{
    let ghost all = names_view(names@);
    let mut i: usize = 0;
    while i < names.len()
        invariant
            i <= names.len(),
            all == names_view(names@),
            position(all, x@) == position_from(all, x@, i as int),
        decreases names.len() - i,
    {
        assert(all[i as int] == names@[i as int]@);
        if same(names[i].as_slice(), x) {
            return Some(i);
        }
        i += 1;
    }
    None
}

/// The names of a list, as sequences.
pub open spec fn names_view(names: Seq<Vec<u8>>) -> Seq<Seq<u8>> {
    Seq::new(names.len(), |i: int| names[i]@)
}

/// Where the numbers of one name go: the index of the state in the
/// collection, and the indices of the records in the two files.
#[derive(Clone, Copy, Debug, PartialEq, Eq)]
pub struct Assignment {
    pub target: usize,
    pub first: usize,
    pub second: usize,
}

/// Whether every record of the first file has a name of the collection.
pub open spec fn all_known(collection: Seq<Seq<u8>>, first: Seq<Record>) -> bool {
    forall|i: int| 0 <= i < first.len() ==> collection.contains(#[trigger] names_of(first)[i])
}

/// Whether the records under one name have as many numbers as the state
/// of that name has elements, for both files.
pub open spec fn fits(
    collection: Seq<Seq<u8>>,
    sizes: Seq<(usize, usize)>,
    first: Seq<Record>,
    second: Seq<Record>,
    i: int,
    j: int,
) -> bool {
    match position(collection, first[i].name) {
        Some(t) => first[i].values.len() == sizes[t].0 && second[j].values.len() == sizes[t].1,
        None => false,
    }
}

/// Whether all records fit the states they are for.
pub open spec fn all_fit(
    collection: Seq<Seq<u8>>,
    sizes: Seq<(usize, usize)>,
    first: Seq<Record>,
    second: Seq<Record>,
) -> bool {
    forall|i: int, j: int|
        0 <= i < first.len() && 0 <= j < second.len() && (#[trigger] first[i]).name == (
        #[trigger] second[j]).name ==> fits(collection, sizes, first, second, i, j)
}

/// Why the records of two files cannot be restored into a collection with
/// the given names and element counts, if they cannot: the tests are made
/// in this order.
pub open spec fn restore_fault(
    collection: Seq<Seq<u8>>,
    sizes: Seq<(usize, usize)>,
    first: Seq<Record>,
    second: Seq<Record>,
) -> Option<CheckpointError> {
    if has_duplicate(names_of(first)) || has_duplicate(names_of(second)) {
        Some(CheckpointError::DuplicateName)
    } else if !same_names(names_of(first), names_of(second)) {
        Some(CheckpointError::NameMismatch)
    } else if !all_known(collection, first) {
        Some(CheckpointError::UnknownName)
    } else if !all_fit(collection, sizes, first, second) {
        Some(CheckpointError::SizeMismatch)
    } else {
        None
    }
}

/// Whether the plan restores the records of two files into a collection:
/// there is one assignment for each record of the first file, in the order
/// of the names; it names the record of the same name in the second file
/// and the first state of that name; and the records have as many numbers
/// as the state has elements.
pub open spec fn is_plan(
    plan: Seq<Assignment>,
    collection: Seq<Seq<u8>>,
    sizes: Seq<(usize, usize)>,
    first: Seq<Record>,
    second: Seq<Record>,
) -> bool {
    &&& is_pairing(
        Seq::new(plan.len(), |k: int| (plan[k].first, plan[k].second)),
        names_of(first),
        names_of(second),
    )
    &&& forall|k: int|
        0 <= k < plan.len() ==> {
            let a = #[trigger] plan[k];
            &&& a.target < collection.len()
            &&& position(collection, first[a.first as int].name) == Some(a.target as int)
            &&& first[a.first as int].values.len() == sizes[a.target as int].0
            &&& second[a.second as int].values.len() == sizes[a.target as int].1
        }
}

/// Plans how the records of two files are restored into a collection with
/// the given names and element counts (momentum and velocity for each
/// name).
///
/// The records are paired by name, in the order of the names. The plan is
/// refused if a file lists a name twice, if the files do not list the same
/// names, if a name is not one of the collection, or if a record does not
/// have as many numbers as the state it is for.
pub fn plan_restore(
    collection: &Vec<Vec<u8>>,
    sizes: &Vec<(usize, usize)>,
    first: &Vec<CheckpointRecord>,
    second: &Vec<CheckpointRecord>,
) -> (r: Result<Vec<Assignment>, CheckpointError>)
    requires
        sizes@.len() == collection@.len(),
    ensures
        match r {
            Ok(plan) => restore_fault(
                names_view(collection@),
                sizes@,
                records_view(first@),
                records_view(second@),
            ) is None && is_plan(
                plan@,
                names_view(collection@),
                sizes@,
                records_view(first@),
                records_view(second@),
            ),
            Err(e) => restore_fault(
                names_view(collection@),
                sizes@,
                records_view(first@),
                records_view(second@),
            ) == Some(e),
        },
{
    let ghost names = names_view(collection@);
    let ghost rf = records_view(first@);
    let ghost rs = records_view(second@);
    let pairs = match pair_records(first, second) {
        Ok(pairs) => pairs,
        Err(e) => {
            return Err(e);
        },
    };
    let ghost a = names_of(records_view(first@));
    let ghost b = names_of(records_view(second@));
    // every name must be one of the collection
    let mut targets: Vec<usize> = Vec::new();
    let mut k: usize = 0;
    while k < pairs.len()
        invariant
            k <= pairs.len(),
            names == names_view(collection@),
            a == names_of(records_view(first@)),
            b == names_of(records_view(second@)),
            rf == records_view(first@),
            rs == records_view(second@),
            is_pairing(pairs@, a, b),
            !has_duplicate(a),
            !has_duplicate(b),
            same_names(a, b),
            targets@.len() == k,
            forall|w: int|
                0 <= w < k ==> position(names, a[pairs@[w].0 as int]) == Some(
                    (#[trigger] targets@[w]) as int,
                ) && targets@[w] < names.len(),
        decreases pairs.len() - k,
    {
        let p = pairs[k];
        assert(a[p.0 as int] == first@[p.0 as int].name@);
        match find_name(collection, first[p.0].name.as_slice()) {
            Some(t) => {
                proof {
                    lemma_position_from(names, a[p.0 as int], 0);
                }
                targets.push(t);
            },
            None => {
                proof {
                    lemma_position_from(names, a[p.0 as int], 0);
                    assert(!names.contains(names_of(records_view(first@))[p.0 as int]));
                }
                return Err(CheckpointError::UnknownName);
            },
        }
        k += 1;
    }
    proof {
        assert forall|i: int| 0 <= i < rf.len() implies names.contains(
            #[trigger] names_of(rf)[i],
        ) by {
            assert(pairs_first(pairs@, i));
            let w = choose|w: int| 0 <= w < pairs@.len() && (#[trigger] pairs@[w]).0 == i;
            let t = targets@[w] as int;
            lemma_position_from(names, a[i], 0);
            assert(names[t] == a[i]);
        }
    }
    // every record must fill the state it is for
    let mut plan: Vec<Assignment> = Vec::new();
    let mut k: usize = 0;
    while k < pairs.len()
        invariant
            k <= pairs.len(),
            names == names_view(collection@),
            a == names_of(records_view(first@)),
            b == names_of(records_view(second@)),
            sizes@.len() == collection@.len(),
            rf == records_view(first@),
            rs == records_view(second@),
            is_pairing(pairs@, a, b),
            !has_duplicate(a),
            !has_duplicate(b),
            same_names(a, b),
            all_known(names, rf),
            targets@.len() == pairs@.len(),
            forall|w: int|
                0 <= w < pairs@.len() ==> position(names, a[pairs@[w].0 as int]) == Some(
                    (#[trigger] targets@[w]) as int,
                ) && targets@[w] < names.len(),
            plan@.len() == k,
            forall|w: int|
                0 <= w < k ==> {
                    let x = #[trigger] plan@[w];
                    &&& x.target == targets@[w]
                    &&& x.first == pairs@[w].0
                    &&& x.second == pairs@[w].1
                    &&& rf[x.first as int].values.len() == sizes@[x.target as int].0
                    &&& rs[x.second as int].values.len() == sizes@[x.target as int].1
                },
        decreases pairs.len() - k,
    {
        let p = pairs[k];
        let t = targets[k];
        assert(a[p.0 as int] == first@[p.0 as int].name@);
        assert(b[p.1 as int] == second@[p.1 as int].name@);
        if first[p.0].values.len() != sizes[t].0 || second[p.1].values.len() != sizes[t].1 {
            proof {
                assert(rf[p.0 as int].name == rs[p.1 as int].name);
                assert(!fits(names, sizes@, rf, rs, p.0 as int, p.1 as int));
            }
            return Err(CheckpointError::SizeMismatch);
        }
        plan.push(Assignment { target: t, first: p.0, second: p.1 });
        k += 1;
    }
    proof {
        let listed = Seq::new(plan@.len(), |k: int| (plan@[k].first, plan@[k].second));
        assert(listed =~= pairs@);
        assert forall|i: int, j: int|
            0 <= i < rf.len() && 0 <= j < rs.len() && (#[trigger] rf[i]).name == (
            #[trigger] rs[j]).name implies fits(names, sizes@, rf, rs, i, j) by {
            assert(pairs_first(pairs@, i));
            let w = choose|w: int| 0 <= w < pairs@.len() && (#[trigger] pairs@[w]).0 == i;
            let j2 = pairs@[w].1 as int;
            assert(a[i] == b[j2]);
            assert(b[j] == rs[j].name);
            assert(a[i] == rf[i].name);
            if j != j2 {
                if j < j2 {
                    assert(b[j] == b[j2]);
                } else {
                    assert(b[j2] == b[j]);
                }
                assert(has_duplicate(b));
            }
            assert(plan@[w].first == i);
        }
    }
    Ok(plan)
}

} // verus!
