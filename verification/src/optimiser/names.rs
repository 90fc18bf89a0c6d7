//! The order of names, and lists of names put in that order.

use vstd::prelude::*;

verus! {

/// Whether `a` comes before `b`, or is `b`, in the order of a dictionary:
/// from index `from` on, the first byte in which they differ is smaller in
/// `a`, or `a` ends first.
pub open spec fn name_le_from(a: Seq<u8>, b: Seq<u8>, from: int) -> bool
    decreases a.len() - from,
{
    if from < 0 || from >= a.len() {
        true
    } else if from >= b.len() {
        false
    } else if a[from] != b[from] {
        a[from] < b[from]
    } else {
        name_le_from(a, b, from + 1)
    }
}

/// Whether `a` comes before `b`, or is `b`, in the order of a dictionary.
pub open spec fn name_le(a: Seq<u8>, b: Seq<u8>) -> bool {
    name_le_from(a, b, 0)
}

/// Whether `a` comes before `b` in the order of a dictionary.
pub open spec fn name_lt(a: Seq<u8>, b: Seq<u8>) -> bool {
    name_le(a, b) && a != b
}

/// Whether two names of the list are the same.
pub open spec fn has_duplicate(names: Seq<Seq<u8>>) -> bool {
    exists|i: int, j: int| 0 <= i < j < names.len() && #[trigger] names[i] == #[trigger] names[j]
}

/// Whether both lists hold the same names.
pub open spec fn same_names(a: Seq<Seq<u8>>, b: Seq<Seq<u8>>) -> bool {
    forall|x: Seq<u8>| a.contains(x) <==> b.contains(x)
}

/// Whether `order` lists every index of `names` once, such that the names
/// come in the order of a dictionary.
pub open spec fn is_sorted_order(order: Seq<usize>, names: Seq<Seq<u8>>) -> bool {
    &&& order.len() == names.len()
    &&& names.len() <= usize::MAX
    &&& forall|k: int| 0 <= k < order.len() ==> (#[trigger] order[k]) < names.len()
    &&& forall|k: int, l: int|
        0 <= k < l < order.len() ==> (#[trigger] order[k]) != (#[trigger] order[l])
    &&& forall|j: int| 0 <= j < names.len() ==> #[trigger] order.contains(j as usize)
    &&& forall|k: int, l: int|
        0 <= k < l < order.len() ==> name_le(
            names[(#[trigger] order[k]) as int],
            names[(#[trigger] order[l]) as int],
        )
}

/// Whether equal names keep, in `order`, the order they stand in.
pub open spec fn is_stable(order: Seq<usize>, names: Seq<Seq<u8>>) -> bool {
    forall|k: int, l: int|
        0 <= k < l < order.len() && names[(#[trigger] order[k]) as int] == names[(
        #[trigger] order[l]) as int] ==> order[k] < order[l]
}

proof fn lemma_le_total_from(a: Seq<u8>, b: Seq<u8>, from: int)
    requires
        0 <= from,
    ensures
        name_le_from(a, b, from) || name_le_from(b, a, from),
    decreases a.len() - from,
{
    if from < a.len() && from < b.len() && a[from] == b[from] {
        lemma_le_total_from(a, b, from + 1);
    }
}

proof fn lemma_le_antisymmetric_from(a: Seq<u8>, b: Seq<u8>, from: int)
    requires
        0 <= from,
        name_le_from(a, b, from),
        name_le_from(b, a, from),
        from <= a.len(),
        from <= b.len(),
        forall|i: int| 0 <= i < from ==> a[i] == b[i],
    ensures
        a == b,
    decreases a.len() - from,
{
    if from < a.len() {
        lemma_le_antisymmetric_from(a, b, from + 1);
    } else {
        assert(a =~= b);
    }
}

proof fn lemma_le_transitive_from(a: Seq<u8>, b: Seq<u8>, c: Seq<u8>, from: int)
    requires
        0 <= from,
        name_le_from(a, b, from),
        name_le_from(b, c, from),
    ensures
        name_le_from(a, c, from),
    decreases a.len() - from,
{
    if from < a.len() && from < b.len() && from < c.len() && a[from] == b[from] && b[from]
        == c[from] {
        lemma_le_transitive_from(a, b, c, from + 1);
    }
}

/// Every name comes before or is itself.
pub proof fn lemma_le_reflexive(a: Seq<u8>)
    ensures
        name_le(a, a),
{
    lemma_le_total(a, a);
}

/// Of two names, one comes before the other or is the other.
pub proof fn lemma_le_total(a: Seq<u8>, b: Seq<u8>)
    ensures
        name_le(a, b) || name_le(b, a),
{
    lemma_le_total_from(a, b, 0);
}

/// Two names that each come before or are the other are the same name.
pub proof fn lemma_le_antisymmetric(a: Seq<u8>, b: Seq<u8>)
    requires
        name_le(a, b),
        name_le(b, a),
    ensures
        a == b,
{
    lemma_le_antisymmetric_from(a, b, 0);
}

/// The order of names is transitive.
pub proof fn lemma_le_transitive(a: Seq<u8>, b: Seq<u8>, c: Seq<u8>)
    requires
        name_le(a, b),
        name_le(b, c),
    ensures
        name_le(a, c),
{
    lemma_le_transitive_from(a, b, c, 0);
}

/// Whether `a` comes before `b`, or is `b`, in the order of a dictionary.
pub fn le(a: &[u8], b: &[u8]) -> (r: bool)
    ensures
        r == name_le(a@, b@),
{
    let mut i: usize = 0;
    while i < a.len()
        invariant
            i <= a.len(),
            name_le(a@, b@) == name_le_from(a@, b@, i as int),
        decreases a.len() - i,
    {
        if i >= b.len() {
            return false;
        }
        if a[i] != b[i] {
            return a[i] < b[i];
        }
        i += 1;
    }
    true
}

/// Whether both names are the same.
pub fn same(a: &[u8], b: &[u8]) -> (r: bool)
    ensures
        r == (a@ == b@),
{
    if a.len() != b.len() {
        return false;
    }
    let mut i: usize = 0;
    while i < a.len()
        invariant
            i <= a.len(),
            a.len() == b.len(),
            forall|k: int| 0 <= k < i ==> a@[k] == b@[k],
        decreases a.len() - i,
    {
        if a[i] != b[i] {
            return false;
        }
        i += 1;
    }
    assert(a@ =~= b@);
    true
}

/// In a sorted order without two equal neighbours no name occurs twice,
/// and with two equal neighbours one does.
pub proof fn lemma_neighbours_decide(order: Seq<usize>, names: Seq<Seq<u8>>)
    requires
        is_sorted_order(order, names),
    ensures
        has_duplicate(names) <==> exists|k: int|
            0 <= k && k + 1 < order.len() && names[(#[trigger] order[k]) as int]
                == names[order[k + 1] as int],
{
    if has_duplicate(names) {
        let (i, j) = choose|i: int, j: int|
            0 <= i < j < names.len() && #[trigger] names[i] == #[trigger] names[j];
        assert(order.contains(i as usize));
        assert(order.contains(j as usize));
        let k = choose|k: int| 0 <= k < order.len() && order[k] == i as usize;
        let l = choose|l: int| 0 <= l < order.len() && order[l] == j as usize;
        assert(order[k] == i as usize && order[l] == j as usize);
        assert(k != l);
        let lo = if k < l {
            k
        } else {
            l
        };
        let hi = if k < l {
            l
        } else {
            k
        };
        assert(lo < hi);
        assert(names[order[lo] as int] == names[order[hi] as int]);
        if lo + 1 < hi {
            let mid = names[order[lo + 1] as int];
            assert(name_le(names[order[lo] as int], mid));
            assert(name_le(mid, names[order[hi] as int]));
            lemma_le_antisymmetric(names[order[lo] as int], mid);
        }
        assert(names[order[lo] as int] == names[order[lo + 1] as int]);
    }
    if exists|k: int|
        0 <= k && k + 1 < order.len() && names[(#[trigger] order[k]) as int]
            == names[order[k + 1] as int] {
        let k = choose|k: int|
            0 <= k && k + 1 < order.len() && names[(#[trigger] order[k]) as int]
                == names[order[k + 1] as int];
        let i = order[k] as int;
        let j = order[k + 1] as int;
        assert(order[k] != order[k + 1]);
        if i < j {
            assert(names[i] == names[j]);
        } else {
            assert(names[j] == names[i]);
        }
    }
}

} // verus!
