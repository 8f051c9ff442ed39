//! Stable ordering by a number.

use vstd::prelude::*;

verus! {

/// Item `i` comes before item `j`: its key is smaller, or the keys are equal
/// and it stands first.
pub open spec fn comes_before(keys: Seq<u64>, i: int, j: int) -> bool {
    keys[i] < keys[j] || (keys[i] == keys[j] && i < j)
}

/// `order` lists items in the order of `comes_before`.
pub open spec fn is_ordered(keys: Seq<u64>, order: Seq<usize>) -> bool {
    forall|a: int, b: int|
        0 <= a < b < order.len() ==> comes_before(
            keys,
            #[trigger] order[a] as int,
            #[trigger] order[b] as int,
        )
}

/// `order` lists every item once, in the order of `comes_before`. There is only
/// one such list.
pub open spec fn is_stable_order(keys: Seq<u64>, order: Seq<usize>) -> bool {
    &&& order.len() == keys.len()
    &&& forall|a: int| 0 <= a < order.len() ==> (#[trigger] order[a]) < keys.len()
    &&& is_ordered(keys, order)
}

/// All items of `order` are in `lo .. hi`.
pub open spec fn within(order: Seq<usize>, lo: int, hi: int) -> bool {
    forall|a: int| 0 <= a < order.len() ==> lo <= #[trigger] order[a] < hi
}

/// An ordered list behind which every item still to come belongs.
spec fn precedes_rest(keys: Seq<u64>, out: Seq<usize>, rest: Seq<usize>, from: int) -> bool {
    forall|a: int, b: int|
        0 <= a < out.len() && from <= b < rest.len() ==> comes_before(
            keys,
            #[trigger] out[a] as int,
            #[trigger] rest[b] as int,
        )
}

fn merge(keys: &[u64], left: Vec<usize>, right: Vec<usize>, Ghost(mid): Ghost<int>) -> (out: Vec<
    usize,
>)
    requires
        is_ordered(keys@, left@),
        is_ordered(keys@, right@),
        within(left@, 0, mid),
        within(right@, mid, keys@.len() as int),
        mid <= keys@.len(),
        left@.len() + right@.len() <= usize::MAX,
    ensures
        is_ordered(keys@, out@),
        out@.len() == left@.len() + right@.len(),
        forall|a: int|
            0 <= a < out@.len() ==> left@.contains(#[trigger] out@[a]) || right@.contains(out@[a]),
{
    let mut out: Vec<usize> = Vec::new();
    let mut i: usize = 0;
    let mut j: usize = 0;
    while i < left.len() || j < right.len()
        invariant
            i <= left@.len(),
            j <= right@.len(),
            out@.len() == i + j,
            left@.len() + right@.len() <= usize::MAX,
            is_ordered(keys@, left@),
            is_ordered(keys@, right@),
            within(left@, 0, mid),
            within(right@, mid, keys@.len() as int),
            mid <= keys@.len(),
            is_ordered(keys@, out@),
            precedes_rest(keys@, out@, left@, i as int),
            precedes_rest(keys@, out@, right@, j as int),
            forall|a: int|
                0 <= a < out@.len() ==> left@.contains(#[trigger] out@[a]) || right@.contains(
                    out@[a],
                ),
        decreases left.len() + right.len() - i - j,
    {
        let take_left: bool = if i >= left.len() {
            false
        } else if j >= right.len() {
            true
        } else {
            assert(left@[i as int] < mid <= right@[j as int] < keys@.len());
            keys[left[i]] <= keys[right[j]]
        };
        let ghost before = out@;
        if take_left {
            assert(left@.contains(left@[i as int]));
            out.push(left[i]);
            proof {
                if j < right@.len() {
                    assert forall|b: int| j <= b < right@.len() implies comes_before(
                        keys@,
                        left@[i as int] as int,
                        #[trigger] right@[b] as int,
                    ) by {
                        assert(left@[i as int] < mid <= right@[b]);
                        if b > j {
                            assert(comes_before(
                                keys@,
                                right@[j as int] as int,
                                right@[b] as int,
                            ));
                        }
                    }
                }
            }
            i = i + 1;
        } else {
            assert(right@.contains(right@[j as int]));
            out.push(right[j]);
            proof {
                if i < left@.len() {
                    assert forall|b: int| i <= b < left@.len() implies comes_before(
                        keys@,
                        right@[j as int] as int,
                        #[trigger] left@[b] as int,
                    ) by {
                        if b > i {
                            assert(comes_before(
                                keys@,
                                left@[i as int] as int,
                                left@[b] as int,
                            ));
                        }
                    }
                }
            }
            j = j + 1;
        }
        assert(out@.drop_last() =~= before);
    }
    out
}

fn order_range(keys: &[u64], lo: usize, hi: usize) -> (out: Vec<usize>)
    requires
        lo <= hi <= keys@.len(),
    ensures
        is_ordered(keys@, out@),
        within(out@, lo as int, hi as int),
        out@.len() == hi - lo,
    decreases hi - lo,
{
    if hi - lo == 0 {
        return Vec::new();
    }
    if hi - lo == 1 {
        return vec![lo];
    }
    let mid: usize = lo + (hi - lo) / 2;
    let left: Vec<usize> = order_range(keys, lo, mid);
    let right: Vec<usize> = order_range(keys, mid, hi);
    let out: Vec<usize> = merge(keys, left, right, Ghost(mid as int));
    assert forall|a: int| 0 <= a < out@.len() implies lo <= #[trigger] out@[a] < hi by {
        if left@.contains(out@[a]) {
            let b = choose|b: int| 0 <= b < left@.len() && left@[b] == out@[a];
            assert(lo <= left@[b] < mid);
        } else {
            let b = choose|b: int| 0 <= b < right@.len() && right@[b] == out@[a];
            assert(mid <= right@[b] < hi);
        }
    }
    out
}

/// The places of the items in increasing order of their keys; items with equal
/// keys keep their order.
pub fn stable_order(keys: &[u64]) -> (order: Vec<usize>)
    ensures
        is_stable_order(keys@, order@),
{
    order_range(keys, 0, keys.len())
}

/// In a stable order no item occurs twice.
pub proof fn law_order_repeats_nothing(keys: Seq<u64>, order: Seq<usize>, a: int, b: int)
    requires
        is_stable_order(keys, order),
        0 <= a < b < order.len(),
    ensures
        order[a] != order[b],
        keys[order[a] as int] <= keys[order[b] as int],
{
    assert(comes_before(keys, order[a] as int, order[b] as int));
}

/// In a stable order every item occurs.
pub proof fn law_order_omits_nothing(keys: Seq<u64>, order: Seq<usize>, i: int)
    requires
        is_stable_order(keys, order),
        0 <= i < keys.len(),
    ensures
        exists|a: int| 0 <= a < order.len() && #[trigger] order[a] == i,
{
    let n = keys.len();
    let places = Seq::new(order.len(), |a: int| order[a] as int);
    assert forall|a: int, b: int|
        0 <= a < places.len() && 0 <= b < places.len() && a != b implies places[a] != places[b] by {
        if a < b {
            law_order_repeats_nothing(keys, order, a, b);
        } else {
            law_order_repeats_nothing(keys, order, b, a);
        }
    }
    assert(places.no_duplicates());
    let all = vstd::set_lib::set_int_range(0, n as int);
    vstd::set_lib::lemma_int_range(0, n as int);
    places.unique_seq_to_set();
    assert(places.to_set().subset_of(all)) by {
        assert forall|x: int| places.to_set().contains(x) implies all.contains(x) by {
            let a = choose|a: int| 0 <= a < places.len() && places[a] == x;
            assert(order[a] < keys.len());
        }
    }
    vstd::set_lib::lemma_subset_equality(places.to_set(), all);
    assert(places.to_set().contains(i));
    let a = choose|a: int| 0 <= a < places.len() && places[a] == i;
    assert(order[a] == i);
}

} // verus!
