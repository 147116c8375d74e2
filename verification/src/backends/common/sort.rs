//! Stable index permutations for sorting rays without moving the ray data.
//!
//! One permutation serves every coordinate axis and every moment of a sweep.

use crate::float32::{
    finite, is_nan, nan, order_key, order_key_of, order_key_orders_numbers, scaled,
};
use vstd::prelude::*;

verus! {

/// Item `a` comes before item `b`: its key is smaller, or the keys are equal
/// and it stands first in the input.
pub open spec fn precedes(keys: Seq<i64>, a: usize, b: usize) -> bool {
    keys[a as int] < keys[b as int] || (keys[a as int] == keys[b as int] && a < b)
}

/// `order` lists the items in stable ascending order of their keys.
pub open spec fn is_stable_order(order: Seq<usize>, keys: Seq<i64>) -> bool {
    &&& order.len() == keys.len()
    &&& forall|i: int| 0 <= i < order.len() ==> (#[trigger] order[i]) < keys.len()
    &&& forall|i: int, j: int|
        0 <= i < j < order.len() ==> precedes(keys, #[trigger] order[i], #[trigger] order[j])
}

/// Every item occurs in a stable order exactly once.
pub proof fn stable_order_is_a_permutation(order: Seq<usize>, keys: Seq<i64>)
    requires
        is_stable_order(order, keys),
    ensures
        order.no_duplicates(),
        forall|x: usize| x < keys.len() <==> order.contains(x),
{
    assert(order.no_duplicates()) by {
        assert forall|i: int, j: int| 0 <= i < order.len() && 0 <= j < order.len() && i
            != j implies order[i] != order[j] by {
            if i < j {
                assert(precedes(keys, order[i], order[j]));
            } else {
                assert(precedes(keys, order[j], order[i]));
            }
        }
    }
    let ints = order.map(|i: int, x: usize| x as int);
    let n = keys.len() as int;
    assert(ints.no_duplicates());
    ints.unique_seq_to_set();
    let range = vstd::set_lib::set_int_range(0, n);
    vstd::set_lib::lemma_int_range(0, n);
    assert(ints.to_set().subset_of(range)) by {
        assert forall|x: int| ints.to_set().contains(x) implies range.contains(x) by {
            let i = choose|i: int| 0 <= i < ints.len() && ints[i] == x;
            assert(ints[i] == order[i]);
        }
    }
    vstd::set_lib::lemma_subset_equality(ints.to_set(), range);
    assert forall|x: usize| x < keys.len() <==> order.contains(x) by {
        if x < keys.len() {
            assert(range.contains(x as int));
            assert(ints.to_set().contains(x as int));
            let i = choose|i: int| 0 <= i < ints.len() && ints[i] == x as int;
            assert(order[i] == x);
        }
        if order.contains(x) {
            let i = choose|i: int| 0 <= i < order.len() && order[i] == x;
            assert(order[i] < keys.len());
        }
    }
}

/// Taking items in a stable order keeps each of them, as often as it occurs.
pub proof fn reordering_keeps_items<T>(items: Seq<T>, order: Seq<usize>, keys: Seq<i64>)
    requires
        is_stable_order(order, keys),
        items.len() == keys.len(),
    ensures
        Seq::new(order.len(), |k: int| items[order[k] as int]).to_multiset()
            == items.to_multiset(),
{
    let reordered = Seq::new(order.len(), |k: int| items[order[k] as int]);
    stable_order_is_a_permutation(order, keys);
    assert forall|i: int| 0 <= i < order.len() implies 0 <= #[trigger] order[i] < items.len() by {}
    let f = order.map_values(|k: usize| k as int);
    lemma_permuted_multiset(items, f);
    assert(reordered =~= Seq::new(f.len(), |k: int| items[f[k]]));
}

/// Items in an order that names each position once are the same items.
proof fn lemma_permuted_multiset<T>(items: Seq<T>, f: Seq<int>)
    requires
        f.len() == items.len(),
        forall|i: int| 0 <= i < f.len() ==> 0 <= #[trigger] f[i] < items.len(),
        f.no_duplicates(),
    ensures
        Seq::new(f.len(), |k: int| items[f[k]]).to_multiset() == items.to_multiset(),
    decreases items.len(),
{
    let taken = Seq::new(f.len(), |k: int| items[f[k]]);
    broadcast use vstd::seq_lib::group_to_multiset_ensures;
    if items.len() == 0 {
        assert(taken =~= items);
    } else {
        let n = items.len() - 1;
        let at = f.last();
        // Leave out the last position of the order, and the item that it
        // names; positions behind that item move up by one.
        let rest = items.remove(at);
        let g = Seq::new(
            n as nat,
            |k: int|
                if f[k] > at {
                    f[k] - 1
                } else {
                    f[k]
                },
        );
        assert forall|i: int| 0 <= i < g.len() implies 0 <= #[trigger] g[i] < rest.len() by {
            assert(f[i] != f[n]);
        }
        assert forall|i: int, j: int| 0 <= i < g.len() && 0 <= j < g.len() && i != j implies g[i]
            != g[j] by {
            assert(f[i] != f[j]);
            assert(f[i] != f[n]);
            assert(f[j] != f[n]);
        }
        lemma_permuted_multiset(rest, g);
        let before = Seq::new(g.len(), |k: int| rest[g[k]]);
        assert(taken.drop_last() =~= before) by {
            assert forall|k: int| 0 <= k < n implies taken[k] == before[k] by {
                assert(f[k] != f[n]);
            }
        }
        assert(taken =~= before.push(items[at]));
        assert(items =~= rest.insert(at, items[at]));
    }
}

/// Two stable orders of the same keys are the same.
pub proof fn stable_order_is_unique(a: Seq<usize>, b: Seq<usize>, keys: Seq<i64>)
    requires
        is_stable_order(a, keys),
        is_stable_order(b, keys),
    ensures
        a == b,
{
    assert forall|k: int| 0 <= k < a.len() implies a[k] == b[k] by {
        lemma_same_rank(a, b, keys, k);
    }
    assert(a =~= b);
}

/// The first `k` items of one stable order are the first `k` of the other.
proof fn lemma_same_rank(a: Seq<usize>, b: Seq<usize>, keys: Seq<i64>, k: int)
    requires
        is_stable_order(a, keys),
        is_stable_order(b, keys),
        0 <= k < a.len(),
    ensures
        a[k] == b[k],
    decreases k,
{
    assert forall|j: int| 0 <= j < k implies a[j] == b[j] by {
        lemma_same_rank(a, b, keys, j);
    }
    stable_order_is_a_permutation(a, keys);
    stable_order_is_a_permutation(b, keys);
    if a[k] != b[k] {
        // Where the other order has each item.
        assert(b.contains(a[k]) && a.contains(b[k]));
        let i = choose|i: int| 0 <= i < b.len() && b[i] == a[k];
        let j = choose|j: int| 0 <= j < a.len() && a[j] == b[k];
        assert(i > k) by {
            if i < k {
                assert(a[i] == b[i]);
                assert(precedes(keys, a[i], a[k]));
            }
        }
        assert(j > k) by {
            if j < k {
                assert(a[j] == b[j]);
                assert(precedes(keys, b[j], b[k]));
            }
        }
        assert(precedes(keys, b[k], b[i]));
        assert(precedes(keys, a[k], a[j]));
    }
}

/// `part` lists the items `lo..hi` in stable ascending order of their keys.
spec fn is_sorted_part(part: Seq<usize>, keys: Seq<i64>, lo: int, hi: int) -> bool {
    &&& part.len() == hi - lo
    &&& forall|i: int| 0 <= i < part.len() ==> lo <= #[trigger] part[i] < hi
    &&& forall|i: int, j: int|
        0 <= i < j < part.len() ==> precedes(keys, #[trigger] part[i], #[trigger] part[j])
}

fn merge(keys: &[i64], a: Vec<usize>, b: Vec<usize>, lo: usize, mid: usize, hi: usize) -> (out: Vec<
    usize,
>)
    requires
        lo <= mid <= hi <= keys@.len(),
        is_sorted_part(a@, keys@, lo as int, mid as int),
        is_sorted_part(b@, keys@, mid as int, hi as int),
    ensures
        is_sorted_part(out@, keys@, lo as int, hi as int),
{
    let mut out: Vec<usize> = Vec::with_capacity(hi - lo);
    let mut i: usize = 0;
    let mut j: usize = 0;
    while i < a.len() || j < b.len()
        invariant
            lo <= mid <= hi <= keys@.len(),
            is_sorted_part(a@, keys@, lo as int, mid as int),
            is_sorted_part(b@, keys@, mid as int, hi as int),
            i <= a@.len(),
            j <= b@.len(),
            out@.len() == i + j,
            forall|x: int| 0 <= x < out@.len() ==> lo <= #[trigger] out@[x] < hi,
            forall|x: int, y: int|
                0 <= x < y < out@.len() ==> precedes(
                    keys@,
                    #[trigger] out@[x],
                    #[trigger] out@[y],
                ),
            forall|x: int, y: int|
                0 <= x < out@.len() && i <= y < a@.len() ==> precedes(
                    keys@,
                    #[trigger] out@[x],
                    #[trigger] a@[y],
                ),
            forall|x: int, y: int|
                0 <= x < out@.len() && j <= y < b@.len() ==> precedes(
                    keys@,
                    #[trigger] out@[x],
                    #[trigger] b@[y],
                ),
        decreases a@.len() - i + b@.len() - j,
    {
        let from_a: bool = j >= b.len() || (i < a.len() && keys[a[i]] <= keys[b[j]]);
        if from_a {
            let next: usize = a[i];
            assert forall|y: int| j <= y < b@.len() implies precedes(
                keys@,
                next,
                #[trigger] b@[y],
            ) by {
                assert(a@[i as int] < mid <= b@[y]);
                if y > j {
                    assert(precedes(keys@, b@[j as int], b@[y]));
                }
            }
            out.push(next);
            i += 1;
        } else {
            let next: usize = b[j];
            assert forall|y: int| i <= y < a@.len() implies precedes(
                keys@,
                next,
                #[trigger] a@[y],
            ) by {
                if y > i {
                    assert(precedes(keys@, a@[i as int], a@[y]));
                }
            }
            out.push(next);
            j += 1;
        }
    }
    out
}

fn sort_part(keys: &[i64], lo: usize, hi: usize) -> (out: Vec<usize>)
    requires
        lo <= hi <= keys@.len(),
    ensures
        is_sorted_part(out@, keys@, lo as int, hi as int),
    decreases hi - lo,
{
    if hi - lo <= 1 {
        let mut out: Vec<usize> = Vec::new();
        if lo < hi {
            out.push(lo);
        }
        out
    } else {
        let mid: usize = lo + (hi - lo) / 2;
        let a = sort_part(keys, lo, mid);
        let b = sort_part(keys, mid, hi);
        merge(keys, a, b, lo, mid, hi)
    }
}

/// The stable ascending order of `keys`.
pub fn stable_order(keys: &[i64]) -> (order: Vec<usize>)
    ensures
        is_stable_order(order@, keys@),
{
    sort_part(keys, 0, keys.len())
}

/// A permutation of `0..items.len()` that sorts `items` by `key`, stably.
pub fn sort_indices_by_key<T, F: Fn(&T) -> i64>(items: &[T], key: F) -> (order: Vec<usize>)
    requires
        forall|i: int| 0 <= i < items@.len() ==> call_requires(key, (&#[trigger] items@[i],)),
    ensures
        exists|keys: Seq<i64>|
            {
                &&& keys.len() == items@.len()
                &&& forall|i: int|
                    0 <= i < items@.len() ==> call_ensures(
                        key,
                        (&#[trigger] items@[i],),
                        keys[i],
                    )
                &&& #[trigger] is_stable_order(order@, keys)
            },
{
    let mut keys: Vec<i64> = Vec::with_capacity(items.len());
    let mut i: usize = 0;
    while i < items.len()
        invariant
            i <= items@.len(),
            keys@.len() == i,
            forall|j: int|
                0 <= j < items@.len() ==> call_requires(key, (&#[trigger] items@[j],)),
            forall|j: int|
                0 <= j < i ==> call_ensures(key, (&#[trigger] items@[j],), keys@[j]),
        decreases items@.len() - i,
    {
        let k: i64 = key(&items[i]);
        keys.push(k);
        i += 1;
    }
    let order = stable_order(keys.as_slice());
    assert(is_stable_order(order@, keys@));
    order
}

/// Sort key of an angle given as the bit pattern of an IEEE-754 single:
/// numbers in ascending order, the two zeros equal, NaN last.
pub open spec fn angle_key(bits: u32) -> i64 {
    if nan(bits) {
        i64::MAX
    } else {
        order_key(bits) as i64
    }
}

/// See [`angle_key`].
pub fn angle_key_of(bits: u32) -> (k: i64)
    ensures
        k == angle_key(bits),
{
    if is_nan(bits) {
        i64::MAX
    } else {
        order_key_of(bits)
    }
}

/// Sort key of a ray by its angle, given as the bit pattern of an IEEE-754
/// single: rays whose angle is missing (NaN) come first, the others in
/// ascending order, the two zeros equal.
pub open spec fn ray_key(bits: u32) -> i64 {
    if nan(bits) {
        i64::MIN
    } else {
        order_key(bits) as i64
    }
}

/// See [`ray_key`].
pub fn ray_key_of(bits: u32) -> (k: i64)
    ensures
        k == ray_key(bits),
{
    if is_nan(bits) {
        i64::MIN
    } else {
        order_key_of(bits)
    }
}

/// The sort keys of rays with these angles.
pub open spec fn ray_keys(angles: Seq<u32>) -> Seq<i64> {
    angles.map_values(|bits: u32| ray_key(bits))
}

/// The sort keys of a sequence of angles.
pub open spec fn angle_keys(angles: Seq<u32>) -> Seq<i64> {
    angles.map_values(|bits: u32| angle_key(bits))
}

/// The stable ascending order of angles given as bit patterns.
pub fn angle_order(angles: &[u32]) -> (order: Vec<usize>)
    ensures
        is_stable_order(order@, angle_keys(angles@)),
{
    let mut keys: Vec<i64> = Vec::with_capacity(angles.len());
    let mut i: usize = 0;
    while i < angles.len()
        invariant
            i <= angles@.len(),
            keys@.len() == i,
            forall|j: int| 0 <= j < i ==> keys@[j] == angle_key(angles@[j]),
        decreases angles@.len() - i,
    {
        keys.push(angle_key_of(angles[i]));
        i += 1;
    }
    assert(keys@ =~= angle_keys(angles@));
    stable_order(keys.as_slice())
}

/// An ascending arrangement of angles: the same ones, each as often, smaller
/// numbers first and what is not a number last.
pub open spec fn is_ascending_arrangement(sorted: Seq<u32>, angles: Seq<u32>) -> bool {
    &&& sorted.len() == angles.len()
    &&& sorted.to_multiset() == angles.to_multiset()
    &&& forall|i: int, j: int|
        0 <= i < j < sorted.len() && finite(#[trigger] sorted[i]) && finite(#[trigger] sorted[j])
            ==> scaled(sorted[i]) <= scaled(sorted[j])
    &&& forall|i: int, j: int|
        0 <= i < j < sorted.len() && nan(#[trigger] sorted[i]) ==> nan(#[trigger] sorted[j])
}

/// Angles in the stable order of their keys are arranged by their numbers.
pub proof fn key_order_arranges_by_number(angles: Seq<u32>, order: Seq<usize>)
    requires
        is_stable_order(order, angle_keys(angles)),
    ensures
        is_ascending_arrangement(
            Seq::new(order.len(), |k: int| angles[order[k] as int]),
            angles,
        ),
{
    let keys = angle_keys(angles);
    let sorted = Seq::new(order.len(), |k: int| angles[order[k] as int]);
    reordering_keeps_items(angles, order, keys);
    assert forall|i: int, j: int| 0 <= i < j < sorted.len() implies angle_key(
        #[trigger] sorted[i],
    ) <= angle_key(#[trigger] sorted[j]) by {
        assert(precedes(keys, order[i], order[j]));
        assert(order[i] < keys.len() && order[j] < keys.len());
    }
    assert forall|i: int, j: int|
        0 <= i < j < sorted.len() && finite(#[trigger] sorted[i]) && finite(
            #[trigger] sorted[j],
        ) implies scaled(sorted[i]) <= scaled(sorted[j]) by {
        order_key_orders_numbers(sorted[i], sorted[j]);
        assert(angle_key(sorted[i]) <= angle_key(sorted[j]));
    }
    assert forall|i: int, j: int|
        0 <= i < j < sorted.len() && nan(#[trigger] sorted[i]) implies nan(
        #[trigger] sorted[j],
    ) by {
        assert(angle_key(sorted[i]) <= angle_key(sorted[j]));
    }
}

/// Ray keys put smaller numbers first, and what is not a number before them.
pub proof fn ray_keys_order_numbers(a: u32, b: u32)
    ensures
        finite(a) && finite(b) ==> (ray_key(a) <= ray_key(b) <==> scaled(a) <= scaled(b)),
        nan(a) && !nan(b) ==> ray_key(a) < ray_key(b),
{
    if finite(a) && finite(b) {
        order_key_orders_numbers(a, b);
    }
}

} // verus!
