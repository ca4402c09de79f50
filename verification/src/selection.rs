//! Picking the largest element of a slice under its partial order.

use vstd::prelude::*;
use vstd::std_specs::cmp::PartialOrdIs;
use vstd::std_specs::cmp::PartialOrdSpec;

verus! {

/// Whether comparing two values of `T` gives what the order's specification
/// says. It holds of the integer types.
pub open spec fn order_is_specified<T: PartialOrd>() -> bool {
    T::obeys_partial_cmp_spec()
}

/// Whether `x` is strictly greater than `y` in the order of `T`.
pub open spec fn exceeds<T: PartialOrd>(x: T, y: T) -> bool {
    x.is_gt(&y)
}

/// The position that a left-to-right scan of the first `n` elements of `s`
/// ends on: it starts at position 0 and moves to a later position exactly
/// when the element there is strictly greater than the one it holds.
pub open spec fn scan_position<T: PartialOrd>(s: Seq<T>, n: int) -> int
    decreases n,
{
    if n <= 1 {
        0
    } else {
        let held = scan_position(s, n - 1);
        if exceeds(s[n - 1], s[held]) {
            n - 1
        } else {
            held
        }
    }
}

/// The scan always ends inside the part it has looked at.
pub proof fn lemma_scan_position_in_range<T: PartialOrd>(s: Seq<T>, n: int)
    requires
        1 <= n,
    ensures
        0 <= scan_position(s, n) < n,
    decreases n,
{
    if n > 1 {
        lemma_scan_position_in_range(s, n - 1);
    }
}

/// Whether "strictly greater" on `T` is transitive and never holds of a
/// value and itself.
pub open spec fn greater_is_strict<T: PartialOrd>() -> bool {
    &&& forall|x: T| !#[trigger] exceeds(x, x)
    &&& forall|x: T, y: T, z: T|
        #[trigger] exceeds(x, y) && #[trigger] exceeds(y, z) ==> exceeds(x, z)
}

/// Whether, in addition, any two different values of `T` are ordered one
/// way or the other.
pub open spec fn greater_is_total<T: PartialOrd>() -> bool {
    &&& greater_is_strict::<T>()
    &&& forall|x: T, y: T| x != y ==> #[trigger] exceeds(x, y) || exceeds(y, x)
}

/// Under a strict order, no element that the scan has looked at is greater
/// than the one it ends on.
pub proof fn lemma_scan_position_unbeaten<T: PartialOrd>(s: Seq<T>, n: int)
    requires
        greater_is_strict::<T>(),
        1 <= n <= s.len(),
    ensures
        forall|j: int| 0 <= j < n ==> !exceeds(#[trigger] s[j], s[scan_position(s, n)]),
    decreases n,
{
    if n > 1 {
        lemma_scan_position_unbeaten(s, n - 1);
        lemma_scan_position_in_range(s, n - 1);
    }
}

/// Under a total order, the scan ends on the first of the greatest
/// elements: it is strictly greater than every element before it, and every
/// element after it is equal to it or smaller.
pub proof fn lemma_scan_position_first_greatest<T: PartialOrd>(s: Seq<T>, n: int)
    requires
        greater_is_total::<T>(),
        1 <= n <= s.len(),
    ensures
        forall|j: int|
            0 <= j < scan_position(s, n) ==> exceeds(s[scan_position(s, n)], #[trigger] s[j]),
        forall|j: int|
            scan_position(s, n) < j < n ==> #[trigger] s[j] == s[scan_position(s, n)] || exceeds(
                s[scan_position(s, n)],
                s[j],
            ),
    decreases n,
{
    if n > 1 {
        lemma_scan_position_first_greatest(s, n - 1);
        lemma_scan_position_in_range(s, n - 1);
    }
}

/// On machine integers the order is the usual total one, so `largest`
/// returns the maximum.
pub proof fn lemma_integers_totally_ordered()
    ensures
        order_is_specified::<i32>() && greater_is_total::<i32>(),
        order_is_specified::<u32>() && greater_is_total::<u32>(),
        order_is_specified::<i64>() && greater_is_total::<i64>(),
        order_is_specified::<u64>() && greater_is_total::<u64>(),
        order_is_specified::<usize>() && greater_is_total::<usize>(),
        order_is_specified::<u8>() && greater_is_total::<u8>(),
{
}

/// A reference to the largest element of a non-empty slice; of several
/// equally large ones, to the first.
///
/// The element is the one that `scan_position` ends on, whenever the
/// comparison of `T` behaves as its specification says.
pub fn largest<T: PartialOrd>(list: &[T]) -> (r: &T)
    requires
        list@.len() > 0,
    ensures
        exists|k: int| 0 <= k < list@.len() && *r == list@[k],
        order_is_specified::<T>() ==> *r == list@[scan_position(list@, list@.len() as int)],
{
    let mut largest = &list[0];
    let mut i: usize = 1;
    while i < list.len()
        invariant
            1 <= i <= list@.len(),
            exists|k: int| 0 <= k < i && *largest == list@[k],
            order_is_specified::<T>() ==> *largest == list@[scan_position(list@, i as int)],
        decreases list@.len() - i,
    {
        let item = &list[i];
        if item > largest {
            largest = item;
        }
        i += 1;
    }
    largest
}

} // verus!
