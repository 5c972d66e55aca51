//! The comparisons that the tree performs on its element type, as relations.

use core::cmp::Ordering;
use vstd::prelude::*;
use vstd::std_specs::cmp::PartialEqSpec;
use vstd::std_specs::cmp::PartialOrdSpec;

verus! {

/// `a` is strictly below `b`: what `a < b` computes on `T`.
pub open spec fn below<T: PartialOrd>(a: T, b: T) -> bool {
    a.partial_cmp_spec(&b) == Some(Ordering::Less)
}

/// `a` matches `b`: what `a == b` computes on `T`.
pub open spec fn alike<T: PartialEq>(a: T, b: T) -> bool {
    a.eq_spec(&b)
}

/// `<` on `T` is a strict order: nothing is below what is below it, and
/// `below` is transitive.
pub open spec fn strict_order<T: PartialOrd>() -> bool {
    &&& forall|a: T, b: T| #[trigger] below(a, b) ==> !below(b, a)
    &&& forall|a: T, b: T, c: T| #[trigger] below(a, b) && #[trigger] below(b, c) ==> below(a, c)
}

/// No element of `s` is strictly below an element that stands before it.
pub open spec fn non_decreasing<T: PartialOrd>(s: Seq<T>) -> bool {
    forall|i: int, j: int| 0 <= i < j < s.len() ==> !below(#[trigger] s[j], #[trigger] s[i])
}

} // verus!
