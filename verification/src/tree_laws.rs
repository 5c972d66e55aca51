//! What holds of every tree shape, proved over the model.

use crate::order::alike;
use crate::order::below;
use crate::order::non_decreasing;
use crate::order::strict_order;
use crate::shape::Shape;
use vstd::prelude::*;

verus! {

impl<T> Shape<T> {
    /// A leaf is one fork, one level high, and its depth is true wherever it
    /// stands.
    pub proof fn lemma_leaf(value: T)
        ensures
            forall|depth: nat|
                #![trigger Shape::leaf(value, depth)]
                Shape::leaf(value, depth).levelled(depth) && Shape::leaf(value, depth).len() == 1
                    && Shape::leaf(value, depth).height() == 1,
    {
        assert forall|depth: nat|
            #![trigger Shape::leaf(value, depth)]
            Shape::leaf(value, depth).levelled(depth) && Shape::leaf(value, depth).len() == 1
                && Shape::leaf(value, depth).height() == 1 by {
            assert(Shape::<T>::Empty.levelled(depth + 1));
            assert(Shape::<T>::Empty.len() == 0);
            assert(Shape::<T>::Empty.height() == 0);
        }
    }

    /// The traversal visits each fork once.
    pub proof fn lemma_in_order_len(self)
        ensures
            self.in_order().len() == self.len(),
        decreases self,
    {
        match self {
            Shape::Empty => {},
            Shape::Fork { left, right, .. } => {
                left.lemma_in_order_len();
                right.lemma_in_order_len();
            },
        }
    }
}

impl<T: PartialOrd> Shape<T> {
    /// The place in the traversal at which `insert` puts `v`.
    pub open spec fn slot(self, v: T) -> nat
        decreases self,
    {
        match self {
            Shape::Empty => 0,
            Shape::Fork { left, value, right, .. } => {
                if below(v, value) {
                    left.slot(v)
                } else {
                    left.len() + 1 + right.slot(v)
                }
            },
        }
    }

    /// Attaching a value adds exactly that value to the traversal, at its
    /// slot, and moves nothing else.
    pub proof fn lemma_insert_in_order(self, v: T, top: nat)
        ensures
            self.slot(v) <= self.len(),
            self.insert(v, top).len() == self.len() + 1,
            self.insert(v, top).in_order() == self.in_order().insert(self.slot(v) as int, v),
        decreases self,
    {
        match self {
            Shape::Empty => {},
            Shape::Fork { left, value, depth, right } => {
                left.lemma_in_order_len();
                right.lemma_in_order_len();
                if below(v, value) {
                    left.lemma_insert_in_order(v, depth + 1);
                } else {
                    right.lemma_insert_in_order(v, depth + 1);
                }
            },
        }
    }

    /// Attaching a value keeps every recorded depth true, and makes the shape
    /// at most one level higher.
    pub proof fn lemma_insert_levelled(self, v: T, top: nat)
        requires
            self.levelled(top),
        ensures
            self.insert(v, top).levelled(top),
            self.height() <= self.insert(v, top).height() <= self.height() + 1,
        decreases self,
    {
        match self {
            Shape::Empty => {
                assert(Shape::<T>::Empty.levelled(top + 1));
            },
            Shape::Fork { left, value, depth, right } => {
                if below(v, value) {
                    left.lemma_insert_levelled(v, depth + 1);
                } else {
                    right.lemma_insert_levelled(v, depth + 1);
                }
            },
        }
    }

    /// Attaching a value to a search tree gives a search tree.
    pub proof fn lemma_insert_search_tree(self, v: T, top: nat)
        requires
            self.is_search_tree(),
        ensures
            self.insert(v, top).is_search_tree(),
        decreases self,
    {
        match self {
            Shape::Empty => {},
            Shape::Fork { left, value, depth, right } => {
                if below(v, value) {
                    left.lemma_insert_search_tree(v, depth + 1);
                    left.lemma_insert_in_order(v, depth + 1);
                    left.lemma_in_order_len();
                } else {
                    right.lemma_insert_search_tree(v, depth + 1);
                    right.lemma_insert_in_order(v, depth + 1);
                    right.lemma_in_order_len();
                }
            },
        }
    }

    /// Under a strict order, the traversal of a search tree never steps down.
    pub proof fn lemma_search_tree_non_decreasing(self)
        requires
            strict_order::<T>(),
            self.is_search_tree(),
        ensures
            non_decreasing(self.in_order()),
        decreases self,
    {
        match self {
            Shape::Empty => {},
            Shape::Fork { left, value, right, .. } => {
                left.lemma_search_tree_non_decreasing();
                right.lemma_search_tree_non_decreasing();
            },
        }
    }

    /// Whatever the values and the order they come in, the tree grown from
    /// them is a search tree with true depths, holds each of them once, and,
    /// under a strict order, its traversal never steps down.
    pub proof fn lemma_grown(vs: Seq<T>)
        ensures
            Self::grown(vs).is_search_tree(),
            Self::grown(vs).levelled(1),
            Self::grown(vs).len() == vs.len(),
            Self::grown(vs).in_order().to_multiset() == vs.to_multiset(),
            strict_order::<T>() ==> non_decreasing(Self::grown(vs).in_order()),
        decreases vs.len(),
    {
        if vs.len() == 0 {
            assert(Self::grown(vs).in_order() =~= vs);
        } else {
            let before = Self::grown(vs.drop_last());
            Self::lemma_grown(vs.drop_last());
            before.lemma_insert_search_tree(vs.last(), 1);
            before.lemma_insert_levelled(vs.last(), 1);
            before.lemma_insert_in_order(vs.last(), 1);
            before.lemma_in_order_len();
            vstd::seq_lib::to_multiset_insert(before.in_order(), before.slot(vs.last()) as int, vs.last());
            assert(vs =~= vs.drop_last().push(vs.last()));
            vstd::seq_lib::to_multiset_build(vs.drop_last(), vs.last());
            if strict_order::<T>() {
                Self::grown(vs).lemma_search_tree_non_decreasing();
            }
        }
    }

    /// A search hit is a fork whose value matches the one looked for.
    pub proof fn lemma_find_matches(self, v: T)
        ensures
            self.find(v) matches Some(s) ==> s matches Shape::Fork { value, .. } && alike(v, value),
        decreases self,
    {
        match self {
            Shape::Empty => {},
            Shape::Fork { left, right, .. } => {
                left.lemma_find_matches(v);
                right.lemma_find_matches(v);
            },
        }
    }

    /// A search misses exactly when no value in the tree matches.
    pub proof fn lemma_find_none(self, v: T)
        ensures
            self.find(v) is None <==> forall|i: int|
                0 <= i < self.in_order().len() ==> !alike(v, #[trigger] self.in_order()[i]),
        decreases self,
    {
        match self {
            Shape::Empty => {},
            Shape::Fork { left, value, right, .. } => {
                left.lemma_find_none(v);
                right.lemma_find_none(v);
                let l = left.in_order();
                let r = right.in_order();
                let s = self.in_order();
                assert(s[l.len() as int] == value);
                if self.find(v) is Some && !alike(v, value) {
                    if left.find(v) is Some {
                        let i = choose|i: int| 0 <= i < l.len() && alike(v, #[trigger] l[i]);
                        assert(alike(v, s[i]));
                    } else {
                        let i = choose|i: int| 0 <= i < r.len() && alike(v, #[trigger] r[i]);
                        assert(alike(v, s[i + l.len() + 1]));
                    }
                }
            },
        }
    }

    /// In the tree grown from `vs`, a search for `v` misses exactly when no
    /// value of `vs` matches `v`.
    pub proof fn lemma_grown_find(vs: Seq<T>, v: T)
        ensures
            Self::grown(vs).find(v) is None <==> forall|i: int|
                0 <= i < vs.len() ==> !alike(v, #[trigger] vs[i]),
    {
        let tree = Self::grown(vs);
        let held = tree.in_order();
        Self::lemma_grown(vs);
        tree.lemma_find_none(v);
        if tree.find(v) is None {
            assert forall|i: int| 0 <= i < vs.len() implies !alike(v, #[trigger] vs[i]) by {
                vstd::seq_lib::to_multiset_contains(vs, vs[i]);
                vstd::seq_lib::to_multiset_contains(held, vs[i]);
                assert(held.contains(vs[i]));
            }
        } else {
            let j = choose|j: int| 0 <= j < held.len() && alike(v, #[trigger] held[j]);
            vstd::seq_lib::to_multiset_contains(vs, held[j]);
            vstd::seq_lib::to_multiset_contains(held, held[j]);
            assert(vs.contains(held[j]));
        }
    }

    /// A value that matches itself is found once it has been attached.
    pub proof fn lemma_find_inserted(self, v: T, top: nat)
        requires
            alike(v, v),
        ensures
            self.insert(v, top).find(v) is Some,
        decreases self,
    {
        match self {
            Shape::Empty => {},
            Shape::Fork { left, value, depth, right } => {
                if below(v, value) {
                    left.lemma_find_inserted(v, depth + 1);
                } else {
                    right.lemma_find_inserted(v, depth + 1);
                }
            },
        }
    }
}

} // verus!
