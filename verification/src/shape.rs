//! The mathematical model of the tree: its shape, with the value and the
//! depth recorded at each node.

use crate::order::alike;
use crate::order::below;
use vstd::prelude::*;

verus! {

/// A binary tree of values, each fork recording the depth it was attached at.
pub enum Shape<T> {
    Empty,
    Fork { left: Box<Shape<T>>, value: T, depth: nat, right: Box<Shape<T>> },
}

impl<T> Shape<T> {
    /// A single fork without children.
    pub open spec fn leaf(value: T, depth: nat) -> Shape<T> {
        Shape::Fork { left: Box::new(Shape::Empty), value, depth, right: Box::new(Shape::Empty) }
    }

    /// The number of forks.
    pub open spec fn len(self) -> nat
        decreases self,
    {
        match self {
            Shape::Empty => 0,
            Shape::Fork { left, right, .. } => left.len() + 1 + right.len(),
        }
    }

    /// The number of forks on the longest path from the top downwards.
    pub open spec fn height(self) -> nat
        decreases self,
    {
        match self {
            Shape::Empty => 0,
            Shape::Fork { left, right, .. } => {
                let l = left.height();
                let r = right.height();
                if l < r {
                    r + 1
                } else {
                    l + 1
                }
            },
        }
    }

    /// The values from left to right: left subtree, fork, right subtree.
    pub open spec fn in_order(self) -> Seq<T>
        decreases self,
    {
        match self {
            Shape::Empty => Seq::empty(),
            Shape::Fork { left, value, right, .. } => left.in_order().push(value) + right.in_order(),
        }
    }

    /// The recorded depths are the true ones, counted from `top` at the root.
    pub open spec fn levelled(self, top: nat) -> bool
        decreases self,
    {
        match self {
            Shape::Empty => true,
            Shape::Fork { left, depth, right, .. } => {
                &&& depth == top
                &&& left.levelled(top + 1)
                &&& right.levelled(top + 1)
            },
        }
    }
}

impl<T: PartialOrd> Shape<T> {
    /// The shape after attaching `v`: strictly smaller values descend to the
    /// left, all others (ties too) to the right, and the new fork stands at the
    /// first empty place, one deeper than its parent. `top` is the depth given
    /// to a fork that replaces the whole of an empty shape.
    pub open spec fn insert(self, v: T, top: nat) -> Shape<T>
        decreases self,
    {
        match self {
            Shape::Empty => Shape::leaf(v, top),
            Shape::Fork { left, value, depth, right } => {
                if below(v, value) {
                    Shape::Fork { left: Box::new(left.insert(v, depth + 1)), value, depth, right }
                } else {
                    Shape::Fork { left, value, depth, right: Box::new(right.insert(v, depth + 1)) }
                }
            },
        }
    }

    /// The subtree at the first fork whose value matches `v`, looking at a
    /// fork first, then through its left subtree, then through its right one.
    pub open spec fn find(self, v: T) -> Option<Shape<T>>
        decreases self,
    {
        match self {
            Shape::Empty => None,
            Shape::Fork { left, value, right, .. } => {
                if alike(v, value) {
                    Some(self)
                } else if left.find(v) is Some {
                    left.find(v)
                } else {
                    right.find(v)
                }
            },
        }
    }

    /// Every value in a left subtree is strictly below the fork's value, and
    /// no value in a right subtree is.
    pub open spec fn is_search_tree(self) -> bool
        decreases self,
    {
        match self {
            Shape::Empty => true,
            Shape::Fork { left, value, right, .. } => {
                &&& forall|i: int| 0 <= i < left.in_order().len() ==> below(#[trigger] left.in_order()[i], value)
                &&& forall|i: int| 0 <= i < right.in_order().len() ==> !below(#[trigger] right.in_order()[i], value)
                &&& left.is_search_tree()
                &&& right.is_search_tree()
            },
        }
    }

    /// The shape grown from the empty one by attaching the values of `vs` in
    /// turn, the root at depth 1.
    pub open spec fn grown(vs: Seq<T>) -> Shape<T>
        decreases vs.len(),
    {
        if vs.len() == 0 {
            Shape::Empty
        } else {
            Self::grown(vs.drop_last()).insert(vs.last(), 1)
        }
    }
}

} // verus!
