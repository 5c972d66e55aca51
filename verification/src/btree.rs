//! An unbalanced binary search tree whose nodes own their children.

use crate::order::alike;
use crate::order::non_decreasing;
use crate::order::strict_order;
use crate::shape::Shape;
use vstd::prelude::*;
use vstd::std_specs::cmp::PartialEqSpec;
use vstd::std_specs::cmp::PartialOrdSpec;

verus! {

/// A node of the tree: a value, the depth it was attached at, and the two
/// subtrees it owns.
#[derive(Debug)]
pub struct Node<T> {
    data: T,
    lvl: usize,
    left: Option<Box<Node<T>>>,
    right: Option<Box<Node<T>>>,
}

impl<T> Node<T> {
    /// The shape below an owning link.
    spec fn link_shape(link: Option<Box<Node<T>>>) -> Shape<T>
        decreases link,
    {
        match link {
            None => Shape::Empty,
            Some(node) => node.shape(),
        }
    }

    /// The shape of the subtree that starts at this node.
    spec fn shape(self) -> Shape<T>
        decreases self,
    {
        Shape::Fork {
            left: Box::new(Self::link_shape(self.left)),
            value: self.data,
            depth: self.lvl as nat,
            right: Box::new(Self::link_shape(self.right)),
        }
    }

    /// A node without children, holding `data` at depth `lvl`.
    pub fn new(data: T, lvl: usize) -> (node: Self)
        ensures
            node@ == Shape::leaf(data, lvl as nat),
    {
        Self { data, lvl, left: None, right: None }
    }

    /// The value held.
    pub fn data(&self) -> (r: &T)
        ensures
            self@ is Fork,
            *r == self@->value,
    {
        &self.data
    }

    /// The depth recorded when the node was attached; the root has depth 1.
    pub fn lvl(&self) -> (r: usize)
        ensures
            self@ is Fork,
            r == self@->depth,
    {
        self.lvl
    }

    /// The root of the left subtree, if there is one.
    pub fn left(&self) -> (r: Option<&Node<T>>)
        ensures
            self@ is Fork,
            match r {
                Some(child) => child@ == *self@->left,
                None => *self@->left is Empty,
            },
    {
        match &self.left {
            Some(child) => Some(&**child),
            None => None,
        }
    }

    /// The root of the right subtree, if there is one.
    pub fn right(&self) -> (r: Option<&Node<T>>)
        ensures
            self@ is Fork,
            match r {
                Some(child) => child@ == *self@->right,
                None => *self@->right is Empty,
            },
    {
        match &self.right {
            Some(child) => Some(&**child),
            None => None,
        }
    }
}

impl<T> View for Node<T> {
    type V = Shape<T>;

    closed spec fn view(&self) -> Shape<T> {
        self.shape()
    }
}

impl<T: PartialOrd> Node<T> {
    /// Attaches `data` below this node: to the left where it is strictly
    /// smaller than the value here, else to the right.
    pub(crate) fn insert(&mut self, data: T)
        requires
            old(self)@.levelled(old(self)@->depth),
            old(self)@->depth + old(self)@.height() <= usize::MAX,
        ensures
            final(self)@->depth == old(self)@->depth,
            final(self)@.levelled(old(self)@->depth),
            final(self)@.len() == old(self)@.len() + 1,
            final(self)@.height() <= old(self)@.height() + 1,
            T::obeys_partial_cmp_spec() ==> final(self)@ == old(self)@.insert(data, old(self)@->depth),
        decreases *old(self),
    {
        proof {
            assert(Self::link_shape(self.left).levelled(self@->depth + 1));
            assert(Self::link_shape(self.right).levelled(self@->depth + 1));
        }
        if data < self.data {
            match self.left.take() {
                None => {
                    proof {
                        Shape::lemma_leaf(data);
                    }
                    let node = Node::new(data, self.lvl + 1);
                    proof {
                        assert(Shape::<T>::Empty.insert(data, node@->depth) == node@);
                    }
                    self.left = Some(Box::new(node));
                },
                Some(mut child) => {
                    (&mut *child).insert(data);
                    self.left = Some(child);
                },
            }
        } else {
            match self.right.take() {
                None => {
                    proof {
                        Shape::lemma_leaf(data);
                    }
                    let node = Node::new(data, self.lvl + 1);
                    proof {
                        assert(Shape::<T>::Empty.insert(data, node@->depth) == node@);
                    }
                    self.right = Some(Box::new(node));
                },
                Some(mut child) => {
                    (&mut *child).insert(data);
                    self.right = Some(child);
                },
            }
        }
    }

    /// The first node that holds a value matching `data`: this node, else
    /// the first in the left subtree, else the first in the right one.
    pub(crate) fn search(&self, data: &T) -> (r: Option<&Node<T>>)
        ensures
            T::obeys_eq_spec() ==> match r {
                Some(node) => self@.find(*data) == Some(node@),
                None => self@.find(*data) is None,
            },
        decreases self,
    {
        if *data == self.data {
            return Some(self);
        }
        if let Some(child) = &self.left {
            let response = child.search(data);
            if response.is_some() {
                return response;
            }
        }
        if let Some(child) = &self.right {
            let response = child.search(data);
            if response.is_some() {
                return response;
            }
        }
        proof {
            assert(Shape::<T>::Empty.find(*data) is None);
        }
        None
    }
}

/// The values that a sequence of references points at.
pub open spec fn pointees<T>(refs: Seq<&T>) -> Seq<T> {
    Seq::new(refs.len(), |i: int| *refs[i])
}

impl<T> Node<T> {
    /// Appends to `out` the values of this subtree from left to right.
    pub(crate) fn collect<'a>(&'a self, out: &mut Vec<&'a T>)
        ensures
            pointees(final(out)@) == pointees(old(out)@) + self@.in_order(),
        decreases self,
    {
        if let Some(child) = &self.left {
            child.collect(out);
        }
        let ghost mid = out@;
        out.push(&self.data);
        if let Some(child) = &self.right {
            child.collect(out);
        }
        proof {
            let l = Self::link_shape(self.left).in_order();
            let r = Self::link_shape(self.right).in_order();
            assert(pointees(mid.push(&self.data)) =~= pointees(mid).push(self.data));
            assert(self@.in_order() == l.push(self.data) + r);
        }
    }

    /// The greatest depth recorded in this subtree.
    pub(crate) fn deepest(&self) -> (r: usize)
        requires
            self@.levelled(self@->depth),
        ensures
            r == self@->depth + self@.height() - 1,
        decreases self,
    {
        proof {
            assert(Self::link_shape(self.left).levelled(self@->depth + 1));
            assert(Self::link_shape(self.right).levelled(self@->depth + 1));
            assert(self.left is None ==> Self::link_shape(self.left).height() == 0);
            assert(self.right is None ==> Self::link_shape(self.right).height() == 0);
        }
        let mut deepest = self.lvl;
        if let Some(child) = &self.left {
            let below = child.deepest();
            if below > deepest {
                deepest = below;
            }
        }
        if let Some(child) = &self.right {
            let below = child.deepest();
            if below > deepest {
                deepest = below;
            }
        }
        deepest
    }
}

/// An unbalanced binary search tree. Values are kept in the order in which
/// `<` places them; equal values are kept side by side, the later one to the
/// right.
#[derive(Debug)]
pub struct BTree<T: PartialOrd> {
    root: Option<Box<Node<T>>>,
}

impl<T: PartialOrd> View for BTree<T> {
    type V = Shape<T>;

    closed spec fn view(&self) -> Shape<T> {
        Node::link_shape(self.root)
    }
}

impl<T: PartialOrd> BTree<T> {
    #[verifier::type_invariant]
    spec fn well_formed(self) -> bool {
        &&& self@.levelled(1)
        &&& T::obeys_partial_cmp_spec() ==> self@.is_search_tree()
    }

    /// An empty tree: it holds no value, so a traversal visits nothing and
    /// every search misses.
    pub fn new() -> (tree: Self)
        ensures
            tree@ is Empty,
            tree@.in_order() == Seq::<T>::empty(),
            forall|v: T| (#[trigger] tree@.find(v)) is None,
    {
        Self { root: None }
    }

    /// Adds `data` to the tree. An empty tree gets it as its root, at depth
    /// 1. Otherwise it descends from the root, to the left where it is
    /// strictly smaller than the value met and to the right where it is not,
    /// and becomes a leaf one deeper than the last node met. Nothing is ever
    /// rejected or merged, and no other node moves. The tree must leave room
    /// for one more level in the depths it records.
    pub fn insert(&mut self, data: T)
        requires
            old(self)@.height() < usize::MAX,
        ensures
            final(self)@.len() == old(self)@.len() + 1,
            final(self)@.height() <= old(self)@.height() + 1,
            T::obeys_partial_cmp_spec() ==> final(self)@ == old(self)@.insert(data, 1),
            T::obeys_partial_cmp_spec() && alike(data, data) ==> final(self)@.find(data) is Some,
    {
        proof {
            use_type_invariant(&*self);
            if alike(data, data) {
                self@.lemma_find_inserted(data, 1);
            }
            if T::obeys_partial_cmp_spec() {
                self@.lemma_insert_search_tree(data, 1);
            }
            Shape::lemma_leaf(data);
        }
        let mut root = None;
        std::mem::swap(&mut root, &mut self.root);
        match root {
            Some(mut node) => {
                (&mut *node).insert(data);
                self.root = Some(node);
            },
            None => {
                let node = Node::new(data, 1);
                self.root = Some(Box::new(node));
            },
        }
    }

    /// The first node holding a value that matches `data`, where a node comes
    /// before its left subtree and that before its right subtree; `None` where
    /// the tree holds no such value.
    pub fn search(&self, data: T) -> (r: Option<&Node<T>>)
        ensures
            T::obeys_eq_spec() ==> match r {
                Some(node) => self@.find(data) == Some(node@) && alike(data, node@->value),
                None => self@.find(data) is None,
            },
            T::obeys_eq_spec() ==> (r is None <==> forall|i: int|
                0 <= i < self@.in_order().len() ==> !alike(data, #[trigger] self@.in_order()[i])),
    {
        proof {
            self@.lemma_find_matches(data);
            self@.lemma_find_none(data);
        }
        match &self.root {
            Some(node) => {
                node.search(&data)
            },
            None => {
                None
            },
        }
    }

    /// The values in ascending order: each left subtree, then its node, then
    /// the right subtree.
    pub fn in_order(&self) -> (values: Vec<&T>)
        ensures
            pointees(values@) == self@.in_order(),
            values@.len() == self@.len(),
            T::obeys_partial_cmp_spec() && strict_order::<T>() ==> non_decreasing(pointees(values@)),
    {
        proof {
            use_type_invariant(self);
            self@.lemma_in_order_len();
            if T::obeys_partial_cmp_spec() && strict_order::<T>() {
                self@.lemma_search_tree_non_decreasing();
            }
        }
        let mut values = Vec::new();
        if let Some(node) = &self.root {
            node.collect(&mut values);
        }
        values
    }

    /// The number of nodes on the longest way down from the root; 0 for the
    /// empty tree.
    pub fn height(&self) -> (r: usize)
        ensures
            r == self@.height(),
    {
        proof {
            use_type_invariant(self);
        }
        match &self.root {
            Some(node) => {
                node.deepest()
            },
            None => 0,
        }
    }

    /// The root node; `None` for the empty tree. The root stands at depth 1,
    /// every other node one deeper than its parent, and the whole is a search
    /// tree.
    pub fn root(&self) -> (r: Option<&Node<T>>)
        ensures
            match r {
                Some(node) => self@ == node@,
                None => self@ is Empty,
            },
            self@.levelled(1),
            T::obeys_partial_cmp_spec() ==> self@.is_search_tree(),
    {
        proof {
            use_type_invariant(self);
        }
        match &self.root {
            Some(node) => Some(&**node),
            None => None,
        }
    }
}

} // verus!
