//! A singly linked list with constant-time push at both ends and pop at the
//! front. Nodes live in slots of one arena and link to each other by slot
//! number; a slot whose node was detached is used again by a later push.

use crate::list_laws::ListOp;
use vstd::prelude::*;

verus! {

/// A node of the list: a value and the slot of the node that follows it.
pub struct ListNode<T> {
    data: T,
    next: Option<usize>,
}

impl<T> ListNode<T> {
    /// A node that holds `data` and is followed by nothing.
    pub fn new(data: T) -> (node: Self)
        ensures
            node@ == data,
    {
        Self { data, next: None }
    }

    /// The value held.
    pub fn data(&self) -> (r: &T)
        ensures
            *r == self@,
    {
        &self.data
    }

    /// Gives up the node for the value it holds.
    pub fn into_data(self) -> (r: T)
        ensures
            r == self@,
    {
        self.data
    }
}

impl<T> View for ListNode<T> {
    type V = T;

    closed spec fn view(&self) -> T {
        self.data
    }
}

/// A singly linked list. Its view is the sequence of its values from head to
/// tail.
pub struct List<T> {
    slots: Vec<Option<ListNode<T>>>,
    free: Vec<usize>,
    head: Option<usize>,
    tail: Option<usize>,
    len: usize,
    chain: Ghost<Seq<usize>>,
}

impl<T> View for List<T> {
    type V = Seq<T>;

    closed spec fn view(&self) -> Seq<T> {
        values(self.slots@, self.chain@)
    }
}

/// Slot `k` exists and holds a node.
spec fn occupied<T>(slots: Seq<Option<ListNode<T>>>, k: usize) -> bool {
    k < slots.len() && slots[k as int] is Some
}

/// Slot `k` exists and holds nothing.
spec fn vacant<T>(slots: Seq<Option<ListNode<T>>>, k: usize) -> bool {
    k < slots.len() && slots[k as int] is None
}

/// The link of the node in slot `k`.
spec fn next_at<T>(slots: Seq<Option<ListNode<T>>>, k: usize) -> Option<usize> {
    slots[k as int].unwrap().next
}

/// The value of the node in slot `k`.
spec fn data_at<T>(slots: Seq<Option<ListNode<T>>>, k: usize) -> T {
    slots[k as int].unwrap().data
}

/// The values of the nodes in the slots that `chain` names, in its order.
spec fn values<T>(slots: Seq<Option<ListNode<T>>>, chain: Seq<usize>) -> Seq<T> {
    Seq::new(chain.len(), |i: int| data_at(slots, chain[i]))
}

/// The arena holds exactly one list: `chain` names the slots of its nodes
/// from head to tail, each node links to the next one and the last to
/// nothing, and every other slot is empty and named once in `free`.
spec fn linked<T>(
    slots: Seq<Option<ListNode<T>>>,
    free: Seq<usize>,
    chain: Seq<usize>,
    head: Option<usize>,
    tail: Option<usize>,
) -> bool {
    &&& chain.len() + free.len() == slots.len()
    &&& chain.no_duplicates()
    &&& free.no_duplicates()
    &&& forall|i: int| 0 <= i < chain.len() ==> occupied(slots, #[trigger] chain[i])
    &&& forall|i: int, j: int|
        0 <= i && j == i + 1 && j < chain.len() ==> next_at(slots, #[trigger] chain[i]) == Some(
            #[trigger] chain[j],
        )
    &&& forall|j: int| 0 <= j < free.len() ==> vacant(slots, #[trigger] free[j])
    &&& head == (if chain.len() > 0 {
        Some(chain[0])
    } else {
        None
    })
    &&& tail == (if chain.len() > 0 {
        Some(chain.last())
    } else {
        None
    })
    &&& chain.len() > 0 ==> next_at(slots, chain.last()) is None
}

/// What `place` does: `node` stands in slot `k`, which was the last one
/// named in `free` or, where none was, is new.
spec fn placed<T>(
    slots: Seq<Option<ListNode<T>>>,
    free: Seq<usize>,
    node: ListNode<T>,
    k: usize,
    slots2: Seq<Option<ListNode<T>>>,
    free2: Seq<usize>,
) -> bool {
    if free.len() > 0 {
        &&& k == free.last()
        &&& free2 == free.drop_last()
        &&& slots2 == slots.update(k as int, Some(node))
    } else {
        &&& k == slots.len()
        &&& free2 == free
        &&& slots2 == slots.push(Some(node))
    }
}

/// Puts `node` into a slot that holds none: one that `free` names, if there
/// is one, else a new slot at the end of the arena. Returns the slot.
fn place<T>(slots: &mut Vec<Option<ListNode<T>>>, free: &mut Vec<usize>, node: ListNode<T>) -> (k: usize)
    requires
        forall|j: int| 0 <= j < old(free)@.len() ==> (#[trigger] old(free)@[j]) < old(slots)@.len(),
    ensures
        placed(old(slots)@, old(free)@, node, k, final(slots)@, final(free)@),
{
    match free.pop() {
        Some(k) => {
            slots.set(k, Some(node));
            k
        },
        None => {
            let k = slots.len();
            slots.push(Some(node));
            k
        },
    }
}

impl<T> List<T> {
    /// The list is sound: its head, tail and count agree with the chain of
    /// its nodes, and every slot of the arena is either a node of the chain
    /// or free. Every list that this module hands out is sound.
    pub closed spec fn wf(&self) -> bool {
        &&& self.len == self.chain@.len()
        &&& linked(self.slots@, self.free@, self.chain@, self.head, self.tail)
    }

    /// An empty list.
    pub fn new() -> (list: Self)
        ensures
            list.wf(),
            list@ == Seq::<T>::empty(),
    {
        Self {
            slots: Vec::new(),
            free: Vec::new(),
            head: None,
            tail: None,
            len: 0,
            chain: Ghost(Seq::empty()),
        }
    }

    /// The number of values in the list.
    pub fn len(&self) -> (n: usize)
        requires
            self.wf(),
        ensures
            n == self@.len(),
    {
        self.len
    }

    /// Puts `data` before all the values of the list.
    pub fn push_front(&mut self, data: T)
        requires
            old(self).wf(),
        ensures
            final(self).wf(),
            final(self)@ == seq![data] + old(self)@,
            final(self)@ == ListOp::PushFront(data).apply(old(self)@),
    {
        let node = ListNode { data, next: self.head };
        let k = place(&mut self.slots, &mut self.free, node);
        proof {
            assert(self.slots@.len() == self.slots.len());
        }
        if self.head.is_none() {
            self.tail = Some(k);
        }
        self.head = Some(k);
        self.len = self.len + 1;
        self.chain = Ghost(seq![k] + self.chain@);
    }

    /// Puts `data` behind all the values of the list.
    pub fn push_back(&mut self, data: T)
        requires
            old(self).wf(),
        ensures
            final(self).wf(),
            final(self)@ == old(self)@.push(data),
            final(self)@ == ListOp::PushBack(data).apply(old(self)@),
    {
        let node = ListNode { data, next: None };
        let k = place(&mut self.slots, &mut self.free, node);
        proof {
            assert(self.slots@.len() == self.slots.len());
        }
        match self.tail {
            None => {
                self.head = Some(k);
            },
            Some(t) => {
                if let Some(last) = &mut self.slots[t] {
                    last.next = Some(k);
                }
            },
        }
        self.tail = Some(k);
        self.len = self.len + 1;
        self.chain = Ghost(self.chain@.push(k));
    }

    /// Detaches the first node and hands it to the caller; `None`, and no
    /// change, where the list is empty.
    pub fn pop_front(&mut self) -> (r: Option<Box<ListNode<T>>>)
        requires
            old(self).wf(),
        ensures
            final(self).wf(),
            old(self)@.len() == 0 ==> r is None && *final(self) == *old(self),
            old(self)@.len() > 0 ==> r is Some && r.unwrap()@ == old(self)@[0] && final(self)@
                == old(self)@.drop_first(),
            final(self)@ == ListOp::<T>::PopFront.apply(old(self)@),
    {
        let h = match self.head {
            None => {
                return None;
            },
            Some(h) => h,
        };
        let mut node = self.slots[h].take().unwrap();
        self.free.push(h);
        self.head = node.next;
        if self.head.is_none() {
            self.tail = None;
        }
        self.len = self.len - 1;
        self.chain = Ghost(self.chain@.drop_first());
        node.next = None;
        Some(Box::new(node))
    }

    /// The first value; `None` where the list is empty.
    pub fn front(&self) -> (r: Option<&T>)
        requires
            self.wf(),
        ensures
            r == (if self@.len() > 0 {
                Some(&self@[0])
            } else {
                None
            }),
    {
        match self.head {
            None => None,
            Some(h) => {
                match &self.slots[h] {
                    Some(node) => Some(&node.data),
                    None => None,
                }
            },
        }
    }

    /// The last value; `None` where the list is empty.
    pub fn back(&self) -> (r: Option<&T>)
        requires
            self.wf(),
        ensures
            r == (if self@.len() > 0 {
                Some(&self@.last())
            } else {
                None
            }),
    {
        match self.tail {
            None => None,
            Some(t) => {
                match &self.slots[t] {
                    Some(node) => Some(&node.data),
                    None => None,
                }
            },
        }
    }

    /// A walk over the values from head to tail that lets each of them be
    /// changed. The list is the walk's until the walk is given up; what has
    /// been written through it is then in the list.
    pub fn iter_mut(&mut self) -> (it: IterMut<'_, T>)
        requires
            old(self).wf(),
        ensures
            it.wf(),
            it@ == old(self)@,
            it.passed() == Seq::<T>::empty(),
            *final(it.list) == *final(self),
    {
        let at = Place { head: self.head, len: self.len };
        IterMut { list: self, at }
    }

    /// A walk over the values from head to tail.
    pub fn iter(&self) -> (it: Iter<'_, T>)
        requires
            self.wf(),
        ensures
            it@ == self@,
    {
        Iter { list: self, head: self.head, len: self.len }
    }
}

/// A walk over the values of a list from head to tail. Its view is the
/// sequence of the values that it has yet to give.
pub struct Iter<'a, T> {
    list: &'a List<T>,
    head: Option<usize>,
    len: usize,
}

impl<'a, T> View for Iter<'a, T> {
    type V = Seq<T>;

    closed spec fn view(&self) -> Seq<T> {
        self.list@.skip(self.list@.len() - self.len)
    }
}

impl<'a, T> Iter<'a, T> {
    #[verifier::type_invariant]
    spec fn well_formed(self) -> bool {
        &&& self.list.wf()
        &&& self.len <= self.list.chain@.len()
        &&& self.len > 0 ==> self.head == Some(self.list.chain@[self.list.chain@.len() - self.len])
    }

    /// The next value, if the walk has not reached the end.
    pub fn next(&mut self) -> (r: Option<&'a T>)
        ensures
            old(self)@.len() == 0 ==> r is None && final(self)@ == old(self)@,
            old(self)@.len() > 0 ==> r == Some(&old(self)@[0]) && final(self)@ == old(self)@.drop_first(),
    {
        proof {
            use_type_invariant(&*self);
        }
        if self.len == 0 {
            return None;
        }
        let list: &'a List<T> = self.list;
        let h = self.head.unwrap();
        match &list.slots[h] {
            Some(node) => {
                *self = Iter { list, head: node.next, len: self.len - 1 };
                Some(&node.data)
            },
            None => None,
        }
    }
}

/// Where a walk stands in its list.
pub struct Place {
    head: Option<usize>,
    len: usize,
}

/// A walk over the values of a list from head to tail that lets each value
/// be changed. Its view is the sequence of the values that it has yet to
/// give. The list is a public field so that a contract can speak of the list
/// that the walk leaves behind when it ends.
pub struct IterMut<'a, T> {
    pub list: &'a mut List<T>,
    pub at: Place,
}

impl<'a, T> View for IterMut<'a, T> {
    type V = Seq<T>;

    closed spec fn view(&self) -> Seq<T> {
        self.list@.skip(self.list@.len() - self.at.len)
    }
}

impl<'a, T> IterMut<'a, T> {
    /// The list is sound and the walk stands at one of its nodes, or at the
    /// end.
    pub closed spec fn wf(&self) -> bool {
        &&& self.list.wf()
        &&& self.at.len <= self.list.chain@.len()
        &&& self.at.len > 0 ==> self.at.head == Some(
            self.list.chain@[self.list.chain@.len() - self.at.len],
        )
    }

    /// The values that the walk has gone past, as they stand now.
    pub closed spec fn passed(&self) -> Seq<T> {
        self.list@.take(self.list@.len() - self.at.len)
    }

    /// The list that the walk goes over, as it stands now.
    pub open spec fn target(&self) -> List<T> {
        *self.list
    }

    /// The list is sound, and it is what the walk has gone past, followed by
    /// what it has yet to give.
    pub proof fn lemma_whole(&self)
        requires
            self.wf(),
        ensures
            self.target().wf(),
            self.target()@ == self.passed() + self@,
    {
    }

    /// The next value, if the walk has not reached the end. What is written
    /// through the reference is written into the list; nothing else in the
    /// list changes.
    pub fn next(&mut self) -> (r: Option<&mut T>)
        requires
            old(self).wf(),
        ensures
            final(self).wf(),
            *final(final(self).list) == *final(old(self).list),
            match r {
                Some(value) => {
                    &&& old(self)@.len() > 0
                    &&& *value == old(self)@[0]
                    &&& final(self)@ == old(self)@.drop_first()
                    &&& final(self).passed() == old(self).passed().push(*final(value))
                },
                None => {
                    &&& old(self)@.len() == 0
                    &&& final(self)@ == old(self)@
                    &&& final(self).passed() == old(self).passed()
                },
            },
    {
        if self.at.len == 0 {
            return None;
        }
        let h = self.at.head.unwrap();
        let len = self.at.len;
        match &mut self.list.slots[h] {
            Some(node) => {
                self.at = Place { head: node.next, len: len - 1 };
                Some(&mut node.data)
            },
            None => None,
        }
    }
}

} // verus!
