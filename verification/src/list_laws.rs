//! What holds of every run of list operations, proved over sequences.

use vstd::prelude::*;

verus! {

/// One call that changes a list.
pub enum ListOp<T> {
    PushFront(T),
    PushBack(T),
    PopFront,
}

impl<T> ListOp<T> {
    /// The values of a list after this call, given its values before, as
    /// `push_front`, `push_back` and `pop_front` of `List` ensure.
    pub open spec fn apply(self, before: Seq<T>) -> Seq<T> {
        match self {
            ListOp::PushFront(v) => seq![v] + before,
            ListOp::PushBack(v) => before.push(v),
            ListOp::PopFront => if before.len() > 0 {
                before.drop_first()
            } else {
                before
            },
        }
    }

    /// The values of a list after the calls of `ops` in turn, starting from
    /// `start`.
    pub open spec fn run(start: Seq<T>, ops: Seq<ListOp<T>>) -> Seq<T>
        decreases ops.len(),
    {
        if ops.len() == 0 {
            start
        } else {
            ops.last().apply(Self::run(start, ops.drop_last()))
        }
    }

    /// The number of pushes among `ops`.
    pub open spec fn pushes(ops: Seq<ListOp<T>>) -> nat
        decreases ops.len(),
    {
        if ops.len() == 0 {
            0
        } else if ops.last() is PopFront {
            Self::pushes(ops.drop_last())
        } else {
            Self::pushes(ops.drop_last()) + 1
        }
    }

    /// The number of pops among `ops` that find a node to detach, starting
    /// from `start`.
    pub open spec fn pops(start: Seq<T>, ops: Seq<ListOp<T>>) -> nat
        decreases ops.len(),
    {
        if ops.len() == 0 {
            0
        } else if ops.last() is PopFront && Self::run(start, ops.drop_last()).len() > 0 {
            Self::pops(start, ops.drop_last()) + 1
        } else {
            Self::pops(start, ops.drop_last())
        }
    }

    /// The values that `ops` push at the front, in the order of the calls.
    pub open spec fn fronts(ops: Seq<ListOp<T>>) -> Seq<T>
        decreases ops.len(),
    {
        if ops.len() == 0 {
            Seq::empty()
        } else {
            match ops.last() {
                ListOp::PushFront(v) => Self::fronts(ops.drop_last()).push(v),
                _ => Self::fronts(ops.drop_last()),
            }
        }
    }

    /// The values that `ops` push at the back, in the order of the calls.
    pub open spec fn backs(ops: Seq<ListOp<T>>) -> Seq<T>
        decreases ops.len(),
    {
        if ops.len() == 0 {
            Seq::empty()
        } else {
            match ops.last() {
                ListOp::PushBack(v) => Self::backs(ops.drop_last()).push(v),
                _ => Self::backs(ops.drop_last()),
            }
        }
    }

    /// `n` pops in a row.
    pub open spec fn drain(n: nat) -> Seq<ListOp<T>> {
        Seq::new(n, |i: int| ListOp::PopFront)
    }

    /// After any run of calls, the list is as long as the number of pushes
    /// less the number of pops that found a node.
    pub proof fn lemma_length(start: Seq<T>, ops: Seq<ListOp<T>>)
        ensures
            Self::run(start, ops).len() == start.len() + Self::pushes(ops) - Self::pops(start, ops),
        decreases ops.len(),
    {
        if ops.len() > 0 {
            Self::lemma_length(start, ops.drop_last());
        }
    }

    /// Where nothing is popped, an empty list ends up holding the values
    /// pushed at the front, the latest first, followed by the values pushed
    /// at the back, the earliest first.
    pub proof fn lemma_push_order(ops: Seq<ListOp<T>>)
        requires
            forall|i: int| 0 <= i < ops.len() ==> !(ops[i] is PopFront),
        ensures
            Self::run(Seq::empty(), ops) == Self::fronts(ops).reverse() + Self::backs(ops),
        decreases ops.len(),
    {
        if ops.len() == 0 {
        } else {
            let init = ops.drop_last();
            Self::lemma_push_order(init);
            let f = Self::fronts(init);
            let b = Self::backs(init);
            match ops.last() {
                ListOp::PushFront(v) => {
                },
                ListOp::PushBack(v) => {
                },
                ListOp::PopFront => {},
            }
        }
    }

    /// Popping as often as the list is long leaves it empty, and a push at
    /// the back then gives the list of that one value.
    pub proof fn lemma_drain(start: Seq<T>, v: T)
        ensures
            Self::run(start, Self::drain(start.len())) == Seq::<T>::empty(),
            ListOp::PushBack(v).apply(Self::run(start, Self::drain(start.len()))) == seq![v],
        decreases start.len(),
    {
        Self::lemma_drain_steps(start, start.len());
    }

    /// Any number of pushes onto an empty list, followed by as many pops,
    /// leave the list empty, and a push at the back then gives the list of
    /// that one value.
    pub proof fn lemma_round_trip(ops: Seq<ListOp<T>>, v: T)
        requires
            forall|i: int| 0 <= i < ops.len() ==> !(ops[i] is PopFront),
        ensures
            Self::run(Seq::empty(), ops).len() == ops.len(),
            Self::run(Self::run(Seq::empty(), ops), Self::drain(ops.len())) == Seq::<T>::empty(),
            ListOp::PushBack(v).apply(Self::run(Self::run(Seq::empty(), ops), Self::drain(ops.len())))
                == seq![v],
    {
        Self::lemma_all_pushes(ops);
        Self::lemma_length(Seq::empty(), ops);
        Self::lemma_drain(Self::run(Seq::empty(), ops), v);
    }

    /// Where nothing is popped, every call is a push.
    pub proof fn lemma_all_pushes(ops: Seq<ListOp<T>>)
        requires
            forall|i: int| 0 <= i < ops.len() ==> !(ops[i] is PopFront),
        ensures
            Self::pushes(ops) == ops.len(),
            Self::pops(Seq::empty(), ops) == 0,
        decreases ops.len(),
    {
        if ops.len() > 0 {
            Self::lemma_all_pushes(ops.drop_last());
        }
    }

    /// `n` pops take the first `n` values away.
    pub proof fn lemma_drain_steps(start: Seq<T>, n: nat)
        requires
            n <= start.len(),
        ensures
            Self::run(start, Self::drain(n)) == start.skip(n as int),
        decreases n,
    {
        if n == 0 {
        } else {
            let m = (n - 1) as nat;
            Self::lemma_drain_steps(start, m);
            assert(Self::drain(n).drop_last() =~= Self::drain(m));
        }
    }
}

} // verus!
