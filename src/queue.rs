//! The hand-off queue between the acceptor and the workers: first in, first
//! out, with an explicit marker that releases one waiting consumer.
use vstd::prelude::*;
use std::collections::VecDeque;

verus! {

/// An entry of the queue: a value, or the marker that releases one consumer.
pub enum QueueFlow<T> {
    Value(T),
    Unblock,
}

/// What a consumer finds at the front of the queue.
pub enum Popped<T> {
    /// The oldest value.
    Item(T),
    /// A release marker: the consumer stops waiting.
    Released,
    /// Nothing yet: the consumer waits for a push.
    Empty,
}

/// The entries in the order they were pushed.
pub struct Queue<T> {
    entries: VecDeque<QueueFlow<T>>,
}

impl<T> View for Queue<T> {
    type V = Seq<QueueFlow<T>>;

    closed spec fn view(&self) -> Seq<QueueFlow<T>> {
        self.entries@
    }
}

/// `q` after pushing the values of `items`, one by one, in order.
pub open spec fn push_each<T>(q: Seq<QueueFlow<T>>, items: Seq<T>) -> Seq<QueueFlow<T>>
    decreases items.len(),
{
    if items.len() == 0 {
        q
    } else {
        push_each(q, items.drop_last()).push(QueueFlow::Value(items.last()))
    }
}

impl<T> Queue<T> {
    /// An empty queue with room for `size` entries before it grows.
    pub fn with_capacity(size: usize) -> (r: Queue<T>)
        ensures
            r@ == Seq::<QueueFlow<T>>::empty(),
    {
        Queue { entries: VecDeque::with_capacity(size) }
    }

    pub fn len(&self) -> (r: usize)
        ensures
            r == self@.len(),
    {
        self.entries.len()
    }

    /// Adds a value at the back.
    pub fn push(&mut self, item: T)
        ensures
            final(self)@ == old(self)@.push(QueueFlow::Value(item)),
    {
        self.entries.push_back(QueueFlow::Value(item));
    }

    /// Adds a release marker at the back; it releases one consumer.
    pub fn unblock(&mut self)
        ensures
            final(self)@ == old(self)@.push(QueueFlow::Unblock),
    {
        self.entries.push_back(QueueFlow::Unblock);
    }

    /// Takes the front entry, if there is one.
    pub fn pop(&mut self) -> (r: Popped<T>)
        ensures
            old(self)@.len() == 0 ==> r is Empty && final(self)@ == old(self)@,
            old(self)@.len() > 0 ==> final(self)@ == old(self)@.drop_first() && match old(self)@[0] {
                QueueFlow::Value(v) => r == Popped::Item(v),
                QueueFlow::Unblock => r is Released,
            },
    {
        match self.entries.pop_front() {
            Some(QueueFlow::Value(v)) => Popped::Item(v),
            Some(QueueFlow::Unblock) => Popped::Released,
            None => Popped::Empty,
        }
    }
}

/// Values pushed one after another by one producer come out in the same
/// order: the `k`-th entry after the earlier contents is the `k`-th value pushed.
pub proof fn lemma_fifo_order<T>(q: Seq<QueueFlow<T>>, items: Seq<T>)
    ensures
        push_each(q, items).len() == q.len() + items.len(),
        push_each(q, items).subrange(0, q.len() as int) == q,
        forall|k: int| 0 <= k < items.len() ==> #[trigger] push_each(q, items)[q.len() + k] == QueueFlow::Value(items[k]),
    decreases items.len(),
{
    if items.len() > 0 {
        lemma_fifo_order(q, items.drop_last());
        let prev = push_each(q, items.drop_last());
        assert(push_each(q, items).subrange(0, q.len() as int) =~= prev.subrange(0, q.len() as int));
        assert forall|k: int| 0 <= k < items.len() implies #[trigger] push_each(q, items)[q.len() + k] == QueueFlow::Value(items[k]) by {
            if k < items.len() - 1 {
                assert(prev[q.len() + k] == QueueFlow::Value(items.drop_last()[k]));
            }
        }
    }
}

/// Popping `k` entries leaves the entries after the first `k`, and the next
/// pop returns entry `k`.
pub proof fn lemma_pops_in_order<T>(q: Seq<QueueFlow<T>>, k: int)
    requires
        0 <= k < q.len(),
    ensures
        q.subrange(k, q.len() as int)[0] == q[k],
        q.subrange(k, q.len() as int).drop_first() == q.subrange(k + 1, q.len() as int),
{
    assert(q.subrange(k, q.len() as int).drop_first() =~= q.subrange(k + 1, q.len() as int));
}

} // verus!
