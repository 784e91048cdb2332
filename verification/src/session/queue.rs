//! A bounded queue for capture callbacks, which never wait.
use std::collections::VecDeque;
use vstd::prelude::*;

verus! {

/// A queue of at most `capacity` items. When it is full, the oldest item makes
/// room and is counted as dropped.
pub struct BoundedQueue<T> {
    inner: VecDeque<T>,
    capacity: usize,
    dropped_count: u64,
}

/// What a queue holds: its items from the front, the most that are kept, and the items
/// dropped so far, modulo `2^64`.
pub struct QueueState<T> {
    pub items: Seq<T>,
    pub limit: nat,
    pub dropped: nat,
}

impl<T> QueueState<T> {
    /// Whether the next item makes the oldest one go.
    pub open spec fn full(self) -> bool {
        self.items.len() == self.limit
    }

    /// The queue with one more item.
    pub open spec fn pushed(self, item: T) -> QueueState<T> {
        if self.full() {
            QueueState {
                items: self.items.skip(1).push(item),
                dropped: (self.dropped + 1) as nat % 0x1_0000_0000_0000_0000,
                ..self
            }
        } else {
            QueueState { items: self.items.push(item), ..self }
        }
    }

    /// The queue without its first item, if it has one.
    pub open spec fn popped(self) -> QueueState<T> {
        if self.items.len() == 0 {
            self
        } else {
            QueueState { items: self.items.skip(1), ..self }
        }
    }

    /// The queue without items, as if nothing had been dropped.
    pub open spec fn cleared(self) -> QueueState<T> {
        QueueState { items: Seq::empty(), dropped: 0, ..self }
    }
}

impl<T> View for BoundedQueue<T> {
    type V = QueueState<T>;

    closed spec fn view(&self) -> QueueState<T> {
        QueueState {
            items: self.inner@,
            limit: self.capacity as nat,
            dropped: self.dropped_count as nat,
        }
    }
}

impl<T> BoundedQueue<T> {
    /// There is room for an item, and no more items than room.
    pub open spec fn wf(self) -> bool {
        0 < self@.limit && self@.items.len() <= self@.limit
    }

    pub fn new(capacity: usize) -> (q: Self)
        requires
            capacity > 0,
        ensures
            q.wf(),
            q@ == fresh_queue::<T>(capacity as nat),
    {
        BoundedQueue { inner: VecDeque::new(), capacity, dropped_count: 0 }
    }

    /// Adds an item at the back. In a full queue the oldest item is dropped.
    /// Returns whether an item was dropped.
    pub fn push(&mut self, item: T) -> (dropped: bool)
        requires
            old(self).wf(),
        ensures
            final(self).wf(),
            dropped == old(self)@.full(),
            final(self)@ == old(self)@.pushed(item),
    {
        let mut dropped: bool = false;
        if self.inner.len() >= self.capacity {
            self.inner.pop_front();
            self.dropped_count = self.dropped_count.wrapping_add(1);
            dropped = true;
        }
        self.inner.push_back(item);
        proof {
            if dropped {
                assert(self@.items =~= old(self)@.items.skip(1).push(item));
            }
        }
        dropped
    }

    /// Takes the item at the front.
    pub fn pop(&mut self) -> (item: Option<T>)
        requires
            old(self).wf(),
        ensures
            final(self).wf(),
            final(self)@ == old(self)@.popped(),
            item == if old(self)@.items.len() > 0 {
                Some(old(self)@.items[0])
            } else {
                None
            },
    {
        let item = self.inner.pop_front();
        proof {
            if old(self)@.items.len() > 0 {
                assert(self@.items =~= old(self)@.items.skip(1));
            }
        }
        item
    }

    pub fn len(&self) -> (n: usize)
        ensures
            n == self@.items.len(),
    {
        self.inner.len()
    }

    pub fn is_empty(&self) -> (r: bool)
        ensures
            r == (self@.items.len() == 0),
    {
        self.inner.len() == 0
    }

    /// The items dropped so far.
    pub fn dropped_count(&self) -> (n: u64)
        ensures
            n == self@.dropped,
    {
        self.dropped_count
    }

    /// Empties the queue and forgets what was dropped.
    pub fn clear(&mut self)
        requires
            old(self).wf(),
        ensures
            final(self).wf(),
            final(self)@ == old(self)@.cleared(),
    {
        self.inner.clear();
        self.dropped_count = 0;
    }
}

/// A queue of at most `limit` items that nothing has happened to.
pub open spec fn fresh_queue<T>(limit: nat) -> QueueState<T> {
    QueueState { items: Seq::empty(), limit, dropped: 0 }
}

/// A call on a queue.
pub enum QueueCall<T> {
    Push(T),
    Pop,
    Clear,
}

/// What was asked of a queue since it was last cleared: the items pushed, the items
/// popped, and the pushes that dropped an item.
pub struct QueueTally {
    pub pushed: nat,
    pub popped: nat,
    pub lost: nat,
}

/// A queue of at most `limit` items after the first `n` calls, and their tally.
pub open spec fn after_calls<T>(limit: nat, calls: Seq<QueueCall<T>>, n: nat) -> (
    QueueState<T>,
    QueueTally,
)
    decreases n,
{
    if n == 0 {
        (fresh_queue(limit), QueueTally { pushed: 0, popped: 0, lost: 0 })
    } else {
        let (q, t) = after_calls(limit, calls, (n - 1) as nat);
        match calls[n - 1] {
            QueueCall::Push(item) => (
                q.pushed(item),
                QueueTally {
                    pushed: t.pushed + 1,
                    lost: if q.full() {
                        t.lost + 1
                    } else {
                        t.lost
                    },
                    ..t
                },
            ),
            QueueCall::Pop => (
                q.popped(),
                QueueTally {
                    popped: if q.items.len() > 0 {
                        t.popped + 1
                    } else {
                        t.popped
                    },
                    ..t
                },
            ),
            QueueCall::Clear => (q.cleared(), QueueTally { pushed: 0, popped: 0, lost: 0 }),
        }
    }
}

/// Every item that was pushed since the queue was last cleared was popped, waits, or was
/// dropped, and the drops are counted. The counter goes round at `2^64`.
pub proof fn every_item_is_accounted_for<T>(limit: nat, calls: Seq<QueueCall<T>>, n: nat)
    requires
        0 < limit,
        n <= calls.len(),
    ensures
        ({
            let (q, t) = after_calls(limit, calls, n);
            &&& q.limit == limit
            &&& q.items.len() <= limit
            &&& t.pushed == t.popped + q.items.len() + t.lost
            &&& q.dropped == t.lost % 0x1_0000_0000_0000_0000
            &&& t.pushed <= u64::MAX ==> t.pushed == t.popped + q.items.len() + q.dropped
            &&& n > 0 && calls[n - 1] is Clear ==> q.items.len() == 0 && q.dropped == 0
        }),
    decreases n,
{
    if n > 0 {
        every_item_is_accounted_for(limit, calls, (n - 1) as nat);
    }
}

/// A queue keeps its items in the order in which they came. Only where it is full the oldest
/// goes for a new one, and counts as dropped.
pub proof fn the_oldest_item_goes_for_a_new_one<T>(q: QueueState<T>, item: T)
    requires
        0 < q.limit,
        q.items.len() <= q.limit,
        q.dropped < u64::MAX,
    ensures
        q.pushed(item).items.last() == item,
        q.items.len() < q.limit ==> q.pushed(item).items.drop_last() == q.items
            && q.pushed(item).dropped == q.dropped,
        q.items.len() == q.limit ==> q.pushed(item).items.drop_last() == q.items.skip(1)
            && q.pushed(item).dropped == q.dropped + 1,
        q.pushed(item).limit == q.limit,
        q.items.len() > 0 ==> q.popped().items == q.items.skip(1),
        q.popped().dropped == q.dropped,
        q.popped().limit == q.limit,
{
    if q.items.len() < q.limit {
        assert(q.pushed(item).items.drop_last() =~= q.items);
    } else {
        assert(q.pushed(item).items.drop_last() =~= q.items.skip(1));
    }
}

} // verus!
