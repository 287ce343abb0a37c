//! A bounded circular buffer that keeps the most recent items.

use vstd::prelude::*;

verus! {

/// Reduces an index that is known to lie in `0 .. 2 * cap` into `0 .. cap`.
pub open spec fn wrap_index(x: int, cap: int) -> int {
    if x < cap {
        x
    } else {
        x - cap
    }
}

/// What a buffer of capacity `cap` holds after `item` is pushed onto `items`:
/// the item is appended and, when the buffer was full, the oldest one leaves.
pub open spec fn pushed<T>(items: Seq<T>, cap: nat, item: T) -> Seq<T> {
    if items.len() < cap {
        items.push(item)
    } else {
        items.push(item).drop_first()
    }
}

/// The last `min(n, items.len())` items, oldest first.
pub open spec fn last_n<T>(items: Seq<T>, n: nat) -> Seq<T> {
    if n < items.len() {
        items.subrange(items.len() - n, items.len() as int)
    } else {
        items
    }
}

/// The contents of a buffer of capacity `cap` holding `start` after each of
/// `items` is pushed, in order.
pub open spec fn pushed_all<T>(start: Seq<T>, cap: nat, items: Seq<T>) -> Seq<T>
    decreases items.len(),
{
    if items.len() == 0 {
        start
    } else {
        pushed(pushed_all(start, cap, items.drop_last()), cap, items.last())
    }
}

/// A push makes the item the most recent one and keeps everything else in
/// order, losing only the oldest item when the buffer was full.
pub proof fn lemma_push_keeps_order<T>(items: Seq<T>, cap: nat, item: T)
    requires
        cap > 0,
        items.len() <= cap,
    ensures
        pushed(items, cap, item).len() == (if items.len() < cap { items.len() + 1 } else { cap }),
        pushed(items, cap, item).last() == item,
        forall|i: int|
            0 <= i < pushed(items, cap, item).len() - 1 ==> #[trigger] pushed(items, cap, item)[i] == items[i
                + items.len() + 1 - pushed(items, cap, item).len()],
{
}

/// A buffer that starts empty holds exactly the last `cap` items pushed into
/// it, oldest first: older items are evicted once the capacity is reached.
pub proof fn lemma_keeps_most_recent<T>(cap: nat, items: Seq<T>)
    requires
        cap > 0,
    ensures
        pushed_all(Seq::empty(), cap, items) == last_n(items, cap),
    decreases items.len(),
{
    if items.len() > 0 {
        let prefix = items.drop_last();
        lemma_keeps_most_recent(cap, prefix);
        if prefix.len() < cap {
            assert(prefix.push(items.last()) =~= items);
        } else {
            assert(prefix.subrange(prefix.len() - cap, prefix.len() as int).push(items.last()).drop_first()
                =~= items.subrange(items.len() - cap, items.len() as int));
        }
    }
}

/// Asking a buffer that holds the last `cap` pushed items for its last `n`
/// gives the last `min(n, cap)` items pushed, oldest first.
pub proof fn lemma_query_after_pushes<T>(cap: nat, items: Seq<T>, n: nat)
    requires
        cap > 0,
    ensures
        last_n(pushed_all(Seq::empty(), cap, items), n) == last_n(items, if n < cap { n } else { cap }),
{
    lemma_keeps_most_recent(cap, items);
    let kept = last_n(items, cap);
    if n < cap && n < items.len() {
        assert(last_n(kept, n) =~= items.subrange(items.len() - n, items.len() as int));
    }
}

/// A circular buffer holding the most recent items, oldest first.
#[derive(Debug, Clone)]
pub struct HistoryBuffer<T> {
    buffer: Vec<Option<T>>,
    capacity: usize,
    head: usize,
    len: usize,
}

impl<T> HistoryBuffer<T> {
    /// Position in `buffer` of the `i`-th stored item, counted from the oldest.
    spec fn slot(&self, i: int) -> int {
        let start = if self.len < self.capacity { 0 } else { self.head as int };
        wrap_index(start + i, self.capacity as int)
    }

    /// The buffer's internal invariant.
    pub closed spec fn wf(&self) -> bool {
        &&& self.buffer@.len() == self.capacity
        &&& self.len <= self.capacity
        &&& (self.capacity == 0 ==> self.head == 0)
        &&& (self.capacity > 0 ==> self.head < self.capacity)
        &&& (self.len < self.capacity ==> self.head == self.len)
        &&& forall|i: int| 0 <= i < self.len ==> (#[trigger] self.buffer@[self.slot(i)]) is Some
    }

    /// The stored items, oldest first.
    pub closed spec fn contents(&self) -> Seq<T> {
        Seq::new(self.len as nat, |i: int| self.buffer@[self.slot(i)]->0)
    }

    /// The number of items the buffer can hold.
    pub closed spec fn spec_capacity(&self) -> nat {
        self.capacity as nat
    }

    /// A buffer never holds more items than its capacity.
    pub proof fn lemma_within_capacity(&self)
        requires
            self.wf(),
        ensures
            self@.len() <= self.spec_capacity(),
    {
    }

    /// Create an empty buffer with the given capacity.
    pub fn new(capacity: usize) -> (res: Self)
        ensures
            res.wf(),
            res@ == Seq::<T>::empty(),
            res.spec_capacity() == capacity,
    {
        let mut buffer: Vec<Option<T>> = Vec::with_capacity(capacity);
        let mut k: usize = 0;
        while k < capacity
            invariant
                k <= capacity,
                buffer@.len() == k,
            decreases capacity - k,
        {
            buffer.push(None);
            k = k + 1;
        }
        let res = HistoryBuffer { buffer, capacity, head: 0, len: 0 };
        assert(res.contents() =~= Seq::<T>::empty());
        res
    }

    /// Push an item. When the buffer is full the oldest item is overwritten.
    pub fn push(&mut self, item: T)
        requires
            old(self).wf(),
            old(self).spec_capacity() > 0,
        ensures
            final(self).wf(),
            final(self).spec_capacity() == old(self).spec_capacity(),
            final(self)@ == pushed(old(self)@, old(self).spec_capacity(), item),
    {
        let ghost pre = *self;
        let ghost item_g = item;
        let h = self.head;
        self.buffer.set(h, Some(item));
        self.head = if h + 1 == self.capacity { 0 } else { h + 1 };
        if self.len < self.capacity {
            self.len = self.len + 1;
        }
        proof {
            let c = pre.capacity as int;
            assert forall|i: int| 0 <= i < self.len implies (#[trigger] self.buffer@[self.slot(i)]) is Some by {
                if pre.len < pre.capacity {
                    assert(self.slot(i) == i);
                    if i < pre.len {
                        assert(pre.slot(i) == i);
                    }
                } else {
                    if i < c - 1 {
                        assert(self.slot(i) == pre.slot(i + 1));
                    } else {
                        assert(self.slot(i) == h);
                    }
                }
            }
            let expected = pushed(pre@, pre.spec_capacity(), item_g);
            assert(self.contents().len() == expected.len());
            assert forall|i: int| 0 <= i < self.len implies #[trigger] self.contents()[i] == expected[i] by {
                if pre.len < pre.capacity {
                    assert(self.slot(i) == i);
                    if i < pre.len {
                        assert(pre.slot(i) == i);
                    }
                } else {
                    if i < c - 1 {
                        assert(self.slot(i) == pre.slot(i + 1));
                    } else {
                        assert(self.slot(i) == h);
                    }
                }
            }
            assert(self.contents() =~= expected);
        }
    }

    /// The most recent item, if any.
    pub fn latest(&self) -> (res: Option<&T>)
        requires
            self.wf(),
        ensures
            self@.len() == 0 ==> res is None,
            self@.len() > 0 ==> res == Some(&self@.last()),
    {
        if self.len == 0 {
            return None;
        }
        let idx = if self.head == 0 { self.capacity - 1 } else { self.head - 1 };
        proof {
            assert(self.slot(self.len - 1) == idx);
        }
        self.buffer[idx].as_ref()
    }

    /// The last `n` items (or all of them when fewer are stored), oldest first.
    pub fn query(&self, n: usize) -> (res: Vec<&T>)
        requires
            self.wf(),
        ensures
            res@.len() == last_n(self@, n as nat).len(),
            forall|i: int| 0 <= i < res@.len() ==> *res@[i] == last_n(self@, n as nat)[i],
    {
        let count = if n < self.len { n } else { self.len };
        let mut result: Vec<&T> = Vec::with_capacity(count);
        let start = if self.len < self.capacity { 0 } else { self.head };
        let ghost expected = last_n(self@, n as nat);
        let mut i: usize = 0;
        while i < count
            invariant
                self.wf(),
                count <= self.len,
                count == expected.len(),
                start == (if self.len < self.capacity { 0 } else { self.head as int }),
                expected == last_n(self@, n as nat),
                i <= count,
                result@.len() == i,
                forall|j: int| 0 <= j < i ==> *result@[j] == expected[j],
            decreases count - i,
        {
            let offset = (self.len - count) + i;
            let idx = if offset < self.capacity - start {
                start + offset
            } else {
                offset - (self.capacity - start)
            };
            proof {
                assert(idx == self.slot(self.len - count + i));
                assert(expected[i as int] == self@[self.len - count + i]);
            }
            if let Some(item) = &self.buffer[idx] {
                result.push(item);
            }
            i = i + 1;
        }
        result
    }

    /// Current number of stored items.
    pub fn len(&self) -> (res: usize)
        requires
            self.wf(),
        ensures
            res == self@.len(),
    {
        self.len
    }

    /// Is the buffer empty?
    pub fn is_empty(&self) -> (res: bool)
        requires
            self.wf(),
        ensures
            res == (self@.len() == 0),
    {
        self.len == 0
    }

    /// The buffer's capacity.
    pub fn capacity(&self) -> (res: usize)
        ensures
            res == self.spec_capacity(),
    {
        self.capacity
    }
}

impl<T> View for HistoryBuffer<T> {
    type V = Seq<T>;

    open spec fn view(&self) -> Seq<T> {
        self.contents()
    }
}

} // verus!
