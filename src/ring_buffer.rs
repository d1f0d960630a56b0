use vstd::arithmetic::div_mod::{lemma_mod_add_multiples_vanish, lemma_mod_equivalence, lemma_small_mod};
use vstd::prelude::*;

verus! {

/// Logical index type: a fixed-width unsigned integer whose arithmetic wraps.
pub type Index = u32;

/// The successor of a logical index, wrapping past the largest one.
pub open spec fn next_index(i: Index) -> Index {
    if i == Index::MAX {
        0
    } else {
        (i + 1) as Index
    }
}

/// The predecessor of a logical index, wrapping below zero.
pub open spec fn prev_index(i: Index) -> Index {
    if i == 0 {
        Index::MAX
    } else {
        (i - 1) as Index
    }
}

/// Abstract state of a ring buffer: the four counters and the physical slots
/// (`None` for a slot that was never written).
pub struct RingBufferView<'a, T> {
    pub capacity: Index,
    pub len: Index,
    pub head: Index,
    pub tail: Index,
    pub slots: Seq<Option<&'a T>>,
}

impl<'a, T> RingBufferView<'a, T> {
    /// The state of a freshly constructed buffer with `capacity` slots.
    pub open spec fn empty(capacity: Index) -> Self {
        RingBufferView {
            capacity,
            len: 0,
            head: 0,
            tail: 0,
            slots: Seq::new(capacity as nat, |j: int| None),
        }
    }

    /// Physical slot of a logical index.
    pub open spec fn slot(self, index: Index) -> int {
        (index % self.capacity) as int
    }

    /// The validity predicate: `index` lies in the window `[tail, head)` and the
    /// buffer holds something.
    pub open spec fn in_range(self, index: Index) -> bool {
        self.tail <= index && index < self.head && self.len > 0
    }

    /// The buffer holds no element.
    pub open spec fn is_empty(self) -> bool {
        self.len == 0
    }

    /// The buffer holds at least `capacity` elements.
    pub open spec fn is_full(self) -> bool {
        self.len >= self.capacity
    }

    /// The physical slot of `index` exists and has been written.
    pub open spec fn is_written(self, index: Index) -> bool {
        &&& self.capacity > 0
        &&& self.slots[self.slot(index)] is Some
    }

    /// The element stored in the physical slot of `index`.
    pub open spec fn at(self, index: Index) -> &'a T {
        self.slots[self.slot(index)]->Some_0
    }

    /// The state after storing `elem` in the physical slot of `index`.
    pub open spec fn written(self, index: Index, elem: &'a T) -> Self {
        RingBufferView { slots: self.slots.update(self.slot(index), Some(elem)), ..self }
    }

    /// The state after a push: `elem` goes to the slot of `head`, and `len` and
    /// `head` advance with wrapping.
    pub open spec fn pushed(self, elem: &'a T) -> Self {
        RingBufferView {
            len: next_index(self.len),
            head: next_index(self.head),
            ..self.written(self.head, elem)
        }
    }

    /// The state after a pop: `len` goes back and `tail` advances, with wrapping.
    pub open spec fn popped(self) -> Self {
        RingBufferView { len: prev_index(self.len), tail: next_index(self.tail), ..self }
    }

    /// The buffer is used as a queue: it holds at most `capacity` elements, the
    /// window `[tail, head)` has not wrapped and has `len` indices, each written.
    pub open spec fn is_queue(self) -> bool {
        &&& self.len <= self.capacity
        &&& self.head as int == self.tail as int + self.len as int
        &&& forall|j: int| 0 <= j < self.len ==> #[trigger] self.is_written((self.tail + j) as Index)
    }

    /// The queued elements, oldest first.
    pub open spec fn window(self) -> Seq<&'a T> {
        Seq::new(self.len as nat, |j: int| self.at((self.tail + j) as Index))
    }
}

/// A fixed-capacity circular buffer of references, addressed by ever-increasing
/// logical indices; the physical slot of logical index `i` is `i % N`.
///
/// The low level operations check no range: callers keep the window valid.
pub struct RingBuffer<'a, T, const N: u32> {
    slots: Vec<Option<&'a T>>,
    capacity: Index,
    len: Index,
    head: Index,
    tail: Index,
}

impl<'a, T, const N: u32> View for RingBuffer<'a, T, N> {
    type V = RingBufferView<'a, T>;

    closed spec fn view(&self) -> RingBufferView<'a, T> {
        RingBufferView {
            capacity: self.capacity,
            len: self.len,
            head: self.head,
            tail: self.tail,
            slots: self.slots@,
        }
    }
}

impl<'a, T, const N: u32> RingBuffer<'a, T, N> {
    /// The capacity is `N` and there is one slot per unit of capacity.
    pub closed spec fn wf(&self) -> bool {
        &&& self.capacity == N
        &&& self.slots@.len() == N
    }

    /// Creates a ring buffer of `N` slots, empty.
    pub fn new() -> (r: Self)
        ensures
            r.wf(),
            r@ == RingBufferView::<'a, T>::empty(N),
    {
        Self::with_capacity(N)
    }

    /// Allocates `capacity` unwritten slots and sets every counter to zero.
    fn with_capacity(capacity: Index) -> (r: Self)
        requires
            capacity == N,
        ensures
            r.wf(),
            r@ == RingBufferView::<'a, T>::empty(capacity),
    {
        let mut slots: Vec<Option<&'a T>> = Vec::with_capacity(capacity as usize);
        let mut i: Index = 0;
        while i < capacity
            invariant
                i <= capacity,
                slots@.len() == i,
                forall|j: int| 0 <= j < i ==> slots@[j] is None,
            decreases capacity - i,
        {
            slots.push(None);
            i = i + 1;
        }
        let r = RingBuffer { slots, capacity, len: 0, head: 0, tail: 0 };
        assert(r@.slots =~= RingBufferView::<'a, T>::empty(capacity).slots);
        r
    }

    /// Returns the maximum capacity of the ring buffer.
    pub fn capacity(&mut self) -> (r: Index)
        ensures
            r == old(self)@.capacity,
            *final(self) == *old(self),
    {
        self.capacity
    }

    /// Returns the number of elements in the ring buffer.
    pub fn len(&mut self) -> (r: Index)
        ensures
            r == old(self)@.len,
            *final(self) == *old(self),
    {
        self.len
    }

    /// Returns whether `tail <= index < head` and `len > 0`.
    pub fn is_index_in_range(&self, index: Index) -> (r: bool)
        ensures
            r == self@.in_range(index),
    {
        (self.tail <= index) && (index < self.head) && (self.len > 0)
    }

    /// Returns `true` if the ring buffer holds no element.
    pub fn is_empty(&self) -> (r: bool)
        ensures
            r == self@.is_empty(),
    {
        self.len == 0
    }

    /// Returns `true` if the ring buffer holds at least `capacity` elements.
    pub fn is_full(&self) -> (r: bool)
        ensures
            r == self@.is_full(),
    {
        self.len >= self.capacity
    }
    /// Returns the element stored in the physical slot of logical index `index`.
    /// No range check is made: the slot must only have been written.
    pub fn get(&mut self, index: Index) -> (r: &'a T)
        requires
            old(self).wf(),
            old(self)@.is_written(index),
        ensures
            r == old(self)@.at(index),
            *final(self) == *old(self),
    {
        self.slots[(index % N) as usize].unwrap()
    }

    /// Stores `elem` in the physical slot of logical index `index`, overwriting
    /// what was there, and returns it.
    pub fn put(&mut self, index: Index, elem: &'a T) -> (r: &'a T)
        requires
            old(self).wf(),
            N > 0,
        ensures
            r == elem,
            final(self).wf(),
            final(self)@ == old(self)@.written(index, elem),
    {
        self.slots.set((index % N) as usize, Some(elem));
        elem
    }

    /// Returns the element in the slot of the `head` counter, the one the next
    /// push writes.
    pub fn head(&mut self) -> (r: &'a T)
        requires
            old(self).wf(),
            old(self)@.is_written(old(self)@.head),
        ensures
            r == old(self)@.at(old(self)@.head),
            *final(self) == *old(self),
    {
        self.get(self.head)
    }

    /// Returns the element in the slot of the `tail` counter, the oldest one.
    pub fn tail(&mut self) -> (r: &'a T)
        requires
            old(self).wf(),
            old(self)@.is_written(old(self)@.tail),
        ensures
            r == old(self)@.at(old(self)@.tail),
            *final(self) == *old(self),
    {
        self.get(self.tail)
    }

    /// Writes `elem` at the `head` index and advances `len` and `head`, with
    /// wrapping. Nothing checks for fullness: on a full buffer the slot of the
    /// oldest element is overwritten.
    pub fn push(&mut self, elem: &'a T)
        requires
            old(self).wf(),
            N > 0,
        ensures
            final(self).wf(),
            final(self)@ == old(self)@.pushed(elem),
            old(self)@.is_queue() && !old(self)@.is_full() && old(self)@.head < Index::MAX ==> {
                &&& final(self)@.is_queue()
                &&& final(self)@.window() == old(self)@.window().push(elem)
            },
    {
        proof {
            if self@.is_queue() && !self@.is_full() && self@.head < Index::MAX {
                lemma_push_keeps_queue(self@, elem);
            }
        }
        let head = self.head;
        self.put(head, elem);
        self.len = self.len.wrapping_add(1);
        self.head = self.head.wrapping_add(1);
    }

    /// Returns the element at the `tail` index, then moves `len` back and
    /// `tail` forward, with wrapping. Nothing checks for emptiness.
    pub fn pop(&mut self) -> (r: &'a T)
        requires
            old(self).wf(),
            old(self)@.is_written(old(self)@.tail),
        ensures
            r == old(self)@.at(old(self)@.tail),
            final(self).wf(),
            final(self)@ == old(self)@.popped(),
            old(self)@.is_queue() && !old(self)@.is_empty() ==> {
                &&& final(self)@.is_queue()
                &&& r == old(self)@.window()[0]
                &&& final(self)@.window() == old(self)@.window().drop_first()
            },
    {
        proof {
            if self@.is_queue() && !self@.is_empty() {
                lemma_pop_keeps_queue(self@);
            }
        }
        let result = self.get(self.tail);
        self.len = self.len.wrapping_sub(1);
        self.tail = self.tail.wrapping_add(1);
        result
    }
}

/// Two logical indices less than `capacity` apart have different physical slots.
proof fn lemma_close_indices_distinct_slots(a: Index, b: Index, capacity: Index)
    requires
        capacity > 0,
        a < b,
        b - a < capacity,
    ensures
        a % capacity != b % capacity,
{
    lemma_mod_equivalence(b as int, a as int, capacity as int);
    lemma_small_mod((b - a) as nat, capacity as nat);
}

/// Pushing onto a queue with room keeps it a queue and appends the element to
/// its window.
pub proof fn lemma_push_keeps_queue<'a, T>(v: RingBufferView<'a, T>, elem: &'a T)
    requires
        v.slots.len() == v.capacity,
        v.capacity > 0,
        v.is_queue(),
        !v.is_full(),
        v.head < Index::MAX,
    ensures
        v.pushed(elem).is_queue(),
        v.pushed(elem).window() == v.window().push(elem),
{
    let w = v.pushed(elem);
    assert forall|j: int| 0 <= j < v.len implies #[trigger] w.slot((v.tail + j) as Index) != w.slot(v.head) by {
        lemma_close_indices_distinct_slots((v.tail + j) as Index, v.head, v.capacity);
    }
    assert forall|j: int| 0 <= j < w.len implies #[trigger] w.is_written((w.tail + j) as Index) by {
        if j < v.len {
            assert(v.is_written((v.tail + j) as Index));
        }
    }
    assert(w.window() =~= v.window().push(elem));
}

/// Popping a non-empty queue keeps it a queue, returns the first element of its
/// window and drops that element from the window.
pub proof fn lemma_pop_keeps_queue<'a, T>(v: RingBufferView<'a, T>)
    requires
        v.is_queue(),
        !v.is_empty(),
    ensures
        v.popped().is_queue(),
        v.at(v.tail) == v.window()[0],
        v.popped().window() == v.window().drop_first(),
{
    let w = v.popped();
    assert forall|j: int| 0 <= j < w.len implies #[trigger] w.is_written((w.tail + j) as Index) by {
        assert(v.is_written((v.tail + (j + 1)) as Index));
    }
    assert(w.window() =~= v.window().drop_first());
}

/// The state after pushing the elements of `elems` one by one, first to last.
pub open spec fn pushed_all<'a, T>(v: RingBufferView<'a, T>, elems: Seq<&'a T>) -> RingBufferView<'a, T>
    decreases elems.len(),
{
    if elems.len() == 0 {
        v
    } else {
        pushed_all(v, elems.drop_last()).pushed(elems.last())
    }
}

/// The elements returned by `n` pops in a row, in the order they come out.
pub open spec fn popped_elements<'a, T>(v: RingBufferView<'a, T>, n: nat) -> Seq<&'a T>
    decreases n,
{
    if n == 0 {
        Seq::empty()
    } else {
        seq![v.at(v.tail)] + popped_elements(v.popped(), (n - 1) as nat)
    }
}

/// A freshly constructed buffer holds nothing and no logical index is in range.
pub proof fn lemma_new_buffer_has_no_index_in_range<'a, T>(capacity: Index, index: Index)
    ensures
        RingBufferView::<'a, T>::empty(capacity).len == 0,
        !RingBufferView::<'a, T>::empty(capacity).in_range(index),
{
}

/// Pushing a sequence onto a queue with room for it keeps it a queue and
/// appends the sequence to its window; the tail stays and the head moves by the
/// sequence's length.
pub proof fn lemma_pushed_all_queue<'a, T>(v: RingBufferView<'a, T>, elems: Seq<&'a T>)
    requires
        v.slots.len() == v.capacity,
        v.is_queue(),
        v.len + elems.len() <= v.capacity,
        v.head + elems.len() <= Index::MAX,
    ensures
        pushed_all(v, elems).is_queue(),
        pushed_all(v, elems).window() == v.window() + elems,
        pushed_all(v, elems).slots.len() == v.capacity,
        pushed_all(v, elems).capacity == v.capacity,
        pushed_all(v, elems).tail == v.tail,
        pushed_all(v, elems).len == v.len + elems.len(),
        pushed_all(v, elems).head == v.head + elems.len(),
    decreases elems.len(),
{
    if elems.len() > 0 {
        let prefix = elems.drop_last();
        lemma_pushed_all_queue(v, prefix);
        lemma_push_keeps_queue(pushed_all(v, prefix), elems.last());
        assert(v.window() + prefix + seq![elems.last()] =~= v.window() + elems);
        assert(pushed_all(v, prefix).window().push(elems.last()) =~= v.window() + prefix + seq![elems.last()]);
    } else {
        assert(v.window() + elems =~= v.window());
    }
}

/// Popping `n` elements from a queue returns the first `n` of its window, in order.
pub proof fn lemma_popped_elements_queue<'a, T>(v: RingBufferView<'a, T>, n: nat)
    requires
        v.is_queue(),
        n <= v.len,
    ensures
        popped_elements(v, n) == v.window().take(n as int),
    decreases n,
{
    if n > 0 {
        lemma_pop_keeps_queue(v);
        lemma_popped_elements_queue(v.popped(), (n - 1) as nat);
        assert(seq![v.window()[0]] + v.window().drop_first().take(n - 1) =~= v.window().take(n as int));
    } else {
        assert(v.window().take(0) =~= Seq::<&'a T>::empty());
    }
}

/// First in, first out: after pushing a sequence onto a queue with room for it,
/// popping everything returns what the queue held, then the sequence, in the
/// order of the pushes, wherever the physical slots wrap around.
pub proof fn lemma_fifo<'a, T>(v: RingBufferView<'a, T>, elems: Seq<&'a T>)
    requires
        v.slots.len() == v.capacity,
        v.is_queue(),
        v.len + elems.len() <= v.capacity,
        v.head + elems.len() <= Index::MAX,
    ensures
        popped_elements(pushed_all(v, elems), (v.len + elems.len()) as nat) == v.window() + elems,
{
    lemma_pushed_all_queue(v, elems);
    let w = pushed_all(v, elems);
    lemma_popped_elements_queue(w, (v.len + elems.len()) as nat);
    assert(w.window().take(w.len as int) =~= w.window());
}

/// Filling a fresh buffer with at most `capacity` elements: the length is the
/// number of pushes, each pushed element sits at the logical index of its push
/// (counted from zero) and is in range there, and the index after the last is
/// not in range.
pub proof fn lemma_fill<'a, T>(capacity: Index, elems: Seq<&'a T>)
    requires
        elems.len() <= capacity,
    ensures
        ({
            let w = pushed_all(RingBufferView::<'a, T>::empty(capacity), elems);
            &&& w.len == elems.len()
            &&& forall|k: Index| k < elems.len() ==> #[trigger] w.in_range(k)
            &&& forall|k: Index| k < elems.len() ==> #[trigger] w.is_written(k)
            &&& forall|k: Index| k < elems.len() ==> #[trigger] w.at(k) == elems[k as int]
            &&& !w.in_range(elems.len() as Index)
        }),
{
    let e = RingBufferView::<'a, T>::empty(capacity);
    assert(e.window() =~= Seq::<&'a T>::empty());
    lemma_pushed_all_queue(e, elems);
    let w = pushed_all(e, elems);
    assert(w.window() =~= elems);
    assert forall|k: Index| k < elems.len() implies w.is_written(k) && w.at(k) == elems[k as int] by {
        assert((w.tail + k as int) as Index == k);
        assert(w.is_written((w.tail + k as int) as Index));
        assert(w.window()[k as int] == elems[k as int]);
    }
}

/// Logical indices `capacity` apart share a physical slot.
pub proof fn lemma_slot_period<'a, T>(v: RingBufferView<'a, T>, index: Index)
    requires
        v.capacity > 0,
        index + v.capacity <= Index::MAX,
    ensures
        v.slot(index) == v.slot((index + v.capacity) as Index),
{
    lemma_mod_add_multiples_vanish(index as int, v.capacity as int);
}

/// After a write at one logical index, a read at any logical index sharing its
/// physical slot yields the written element; other slots are unchanged.
pub proof fn lemma_read_after_write<'a, T>(v: RingBufferView<'a, T>, index: Index, elem: &'a T, other: Index)
    requires
        v.slots.len() == v.capacity,
        v.capacity > 0,
    ensures
        v.slot(other) == v.slot(index) ==> {
            &&& v.written(index, elem).is_written(other)
            &&& v.written(index, elem).at(other) == elem
        },
        v.slot(other) != v.slot(index) ==> {
            &&& v.written(index, elem).is_written(other) == v.is_written(other)
            &&& v.written(index, elem).at(other) == v.at(other)
        },
{
}

/// While the buffer holds at most `capacity` elements, it is full exactly when
/// it holds `capacity` of them and empty exactly when it holds none; with a
/// positive capacity it is never both.
pub proof fn lemma_full_and_empty<'a, T>(v: RingBufferView<'a, T>)
    requires
        v.len <= v.capacity,
    ensures
        v.is_full() <==> v.len == v.capacity,
        v.is_empty() <==> v.len == 0,
        v.capacity > 0 ==> !(v.is_full() && v.is_empty()),
{
}

} // verus!
