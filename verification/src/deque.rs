//! The deque engine: two opposite-growing stacks over one arena.

use vstd::prelude::*;

use crate::drain::Drain;
use crate::raw_vec::amortized_cap;
use crate::raw_vec::max_int;
use crate::raw_vec::min_int;
use crate::raw_vec::RawVec;

verus! {

/// A double-ended queue stored as two stacks in a single buffer.
///
/// The *front stack* occupies slots `[tail, capacity)`; its first element is
/// the logical front of the deque. The *back stack* occupies slots
/// `[0, head)`; its last element is the logical back. The deque is full when
/// `tail == head` and empty when `head == 0 && tail == capacity`.
pub struct AltDeque<T> {
    tail: usize,
    head: usize,
    buf: RawVec<T>,
}

impl<T> AltDeque<T> {
    /// The number of slots in the underlying buffer.
    pub closed spec fn spec_capacity(&self) -> int {
        self.buf@.len() as int
    }

    /// How many elements sit in the front stack; the remaining
    /// `self@.len() - self.front_len()` elements sit in the back stack.
    pub closed spec fn front_len(&self) -> int {
        self.buf@.len() - self.tail
    }

    /// Structural invariant: the cursors are ordered within the buffer and
    /// every live slot of either stack is occupied.
    pub closed spec fn wf(&self) -> bool {
        &&& self.head <= self.tail
        &&& self.tail <= self.buf@.len()
        &&& forall|i: int| 0 <= i < self.head ==> (#[trigger] self.buf@[i]) is Some
        &&& forall|i: int|
            self.tail <= i < self.buf@.len() ==> (#[trigger] self.buf@[i]) is Some
    }
}

impl<T> View for AltDeque<T> {
    type V = Seq<T>;

    /// The logical sequence: the front stack in slot order, then the back
    /// stack in slot order.
    closed spec fn view(&self) -> Seq<T> {
        let cap = self.buf@.len() as int;
        let front_len = cap - self.tail;
        Seq::new(
            (cap - self.tail + self.head) as nat,
            |i: int|
                if i < front_len {
                    self.buf@[self.tail + i]->0
                } else {
                    self.buf@[i - front_len]->0
                },
        )
    }
}

impl<T> AltDeque<T> {
    /// Creates an empty deque without allocating.
    pub fn new() -> (r: Self)
        ensures
            r.wf(),
            r@ == Seq::<T>::empty(),
            r.spec_capacity() == 0,
            r.front_len() == 0,
    {
        Self::with_capacity(0)
    }

    /// Creates an empty deque whose buffer holds `capacity` elements.
    pub fn with_capacity(capacity: usize) -> (r: Self)
        ensures
            r.wf(),
            r@ == Seq::<T>::empty(),
            r.spec_capacity() == capacity,
            r.front_len() == 0,
    {
        let buf = RawVec::with_capacity(capacity);
        let tail = buf.slot_count();
        let r = AltDeque { tail, head: 0, buf };
        proof {
            assert(r@ =~= Seq::<T>::empty());
        }
        r
    }

    /// The number of elements the deque can hold without reallocating; a
    /// deque of zero-sized elements reports an unbounded capacity.
    pub fn capacity(&self) -> (r: usize)
        ensures
            r == crate::raw_vec::reported_cap::<T>(self.spec_capacity()),
    {
        self.buf.capacity()
    }

    /// The number of elements in the deque.
    pub fn len(&self) -> (r: usize)
        requires
            self.wf(),
        ensures
            r == self@.len(),
    {
        self.buf.slot_count() - self.tail + self.head
    }

    /// Whether the deque holds no elements.
    pub fn is_empty(&self) -> (r: bool)
        requires
            self.wf(),
        ensures
            r == (self@.len() == 0),
    {
        self.head == 0 && self.tail == self.buf.slot_count()
    }

    /// The number of elements held in the front stack, as executable code.
    pub(crate) fn front_stack_len(&self) -> (r: usize)
        requires
            self.wf(),
        ensures
            r == self.front_len(),
    {
        self.buf.slot_count() - self.tail
    }

    /// Decides the structural invariant at run time, by checking the cursor
    /// order and scanning both stacks' slots.
    pub(crate) fn check_wf(&self) -> (r: bool)
        ensures
            r == self.wf(),
    {
        let cap = self.buf.slot_count();
        if self.head > self.tail || self.tail > cap {
            return false;
        }
        let mut i: usize = 0;
        while i < self.head
            invariant
                i <= self.head,
                self.head <= self.tail <= self.buf@.len(),
                forall|k: int| 0 <= k < i ==> (#[trigger] self.buf@[k]) is Some,
            decreases self.head - i,
        {
            if self.buf.slot(i).is_none() {
                return false;
            }
            i = i + 1;
        }
        let mut j = self.tail;
        while j < cap
            invariant
                self.tail <= j <= cap,
                cap == self.buf@.len(),
                self.head <= self.tail <= self.buf@.len(),
                forall|k: int| 0 <= k < self.head ==> (#[trigger] self.buf@[k]) is Some,
                forall|k: int| self.tail <= k < j ==> (#[trigger] self.buf@[k]) is Some,
            decreases cap - j,
        {
            if self.buf.slot(j).is_none() {
                return false;
            }
            j = j + 1;
        }
        true
    }

    /// Whether every slot is occupied, which forces growth before a write.
    fn is_full(&self) -> (r: bool)
        requires
            self.wf(),
        ensures
            r == (self@.len() == self.spec_capacity()),
    {
        self.tail == self.head
    }

    /// Moves `count` slots starting at `from` to the run starting at `to`,
    /// like an overlap-safe memory move. The moved-from slots that are not
    /// also destinations are left free; slots outside both runs are
    /// untouched.
    fn copy(&mut self, from: usize, to: usize, count: usize)
        requires
            from + count <= old(self).spec_capacity(),
            to + count <= old(self).spec_capacity(),
        ensures
            final(self).tail == old(self).tail,
            final(self).head == old(self).head,
            final(self).buf@.len() == old(self).buf@.len(),
            forall|i: int|
                to <= i < to + count ==> (#[trigger] final(self).buf@[i]) == old(self).buf@[from + i
                    - to],
            forall|i: int|
                0 <= i < final(self).buf@.len() && !(from <= i < from + count) && !(to <= i < to
                    + count) ==> (#[trigger] final(self).buf@[i]) == old(self).buf@[i],
            count == 0 || from == to ==> final(self).buf@ == old(self).buf@,
    {
        if count == 0 || from == to {
            return ;
        }
        let _cap_bound = self.buf.slot_count();
        if to < from {
            let mut j: usize = 0;
            while j < count
                invariant
                    to < from,
                    from + count <= usize::MAX,
                    from + count <= self.buf@.len(),
                    j <= count,
                    self.tail == old(self).tail,
                    self.head == old(self).head,
                    self.buf@.len() == old(self).buf@.len(),
                    forall|i: int|
                        to <= i < to + j ==> (#[trigger] self.buf@[i]) == old(self).buf@[from + i
                            - to],
                    forall|i: int|
                        from + j <= i < from + count ==> (#[trigger] self.buf@[i]) == old(
                            self,
                        ).buf@[i],
                    forall|i: int|
                        0 <= i < self.buf@.len() && !(from <= i < from + j) && !(to <= i < to + j)
                            ==> (#[trigger] self.buf@[i]) == old(self).buf@[i],
                decreases count - j,
            {
                let v = self.buf.take_slot(from + j);
                self.buf.set_slot(to + j, v);
                j = j + 1;
            }
        } else {
            let mut j: usize = count;
            while j > 0
                invariant
                    from < to,
                    to + count <= usize::MAX,
                    to + count <= self.buf@.len(),
                    j <= count,
                    self.tail == old(self).tail,
                    self.head == old(self).head,
                    self.buf@.len() == old(self).buf@.len(),
                    forall|i: int|
                        to + j <= i < to + count ==> (#[trigger] self.buf@[i]) == old(
                            self,
                        ).buf@[from + i - to],
                    forall|i: int|
                        from <= i < from + j ==> (#[trigger] self.buf@[i]) == old(self).buf@[i],
                    forall|i: int|
                        0 <= i < self.buf@.len() && !(from + j <= i < from + count) && !(to + j <= i
                            < to + count) ==> (#[trigger] self.buf@[i]) == old(self).buf@[i],
                decreases j,
            {
                j = j - 1;
                let v = self.buf.take_slot(from + j);
                self.buf.set_slot(to + j, v);
            }
        }
    }

    /// The logical sequence the cursors would describe if the buffer ended
    /// at `cap_end`: used to carry the old layout across a reallocation.
    spec fn view_up_to(&self, cap_end: int) -> Seq<T> {
        let front_len = cap_end - self.tail;
        Seq::new(
            (cap_end - self.tail + self.head) as nat,
            |i: int|
                if i < front_len {
                    self.buf@[self.tail + i]->0
                } else {
                    self.buf@[i - front_len]->0
                },
        )
    }

    /// After the buffer grew from `old_cap`, slides the front stack to the
    /// far end of the enlarged buffer so it again ends at the new capacity.
    fn handle_capacity_increase(&mut self, old_cap: usize)
        requires
            old(self).head <= old(self).tail,
            old(self).tail <= old_cap,
            old_cap <= old(self).spec_capacity(),
            forall|i: int| 0 <= i < old(self).head ==> (#[trigger] old(self).buf@[i]) is Some,
            forall|i: int|
                old(self).tail <= i < old_cap ==> (#[trigger] old(self).buf@[i]) is Some,
        ensures
            final(self).wf(),
            final(self).spec_capacity() == old(self).spec_capacity(),
            final(self).head == old(self).head,
            final(self).front_len() == old_cap - old(self).tail,
            final(self)@ == old(self).view_up_to(old_cap as int),
    {
        let cap = self.buf.slot_count();
        if old_cap == cap {
            proof {
                assert(self@ =~= old(self).view_up_to(old_cap as int));
            }
            return ;
        }
        let growth = cap - old_cap;
        let front_len = old_cap - self.tail;
        let new_tail = self.tail + growth;
        self.copy(self.tail, new_tail, front_len);
        self.tail = new_tail;
        proof {
            assert(self@ =~= old(self).view_up_to(old_cap as int));
        }
    }

    /// Doubles the buffer and relocates the front stack; called when full.
    fn grow(&mut self)
        requires
            old(self).wf(),
            old(self)@.len() == old(self).spec_capacity(),
            crate::raw_vec::can_grow_amortized::<T>(
                old(self).spec_capacity(),
                old(self)@.len() as int,
                1,
            ),
        ensures
            final(self).wf(),
            final(self)@ == old(self)@,
            final(self).head == old(self).head,
            final(self).front_len() == old(self).front_len(),
            final(self).spec_capacity() == amortized_cap::<T>(
                old(self).spec_capacity(),
                old(self)@.len() + 1 as int,
            ),
            final(self)@.len() < final(self).spec_capacity(),
    {
        let old_cap = self.buf.slot_count();
        self.buf.reserve_for_push(old_cap);
        proof {
            assert forall|i: int| 0 <= i < self.head implies (#[trigger] self.buf@[i]) is Some by {
                assert(self.buf@.subrange(0, old_cap as int)[i] == old(self).buf@[i]);
            }
            assert forall|i: int| self.tail <= i < old_cap implies (
            #[trigger] self.buf@[i]) is Some by {
                assert(self.buf@.subrange(0, old_cap as int)[i] == old(self).buf@[i]);
            }
        }
        self.handle_capacity_increase(old_cap);
        proof {
            assert(self@ =~= old(self)@);
        }
    }

    /// Appends an element at the logical back of the deque.
    pub fn push_back(&mut self, value: T)
        requires
            old(self).wf(),
            old(self)@.len() < usize::MAX,
            old(self)@.len() == old(self).spec_capacity() ==> crate::raw_vec::can_grow_amortized::<
                T,
            >(old(self).spec_capacity(), old(self)@.len() as int, 1),
        ensures
            final(self).wf(),
            final(self)@ == old(self)@.push(value),
            final(self).front_len() == old(self).front_len(),
            final(self).spec_capacity() == grown_capacity::<T>(
                old(self).spec_capacity(),
                old(self)@.len() as int,
            ),
    {
        if self.is_full() {
            self.grow();
        }
        let head = self.head;
        self.buf.set_slot(head, Some(value));
        self.head = head + 1;
        proof {
            assert(self@ =~= old(self)@.push(value));
        }
    }

    /// Prepends an element at the logical front of the deque.
    pub fn push_front(&mut self, value: T)
        requires
            old(self).wf(),
            old(self)@.len() < usize::MAX,
            old(self)@.len() == old(self).spec_capacity() ==> crate::raw_vec::can_grow_amortized::<
                T,
            >(old(self).spec_capacity(), old(self)@.len() as int, 1),
        ensures
            final(self).wf(),
            final(self)@ == old(self)@.insert(0, value),
            final(self).front_len() == old(self).front_len() + 1,
            final(self).spec_capacity() == grown_capacity::<T>(
                old(self).spec_capacity(),
                old(self)@.len() as int,
            ),
    {
        if self.is_full() {
            self.grow();
        }
        let tail = self.tail - 1;
        self.tail = tail;
        self.buf.set_slot(tail, Some(value));
        proof {
            assert(self@ =~= old(self)@.insert(0, value));
        }
    }

    /// Removes and returns the front element, or `None` if the deque is
    /// empty. When the front stack is exhausted this flips the back stack
    /// across the buffer in one linear pass.
    pub fn pop_front(&mut self) -> (r: Option<T>)
        requires
            old(self).wf(),
        ensures
            final(self).wf(),
            final(self).spec_capacity() == old(self).spec_capacity(),
            old(self)@.len() == 0 ==> r is None && *final(self) == *old(self),
            old(self)@.len() > 0 ==> {
                &&& r == Some(old(self)@[0])
                &&& final(self)@ == old(self)@.subrange(1, old(self)@.len() as int)
                &&& final(self).front_len() == if old(self).front_len() > 0 {
                    old(self).front_len() - 1
                } else {
                    old(self)@.len() - 1
                }
            },
    {
        if self.tail != self.buf.slot_count() {
            let tail = self.tail;
            self.tail = tail + 1;
            let r = self.buf.take_slot(tail);
            proof {
                assert(self@ =~= old(self)@.subrange(1, old(self)@.len() as int));
            }
            r
        } else if self.head != 0 {
            let cap = self.buf.slot_count();
            let h = self.head;
            let r = self.buf.take_slot(0);
            let new_tail = cap - h + 1;
            self.copy(1, new_tail, h - 1);
            self.tail = new_tail;
            self.head = 0;
            proof {
                assert(self@ =~= old(self)@.subrange(1, old(self)@.len() as int));
            }
            r
        } else {
            None
        }
    }

    /// Removes and returns the back element, or `None` if the deque is
    /// empty. When the back stack is exhausted this flips the front stack
    /// across the buffer in one linear pass.
    pub fn pop_back(&mut self) -> (r: Option<T>)
        requires
            old(self).wf(),
        ensures
            final(self).wf(),
            final(self).spec_capacity() == old(self).spec_capacity(),
            old(self)@.len() == 0 ==> r is None && *final(self) == *old(self),
            old(self)@.len() > 0 ==> {
                &&& r == Some(old(self)@.last())
                &&& final(self)@ == old(self)@.drop_last()
                &&& final(self).front_len() == if old(self).front_len() < old(self)@.len() {
                    old(self).front_len()
                } else {
                    0
                }
            },
    {
        if self.head != 0 {
            let h = self.head - 1;
            self.head = h;
            let r = self.buf.take_slot(h);
            proof {
                assert(self@ =~= old(self)@.drop_last());
            }
            r
        } else if self.tail != self.buf.slot_count() {
            let cap = self.buf.slot_count();
            let t = self.tail;
            let r = self.buf.take_slot(cap - 1);
            let new_head = cap - t - 1;
            self.copy(t, 0, new_head);
            self.head = new_head;
            self.tail = cap;
            proof {
                assert(self@ =~= old(self)@.drop_last());
            }
            r
        } else {
            None
        }
    }
    /// Translates the logical index `index` into its slot in the buffer.
    fn physical_index(&self, index: usize) -> (r: usize)
        requires
            self.wf(),
            index < self@.len(),
        ensures
            r < self.spec_capacity(),
            self.buf@[r as int] == Some(self@[index as int]),
            (index < self.front_len()) ==> r == self.spec_capacity() - self.front_len() + index,
            (index >= self.front_len()) ==> r == index - self.front_len(),
    {
        let front_len = self.buf.slot_count() - self.tail;
        if index < front_len {
            self.tail + index
        } else {
            index - front_len
        }
    }

    /// Borrows the element at logical index `index`; index 0 is the front.
    pub fn get(&self, index: usize) -> (r: Option<&T>)
        requires
            self.wf(),
        ensures
            index < self@.len() ==> (r matches Some(v) && *v == self@[index as int]),
            index >= self@.len() ==> r is None,
    {
        let front_len = self.buf.slot_count() - self.tail;
        if index < front_len + self.head {
            let slot = self.physical_index(index);
            match self.buf.slot(slot) {
                Some(v) => Some(v),
                None => {
                    proof {
                        assert(false);
                    }
                    None
                },
            }
        } else {
            None
        }
    }

    /// Mutably borrows the element at logical index `index`; index 0 is the
    /// front. Whatever the caller writes through the borrow replaces that
    /// element and nothing else.
    pub fn get_mut(&mut self, index: usize) -> (r: Option<&mut T>)
        requires
            old(self).wf(),
        ensures
            index >= old(self)@.len() ==> r is None && *final(self) == *old(self),
            index < old(self)@.len() ==> (r matches Some(v) && {
                &&& *v == old(self)@[index as int]
                &&& final(self).wf()
                &&& final(self)@ =~= old(self)@.update(index as int, *final(v))
                &&& final(self).front_len() == old(self).front_len()
                &&& final(self).spec_capacity() == old(self).spec_capacity()
            }),
    {
        let front_len = self.buf.slot_count() - self.tail;
        if index < front_len + self.head {
            let slot = self.physical_index(index);
            let b = self.buf.slot_mut(slot);
            match b {
                Some(v) => Some(v),
                None => {
                    proof {
                        assert(false);
                    }
                    None
                },
            }
        } else {
            None
        }
    }

    /// Borrows the front element, or `None` if the deque is empty.
    pub fn front(&self) -> (r: Option<&T>)
        requires
            self.wf(),
        ensures
            self@.len() > 0 ==> (r matches Some(v) && *v == self@[0]),
            self@.len() == 0 ==> r is None,
    {
        if self.tail != self.buf.slot_count() {
            match self.buf.slot(self.tail) {
                Some(v) => Some(v),
                None => {
                    proof {
                        assert(false);
                    }
                    None
                },
            }
        } else if self.head != 0 {
            match self.buf.slot(0) {
                Some(v) => Some(v),
                None => {
                    proof {
                        assert(false);
                    }
                    None
                },
            }
        } else {
            None
        }
    }

    /// Mutably borrows the front element, or `None` if the deque is empty.
    pub fn front_mut(&mut self) -> (r: Option<&mut T>)
        requires
            old(self).wf(),
        ensures
            old(self)@.len() == 0 ==> r is None && *final(self) == *old(self),
            old(self)@.len() > 0 ==> (r matches Some(v) && {
                &&& *v == old(self)@[0]
                &&& final(self).wf()
                &&& final(self)@ =~= old(self)@.update(0, *final(v))
                &&& final(self).front_len() == old(self).front_len()
                &&& final(self).spec_capacity() == old(self).spec_capacity()
            }),
    {
        if self.tail != self.buf.slot_count() || self.head != 0 {
            self.get_mut(0)
        } else {
            None
        }
    }

    /// Mutably borrows the back element, or `None` if the deque is empty.
    pub fn back_mut(&mut self) -> (r: Option<&mut T>)
        requires
            old(self).wf(),
        ensures
            old(self)@.len() == 0 ==> r is None && *final(self) == *old(self),
            old(self)@.len() > 0 ==> (r matches Some(v) && {
                &&& *v == old(self)@.last()
                &&& final(self).wf()
                &&& final(self)@ =~= old(self)@.update(old(self)@.len() - 1, *final(v))
                &&& final(self).front_len() == old(self).front_len()
                &&& final(self).spec_capacity() == old(self).spec_capacity()
            }),
    {
        let len = self.len();
        if len != 0 {
            self.get_mut(len - 1)
        } else {
            None
        }
    }

    /// Borrows the back element, or `None` if the deque is empty.
    pub fn back(&self) -> (r: Option<&T>)
        requires
            self.wf(),
        ensures
            self@.len() > 0 ==> (r matches Some(v) && *v == self@.last()),
            self@.len() == 0 ==> r is None,
    {
        if self.head != 0 {
            match self.buf.slot(self.head - 1) {
                Some(v) => Some(v),
                None => {
                    proof {
                        assert(false);
                    }
                    None
                },
            }
        } else if self.tail != self.buf.slot_count() {
            match self.buf.slot(self.buf.slot_count() - 1) {
                Some(v) => Some(v),
                None => {
                    proof {
                        assert(false);
                    }
                    None
                },
            }
        } else {
            None
        }
    }

    /// Borrows the two stacks in logical order: the first vector holds the
    /// front stack, the second the back stack, and their concatenation is
    /// the whole deque.
    pub fn as_slices(&self) -> (r: (Vec<&T>, Vec<&T>))
        requires
            self.wf(),
        ensures
            r.0@.len() == self.front_len(),
            r.1@.len() == self@.len() - self.front_len(),
            forall|i: int| 0 <= i < r.0@.len() ==> r.0@[i] == self@[i],
            forall|i: int| 0 <= i < r.1@.len() ==> r.1@[i] == self@[self.front_len() + i],
    {
        let cap = self.buf.slot_count();
        let mut front: Vec<&T> = Vec::new();
        let mut i = self.tail;
        while i < cap
            invariant
                self.wf(),
                cap == self.spec_capacity(),
                self.tail <= i <= cap,
                front@.len() == i - self.tail,
                forall|k: int| 0 <= k < front@.len() ==> front@[k] == self@[k],
            decreases cap - i,
        {
            match self.buf.slot(i) {
                Some(v) => front.push(v),
                None => {
                    proof {
                        assert(false);
                    }
                },
            }
            i = i + 1;
        }
        let mut back: Vec<&T> = Vec::new();
        let mut j: usize = 0;
        while j < self.head
            invariant
                self.wf(),
                j <= self.head,
                back@.len() == j,
                forall|k: int| 0 <= k < back@.len() ==> back@[k] == self@[self.front_len() + k],
            decreases self.head - j,
        {
            match self.buf.slot(j) {
                Some(v) => back.push(v),
                None => {
                    proof {
                        assert(false);
                    }
                },
            }
            j = j + 1;
        }
        (front, back)
    }

    /// Borrows every element in logical order, front to back.
    pub fn iter(&self) -> (r: Vec<&T>)
        requires
            self.wf(),
        ensures
            r@.len() == self@.len(),
            forall|i: int| 0 <= i < r@.len() ==> r@[i] == self@[i],
    {
        let len = self.len();
        let mut r: Vec<&T> = Vec::new();
        let mut i: usize = 0;
        while i < len
            invariant
                self.wf(),
                i <= len,
                len == self@.len(),
                r@.len() == i,
                forall|k: int| 0 <= k < r@.len() ==> r@[k] == self@[k],
            decreases len - i,
        {
            match self.get(i) {
                Some(v) => r.push(v),
                None => {
                    proof {
                        assert(false);
                    }
                },
            }
            i = i + 1;
        }
        r
    }

    /// Borrows the elements with logical indices in `[start, end)`, in
    /// order.
    pub fn range(&self, start: usize, end: usize) -> (r: Vec<&T>)
        requires
            self.wf(),
            start <= end,
            end <= self@.len(),
        ensures
            r@.len() == end - start,
            forall|i: int| 0 <= i < r@.len() ==> r@[i] == self@[start + i],
    {
        let mut r: Vec<&T> = Vec::new();
        let mut i = start;
        while i < end
            invariant
                self.wf(),
                start <= i <= end,
                end <= self@.len(),
                r@.len() == i - start,
                forall|k: int| 0 <= k < r@.len() ==> r@[k] == self@[start + k],
            decreases end - i,
        {
            match self.get(i) {
                Some(v) => r.push(v),
                None => {
                    proof {
                        assert(false);
                    }
                },
            }
            i = i + 1;
        }
        r
    }

    /// Exchanges the elements at logical indices `i` and `j`, which must
    /// both be in bounds; the indices may be equal.
    pub fn swap(&mut self, i: usize, j: usize)
        requires
            old(self).wf(),
            i < old(self)@.len(),
            j < old(self)@.len(),
        ensures
            final(self).wf(),
            final(self)@ == old(self)@.update(i as int, old(self)@[j as int]).update(
                j as int,
                old(self)@[i as int],
            ),
            final(self).front_len() == old(self).front_len(),
            final(self).spec_capacity() == old(self).spec_capacity(),
    {
        let pi = self.physical_index(i);
        let pj = self.physical_index(j);
        if pi != pj {
            let a = self.buf.take_slot(pi);
            let b = self.buf.take_slot(pj);
            self.buf.set_slot(pi, b);
            self.buf.set_slot(pj, a);
        }
        proof {
            assert(self@ =~= old(self)@.update(i as int, old(self)@[j as int]).update(
                j as int,
                old(self)@[i as int],
            ));
        }
    }

    /// Removes and returns the element at logical index `index`, replacing
    /// it with the front element; `None` if `index` is out of bounds.
    /// Constant time, but the order of the remaining elements changes.
    pub fn swap_remove_front(&mut self, index: usize) -> (r: Option<T>)
        requires
            old(self).wf(),
        ensures
            final(self).wf(),
            final(self).spec_capacity() == old(self).spec_capacity(),
            index >= old(self)@.len() ==> r is None && *final(self) == *old(self),
            index < old(self)@.len() ==> {
                &&& r == Some(old(self)@[index as int])
                &&& final(self)@ == old(self)@.update(index as int, old(self)@[0]).subrange(
                    1,
                    old(self)@.len() as int,
                )
            },
    {
        if index < self.len() {
            self.swap(index, 0);
            let r = self.pop_front();
            proof {
                assert(final(self)@ =~= old(self)@.update(index as int, old(self)@[0]).subrange(
                    1,
                    old(self)@.len() as int,
                ));
            }
            r
        } else {
            None
        }
    }

    /// Removes and returns the element at logical index `index`, replacing
    /// it with the back element; `None` if `index` is out of bounds.
    /// Constant time, but the order of the remaining elements changes.
    pub fn swap_remove_back(&mut self, index: usize) -> (r: Option<T>)
        requires
            old(self).wf(),
        ensures
            final(self).wf(),
            final(self).spec_capacity() == old(self).spec_capacity(),
            index >= old(self)@.len() ==> r is None && *final(self) == *old(self),
            index < old(self)@.len() ==> {
                &&& r == Some(old(self)@[index as int])
                &&& final(self)@ == old(self)@.update(index as int, old(self)@.last()).drop_last()
            },
    {
        let len = self.len();
        if index < len {
            self.swap(index, len - 1);
            let r = self.pop_back();
            proof {
                assert(final(self)@ =~= old(self)@.update(
                    index as int,
                    old(self)@.last(),
                ).drop_last());
            }
            r
        } else {
            None
        }
    }
    /// Ensures room for at least `additional` more elements, growing by the
    /// amortized doubling policy when the present capacity is too small.
    pub fn reserve(&mut self, additional: usize)
        requires
            old(self).wf(),
            old(self)@.len() + additional <= usize::MAX,
            additional > old(self).spec_capacity() - old(self)@.len()
                ==> crate::raw_vec::can_grow_amortized::<T>(
                old(self).spec_capacity(),
                old(self)@.len() as int,
                additional as int,
            ),
        ensures
            final(self).wf(),
            final(self)@ == old(self)@,
            final(self).front_len() == old(self).front_len(),
            final(self).spec_capacity() == crate::raw_vec::reserved_cap::<T>(
                old(self).spec_capacity(),
                old(self)@.len() as int,
                additional as int,
            ),
    {
        let old_cap = self.buf.slot_count();
        let used_cap = self.len();
        self.buf.reserve(used_cap, additional);
        proof {
            assert forall|i: int| 0 <= i < self.head implies (#[trigger] self.buf@[i]) is Some by {
                assert(self.buf@.subrange(0, old_cap as int)[i] == old(self).buf@[i]);
            }
            assert forall|i: int| self.tail <= i < old_cap implies (
            #[trigger] self.buf@[i]) is Some by {
                assert(self.buf@.subrange(0, old_cap as int)[i] == old(self).buf@[i]);
            }
        }
        self.handle_capacity_increase(old_cap);
        proof {
            assert(self@ =~= old(self)@);
        }
    }

    /// Ensures room for at least `additional` more elements, growing to
    /// exactly the required count when the present capacity is too small.
    pub fn reserve_exact(&mut self, additional: usize)
        requires
            old(self).wf(),
            old(self)@.len() + additional <= usize::MAX,
            additional > old(self).spec_capacity() - old(self)@.len()
                ==> crate::raw_vec::can_grow_exact::<T>(
                old(self)@.len() as int,
                additional as int,
            ),
        ensures
            final(self).wf(),
            final(self)@ == old(self)@,
            final(self).front_len() == old(self).front_len(),
            final(self).spec_capacity() == crate::raw_vec::reserved_cap_exact(
                old(self).spec_capacity(),
                old(self)@.len() as int,
                additional as int,
            ),
    {
        let old_cap = self.buf.slot_count();
        let used_cap = self.len();
        self.buf.reserve_exact(used_cap, additional);
        proof {
            assert forall|i: int| 0 <= i < self.head implies (#[trigger] self.buf@[i]) is Some by {
                assert(self.buf@.subrange(0, old_cap as int)[i] == old(self).buf@[i]);
            }
            assert forall|i: int| self.tail <= i < old_cap implies (
            #[trigger] self.buf@[i]) is Some by {
                assert(self.buf@.subrange(0, old_cap as int)[i] == old(self).buf@[i]);
            }
        }
        self.handle_capacity_increase(old_cap);
        proof {
            assert(self@ =~= old(self)@);
        }
    }

    /// Shrinks the buffer towards `min_capacity`: the capacity becomes the
    /// larger of `min_capacity` and the length, and shrinks only, never
    /// grows. A deque of zero-sized elements reports an unbounded capacity
    /// and is left untouched.
    pub fn shrink_to(&mut self, min_capacity: usize)
        requires
            old(self).wf(),
        ensures
            final(self).wf(),
            final(self)@ == old(self)@,
            final(self).front_len() == old(self).front_len(),
            vstd::layout::size_of::<T>() == 0 ==> *final(self) == *old(self),
            vstd::layout::size_of::<T>() != 0 ==> final(self).spec_capacity() == (
            if min_capacity >= old(self).spec_capacity() {
                old(self).spec_capacity()
            } else {
                max_int(min_capacity as int, old(self)@.len() as int)
            }),
            min_capacity >= old(self).spec_capacity() ==> *final(self) == *old(self),
    {
        if core::mem::size_of::<T>() == 0 {
            return ;
        }
        if min_capacity >= self.buf.slot_count() {
            return ;
        }
        let len = self.len();
        let target_cap = if min_capacity > len {
            min_capacity
        } else {
            len
        };
        let front_len = self.buf.slot_count() - self.tail;
        let new_tail = target_cap - front_len;
        self.copy(self.tail, new_tail, front_len);
        self.tail = new_tail;
        self.buf.shrink_to_fit(target_cap);
        proof {
            assert forall|i: int| self.tail <= i < self.buf@.len() implies (
            #[trigger] self.buf@[i]) is Some by {
                assert(self.buf@[i] == old(self).buf@[old(self).tail + i - self.tail]);
            }
            assert(self@ =~= old(self)@);
        }
    }

    /// Shrinks the buffer to exactly the deque's length; a deque of
    /// zero-sized elements reports an unbounded capacity and is left
    /// untouched.
    pub fn shrink_to_fit(&mut self)
        requires
            old(self).wf(),
        ensures
            final(self).wf(),
            final(self)@ == old(self)@,
            final(self).front_len() == old(self).front_len(),
            vstd::layout::size_of::<T>() == 0 ==> *final(self) == *old(self),
            vstd::layout::size_of::<T>() != 0 ==> final(self).spec_capacity() == old(self)@.len(),
    {
        self.shrink_to(0);
    }

    /// Keeps the first `len` elements and destroys the rest; a no-op when
    /// `len` is not smaller than the current length. The cursors are parked
    /// on a safe empty state before any element is destroyed, and the
    /// retained front-stack prefix is then relocated to the buffer's end.
    pub fn truncate(&mut self, len: usize)
        requires
            old(self).wf(),
        ensures
            final(self).wf(),
            final(self)@ == old(self)@.subrange(0, min_int(len as int, old(self)@.len() as int)),
            final(self).spec_capacity() == old(self).spec_capacity(),
            final(self).front_len() == if len >= old(self)@.len() {
                old(self).front_len()
            } else if len > old(self).front_len() {
                old(self).front_len()
            } else {
                len as int
            },
            len >= old(self)@.len() ==> *final(self) == *old(self),
    {
        let cur = self.len();
        if len >= cur {
            proof {
                assert(final(self)@ =~= old(self)@.subrange(
                    0,
                    min_int(len as int, old(self)@.len() as int),
                ));
            }
            return ;
        }
        let cap = self.buf.slot_count();
        let front_len = cap - self.tail;
        if len > front_len {
            // the cut falls inside the back stack: pull `head` in first so
            // nothing being destroyed stays reachable, then free the rest
            let begin = len - front_len;
            let old_head = self.head;
            self.head = begin;
            let mut i = begin;
            while i < old_head
                invariant
                    begin <= i <= old_head,
                    old_head <= self.buf@.len(),
                    self.tail == old(self).tail,
                    self.head == begin,
                    self.buf@.len() == old(self).buf@.len(),
                    forall|k: int|
                        0 <= k < self.buf@.len() && !(begin <= k < i) ==> (
                        #[trigger] self.buf@[k]) == old(self).buf@[k],
                decreases old_head - i,
            {
                self.buf.set_slot(i, None);
                i = i + 1;
            }
            proof {
                assert(self@ =~= old(self)@.subrange(
                    0,
                    min_int(len as int, old(self)@.len() as int),
                ));
            }
        } else {
            // the cut falls inside the front stack: park both cursors on the
            // empty state, destroy the whole back stack and the dropped part
            // of the front stack, then slide the kept prefix to the end
            let old_tail = self.tail;
            let old_head = self.head;
            self.head = 0;
            self.tail = cap;
            let mut i: usize = 0;
            while i < old_head
                invariant
                    i <= old_head,
                    old_head <= old(self).tail,
                    old(self).tail <= cap,
                    self.tail == cap,
                    self.head == 0,
                    cap == self.buf@.len(),
                    self.buf@.len() == old(self).buf@.len(),
                    forall|k: int|
                        0 <= k < self.buf@.len() && !(0 <= k < i) ==> (#[trigger] self.buf@[k])
                            == old(self).buf@[k],
                decreases old_head - i,
            {
                self.buf.set_slot(i, None);
                i = i + 1;
            }
            let mut j = old_tail + len;
            while j < cap
                invariant
                    old_tail + len <= j <= cap,
                    old_head <= old(self).tail,
                    old(self).tail == old_tail,
                    self.tail == cap,
                    self.head == 0,
                    cap == self.buf@.len(),
                    self.buf@.len() == old(self).buf@.len(),
                    forall|k: int|
                        0 <= k < self.buf@.len() && !(0 <= k < old_head) && !(old_tail + len <= k
                            < j) ==> (#[trigger] self.buf@[k]) == old(self).buf@[k],
                decreases cap - j,
            {
                self.buf.set_slot(j, None);
                j = j + 1;
            }
            let new_tail = cap - len;
            self.copy(old_tail, new_tail, len);
            self.tail = new_tail;
            proof {
                assert(self@ =~= old(self)@.subrange(
                    0,
                    min_int(len as int, old(self)@.len() as int),
                ));
            }
        }
    }

    /// Destroys every element, keeping the buffer.
    pub fn clear(&mut self)
        requires
            old(self).wf(),
        ensures
            final(self).wf(),
            final(self)@ == Seq::<T>::empty(),
            final(self).spec_capacity() == old(self).spec_capacity(),
            final(self).front_len() == 0,
    {
        self.truncate(0);
        proof {
            assert(final(self)@ =~= Seq::<T>::empty());
        }
    }

    /// Inserts `value` at logical index `index`, shifting the elements after
    /// it towards the back; `index` may equal the length, which appends.
    #[verifier::rlimit(60)]
    pub fn insert(&mut self, index: usize, value: T)
        requires
            old(self).wf(),
            index <= old(self)@.len(),
            old(self)@.len() < usize::MAX,
            old(self)@.len() == old(self).spec_capacity() ==> crate::raw_vec::can_grow_amortized::<
                T,
            >(old(self).spec_capacity(), old(self)@.len() as int, 1),
        ensures
            final(self).wf(),
            final(self)@ == old(self)@.insert(index as int, value),
            final(self).spec_capacity() == grown_capacity::<T>(
                old(self).spec_capacity(),
                old(self)@.len() as int,
            ),
            final(self).front_len() == if index < old(self).front_len() {
                old(self).front_len() + 1
            } else {
                old(self).front_len()
            },
    {
        if self.is_full() {
            self.grow();
        }
        let front_len = self.buf.slot_count() - self.tail;
        if index < front_len {
            let new_tail = self.tail - 1;
            self.copy(self.tail, new_tail, index);
            self.tail = new_tail;
            self.buf.set_slot(new_tail + index, Some(value));
        } else {
            let at = index - front_len;
            self.copy(at, at + 1, self.head - at);
            self.head = self.head + 1;
            self.buf.set_slot(at, Some(value));
        }
        proof {
            assert(self@ =~= old(self)@.insert(index as int, value));
        }
    }

    /// Removes and returns the element at logical index `index`, shifting
    /// one stack's run by one slot to close the gap; `None` if `index` is
    /// out of bounds. Order is preserved.
    #[verifier::rlimit(60)]
    pub fn remove(&mut self, index: usize) -> (r: Option<T>)
        requires
            old(self).wf(),
        ensures
            final(self).wf(),
            final(self).spec_capacity() == old(self).spec_capacity(),
            index >= old(self)@.len() ==> r is None && *final(self) == *old(self),
            index < old(self)@.len() ==> {
                &&& r == Some(old(self)@[index as int])
                &&& final(self)@ == old(self)@.remove(index as int)
                &&& final(self).front_len() == if index < old(self).front_len() {
                    old(self).front_len() - 1
                } else {
                    old(self).front_len()
                }
            },
    {
        let front_len = self.buf.slot_count() - self.tail;
        if index < front_len {
            let el = self.buf.take_slot(self.tail + index);
            let new_tail = self.tail + 1;
            self.copy(self.tail, new_tail, index);
            self.tail = new_tail;
            proof {
                assert(self@ =~= old(self)@.remove(index as int));
            }
            el
        } else {
            let at = index - front_len;
            if at < self.head {
                let el = self.buf.take_slot(at);
                let new_head = self.head - 1;
                self.head = new_head;
                self.copy(at + 1, at, new_head - at);
                proof {
                    assert(self@ =~= old(self)@.remove(index as int));
                }
                el
            } else {
                None
            }
        }
    }
    /// Rotates the deque `mid` places to the left: the element at index
    /// `mid` moves to the front and the first `mid` elements move to the
    /// back. `mid` may equal the length, which changes nothing.
    #[verifier::rlimit(60)]
    pub fn rotate_left(&mut self, mid: usize)
        requires
            old(self).wf(),
            mid <= old(self)@.len(),
        ensures
            final(self).wf(),
            final(self)@ == old(self)@.subrange(mid as int, old(self)@.len() as int) + old(
                self,
            )@.subrange(0, mid as int),
            final(self).spec_capacity() == old(self).spec_capacity(),
            final(self).front_len() == if mid < old(self).front_len() {
                old(self).front_len() - mid
            } else {
                old(self)@.len() - mid + old(self).front_len()
            },
    {
        let front_len = self.buf.slot_count() - self.tail;
        if mid < front_len {
            self.copy(self.tail, self.head, mid);
            self.head = self.head + mid;
            self.tail = self.tail + mid;
        } else {
            let at = mid - front_len;
            let count = self.head - at;
            self.copy(at, self.tail - count, count);
            self.head = at;
            self.tail = self.tail - count;
        }
        proof {
            assert(self@ =~= old(self)@.subrange(mid as int, old(self)@.len() as int) + old(
                self,
            )@.subrange(0, mid as int));
        }
    }

    /// Rotates the deque `k` places to the right: the front element moves
    /// to index `k` and the last `k` elements move to the front. `k` may
    /// equal the length, which changes nothing.
    #[verifier::rlimit(60)]
    pub fn rotate_right(&mut self, k: usize)
        requires
            old(self).wf(),
            k <= old(self)@.len(),
        ensures
            final(self).wf(),
            final(self)@ == old(self)@.subrange(
                old(self)@.len() - k,
                old(self)@.len() as int,
            ) + old(self)@.subrange(0, old(self)@.len() - k),
            final(self).spec_capacity() == old(self).spec_capacity(),
            final(self).front_len() == if k <= old(self)@.len() - old(self).front_len() {
                old(self).front_len() + k
            } else {
                old(self).front_len() + k - old(self)@.len()
            },
    {
        if k <= self.head {
            let new_head = self.head - k;
            let new_tail = self.tail - k;
            self.copy(new_head, new_tail, k);
            self.head = new_head;
            self.tail = new_tail;
        } else {
            let front_len = self.buf.slot_count() - self.tail;
            let at = k - self.head;
            let count = front_len - at;
            self.copy(self.tail, self.head, count);
            self.head = self.head + count;
            self.tail = self.tail + count;
        }
        proof {
            assert(self@ =~= old(self)@.subrange(old(self)@.len() - k, old(self)@.len() as int)
                + old(self)@.subrange(0, old(self)@.len() - k));
        }
    }

    /// Splits the deque in two at `at`: the first `at` elements stay, the
    /// rest move into a freshly allocated deque (as its front stack), in
    /// order. The capacity of `self` does not change.
    #[verifier::rlimit(100)]
    pub fn split_off(&mut self, at: usize) -> (r: Self)
        requires
            old(self).wf(),
            at <= old(self)@.len(),
        ensures
            final(self).wf(),
            r.wf(),
            final(self)@ == old(self)@.subrange(0, at as int),
            r@ == old(self)@.subrange(at as int, old(self)@.len() as int),
            final(self).spec_capacity() == old(self).spec_capacity(),
            r.spec_capacity() == old(self)@.len() - at,
            r.front_len() == old(self)@.len() - at,
            final(self).front_len() == if at < old(self).front_len() {
                at as int
            } else {
                old(self).front_len()
            },
    {
        let cap = self.buf.slot_count();
        let front_len = cap - self.tail;
        let len = self.len();
        let other_len = len - at;
        let mut obuf = RawVec::with_capacity(other_len);
        if at < front_len {
            // the whole back stack and the front stack's suffix both move
            let h = self.head;
            self.buf.move_range_into(0, &mut obuf, other_len - h, h);
            self.head = 0;
            self.buf.move_range_into(self.tail + at, &mut obuf, 0, front_len - at);
            let new_tail = cap - at;
            self.copy(self.tail, new_tail, at);
            self.tail = new_tail;
        } else {
            // only the back stack's suffix moves
            let begin = at - front_len;
            self.head = begin;
            self.buf.move_range_into(begin, &mut obuf, 0, other_len);
        }
        let other = AltDeque { tail: 0, head: 0, buf: obuf };
        proof {
            let olds = old(self)@;
            assert forall|i: int| 0 <= i < other@.len() implies other@[i] == olds[at + i] by {
                if at < front_len && i < front_len - at {
                    assert(other.buf@[i] == old(self).buf@[old(self).tail + at + i]);
                } else if at < front_len {
                    assert(other.buf@[i] == old(self).buf@[i - (front_len - at)]);
                } else {
                    assert(other.buf@[i] == old(self).buf@[at - front_len + i]);
                }
            }
            assert(self@ =~= olds.subrange(0, at as int));
            assert(other@ =~= olds.subrange(at as int, olds.len() as int));
        }
        other
    }

    /// Moves every element of `other` to the back of `self`, in order,
    /// leaving `other` empty with its capacity intact.
    #[verifier::rlimit(60)]
    pub fn append(&mut self, other: &mut Self)
        requires
            old(self).wf(),
            old(other).wf(),
            old(self)@.len() + old(other)@.len() <= usize::MAX,
            old(other)@.len() > old(self).spec_capacity() - old(self)@.len()
                ==> crate::raw_vec::can_grow_amortized::<T>(
                old(self).spec_capacity(),
                old(self)@.len() as int,
                old(other)@.len() as int,
            ),
        ensures
            final(self).wf(),
            final(other).wf(),
            final(self)@ == old(self)@ + old(other)@,
            final(other)@ == Seq::<T>::empty(),
            final(self).front_len() == old(self).front_len(),
            final(other).front_len() == 0,
            final(other).spec_capacity() == old(other).spec_capacity(),
            final(self).spec_capacity() == crate::raw_vec::reserved_cap::<T>(
                old(self).spec_capacity(),
                old(self)@.len() as int,
                old(other)@.len() as int,
            ),
    {
        let o_cap = other.buf.slot_count();
        let other_front_len = o_cap - other.tail;
        self.reserve(other_front_len + other.head);
        let o_tail = other.tail;
        other.buf.move_range_into(o_tail, &mut self.buf, self.head, other_front_len);
        self.head = self.head + other_front_len;
        let o_head = other.head;
        other.buf.move_range_into(0, &mut self.buf, self.head, o_head);
        self.head = self.head + o_head;
        other.head = 0;
        other.tail = o_cap;
        proof {
            assert(self@ =~= old(self)@ + old(other)@);
            assert(other@ =~= Seq::<T>::empty());
        }
    }
    /// Reverses the slots in `[a, b)`, leaving all other slots untouched.
    fn reverse_slots(&mut self, a: usize, b: usize)
        requires
            a <= b,
            b <= old(self).spec_capacity(),
        ensures
            final(self).tail == old(self).tail,
            final(self).head == old(self).head,
            final(self).buf@.len() == old(self).buf@.len(),
            forall|i: int|
                a <= i < b ==> (#[trigger] final(self).buf@[i]) == old(self).buf@[a + b - 1 - i],
            forall|i: int|
                0 <= i < final(self).buf@.len() && !(a <= i < b) ==> (
                #[trigger] final(self).buf@[i]) == old(self).buf@[i],
    {
        let _cap_bound = self.buf.slot_count();
        let mut lo = a;
        let mut hi = b;
        while hi - lo > 1
            invariant
                a <= lo <= hi <= b,
                b <= self.buf@.len(),
                b <= usize::MAX,
                lo - a == b - hi,
                self.tail == old(self).tail,
                self.head == old(self).head,
                self.buf@.len() == old(self).buf@.len(),
                forall|i: int|
                    (a <= i < lo || hi <= i < b) ==> (#[trigger] self.buf@[i]) == old(
                        self,
                    ).buf@[a + b - 1 - i],
                forall|i: int|
                    0 <= i < self.buf@.len() && !(a <= i < lo) && !(hi <= i < b) ==> (
                    #[trigger] self.buf@[i]) == old(self).buf@[i],
            decreases hi - lo,
        {
            hi = hi - 1;
            let x = self.buf.take_slot(lo);
            let y = self.buf.take_slot(hi);
            self.buf.set_slot(lo, y);
            self.buf.set_slot(hi, x);
            lo = lo + 1;
        }
    }

    /// Rearranges the storage in place so that the whole deque is one
    /// contiguous run, held entirely in the front stack; the logical
    /// sequence and the capacity do not change. When everything is already
    /// in the front stack this does nothing. After the call, the first
    /// vector of [`AltDeque::as_slices`] holds every element.
    #[verifier::rlimit(100)]
    pub fn make_contiguous(&mut self)
        requires
            old(self).wf(),
        ensures
            final(self).wf(),
            final(self)@ == old(self)@,
            final(self).spec_capacity() == old(self).spec_capacity(),
            final(self).front_len() == old(self)@.len(),
            old(self).front_len() == old(self)@.len() ==> *final(self) == *old(self),
    {
        if self.head == 0 {
            return ;
        }
        let cap = self.buf.slot_count();
        let front_len = cap - self.tail;
        let free = self.tail - self.head;
        if front_len == 0 {
            // only the back stack exists: shift it to the buffer's end
            self.copy(0, free, self.head);
        } else if free >= self.head {
            // the gap is wide enough for the back stack: slide the front
            // stack left, then move the back stack behind it
            self.copy(self.tail, free, front_len);
            self.copy(0, cap - self.head, self.head);
        } else if free >= front_len {
            // the gap is wide enough for the front stack: slide the back
            // stack right, prepend the front stack, then shift the whole
            // run to the buffer's end
            self.copy(0, front_len, self.head);
            self.copy(self.tail, 0, front_len);
            self.copy(0, free, front_len + self.head);
        } else {
            // tight capacity: the target layout is a cyclic shift of the
            // whole slot array by `head`, done in place by three reversals
            let h = self.head;
            self.reverse_slots(0, h);
            self.reverse_slots(h, cap);
            self.reverse_slots(0, cap);
            proof {
                assert forall|i: int| 0 <= i < cap - h implies self.buf@[i] == old(self).buf@[h
                    + i] by {
                    assert(self.buf@[i] == old(self).buf@[h + cap - 1 - (cap - 1 - i)]);
                }
                assert forall|i: int| cap - h <= i < cap implies self.buf@[i] == old(self).buf@[i
                    - (cap - h)] by {
                    assert(self.buf@[i] == old(self).buf@[h - 1 - (cap - 1 - i)]);
                }
            }
        }
        self.head = 0;
        self.tail = free;
        proof {
            assert(self@ =~= old(self)@);
        }
    }
    /// Removes the elements with logical indices in `[start, end)` and
    /// returns them as an owning double-ended cursor; the gap is closed at
    /// once, so the remaining elements keep their relative order whatever
    /// happens to the cursor. The three compaction shapes are: range wholly
    /// in the front stack, wholly in the back stack, or spanning the
    /// boundary.
    #[verifier::rlimit(100)]
    pub fn drain(&mut self, start: usize, end: usize) -> (r: Drain<T>)
        requires
            old(self).wf(),
            start <= end,
            end <= old(self)@.len(),
        ensures
            final(self).wf(),
            r.wf(),
            r@ == old(self)@.subrange(start as int, end as int),
            final(self)@ == old(self)@.subrange(0, start as int) + old(self)@.subrange(
                end as int,
                old(self)@.len() as int,
            ),
            final(self).spec_capacity() == old(self).spec_capacity(),
            final(self).front_len() == if start >= old(self).front_len() {
                old(self).front_len()
            } else if end <= old(self).front_len() {
                old(self).front_len() - (end - start)
            } else {
                start as int
            },
    {
        let cap = self.buf.slot_count();
        let front_len = cap - self.tail;
        let tail = self.tail;
        // lift the range out of the buffer first
        let mut items: Vec<Option<T>> = Vec::new();
        let mut i = start;
        while i < end
            invariant
                start <= i <= end,
                end <= (cap - tail) + self.head,
                tail == old(self).tail,
                front_len == cap - tail,
                self.tail == old(self).tail,
                self.head == old(self).head,
                old(self).wf(),
                cap == self.buf@.len(),
                self.buf@.len() == old(self).buf@.len(),
                items@.len() == i - start,
                forall|k: int| 0 <= k < i - start ==> (#[trigger] items@[k]) == Some(
                    old(self)@[start + k],
                ),
                forall|j: int|
                    0 <= j < cap && !(tail + start <= j < tail + i) && !(start - front_len <= j < i
                        - front_len) ==> (#[trigger] self.buf@[j]) == old(self).buf@[j],
            decreases end - i,
        {
            let p = if i < front_len {
                tail + i
            } else {
                i - front_len
            };
            let v = self.buf.take_slot(p);
            items.push(v);
            i = i + 1;
        }
        // close the gap
        let range_len = end - start;
        if start < front_len {
            if end <= front_len {
                // wholly inside the front stack: slide the kept prefix
                // towards the buffer's end
                let new_tail = tail + range_len;
                self.copy(tail, new_tail, start);
                self.tail = new_tail;
            } else {
                // spanning the boundary: the kept front prefix moves to the
                // buffer's end and the kept back suffix moves to slot 0
                let new_head = self.head - (end - front_len);
                let new_tail = cap - start;
                self.copy(tail, new_tail, start);
                self.copy(end - front_len, 0, new_head);
                self.head = new_head;
                self.tail = new_tail;
            }
        } else {
            // wholly inside the back stack: slide the kept suffix down
            let s = start - front_len;
            let e = end - front_len;
            self.copy(e, s, self.head - e);
            self.head = self.head - range_len;
        }
        let r = Drain::new(items);
        proof {
            assert(r@ =~= old(self)@.subrange(start as int, end as int));
            assert(self@ =~= old(self)@.subrange(0, start as int) + old(self)@.subrange(
                end as int,
                old(self)@.len() as int,
            ));
        }
        r
    }
}

impl<T: Clone> Clone for AltDeque<T> {
    /// Clones slot by slot: the clone has the same capacity and the same
    /// split point as the original.
    fn clone(&self) -> (r: Self)
        ensures
            self.wf() ==> {
                &&& r.wf()
                &&& r@.len() == self@.len()
                &&& forall|i: int| 0 <= i < self@.len() ==> cloned::<T>(self@[i], #[trigger] r@[i])
                &&& r.spec_capacity() == self.spec_capacity()
                &&& r.front_len() == self.front_len()
            },
    {
        let cap = self.buf.slot_count();
        let mut slots = RawVec::with_capacity(cap);
        let mut i: usize = 0;
        while i < cap
            invariant
                i <= cap,
                cap == self.buf@.len(),
                slots@.len() == cap,
                forall|k: int|
                    0 <= k < i && (#[trigger] self.buf@[k]) is Some ==> slots@[k] is Some
                        && cloned::<T>(self.buf@[k]->0, slots@[k]->0),
                forall|k: int|
                    0 <= k < i && (#[trigger] self.buf@[k]) is None ==> slots@[k] is None,
                forall|k: int| i <= k < cap ==> (#[trigger] slots@[k]) is None,
            decreases cap - i,
        {
            match self.buf.slot(i) {
                Some(v) => {
                    let c = v.clone();
                    slots.set_slot(i, Some(c));
                },
                None => {},
            }
            i = i + 1;
        }
        let r = AltDeque { tail: self.tail, head: self.head, buf: slots };
        proof {
            if self.wf() {
                assert forall|k: int| 0 <= k < r.head implies (#[trigger] r.buf@[k]) is Some by {
                    assert(self.buf@[k] is Some);
                }
                assert forall|k: int|
                    r.tail <= k < r.buf@.len() implies (#[trigger] r.buf@[k]) is Some by {
                    assert(self.buf@[k] is Some);
                }
                assert forall|i: int| 0 <= i < self@.len() implies cloned::<T>(
                    self@[i],
                    #[trigger] r@[i],
                ) by {
                    if i < self.front_len() {
                        assert(self.buf@[self.tail + i] is Some);
                    } else {
                        assert(self.buf@[i - self.front_len()] is Some);
                    }
                }
            }
        }
        r
    }
}

impl<T> vstd::std_specs::core::IndexSpecImpl<usize> for AltDeque<T> {
    /// Indexing demands a well-formed deque and an in-bounds index; the
    /// index operator never runs on anything else.
    open spec fn index_req(&self, index: &usize) -> bool {
        &&& self.wf()
        &&& *index < self@.len()
    }
}

impl<T> core::ops::Index<usize> for AltDeque<T> {
    type Output = T;

    /// Borrows the element at logical index `index`; index 0 is the front.
    fn index(&self, index: usize) -> (r: &T)
        ensures
            *r == self@[index as int],
    {
        self.get(index).unwrap()
    }
}

/// The buffer is never smaller than the deque it holds: the reported
/// capacity bounds the length, and the front stack holds between none and
/// all of the elements.
pub proof fn lemma_capacity_bounds<T>(d: &AltDeque<T>)
    requires
        d.wf(),
    ensures
        d@.len() <= d.spec_capacity(),
        d@.len() <= crate::raw_vec::reported_cap::<T>(d.spec_capacity()),
        0 <= d.front_len() <= d@.len(),
{
    crate::raw_vec::lemma_slot_count_fits(&d.buf);
}

/// Capacity after one push on a deque whose buffer held `cap` slots and
/// `len` elements: unchanged unless the deque was full, in which case the
/// buffer jumps to its amortized growth target.
pub open spec fn grown_capacity<T>(cap: int, len: int) -> int {
    if len == cap {
        amortized_cap::<T>(cap, len + 1)
    } else {
        cap
    }
}

} // verus!
