//! The arena underneath the deque: a growable block of element slots.
//!
//! `RawVec<T>` owns one contiguous run of slots, each either occupied
//! (`Some`) or free (`None`). It tracks only its capacity, never which
//! slots are in use: deciding that is the deque's job. Growth follows the
//! classic doubling policy so that repeated single-element growth is
//! amortized constant time, with a small size-dependent minimum so tiny
//! buffers do not reallocate on every push; a growth target whose byte
//! size would exceed the platform's maximum object size of `isize::MAX`
//! bytes is refused as a capacity overflow.
//!
//! Zero-sized elements need no storage, so a buffer of them reports an
//! unbounded capacity and never shrinks; its slots still exist, because a
//! slot's `Some`/`None` state is what records occupancy.

use vstd::prelude::*;

verus! {

/// Error reported by the fallible reservation entry points.
///
/// The capacity arithmetic overflowed `usize`. Allocation failure itself
/// aborts the process and therefore never surfaces as a value.
#[derive(Debug, PartialEq, Eq, Structural)]
pub enum TryReserveError {
    CapacityOverflow,
}

/// A buffer of `capacity()` element slots; free slots hold `None`.
pub struct RawVec<T> {
    slots: Vec<Option<T>>,
}

/// Smallest capacity a growing buffer jumps to, chosen by element size:
/// single-byte elements start at 8 slots, moderate ones at 4, large ones at 1.
pub open spec fn min_non_zero_cap<T>() -> int {
    if vstd::layout::size_of::<T>() == 1 {
        8
    } else if vstd::layout::size_of::<T>() <= 1024 {
        4
    } else {
        1
    }
}

/// Capacity after an amortized grow: at least double the old capacity, at
/// least the required count, at least the size-dependent minimum, capped at
/// `usize::MAX`.
pub open spec fn amortized_cap<T>(old_cap: int, required: int) -> int {
    let doubled = if 2 * old_cap > required {
        2 * old_cap
    } else {
        required
    };
    let floored = if doubled < min_non_zero_cap::<T>() {
        min_non_zero_cap::<T>()
    } else {
        doubled
    };
    if floored > usize::MAX {
        usize::MAX as int
    } else {
        floored
    }
}

/// The capacity a buffer with `slots` slots reports: unbounded for a
/// zero-sized element type, whose elements need no storage, else the slot
/// count itself.
pub open spec fn reported_cap<T>(slots: int) -> int {
    if vstd::layout::size_of::<T>() == 0 {
        usize::MAX as int
    } else {
        slots
    }
}

/// Whether `count` elements stay within the platform's maximum object size
/// of `isize::MAX` bytes.
pub open spec fn fits_in_bytes<T>(count: int) -> bool {
    count * (vstd::layout::size_of::<T>() as int) <= isize::MAX as int
}

/// Whether an amortized grow for `len + additional` elements can succeed:
/// the element count must fit in `usize` and the doubling target within the
/// platform's byte limit.
pub open spec fn can_grow_amortized<T>(cap: int, len: int, additional: int) -> bool {
    &&& len + additional <= usize::MAX
    &&& fits_in_bytes::<T>(amortized_cap::<T>(cap, len + additional))
}

/// Whether an exact grow to `len + additional` elements can succeed: the
/// element count must fit in `usize` and within the platform's byte limit.
pub open spec fn can_grow_exact<T>(len: int, additional: int) -> bool {
    &&& len + additional <= usize::MAX
    &&& fits_in_bytes::<T>(len + additional)
}

impl<T> View for RawVec<T> {
    type V = Seq<Option<T>>;

    closed spec fn view(&self) -> Seq<Option<T>> {
        self.slots@
    }
}

impl<T> RawVec<T> {
    /// Creates a buffer of capacity 0 without allocating.
    pub fn new() -> (r: Self)
        ensures
            r@ == Seq::<Option<T>>::empty(),
    {
        RawVec { slots: Vec::new() }
    }

    /// Creates a buffer with exactly `capacity` free slots.
    pub fn with_capacity(capacity: usize) -> (r: Self)
        ensures
            r@.len() == capacity,
            forall|i: int| 0 <= i < capacity ==> r@[i] is None,
    {
        let mut slots: Vec<Option<T>> = Vec::new();
        let mut n: usize = 0;
        while n < capacity
            invariant
                n <= capacity,
                slots@.len() == n,
                forall|i: int| 0 <= i < n ==> slots@[i] is None,
            decreases capacity - n,
        {
            slots.push(None);
            n = n + 1;
        }
        RawVec { slots }
    }

    /// The capacity the buffer reports: the slot count, except that a
    /// buffer of zero-sized elements reports an unbounded capacity.
    pub fn capacity(&self) -> (r: usize)
        ensures
            r == reported_cap::<T>(self@.len() as int),
    {
        if core::mem::size_of::<T>() == 0 {
            usize::MAX
        } else {
            self.slots.len()
        }
    }

    /// The number of slots physically present, as executable code.
    pub(crate) fn slot_count(&self) -> (r: usize)
        ensures
            r == self@.len(),
    {
        self.slots.len()
    }

    /// Borrows the slot at `i`.
    pub fn slot(&self, i: usize) -> (r: &Option<T>)
        requires
            i < self@.len(),
        ensures
            *r == self@[i as int],
    {
        &self.slots[i]
    }

    /// Empties the slot at `i` and hands back what it held.
    pub fn take_slot(&mut self, i: usize) -> (r: Option<T>)
        requires
            i < old(self)@.len(),
        ensures
            r == old(self)@[i as int],
            final(self)@ == old(self)@.update(i as int, None),
    {
        let r = self.slots[i].take();
        assert(final(self).slots@ =~= old(self).slots@.update(i as int, None));
        r
    }

    /// Mutably borrows the slot at `i`.
    pub fn slot_mut(&mut self, i: usize) -> (r: &mut Option<T>)
        requires
            i < old(self)@.len(),
        ensures
            *r == old(self)@[i as int],
            final(self)@ == old(self)@.update(i as int, *final(r)),
    {
        &mut self.slots[i]
    }

    /// Stores `v` in the slot at `i`, dropping the slot's old content.
    pub fn set_slot(&mut self, i: usize, v: Option<T>)
        requires
            i < old(self)@.len(),
        ensures
            final(self)@ == old(self)@.update(i as int, v),
    {
        self.slots[i] = v;
    }

    /// Moves `count` slots starting at `s_from` into `dst` starting at
    /// `d_to`; the vacated source slots are left free.
    pub(crate) fn move_range_into(
        &mut self,
        s_from: usize,
        dst: &mut RawVec<T>,
        d_to: usize,
        count: usize,
    )
        requires
            s_from + count <= old(self)@.len(),
            d_to + count <= old(dst)@.len(),
        ensures
            final(self)@.len() == old(self)@.len(),
            final(dst)@.len() == old(dst)@.len(),
            forall|i: int|
                d_to <= i < d_to + count ==> (#[trigger] final(dst)@[i]) == old(self)@[s_from + i
                    - d_to],
            forall|i: int|
                0 <= i < final(dst)@.len() && !(d_to <= i < d_to + count) ==> (
                #[trigger] final(dst)@[i]) == old(dst)@[i],
            forall|i: int|
                0 <= i < final(self)@.len() && !(s_from <= i < s_from + count) ==> (
                #[trigger] final(self)@[i]) == old(self)@[i],
            forall|i: int|
                s_from <= i < s_from + count ==> (#[trigger] final(self)@[i]) is None,
    {
        let _src_bound = self.slots.len();
        let _dst_bound = dst.slots.len();
        let mut j: usize = 0;
        while j < count
            invariant
                s_from + count <= usize::MAX,
                d_to + count <= usize::MAX,
                s_from + count <= self.slots@.len(),
                d_to + count <= dst@.len(),
                j <= count,
                self.slots@.len() == old(self)@.len(),
                dst@.len() == old(dst)@.len(),
                forall|i: int|
                    d_to <= i < d_to + j ==> (#[trigger] dst@[i]) == old(self)@[s_from + i - d_to],
                forall|i: int|
                    0 <= i < dst@.len() && !(d_to <= i < d_to + j) ==> (#[trigger] dst@[i]) == old(
                        dst,
                    )@[i],
                forall|i: int|
                    0 <= i < self.slots@.len() && !(s_from <= i < s_from + j) ==> (
                    #[trigger] self.slots@[i]) == old(self)@[i],
                forall|i: int|
                    s_from <= i < s_from + j ==> (#[trigger] self.slots@[i]) is None,
            decreases count - j,
        {
            let v = self.slots[s_from + j].take();
            dst.set_slot(d_to + j, v);
            j = j + 1;
        }
    }

    /// Whether satisfying `additional` more elements beyond `len` in-use
    /// slots requires the buffer to grow.
    fn needs_to_grow(&self, len: usize, additional: usize) -> (r: bool)
        requires
            len <= self@.len(),
        ensures
            r == (additional > self@.len() - len),
            self@.len() <= usize::MAX,
    {
        additional > self.slots.len() - len
    }

    /// Grows to the amortized target for `len + additional` elements:
    /// existing slots keep their contents, new slots are free.
    fn grow_amortized(&mut self, len: usize, additional: usize) -> (r: Result<
        (),
        TryReserveError,
    >)
        ensures
            can_grow_amortized::<T>(old(self)@.len() as int, len as int, additional as int) ==> {
                &&& r is Ok
                &&& final(self)@.len() == amortized_cap::<T>(
                    old(self)@.len() as int,
                    len + additional,
                )
                &&& final(self)@.subrange(0, old(self)@.len() as int) == old(self)@
                &&& forall|i: int|
                    old(self)@.len() <= i < final(self)@.len() ==> final(self)@[i] is None
            },
            !can_grow_amortized::<T>(old(self)@.len() as int, len as int, additional as int) ==> {
                &&& r == Err::<(), TryReserveError>(TryReserveError::CapacityOverflow)
                &&& *final(self) == *old(self)
            },
    {
        if additional > usize::MAX - len {
            return Err(TryReserveError::CapacityOverflow);
        }
        let required: usize = len + additional;
        let cap = self.slots.len();
        let doubled: usize = if cap > usize::MAX / 2 {
            usize::MAX
        } else {
            2 * cap
        };
        let mut target: usize = if doubled > required {
            doubled
        } else {
            required
        };
        let floor = min_non_zero_cap_exec::<T>();
        if target < floor {
            target = floor;
        }
        assert(target == amortized_cap::<T>(old(self)@.len() as int, len + additional));
        if exceeds_byte_limit::<T>(target) {
            return Err(TryReserveError::CapacityOverflow);
        }
        self.grow_to(target);
        Ok(())
    }

    /// Grows to exactly `len + additional` slots (or stays put if already
    /// that large): existing slots keep their contents, new slots are free.
    fn grow_exact(&mut self, len: usize, additional: usize) -> (r: Result<(), TryReserveError>)
        ensures
            can_grow_exact::<T>(len as int, additional as int) ==> {
                &&& r is Ok
                &&& final(self)@.len() == max_int(old(self)@.len() as int, len + additional)
                &&& final(self)@.subrange(0, old(self)@.len() as int) == old(self)@
                &&& forall|i: int|
                    old(self)@.len() <= i < final(self)@.len() ==> final(self)@[i] is None
            },
            !can_grow_exact::<T>(len as int, additional as int) ==> {
                &&& r == Err::<(), TryReserveError>(TryReserveError::CapacityOverflow)
                &&& *final(self) == *old(self)
            },
    {
        if additional > usize::MAX - len {
            return Err(TryReserveError::CapacityOverflow);
        }
        let required: usize = len + additional;
        if exceeds_byte_limit::<T>(required) {
            return Err(TryReserveError::CapacityOverflow);
        }
        self.grow_to(required);
        Ok(())
    }

    /// Extends the buffer with free slots until it has at least `target`.
    fn grow_to(&mut self, target: usize)
        ensures
            final(self)@.len() == max_int(old(self)@.len() as int, target as int),
            final(self)@.subrange(0, old(self)@.len() as int) == old(self)@,
            forall|i: int|
                old(self)@.len() <= i < final(self)@.len() ==> final(self)@[i] is None,
    {
        while self.slots.len() < target
            invariant
                old(self)@.len() <= self.slots@.len(),
                self.slots@.len() <= max_int(old(self)@.len() as int, target as int),
                self.slots@.subrange(0, old(self)@.len() as int) == old(self)@,
                forall|i: int|
                    old(self)@.len() <= i < self.slots@.len() ==> self.slots@[i] is None,
            decreases target - self.slots@.len(),
        {
            self.slots.push(None);
            assert(self.slots@.subrange(0, old(self)@.len() as int) == old(self)@);
        }
    }

    /// Ensures room for `len + additional` elements, growing amortized.
    ///
    /// Does nothing when the capacity already suffices; otherwise jumps to
    /// the doubling target so repeated single-element reserves stay cheap.
    pub fn reserve(&mut self, len: usize, additional: usize)
        requires
            len <= old(self)@.len(),
            len + additional <= usize::MAX,
            additional > old(self)@.len() - len ==> can_grow_amortized::<T>(
                old(self)@.len() as int,
                len as int,
                additional as int,
            ),
        ensures
            final(self)@.len() == reserved_cap::<T>(
                old(self)@.len() as int,
                len as int,
                additional as int,
            ),
            final(self)@.subrange(0, old(self)@.len() as int) == old(self)@,
            forall|i: int|
                old(self)@.len() <= i < final(self)@.len() ==> final(self)@[i] is None,
    {
        if self.needs_to_grow(len, additional) {
            match self.grow_amortized(len, additional) {
                Ok(()) => {},
                Err(_) => {
                    proof {
                        assert(false);
                    }
                },
            }
        } else {
            assert(final(self)@.subrange(0, old(self)@.len() as int) =~= old(self)@);
        }
    }

    /// The single-element specialization of [`RawVec::reserve`], used on the
    /// push hot path once the buffer is known to be full.
    pub fn reserve_for_push(&mut self, len: usize)
        requires
            can_grow_amortized::<T>(old(self)@.len() as int, len as int, 1),
        ensures
            final(self)@.len() == amortized_cap::<T>(old(self)@.len() as int, len + 1),
            final(self)@.subrange(0, old(self)@.len() as int) == old(self)@,
            forall|i: int|
                old(self)@.len() <= i < final(self)@.len() ==> final(self)@[i] is None,
    {
        match self.grow_amortized(len, 1) {
            Ok(()) => {},
            Err(_) => {
                proof {
                    assert(false);
                }
            },
        }
    }

    /// Like [`RawVec::reserve`], but reports overflow instead of being
    /// excluded on it.
    pub fn try_reserve(&mut self, len: usize, additional: usize) -> (r: Result<
        (),
        TryReserveError,
    >)
        requires
            len <= old(self)@.len(),
        ensures
            additional <= old(self)@.len() - len || can_grow_amortized::<T>(
                old(self)@.len() as int,
                len as int,
                additional as int,
            ) ==> {
                &&& r is Ok
                &&& final(self)@.len() == reserved_cap::<T>(
                    old(self)@.len() as int,
                    len as int,
                    additional as int,
                )
                &&& final(self)@.subrange(0, old(self)@.len() as int) == old(self)@
                &&& forall|i: int|
                    old(self)@.len() <= i < final(self)@.len() ==> final(self)@[i] is None
            },
            additional > old(self)@.len() - len && !can_grow_amortized::<T>(
                old(self)@.len() as int,
                len as int,
                additional as int,
            ) ==> {
                &&& r == Err::<(), TryReserveError>(TryReserveError::CapacityOverflow)
                &&& *final(self) == *old(self)
            },
    {
        if self.needs_to_grow(len, additional) {
            self.grow_amortized(len, additional)
        } else {
            assert(final(self)@.subrange(0, old(self)@.len() as int) =~= old(self)@);
            Ok(())
        }
    }

    /// Ensures room for `len + additional` elements, growing to exactly that
    /// count when growth is needed.
    pub fn reserve_exact(&mut self, len: usize, additional: usize)
        requires
            len <= old(self)@.len(),
            len + additional <= usize::MAX,
            additional > old(self)@.len() - len ==> can_grow_exact::<T>(
                len as int,
                additional as int,
            ),
        ensures
            final(self)@.len() == reserved_cap_exact(
                old(self)@.len() as int,
                len as int,
                additional as int,
            ),
            final(self)@.subrange(0, old(self)@.len() as int) == old(self)@,
            forall|i: int|
                old(self)@.len() <= i < final(self)@.len() ==> final(self)@[i] is None,
    {
        match self.try_reserve_exact(len, additional) {
            Ok(()) => {},
            Err(_) => {
                proof {
                    assert(false);
                }
            },
        }
    }

    /// Like [`RawVec::reserve_exact`], but reports overflow instead of being
    /// excluded on it.
    pub fn try_reserve_exact(&mut self, len: usize, additional: usize) -> (r: Result<
        (),
        TryReserveError,
    >)
        requires
            len <= old(self)@.len(),
        ensures
            additional <= old(self)@.len() - len || can_grow_exact::<T>(
                len as int,
                additional as int,
            ) ==> {
                &&& r is Ok
                &&& final(self)@.len() == reserved_cap_exact(
                    old(self)@.len() as int,
                    len as int,
                    additional as int,
                )
                &&& final(self)@.subrange(0, old(self)@.len() as int) == old(self)@
                &&& forall|i: int|
                    old(self)@.len() <= i < final(self)@.len() ==> final(self)@[i] is None
            },
            additional > old(self)@.len() - len && !can_grow_exact::<T>(
                len as int,
                additional as int,
            ) ==> {
                &&& r == Err::<(), TryReserveError>(TryReserveError::CapacityOverflow)
                &&& *final(self) == *old(self)
            },
    {
        if self.needs_to_grow(len, additional) {
            self.grow_exact(len, additional)
        } else {
            assert(final(self)@.subrange(0, old(self)@.len() as int) =~= old(self)@);
            Ok(())
        }
    }

    /// Shrinks the buffer to exactly `cap` slots, discarding the tail
    /// slots; a no-op for zero-sized elements, whose reported capacity is
    /// unbounded regardless.
    ///
    /// The caller must already have vacated the discarded slots; `cap` may
    /// not exceed the current reported capacity.
    pub fn shrink_to_fit(&mut self, cap: usize)
        requires
            cap <= reported_cap::<T>(old(self)@.len() as int),
        ensures
            vstd::layout::size_of::<T>() == 0 ==> *final(self) == *old(self),
            vstd::layout::size_of::<T>() != 0 ==> final(self)@ == old(self)@.subrange(
                0,
                cap as int,
            ),
    {
        if core::mem::size_of::<T>() != 0 {
            self.slots.truncate(cap);
        }
    }
}

/// The larger of two mathematical integers.
pub open spec fn max_int(a: int, b: int) -> int {
    if a > b {
        a
    } else {
        b
    }
}

/// The smaller of two mathematical integers.
pub open spec fn min_int(a: int, b: int) -> int {
    if a < b {
        a
    } else {
        b
    }
}

/// Capacity after an amortized reserve: unchanged if `additional` already
/// fits beyond `len`, else the amortized growth target.
pub open spec fn reserved_cap<T>(cap: int, len: int, additional: int) -> int {
    if additional <= cap - len {
        cap
    } else {
        amortized_cap::<T>(cap, len + additional)
    }
}

/// Capacity after an exact reserve: unchanged if `additional` already fits
/// beyond `len`, else exactly `len + additional`.
pub open spec fn reserved_cap_exact(cap: int, len: int, additional: int) -> int {
    if additional <= cap - len {
        cap
    } else {
        len + additional
    }
}

/// Whether `count` elements would overflow the platform's maximum object
/// size, as executable code.
fn exceeds_byte_limit<T>(count: usize) -> (r: bool)
    ensures
        r == !fits_in_bytes::<T>(count as int),
{
    let size = core::mem::size_of::<T>();
    if size == 0 {
        false
    } else {
        let limit = (isize::MAX as usize) / size;
        proof {
            let m = isize::MAX as int;
            let s = size as int;
            vstd::arithmetic::div_mod::lemma_fundamental_div_mod(m, s);
            vstd::arithmetic::div_mod::lemma_mod_division_less_than_divisor(m, s);
            assert((count as int > m / s) == (count as int * s > m)) by (nonlinear_arith)
                requires
                    s > 0,
                    m >= 0,
                    count as int >= 0,
                    m == s * (m / s) + (m % s),
                    0 <= m % s < s,
            ;
        }
        count > limit
    }
}

/// The slot count of any buffer fits in `usize`.
pub proof fn lemma_slot_count_fits<T>(v: &RawVec<T>)
    ensures
        v@.len() <= usize::MAX,
{
    vstd::std_specs::vec::axiom_spec_len(&v.slots);
}

/// Smallest capacity a growing buffer jumps to, as executable code.
fn min_non_zero_cap_exec<T>() -> (r: usize)
    ensures
        r == min_non_zero_cap::<T>(),
{
    if core::mem::size_of::<T>() == 1 {
        8
    } else if core::mem::size_of::<T>() <= 1024 {
        4
    } else {
        1
    }
}

} // verus!
