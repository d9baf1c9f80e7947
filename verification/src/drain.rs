//! The draining cursor returned by [`AltDeque::drain`].
//!
//! [`AltDeque::drain`]: crate::AltDeque::drain

use vstd::prelude::*;

verus! {

/// Owns the elements removed from a deque by a range removal, and hands
/// them out from either end.
///
/// This value is produced by [`AltDeque::drain`]; by the time it exists the
/// deque has already been compacted, so the cursor may be consumed in any
/// order, partly, or not at all. Elements never handed out are dropped with
/// the cursor.
///
/// [`AltDeque::drain`]: crate::AltDeque::drain
pub struct Drain<T> {
    items: Vec<Option<T>>,
    start: usize,
    end: usize,
}

impl<T> View for Drain<T> {
    type V = Seq<T>;

    /// The elements not yet handed out, in the order they stood in the
    /// deque.
    closed spec fn view(&self) -> Seq<T> {
        Seq::new((self.end - self.start) as nat, |i: int| self.items@[self.start + i]->0)
    }
}

impl<T> Drain<T> {
    /// Structural invariant: the cursor range is ordered within the store
    /// and every pending element is present.
    pub closed spec fn wf(&self) -> bool {
        &&& self.start <= self.end
        &&& self.end <= self.items@.len()
        &&& forall|i: int|
            self.start <= i < self.end ==> (#[trigger] self.items@[i]) is Some
    }

    /// Wraps a store of removed elements in a fresh cursor over all of
    /// them.
    pub(crate) fn new(items: Vec<Option<T>>) -> (r: Self)
        requires
            forall|i: int| 0 <= i < items@.len() ==> (#[trigger] items@[i]) is Some,
        ensures
            r.wf(),
            r@.len() == items@.len(),
            forall|i: int| 0 <= i < items@.len() ==> items@[i] == Some(#[trigger] r@[i]),
    {
        let end = items.len();
        Drain { items, start: 0, end }
    }

    /// How many elements are still pending.
    pub fn len(&self) -> (r: usize)
        requires
            self.wf(),
        ensures
            r == self@.len(),
    {
        self.end - self.start
    }

    /// The pending count, as a lower and upper bound; both are exact.
    pub fn size_hint(&self) -> (r: (usize, Option<usize>))
        requires
            self.wf(),
        ensures
            r.0 == self@.len(),
            r.1 == Some(r.0),
    {
        let n = self.end - self.start;
        (n, Some(n))
    }

    /// Hands out the first pending element, or `None` when the cursor is
    /// exhausted.
    pub fn next(&mut self) -> (r: Option<T>)
        requires
            old(self).wf(),
        ensures
            final(self).wf(),
            old(self)@.len() == 0 ==> r is None && *final(self) == *old(self),
            old(self)@.len() > 0 ==> {
                &&& r == Some(old(self)@[0])
                &&& final(self)@ == old(self)@.subrange(1, old(self)@.len() as int)
            },
    {
        if self.start < self.end {
            let s = self.start;
            self.start = s + 1;
            let r = self.items[s].take();
            proof {
                assert(final(self)@ =~= old(self)@.subrange(1, old(self)@.len() as int));
            }
            r
        } else {
            None
        }
    }

    /// Hands out the last pending element, or `None` when the cursor is
    /// exhausted.
    pub fn next_back(&mut self) -> (r: Option<T>)
        requires
            old(self).wf(),
        ensures
            final(self).wf(),
            old(self)@.len() == 0 ==> r is None && *final(self) == *old(self),
            old(self)@.len() > 0 ==> {
                &&& r == Some(old(self)@.last())
                &&& final(self)@ == old(self)@.drop_last()
            },
    {
        if self.start < self.end {
            let e = self.end - 1;
            self.end = e;
            let r = self.items[e].take();
            proof {
                assert(final(self)@ =~= old(self)@.drop_last());
            }
            r
        } else {
            None
        }
    }
}

} // verus!
