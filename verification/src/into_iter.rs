//! The owning cursor over a consumed deque.

use vstd::prelude::*;

use crate::deque::AltDeque;

verus! {

/// Owns a deque and hands its elements out from either end, front to back.
///
/// This value is produced by [`AltDeque::into_iter`].
pub struct IntoIter<T> {
    inner: AltDeque<T>,
}

impl<T> View for IntoIter<T> {
    type V = Seq<T>;

    /// The elements not yet handed out, in deque order.
    closed spec fn view(&self) -> Seq<T> {
        self.inner@
    }
}

impl<T> IntoIter<T> {
    /// Structural invariant: the owned deque is well formed.
    pub closed spec fn wf(&self) -> bool {
        self.inner.wf()
    }

    /// Wraps a deque in a fresh owning cursor.
    pub(crate) fn new(inner: AltDeque<T>) -> (r: Self)
        requires
            inner.wf(),
        ensures
            r.wf(),
            r@ == inner@,
    {
        IntoIter { inner }
    }

    /// Hands out the first remaining element, or `None` when exhausted.
    pub fn next(&mut self) -> (r: Option<T>)
        requires
            old(self).wf(),
        ensures
            final(self).wf(),
            old(self)@.len() == 0 ==> r is None && final(self)@ == old(self)@,
            old(self)@.len() > 0 ==> {
                &&& r == Some(old(self)@[0])
                &&& final(self)@ == old(self)@.subrange(1, old(self)@.len() as int)
            },
    {
        self.inner.pop_front()
    }

    /// Hands out the last remaining element, or `None` when exhausted.
    pub fn next_back(&mut self) -> (r: Option<T>)
        requires
            old(self).wf(),
        ensures
            final(self).wf(),
            old(self)@.len() == 0 ==> r is None && final(self)@ == old(self)@,
            old(self)@.len() > 0 ==> {
                &&& r == Some(old(self)@.last())
                &&& final(self)@ == old(self)@.drop_last()
            },
    {
        self.inner.pop_back()
    }

    /// The remaining count, as a lower and upper bound; both are exact.
    pub fn size_hint(&self) -> (r: (usize, Option<usize>))
        requires
            self.wf(),
        ensures
            r.0 == self@.len(),
            r.1 == Some(r.0),
    {
        let n = self.inner.len();
        (n, Some(n))
    }
}

impl<T> AltDeque<T> {
    /// Consumes the deque into an owning front-to-back cursor.
    pub fn into_iter(self) -> (r: IntoIter<T>)
        requires
            self.wf(),
        ensures
            r.wf(),
            r@ == self@,
    {
        IntoIter::new(self)
    }
}

} // verus!
