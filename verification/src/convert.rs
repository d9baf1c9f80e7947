//! Conversions to and from plain vectors, the default value, and equality.
//!
//! Equality between deques is defined over the logical element sequence
//! alone: two deques with different internal split points but the same
//! elements in the same order compare equal.

use vstd::prelude::*;

use vstd::std_specs::cmp::PartialEqSpec;
use vstd::std_specs::cmp::PartialEqSpecImpl;

use crate::deque::AltDeque;

verus! {

impl<T> AltDeque<T> {
    /// Moves the elements of `v` into a deque with the same sequence; the
    /// elements land in the back stack and the capacity equals the length.
    pub fn from_vec(v: Vec<T>) -> (r: Self)
        ensures
            r.wf(),
            r@ == v@,
            r.spec_capacity() == v@.len(),
            r.front_len() == 0,
    {
        let mut v = v;
        let ghost v0 = v@;
        let n = v.len();
        let mut rev: Vec<T> = Vec::new();
        proof {
            assert(v@ =~= v0.subrange(0, v@.len() as int));
        }
        while v.len() > 0
            invariant
                v0.len() == n,
                v@.len() + rev@.len() == n,
                v@ == v0.subrange(0, v@.len() as int),
                forall|k: int| 0 <= k < rev@.len() ==> (#[trigger] rev@[k]) == v0[n - 1 - k],
            decreases v@.len(),
        {
            match v.pop() {
                Some(x) => rev.push(x),
                None => {
                    proof {
                        assert(false);
                    }
                },
            }
            proof {
                assert(v@ =~= v0.subrange(0, v@.len() as int));
            }
        }
        let mut d = Self::with_capacity(n);
        proof {
            assert(d@ =~= v0.subrange(0, d@.len() as int));
        }
        while rev.len() > 0
            invariant
                d.wf(),
                v0.len() == n,
                rev@.len() <= n,
                d@.len() + rev@.len() == n,
                d.spec_capacity() == n,
                d.front_len() == 0,
                d@ == v0.subrange(0, d@.len() as int),
                forall|k: int| 0 <= k < rev@.len() ==> (#[trigger] rev@[k]) == v0[n - 1 - k],
            decreases rev@.len(),
        {
            match rev.pop() {
                Some(x) => d.push_back(x),
                None => {
                    proof {
                        assert(false);
                    }
                },
            }
            proof {
                assert(d@ =~= v0.subrange(0, d@.len() as int));
            }
        }
        proof {
            assert(d@ =~= v0);
        }
        d
    }

    /// Builds a deque whose front stack holds the elements of `front` and
    /// whose back stack holds the elements of `back`, both in order: the
    /// logical sequence is `front` followed by `back`.
    pub fn from_stacks(front: Vec<T>, back: Vec<T>) -> (r: Self)
        requires
            front@.len() + back@.len() <= usize::MAX,
        ensures
            r.wf(),
            r@ == front@ + back@,
            r.spec_capacity() == front@.len() + back@.len(),
            r.front_len() == front@.len(),
    {
        let ghost f0 = front@;
        let mut front = front;
        let n = front.len();
        let m = back.len();
        let mut d = Self::with_capacity(n + m);
        proof {
            assert(front@ =~= f0.subrange(0, front@.len() as int));
            assert(d@ =~= f0.subrange(front@.len() as int, n as int));
        }
        while front.len() > 0
            invariant
                d.wf(),
                f0.len() == n,
                front@.len() <= n,
                d@.len() + front@.len() == n,
                d.spec_capacity() == n + m,
                d.front_len() == d@.len(),
                front@ == f0.subrange(0, front@.len() as int),
                d@ == f0.subrange(front@.len() as int, n as int),
            decreases front@.len(),
        {
            match front.pop() {
                Some(x) => d.push_front(x),
                None => {
                    proof {
                        assert(false);
                    }
                },
            }
            proof {
                assert(front@ =~= f0.subrange(0, front@.len() as int));
                assert(d@ =~= f0.subrange(front@.len() as int, n as int));
            }
        }
        let ghost b0 = back@;
        let mut rest = Self::from_vec(back);
        d.append(&mut rest);
        proof {
            assert(d@ =~= f0 + b0);
        }
        d
    }

    /// Moves the elements out into a vector with the same sequence.
    pub fn into_vec(self) -> (r: Vec<T>)
        requires
            self.wf(),
        ensures
            r@ == self@,
    {
        let mut d = self;
        let ghost s0 = d@;
        let mut r: Vec<T> = Vec::new();
        proof {
            assert(r@ =~= s0.subrange(0, r@.len() as int));
            assert(d@ =~= s0.subrange(r@.len() as int, s0.len() as int));
        }
        while d.len() > 0
            invariant
                d.wf(),
                r@.len() + d@.len() == s0.len(),
                r@ == s0.subrange(0, r@.len() as int),
                d@ == s0.subrange(r@.len() as int, s0.len() as int),
            decreases d@.len(),
        {
            match d.pop_front() {
                Some(x) => r.push(x),
                None => {
                    proof {
                        assert(false);
                    }
                },
            }
            proof {
                assert(r@ =~= s0.subrange(0, r@.len() as int));
                assert(d@ =~= s0.subrange(r@.len() as int, s0.len() as int));
            }
        }
        proof {
            assert(r@ =~= s0);
        }
        r
    }
}

impl<T> Default for AltDeque<T> {
    /// The empty deque.
    fn default() -> (r: Self)
        ensures
            r.wf(),
            r@ == Seq::<T>::empty(),
            r.spec_capacity() == 0,
    {
        Self::new()
    }
}

impl<T: PartialEq> PartialEqSpecImpl for AltDeque<T> {
    open spec fn obeys_eq_spec() -> bool {
        T::obeys_eq_spec()
    }

    /// Two well-formed deques are equal exactly when their logical
    /// sequences are equal element for element, wherever each deque's
    /// internal split point lies.
    open spec fn eq_spec(&self, other: &AltDeque<T>) -> bool {
        &&& self.wf()
        &&& other.wf()
        &&& self@.len() == other@.len()
        &&& forall|i: int| 0 <= i < self@.len() ==> (#[trigger] self@[i]).eq_spec(&other@[i])
    }
}

impl<T: PartialEq> PartialEq for AltDeque<T> {
    /// Compares the logical sequences element for element.
    fn eq(&self, other: &AltDeque<T>) -> (r: bool) {
        if !self.check_wf() || !other.check_wf() {
            return false;
        }
        let len = self.len();
        if len != other.len() {
            return false;
        }
        let mut i: usize = 0;
        while i < len
            invariant
                self.wf(),
                other.wf(),
                i <= len,
                len == self@.len(),
                len == other@.len(),
                T::obeys_eq_spec() ==> forall|k: int|
                    0 <= k < i ==> (#[trigger] self@[k]).eq_spec(&other@[k]),
            decreases len - i,
        {
            let a = match self.get(i) {
                Some(v) => v,
                None => {
                    proof {
                        assert(false);
                    }
                    return false;
                },
            };
            let b = match other.get(i) {
                Some(v) => v,
                None => {
                    proof {
                        assert(false);
                    }
                    return false;
                },
            };
            if !(a == b) {
                return false;
            }
            i = i + 1;
        }
        true
    }
}

impl<T: Eq> Eq for AltDeque<T> {

}

} // verus!
