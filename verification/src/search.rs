//! Searching: membership, binary search and the partition point.
//!
//! Binary searches run on each stack separately, since each stack is sorted
//! whenever the whole deque is; one probe of the back stack's first element
//! decides which stack to search.

use vstd::prelude::*;

use core::cmp::Ordering;

use vstd::std_specs::cmp::OrdSpec;
use vstd::std_specs::cmp::PartialEqSpec;

use crate::deque::AltDeque;

verus! {

impl<T> AltDeque<T> {
    /// Whether some element of the deque equals `x`, by a linear scan.
    pub fn contains(&self, x: &T) -> (r: bool) where T: PartialEq
        requires
            self.wf(),
        ensures
            T::obeys_eq_spec() ==> (r <==> exists|i: int|
                0 <= i < self@.len() && (#[trigger] self@[i]).eq_spec(x)),
    {
        let len = self.len();
        let mut i: usize = 0;
        while i < len
            invariant
                self.wf(),
                i <= len,
                len == self@.len(),
                T::obeys_eq_spec() ==> forall|k: int|
                    0 <= k < i ==> !(#[trigger] self@[k]).eq_spec(x),
            decreases len - i,
        {
            match self.get(i) {
                Some(v) => {
                    if v == x {
                        return true;
                    }
                },
                None => {
                    proof {
                        assert(false);
                    }
                },
            }
            i = i + 1;
        }
        false
    }

    /// Binary search over the logical range `[lo, hi)` with comparator `f`.
    ///
    /// `Ok(i)` reports a probe that compared equal. `Err(i)` is the final
    /// gap: when it has a left neighbour inside the range, that neighbour
    /// compared less, and when it lies strictly inside the range, the
    /// element at it compared greater.
    fn binary_search_range<F: Fn(&T) -> Ordering>(&self, f: F, lo: usize, hi: usize) -> (r: Result<
        usize,
        usize,
    >)
        requires
            self.wf(),
            lo <= hi,
            hi <= self@.len(),
            forall|i: int| lo <= i < hi ==> call_requires(f, (&self@[i],)),
        ensures
            match r {
                Ok(i) => lo <= i < hi && call_ensures(f, (&self@[i as int],), Ordering::Equal),
                Err(i) => {
                    &&& lo <= i <= hi
                    &&& (i > lo ==> call_ensures(f, (&self@[i - 1],), Ordering::Less))
                    &&& (i < hi ==> call_ensures(f, (&self@[i as int],), Ordering::Greater))
                },
            },
    {
        let mut l = lo;
        let mut h = hi;
        while l < h
            invariant
                self.wf(),
                lo <= l <= h <= hi,
                hi <= self@.len(),
                forall|i: int| lo <= i < hi ==> call_requires(f, (&self@[i],)),
                l > lo ==> call_ensures(f, (&self@[l - 1],), Ordering::Less),
                h < hi ==> call_ensures(f, (&self@[h as int],), Ordering::Greater),
            decreases h - l,
        {
            let mid = l + (h - l) / 2;
            let v = match self.get(mid) {
                Some(v) => v,
                None => {
                    proof {
                        assert(false);
                    }
                    return Err(lo);
                },
            };
            match f(v) {
                Ordering::Equal => {
                    return Ok(mid);
                },
                Ordering::Less => {
                    l = mid + 1;
                },
                Ordering::Greater => {
                    h = mid;
                },
            }
        }
        Err(l)
    }

    /// Binary search with a comparator, which should order consistently
    /// with the deque's sort order: it reports `Less`, `Equal` or `Greater`
    /// for an element below, at or above the target.
    ///
    /// `Ok(i)` reports an element that compared equal; with ties any of
    /// them may be reported. `Err(i)` is an insertion point: the element at
    /// it, if any, compared greater, and either its left neighbour compared
    /// less, or the point is the stack boundary and the element standing
    /// there compared less when it was probed to pick a stack.
    pub fn binary_search_by<F: Fn(&T) -> Ordering>(&self, f: F) -> (r: Result<usize, usize>)
        requires
            self.wf(),
            forall|i: int| 0 <= i < self@.len() ==> call_requires(f, (&self@[i],)),
        ensures
            match r {
                Ok(i) => i < self@.len() && call_ensures(f, (&self@[i as int],), Ordering::Equal),
                Err(i) => {
                    &&& i <= self@.len()
                    &&& (i < self@.len() ==> call_ensures(
                        f,
                        (&self@[i as int],),
                        Ordering::Greater,
                    ))
                    &&& (0 < i ==> call_ensures(f, (&self@[i - 1],), Ordering::Less) || (i
                        == self.front_len() && i < self@.len() && call_ensures(
                        f,
                        (&self@[i as int],),
                        Ordering::Less,
                    )))
                },
            },
    {
        let front_len = self.front_stack_len();
        let len = self.len();
        if front_len < len {
            let first_back = match self.get(front_len) {
                Some(v) => v,
                None => {
                    proof {
                        assert(false);
                    }
                    return Err(0);
                },
            };
            match f(first_back) {
                Ordering::Equal => Ok(front_len),
                Ordering::Less => self.binary_search_range(f, front_len, len),
                Ordering::Greater => self.binary_search_range(f, 0, front_len),
            }
        } else {
            self.binary_search_range(f, 0, len)
        }
    }

    /// Binary search for `x` in a deque sorted by `Ord`.
    ///
    /// `Ok(i)` reports an element equal to `x`; with ties any of them may
    /// be reported. `Err(i)` is an insertion point as for
    /// [`AltDeque::binary_search_by`]: the element at it, if any, is
    /// greater, and either its left neighbour is less, or the point is the
    /// stack boundary and the element standing there is less.
    pub fn binary_search(&self, x: &T) -> (r: Result<usize, usize>) where T: Ord
        requires
            self.wf(),
        ensures
            T::obeys_cmp_spec() ==> match r {
                Ok(i) => i < self@.len() && self@[i as int].cmp_spec(x) == Ordering::Equal,
                Err(i) => {
                    &&& i <= self@.len()
                    &&& (i < self@.len() ==> self@[i as int].cmp_spec(x) == Ordering::Greater)
                    &&& (0 < i ==> self@[i - 1].cmp_spec(x) == Ordering::Less || (i
                        == self.front_len() && i < self@.len() && self@[i as int].cmp_spec(x)
                        == Ordering::Less))
                },
            },
    {
        let cmp = |e: &T| -> (o: Ordering)
            ensures
                T::obeys_cmp_spec() ==> o == e.cmp_spec(x),
            {
                e.cmp(x)
            };
        self.binary_search_by(cmp)
    }

    /// Binary search in a deque sorted by the key that `f` extracts,
    /// comparing keys with `Ord`.
    ///
    /// `Ok(i)` reports an element whose key equals `b`; with ties any of
    /// them may be reported. `Err(i)` is an insertion point as for
    /// [`AltDeque::binary_search_by`]: the key at it, if any, compared
    /// greater, and either the left neighbour's key compared less, or the
    /// point is the stack boundary and the key of the element standing
    /// there compared less.
    pub fn binary_search_by_key<B, F: Fn(&T) -> B>(&self, b: &B, f: F) -> (r: Result<
        usize,
        usize,
    >) where B: Ord
        requires
            self.wf(),
            forall|i: int| 0 <= i < self@.len() ==> call_requires(f, (&self@[i],)),
        ensures
            B::obeys_cmp_spec() ==> match r {
                Ok(i) => i < self@.len() && (exists|k: B|
                    call_ensures(f, (&self@[i as int],), k) && k.cmp_spec(b) == Ordering::Equal),
                Err(i) => {
                    &&& i <= self@.len()
                    &&& (i < self@.len() ==> exists|k: B|
                        call_ensures(f, (&self@[i as int],), k) && k.cmp_spec(b)
                            == Ordering::Greater)
                    &&& (0 < i ==> (exists|k: B|
                        call_ensures(f, (&self@[i - 1],), k) && k.cmp_spec(b) == Ordering::Less)
                        || (i == self.front_len() && i < self@.len() && exists|k: B|
                        call_ensures(f, (&self@[i as int],), k) && k.cmp_spec(b)
                            == Ordering::Less))
                },
            },
    {
        let front_len = self.front_stack_len();
        let len = self.len();
        if front_len < len {
            let first_back = match self.get(front_len) {
                Some(v) => v,
                None => {
                    proof {
                        assert(false);
                    }
                    return Err(0);
                },
            };
            let k0 = f(first_back);
            match k0.cmp(b) {
                Ordering::Equal => Ok(front_len),
                Ordering::Less => self.binary_search_key_range(b, f, front_len, len),
                Ordering::Greater => self.binary_search_key_range(b, f, 0, front_len),
            }
        } else {
            self.binary_search_key_range(b, f, 0, len)
        }
    }

    /// Binary search by extracted key over the logical range `[lo, hi)`.
    fn binary_search_key_range<B, F: Fn(&T) -> B>(&self, b: &B, f: F, lo: usize, hi: usize) -> (r:
        Result<usize, usize>) where B: Ord
        requires
            self.wf(),
            lo <= hi,
            hi <= self@.len(),
            forall|i: int| lo <= i < hi ==> call_requires(f, (&self@[i],)),
        ensures
            B::obeys_cmp_spec() ==> match r {
                Ok(i) => lo <= i < hi && (exists|k: B|
                    call_ensures(f, (&self@[i as int],), k) && k.cmp_spec(b) == Ordering::Equal),
                Err(i) => {
                    &&& lo <= i <= hi
                    &&& (i > lo ==> exists|k: B|
                        call_ensures(f, (&self@[i - 1],), k) && k.cmp_spec(b) == Ordering::Less)
                    &&& (i < hi ==> exists|k: B|
                        call_ensures(f, (&self@[i as int],), k) && k.cmp_spec(b)
                            == Ordering::Greater)
                },
            },
    {
        let mut l = lo;
        let mut h = hi;
        while l < h
            invariant
                self.wf(),
                lo <= l <= h <= hi,
                hi <= self@.len(),
                forall|i: int| lo <= i < hi ==> call_requires(f, (&self@[i],)),
                B::obeys_cmp_spec() && l > lo ==> exists|k: B|
                    call_ensures(f, (&self@[l - 1],), k) && k.cmp_spec(b) == Ordering::Less,
                B::obeys_cmp_spec() && h < hi ==> exists|k: B|
                    call_ensures(f, (&self@[h as int],), k) && k.cmp_spec(b) == Ordering::Greater,
            decreases h - l,
        {
            let mid = l + (h - l) / 2;
            let v = match self.get(mid) {
                Some(v) => v,
                None => {
                    proof {
                        assert(false);
                    }
                    return Err(lo);
                },
            };
            let k = f(v);
            match k.cmp(b) {
                Ordering::Equal => {
                    return Ok(mid);
                },
                Ordering::Less => {
                    l = mid + 1;
                },
                Ordering::Greater => {
                    h = mid;
                },
            }
        }
        Err(l)
    }

    /// The first index at which `pred` stops holding, assuming the deque is
    /// partitioned: every element before the result satisfied `pred` when
    /// probed, every probe at or after it did not.
    ///
    /// The element at the result, if any, was probed false, and either its
    /// left neighbour was probed true, or the result is the stack boundary
    /// and the element standing there was probed true when picking a stack.
    pub fn partition_point<P: Fn(&T) -> bool>(&self, pred: P) -> (r: usize)
        requires
            self.wf(),
            forall|i: int| 0 <= i < self@.len() ==> call_requires(pred, (&self@[i],)),
        ensures
            r <= self@.len(),
            r < self@.len() ==> call_ensures(pred, (&self@[r as int],), false),
            0 < r ==> call_ensures(pred, (&self@[r - 1],), true) || (r == self.front_len() && r
                < self@.len() && call_ensures(pred, (&self@[r as int],), true)),
    {
        let front_len = self.front_stack_len();
        let len = self.len();
        if front_len < len {
            let first_back = match self.get(front_len) {
                Some(v) => v,
                None => {
                    proof {
                        assert(false);
                    }
                    return 0;
                },
            };
            if pred(first_back) {
                self.partition_point_range(pred, front_len, len)
            } else {
                self.partition_point_range(pred, 0, front_len)
            }
        } else {
            self.partition_point_range(pred, 0, len)
        }
    }

    /// The partition point of the logical range `[lo, hi)`.
    fn partition_point_range<P: Fn(&T) -> bool>(&self, pred: P, lo: usize, hi: usize) -> (r:
        usize)
        requires
            self.wf(),
            lo <= hi,
            hi <= self@.len(),
            forall|i: int| lo <= i < hi ==> call_requires(pred, (&self@[i],)),
        ensures
            lo <= r <= hi,
            r < hi ==> call_ensures(pred, (&self@[r as int],), false),
            r > lo ==> call_ensures(pred, (&self@[r - 1],), true),
    {
        let mut l = lo;
        let mut h = hi;
        while l < h
            invariant
                self.wf(),
                lo <= l <= h <= hi,
                hi <= self@.len(),
                forall|i: int| lo <= i < hi ==> call_requires(pred, (&self@[i],)),
                l > lo ==> call_ensures(pred, (&self@[l - 1],), true),
                h < hi ==> call_ensures(pred, (&self@[h as int],), false),
            decreases h - l,
        {
            let mid = l + (h - l) / 2;
            let v = match self.get(mid) {
                Some(v) => v,
                None => {
                    proof {
                        assert(false);
                    }
                    return lo;
                },
            };
            if pred(v) {
                l = mid + 1;
            } else {
                h = mid;
            }
        }
        l
    }
}

} // verus!
