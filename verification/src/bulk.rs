//! Bulk reshaping: filtering with a predicate and resizing.

use vstd::prelude::*;

use crate::deque::AltDeque;

verus! {

/// The subsequence of `s` at the positions where `keep` holds, in order.
pub open spec fn retained<T>(s: Seq<T>, keep: Seq<bool>) -> Seq<T>
    recommends
        s.len() == keep.len(),
    decreases s.len(),
{
    if s.len() == 0 {
        Seq::empty()
    } else {
        retained(s.drop_last(), keep.drop_last()) + if keep[s.len() - 1] {
            seq![s.last()]
        } else {
            Seq::empty()
        }
    }
}

impl<T> AltDeque<T> {
    /// Keeps exactly the elements for which `f` answered true, in their
    /// original order, visiting each element once from front to back.
    pub fn retain<F: Fn(&T) -> bool>(&mut self, f: F)
        requires
            old(self).wf(),
            forall|i: int| 0 <= i < old(self)@.len() ==> call_requires(f, (&old(self)@[i],)),
        ensures
            final(self).wf(),
            final(self).spec_capacity() == old(self).spec_capacity(),
            exists|keep: Seq<bool>|
                {
                    &&& keep.len() == old(self)@.len()
                    &&& final(self)@ == #[trigger] retained(old(self)@, keep)
                    &&& forall|i: int|
                        0 <= i < keep.len() ==> call_ensures(f, (&old(self)@[i],), #[trigger] keep[i])
                },
    {
        let len = self.len();
        let ghost mut keep: Seq<bool> = Seq::empty();
        let mut idx: usize = 0;
        let mut cur: usize = 0;
        while cur < len
            invariant
                self.wf(),
                idx <= cur <= len,
                len == self@.len(),
                self@.len() == old(self)@.len(),
                self.spec_capacity() == old(self).spec_capacity(),
                keep.len() == cur,
                forall|i: int| 0 <= i < old(self)@.len() ==> call_requires(f, (&old(self)@[i],)),
                forall|k: int| cur <= k < len ==> (#[trigger] self@[k]) == old(self)@[k],
                idx == retained(old(self)@.subrange(0, cur as int), keep).len(),
                forall|k: int|
                    0 <= k < idx ==> (#[trigger] self@[k]) == retained(
                        old(self)@.subrange(0, cur as int),
                        keep,
                    )[k],
                forall|i: int|
                    0 <= i < cur ==> call_ensures(f, (&old(self)@[i],), #[trigger] keep[i]),
            decreases len - cur,
        {
            let v = match self.get(cur) {
                Some(v) => v,
                None => {
                    proof {
                        assert(false);
                    }
                    return ;
                },
            };
            let b = f(v);
            let ghost keep_pre = keep;
            proof {
                keep = keep.push(b);
            }
            if b {
                self.swap(idx, cur);
                idx = idx + 1;
            }
            cur = cur + 1;
            proof {
                let pre = old(self)@.subrange(0, cur - 1);
                let now = old(self)@.subrange(0, cur as int);
                assert(now.drop_last() =~= pre);
                assert(keep.drop_last() =~= keep_pre);
                assert(now.last() == old(self)@[cur - 1]);
                assert(retained(now, keep) == retained(pre, keep_pre) + (if b {
                    seq![old(self)@[cur - 1]]
                } else {
                    Seq::<T>::empty()
                }));
            }
        }
        let ghost mid = self@;
        self.truncate(idx);
        proof {
            assert(old(self)@.subrange(0, len as int) =~= old(self)@);
            assert forall|k: int| 0 <= k < idx implies final(self)@[k] == retained(
                old(self)@,
                keep,
            )[k] by {
                assert(final(self)@[k] == mid.subrange(0, idx as int)[k]);
            }
            assert(final(self)@ =~= retained(old(self)@, keep));
        }
    }

    /// Sets the length to `new_len`: truncates when shrinking, appends
    /// values produced by `generator` at the back when growing, after one
    /// reservation for the whole growth.
    pub fn resize_with<F: Fn() -> T>(&mut self, new_len: usize, generator: F)
        requires
            old(self).wf(),
            new_len > old(self)@.len() ==> call_requires(generator, ()),
            new_len > old(self).spec_capacity() ==> crate::raw_vec::can_grow_amortized::<T>(
                old(self).spec_capacity(),
                old(self)@.len() as int,
                new_len - old(self)@.len(),
            ),
        ensures
            final(self).wf(),
            final(self)@.len() == new_len,
            new_len <= old(self)@.len() ==> final(self)@ == old(self)@.subrange(0, new_len as int)
                && final(self).spec_capacity() == old(self).spec_capacity(),
            new_len > old(self)@.len() ==> {
                &&& final(self)@.subrange(0, old(self)@.len() as int) == old(self)@
                &&& final(self).spec_capacity() == crate::raw_vec::reserved_cap::<T>(
                    old(self).spec_capacity(),
                    old(self)@.len() as int,
                    new_len - old(self)@.len(),
                )
                &&& forall|k: int|
                    old(self)@.len() <= k < new_len ==> call_ensures(
                        generator,
                        (),
                        #[trigger] final(self)@[k],
                    )
            },
    {
        let len = self.len();
        if new_len > len {
            self.reserve(new_len - len);
            let mut i = len;
            while i < new_len
                invariant
                    self.wf(),
                    len <= i <= new_len,
                    i == self@.len(),
                    new_len <= self.spec_capacity(),
                    self.spec_capacity() == crate::raw_vec::reserved_cap::<T>(
                        old(self).spec_capacity(),
                        len as int,
                        new_len - len,
                    ),
                    call_requires(generator, ()),
                    self@.subrange(0, len as int) == old(self)@,
                    forall|k: int|
                        len <= k < i ==> call_ensures(generator, (), #[trigger] self@[k]),
                decreases new_len - i,
            {
                let x = generator();
                self.push_back(x);
                i = i + 1;
                proof {
                    assert(self@.subrange(0, len as int) =~= old(self)@);
                }
            }
        } else {
            self.truncate(new_len);
        }
    }

    /// Sets the length to `new_len`: truncates when shrinking, appends
    /// clones of `value` at the back when growing.
    pub fn resize(&mut self, new_len: usize, value: T) where T: Clone
        requires
            old(self).wf(),
            new_len > old(self).spec_capacity() ==> crate::raw_vec::can_grow_amortized::<T>(
                old(self).spec_capacity(),
                old(self)@.len() as int,
                new_len - old(self)@.len(),
            ),
        ensures
            final(self).wf(),
            new_len <= old(self)@.len() ==> final(self)@ == old(self)@.subrange(0, new_len as int)
                && final(self).spec_capacity() == old(self).spec_capacity(),
            new_len > old(self)@.len() ==> {
                &&& final(self)@.len() == new_len
                &&& final(self)@.subrange(0, old(self)@.len() as int) == old(self)@
                &&& forall|k: int|
                    old(self)@.len() <= k < new_len ==> cloned::<T>(
                        value,
                        #[trigger] final(self)@[k],
                    )
            },
    {
        let vref = &value;
        let generator = || -> (r: T)
            ensures
                cloned::<T>(*vref, r),
            {
                vref.clone()
            };
        self.resize_with(new_len, generator);
    }
}

} // verus!
