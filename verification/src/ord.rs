//! Lexicographic ordering of deques over their logical sequences.

use vstd::prelude::*;

use core::cmp::Ordering;

use vstd::std_specs::cmp::PartialOrdSpec;
use vstd::std_specs::cmp::PartialOrdSpecImpl;

use crate::deque::AltDeque;

verus! {

/// Lexicographic comparison of two sequences by the elements'
/// `partial_cmp_spec`: the first unequal pair decides, a wholly equal
/// prefix leaves the longer sequence greater, and an incomparable pair
/// makes the sequences incomparable.
pub open spec fn lex_cmp_spec<T: PartialOrd>(a: Seq<T>, b: Seq<T>) -> Option<Ordering>
    decreases a.len(),
{
    if a.len() == 0 && b.len() == 0 {
        Some(Ordering::Equal)
    } else if a.len() == 0 {
        Some(Ordering::Less)
    } else if b.len() == 0 {
        Some(Ordering::Greater)
    } else {
        match a[0].partial_cmp_spec(&b[0]) {
            Some(Ordering::Equal) => lex_cmp_spec(a.skip(1), b.skip(1)),
            o => o,
        }
    }
}

/// A prefix of pairwise-equal elements does not influence the
/// lexicographic comparison: it may be skipped on both sides.
proof fn lemma_lex_skip_equal_prefix<T: PartialOrd>(a: Seq<T>, b: Seq<T>, i: int)
    requires
        0 <= i <= a.len(),
        i <= b.len(),
        forall|k: int|
            0 <= k < i ==> (#[trigger] a[k]).partial_cmp_spec(&b[k]) == Some(Ordering::Equal),
    ensures
        lex_cmp_spec(a, b) == lex_cmp_spec(a.skip(i), b.skip(i)),
    decreases i,
{
    if i == 0 {
        assert(a.skip(0) =~= a);
        assert(b.skip(0) =~= b);
    } else {
        let a1 = a.skip(1);
        let b1 = b.skip(1);
        assert forall|k: int|
            0 <= k < i - 1 implies (#[trigger] a1[k]).partial_cmp_spec(&b1[k]) == Some(
            Ordering::Equal,
        ) by {
            assert(a1[k] == a[k + 1]);
            assert(b1[k] == b[k + 1]);
        }
        lemma_lex_skip_equal_prefix(a1, b1, i - 1);
        assert(a1.skip(i - 1) =~= a.skip(i));
        assert(b1.skip(i - 1) =~= b.skip(i));
    }
}

impl<T: PartialOrd> PartialOrdSpecImpl for AltDeque<T> {
    open spec fn obeys_partial_cmp_spec() -> bool {
        T::obeys_partial_cmp_spec()
    }

    /// Well-formed deques compare lexicographically over their logical
    /// sequences, wherever each deque's internal split point lies.
    open spec fn partial_cmp_spec(&self, other: &AltDeque<T>) -> Option<Ordering> {
        if self.wf() && other.wf() {
            lex_cmp_spec(self@, other@)
        } else {
            None
        }
    }
}

impl<T: PartialOrd> PartialOrd for AltDeque<T> {
    /// Compares the logical sequences lexicographically.
    fn partial_cmp(&self, other: &AltDeque<T>) -> (r: Option<Ordering>) {
        if !self.check_wf() || !other.check_wf() {
            return None;
        }
        let la = self.len();
        let lb = other.len();
        let shorter = if la < lb {
            la
        } else {
            lb
        };
        let mut i: usize = 0;
        while i < shorter
            invariant
                self.wf(),
                other.wf(),
                i <= shorter,
                la == self@.len(),
                lb == other@.len(),
                shorter <= la,
                shorter <= lb,
                T::obeys_partial_cmp_spec() ==> forall|k: int|
                    0 <= k < i ==> (#[trigger] self@[k]).partial_cmp_spec(&other@[k]) == Some(
                        Ordering::Equal,
                    ),
            decreases shorter - i,
        {
            let a = match self.get(i) {
                Some(v) => v,
                None => {
                    proof {
                        assert(false);
                    }
                    return None;
                },
            };
            let b = match other.get(i) {
                Some(v) => v,
                None => {
                    proof {
                        assert(false);
                    }
                    return None;
                },
            };
            match a.partial_cmp(&b) {
                Some(Ordering::Equal) => {
                    i = i + 1;
                },
                o => {
                    proof {
                        if T::obeys_partial_cmp_spec() {
                            lemma_lex_skip_equal_prefix(self@, other@, i as int);
                            assert(self@.skip(i as int)[0] == self@[i as int]);
                            assert(other@.skip(i as int)[0] == other@[i as int]);
                        }
                    }
                    return o;
                },
            }
        }
        proof {
            if T::obeys_partial_cmp_spec() {
                lemma_lex_skip_equal_prefix(self@, other@, shorter as int);
            }
        }
        if la == lb {
            Some(Ordering::Equal)
        } else if la < lb {
            Some(Ordering::Less)
        } else {
            Some(Ordering::Greater)
        }
    }
}

} // verus!
