//! Laws that tie several operations together, stated over the same spec
//! functions that the operations' contracts use.

use vstd::prelude::*;

use vstd::std_specs::cmp::PartialEqSpec;

use crate::deque::AltDeque;

verus! {

/// Rotating a sequence left by `k` and then right by `k` restores it, for
/// every `k` from zero to the length. The rotations are written exactly as
/// the contracts of [`AltDeque::rotate_left`] and [`AltDeque::rotate_right`]
/// write them.
pub proof fn lemma_rotate_round_trip<T>(s: Seq<T>, k: int)
    requires
        0 <= k <= s.len(),
    ensures
        ({
            let t = s.subrange(k, s.len() as int) + s.subrange(0, k);
            t.subrange(t.len() - k, t.len() as int) + t.subrange(0, t.len() - k) == s
        }),
{
    let t = s.subrange(k, s.len() as int) + s.subrange(0, k);
    assert(t.subrange(t.len() - k, t.len() as int) + t.subrange(0, t.len() - k) =~= s);
}

/// Inserting `v` at position `i` and then removing position `i` restores
/// any sequence, so a paired [`AltDeque::insert`] and [`AltDeque::remove`]
/// hand back `v` and leave the deque's sequence as it was.
pub proof fn lemma_insert_remove<T>(s: Seq<T>, i: int, v: T)
    requires
        0 <= i <= s.len(),
    ensures
        s.insert(i, v).remove(i) == s,
{
    assert(s.insert(i, v).remove(i) =~= s);
}

/// Equality between deques does not depend on where each deque's internal
/// split point lies: two well-formed deques with the same logical sequence
/// satisfy `eq_spec`. The one hypothesis beyond validity is that the
/// element equality is reflexive (`x == x` for every element), which
/// `PartialEq` alone does not promise; for a reflexive, spec-obeying
/// element type the executable `==` then returns true on any two deques
/// with equal sequences, however they are split.
pub proof fn lemma_eq_ignores_split<T: PartialEq>(a: &AltDeque<T>, b: &AltDeque<T>)
    requires
        a.wf(),
        b.wf(),
        a@ == b@,
        forall|x: T| #[trigger] x.eq_spec(&x),
    ensures
        a.eq_spec(b),
{
}

} // verus!
