//! The laws of the window, stated over the same spec functions and views
//! that the executable functions' contracts use.

use vstd::prelude::*;
use vstd::std_specs::cmp::PartialEqSpec;
use crate::model::{pushed, pushed_all, slid};
use crate::window::SlidingWindow;

verus! {

/// Push ordering law: pushing `vs[0], vs[1], …, vs.last()` in order into a
/// window that presented `s`, with no more pushes than the window's length,
/// leaves the last-pushed value at logical position 0 and, in general, the
/// `(vs.len() - i)`-th pushed value at logical position `i`; the positions
/// past the pushes still hold the old values, shifted toward the old end.
pub proof fn lemma_push_ordering<T>(s: Seq<T>, vs: Seq<T>)
    requires
        vs.len() <= s.len(),
    ensures
        pushed_all(s, vs).len() == s.len(),
        forall|i: int| 0 <= i < vs.len() ==> pushed_all(s, vs)[i] == vs[vs.len() - 1 - i],
        forall|i: int| vs.len() <= i < s.len() ==> pushed_all(s, vs)[i] == s[i - vs.len()],
    decreases vs.len(),
{
    if vs.len() > 0 {
        lemma_push_ordering(s, vs.drop_last());
    }
}

/// Truncation law: a slice at least as long as the window determines the
/// whole result, whatever the window held before. It leaves the window equal
/// to a freshly built window of the same capacity `push_slice`'d with only
/// the first `capacity` elements of the slice — those are the elements that
/// survive, since within one call the later pushes overwrite the earlier.
pub proof fn lemma_push_slice_truncates<T>(s: Seq<T>, t: Seq<T>, vs: Seq<T>)
    requires
        s.len() >= 1,
        t.len() == s.len(),
        vs.len() >= s.len(),
    ensures
        slid(s, vs) == slid(t, vs.take(s.len() as int)),
{
    assert(slid(s, vs) =~= slid(t, vs.take(s.len() as int)));
}

/// Round-trip law: rebuilding a window from its own newest-first sequence —
/// `from_slice` ensures the rebuilt view equals the sequence `to_vec`
/// returned — yields a window equal to the original.
pub proof fn lemma_round_trip<T: PartialEq>(w: SlidingWindow<T>, r: SlidingWindow<T>)
    requires
        r@ == w@,
    ensures
        w.eq_spec(&r),
{
}

/// Equality ignores physical layout: two windows that present the same
/// newest-to-oldest sequence are equal, whatever push histories, cursors and
/// storage layouts produced them.
pub proof fn lemma_eq_ignores_layout<T: PartialEq>(a: SlidingWindow<T>, b: SlidingWindow<T>)
    requires
        a@ =~= b@,
    ensures
        a.eq_spec(&b),
{
}

} // verus!
