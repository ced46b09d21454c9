//! The mathematical model of a sliding window: the logical-to-physical index
//! mapping and the effect of pushes on the newest-first sequence.

use vstd::prelude::*;
use vstd::arithmetic::div_mod::{lemma_mod_multiples_vanish, lemma_small_mod};

verus! {

/// Physical storage slot that holds logical position `i` (0 = newest) in a
/// window with the given capacity and cursor.
pub open spec fn slot_of(capacity: int, cursor: int, i: int) -> int {
    (capacity - cursor + i) % capacity
}

/// On the in-range arguments the mapping takes one of two branches, and its
/// result is a valid storage slot.
pub proof fn lemma_slot_of_branches(capacity: int, cursor: int, i: int)
    requires
        0 <= cursor < capacity,
        0 <= i < capacity,
    ensures
        slot_of(capacity, cursor, i) == if i < cursor {
            capacity - cursor + i
        } else {
            i - cursor
        },
        0 <= slot_of(capacity, cursor, i) < capacity,
{
    let v = capacity - cursor + i;
    if v < capacity {
        lemma_small_mod(v as nat, capacity as nat);
    } else {
        lemma_mod_multiples_vanish(1, v - capacity, capacity);
        lemma_small_mod((v - capacity) as nat, capacity as nat);
    }
}

/// Distinct logical positions occupy distinct storage slots.
pub proof fn lemma_slot_of_injective(capacity: int, cursor: int, i: int, j: int)
    requires
        0 <= cursor < capacity,
        0 <= i < capacity,
        0 <= j < capacity,
        slot_of(capacity, cursor, i) == slot_of(capacity, cursor, j),
    ensures
        i == j,
{
    lemma_slot_of_branches(capacity, cursor, i);
    lemma_slot_of_branches(capacity, cursor, j);
}

/// The newest-first sequence after one value is pushed: the value enters at
/// logical position 0 and the oldest element falls off the far end.
pub open spec fn pushed<T>(s: Seq<T>, v: T) -> Seq<T> {
    seq![v] + s.drop_last()
}

/// The newest-first sequence after every element of `vs` is pushed in order:
/// `vs[0]` first, `vs.last()` last.
pub open spec fn pushed_all<T>(s: Seq<T>, vs: Seq<T>) -> Seq<T>
    decreases vs.len(),
{
    if vs.len() == 0 {
        s
    } else {
        pushed(pushed_all(s, vs.drop_last()), vs.last())
    }
}

/// The newest-first sequence after `push_slice(vs)` on a window that read
/// `s`: the front of `vs` supplies the newest elements, and when `vs`
/// overfills the window only its first `s.len()` elements are retained.
pub open spec fn slid<T>(s: Seq<T>, vs: Seq<T>) -> Seq<T> {
    if vs.len() >= s.len() {
        vs.take(s.len() as int)
    } else {
        vs + s.take(s.len() - vs.len())
    }
}

/// One more push on top of a completed `push_slice`: the pushed value takes
/// logical position 0 in front of the slice's contribution.
pub proof fn lemma_pushed_slid<T>(s: Seq<T>, w: Seq<T>, x: T)
    requires
        s.len() >= 1,
    ensures
        pushed(slid(s, w), x) == slid(s, seq![x] + w),
{
    assert(pushed(slid(s, w), x) =~= slid(s, seq![x] + w));
}

/// Pushing the elements of `vs` one by one, last element first, leaves the
/// window exactly as `push_slice(vs)` describes.
pub proof fn lemma_pushed_all_slid<T>(s: Seq<T>, vs: Seq<T>)
    requires
        s.len() >= 1,
    ensures
        pushed_all(s, vs.reverse()) == slid(s, vs),
    decreases vs.len(),
{
    if vs.len() == 0 {
        assert(slid(s, vs) =~= s);
    } else {
        let rest = vs.skip(1);
        assert(vs.reverse().drop_last() =~= rest.reverse());
        assert(vs.reverse().last() == vs[0]);
        lemma_pushed_all_slid(s, rest);
        lemma_pushed_slid(s, rest, vs[0]);
        assert(seq![vs[0]] + rest =~= vs);
    }
}

} // verus!
