//! The sliding-window container itself: a fixed-capacity circular buffer
//! that retains the last `capacity` values pushed into it and presents them
//! newest first.

use vstd::prelude::*;
use vstd::arithmetic::div_mod::{lemma_mod_self_0, lemma_small_mod};
use vstd::std_specs::cmp::PartialEqSpec;
use vstd::slice::slice_to_vec;
use crate::model::{
    lemma_pushed_all_slid, lemma_slot_of_branches, lemma_slot_of_injective, pushed, pushed_all,
    slid, slot_of,
};

verus! {

/// A fixed-capacity container that keeps the last `capacity` values pushed
/// into it, newest first. Its view is the newest-first sequence of retained
/// values.
#[derive(Debug)]
pub struct SlidingWindow<T> {
    store: Vec<T>,
    cursor: usize,
    capacity: usize,
}

impl<T> View for SlidingWindow<T> {
    type V = Seq<T>;

    closed spec fn view(&self) -> Seq<T> {
        Seq::new(
            self.capacity as nat,
            |i: int| self.store@[slot_of(self.capacity as int, self.cursor as int, i)],
        )
    }
}

impl<T> SlidingWindow<T> {
    #[verifier::type_invariant]
    spec fn inv(self) -> bool {
        &&& self.capacity >= 1
        &&& self.store@.len() == self.capacity
        &&& self.cursor < self.capacity
    }

    /// The fixed capacity of the window; at least one, and always the number
    /// of values the window presents.
    pub fn capacity(&self) -> (c: usize)
        ensures
            c == self@.len(),
            c >= 1,
    {
        proof {
            use_type_invariant(self);
        }
        self.capacity
    }

    /// Push one value: it becomes logical position 0 (the newest), every
    /// retained value moves one position toward the old end, and the oldest
    /// is discarded.
    pub fn push(&mut self, a: T)
        ensures
            final(self)@ == pushed(old(self)@, a),
            final(self)@.len() == old(self)@.len(),
            final(self)@[0] == a,
    {
        proof {
            use_type_invariant(&*self);
        }
        let slot = self.capacity - 1 - self.cursor;
        self.store[slot] = a;
        self.cursor = (self.cursor + 1) % self.capacity;
        proof {
            let cap = self.capacity as int;
            let cur0 = old(self).cursor as int;
            let cur1 = self.cursor as int;
            assert(cur1 == if cur0 + 1 == cap {
                0int
            } else {
                cur0 + 1
            }) by {
                if cur0 + 1 == cap {
                    lemma_mod_self_0(cap);
                } else {
                    lemma_small_mod((cur0 + 1) as nat, cap as nat);
                }
            }
            assert forall|i: int| 0 <= i < cap implies self@[i] == pushed(old(self)@, a)[i] by {
                lemma_slot_of_branches(cap, cur1, i);
                if i >= 1 {
                    lemma_slot_of_branches(cap, cur0, i - 1);
                }
            }
            assert(self@ =~= pushed(old(self)@, a));
        }
    }

    /// The value at logical position `i`: position 0 is the newest retained
    /// value, position `capacity - 1` the oldest.
    pub fn index(&self, i: usize) -> (r: &T)
        requires
            i < self@.len(),
        ensures
            *r == self@[i as int],
    {
        proof {
            use_type_invariant(self);
            lemma_slot_of_branches(self.capacity as int, self.cursor as int, i as int);
        }
        let slot = if i < self.cursor {
            self.capacity - self.cursor + i
        } else {
            i - self.cursor
        };
        &self.store[slot]
    }

    /// A window that takes ownership of `v`: capacity is `v`'s length and
    /// `v[0]` starts out as the newest retained value.
    pub fn from_vec(v: Vec<T>) -> (w: SlidingWindow<T>)
        requires
            v@.len() >= 1,
        ensures
            w@ == v@,
    {
        let capacity = v.len();
        let w = SlidingWindow { store: v, cursor: 0, capacity };
        proof {
            assert forall|i: int| 0 <= i < w@.len() implies w@[i] == w.store@[i] by {
                lemma_slot_of_branches(capacity as int, 0, i);
            }
            assert(w@ =~= w.store@);
        }
        w
    }
}

impl<T: Copy> SlidingWindow<T> {
    /// A window of the requested capacity with every slot set to `init`;
    /// a request for capacity zero is coerced to one.
    pub fn new(max_items: usize, init: T) -> (w: SlidingWindow<T>)
        ensures
            w@.len() == if max_items < 1 { 1int } else { max_items as int },
            forall|i: int| 0 <= i < w@.len() ==> w@[i] == init,
    {
        let capacity = if max_items < 1 {
            1
        } else {
            max_items
        };
        let mut store: Vec<T> = Vec::new();
        let mut n: usize = 0;
        while n < capacity
            invariant
                n <= capacity,
                store@.len() == n,
                forall|i: int| 0 <= i < n ==> store@[i] == init,
            decreases capacity - n,
        {
            store.push(init);
            n += 1;
        }
        let w = SlidingWindow { store, cursor: 0, capacity };
        proof {
            assert forall|i: int| 0 <= i < w@.len() implies w@[i] == init by {
                lemma_slot_of_branches(capacity as int, 0, i);
            }
        }
        w
    }

    /// A window holding a copy of `a`: capacity is `a`'s length and `a[0]`
    /// starts out as the newest retained value.
    pub fn from_slice(a: &[T]) -> (w: SlidingWindow<T>)
        requires
            a@.len() >= 1,
        ensures
            w@ == a@,
    {
        SlidingWindow::from_vec(slice_to_vec(a))
    }

    /// Push every element of `a`, last element first, so that afterwards
    /// `a[0]` is the newest retained value. A slice longer than the capacity
    /// leaves only its first `capacity` elements retained.
    pub fn push_slice(&mut self, a: &[T])
        ensures
            final(self)@ == pushed_all(old(self)@, a@.reverse()),
            final(self)@ == slid(old(self)@, a@),
            final(self)@.len() == old(self)@.len(),
    {
        proof {
            use_type_invariant(&*self);
        }
        let mut j = a.len();
        while j > 0
            invariant
                j <= a@.len(),
                old(self)@.len() >= 1,
                self@ == pushed_all(old(self)@, a@.skip(j as int).reverse()),
            decreases j,
        {
            j = j - 1;
            self.push(a[j]);
            proof {
                assert(a@.skip(j as int).reverse().last() == a@[j as int]);
                assert(a@.skip(j as int).reverse().drop_last() =~= a@.skip(j as int + 1).reverse());
            }
        }
        proof {
            assert(a@.skip(0) =~= a@);
            lemma_pushed_all_slid(old(self)@, a@);
        }
    }

    /// A newly allocated vector of the retained values in logical order,
    /// newest first.
    pub fn to_vec(&self) -> (v: Vec<T>)
        ensures
            v@ == self@,
    {
        proof {
            use_type_invariant(self);
        }
        let mut v: Vec<T> = Vec::new();
        let mut i: usize = 0;
        while i < self.capacity
            invariant
                i <= self.capacity,
                self.capacity == self@.len(),
                v@ =~= self@.take(i as int),
            decreases self.capacity - i,
        {
            v.push(*self.index(i));
            i += 1;
        }
        proof {
            assert(v@ =~= self@);
        }
        v
    }

    /// Mutable iteration: rewrite every retained value in place as `f` maps
    /// it, keeping capacity and logical order; the cursor is unaffected. The
    /// exclusive borrow keeps any reader out while the values change.
    pub fn iter_mut<F: Fn(T) -> T>(&mut self, f: F)
        requires
            forall|k: int| 0 <= k < old(self)@.len() ==> call_requires(f, (old(self)@[k],)),
        ensures
            final(self)@.len() == old(self)@.len(),
            forall|k: int|
                0 <= k < old(self)@.len() ==> call_ensures(
                    f,
                    (old(self)@[k],),
                    #[trigger] final(self)@[k],
                ),
    {
        proof {
            use_type_invariant(&*self);
        }
        let mut i: usize = 0;
        while i < self.capacity
            invariant
                i <= self.capacity,
                self.capacity == old(self).capacity,
                self.cursor == old(self).cursor,
                self.cursor < self.capacity,
                self.store@.len() == self.capacity,
                forall|k: int| 0 <= k < old(self)@.len() ==> call_requires(f, (old(self)@[k],)),
                forall|k: int|
                    0 <= k < i ==> call_ensures(f, (old(self)@[k],), #[trigger] self@[k]),
                forall|k: int| i <= k < self@.len() ==> self@[k] == old(self)@[k],
            decreases self.capacity - i,
        {
            let slot = if i < self.cursor {
                self.capacity - self.cursor + i
            } else {
                i - self.cursor
            };
            proof {
                lemma_slot_of_branches(self.capacity as int, self.cursor as int, i as int);
            }
            let ghost prev = self@;
            let x = self.store[slot];
            proof {
                assert(x == self@[i as int]);
                assert(x == old(self)@[i as int]);
            }
            let y = f(x);
            self.store[slot] = y;
            proof {
                assert forall|k: int| 0 <= k < self@.len() && k != i implies self@[k] == prev[k] by {
                    lemma_slot_of_branches(self.capacity as int, self.cursor as int, k);
                    if slot_of(self.capacity as int, self.cursor as int, k) == slot_of(
                        self.capacity as int,
                        self.cursor as int,
                        i as int,
                    ) {
                        lemma_slot_of_injective(
                            self.capacity as int,
                            self.cursor as int,
                            k,
                            i as int,
                        );
                    }
                }
                assert(self@[i as int] == y);
                assert(call_ensures(f, (old(self)@[i as int],), self@[i as int]));
                assert forall|k: int| 0 <= k < i + 1 implies call_ensures(
                    f,
                    (old(self)@[k],),
                    #[trigger] self@[k],
                ) by {
                    if k < i {
                        assert(self@[k] == prev[k]);
                        assert(call_ensures(f, (old(self)@[k],), prev[k]));
                    }
                }
            }
            i += 1;
        }
    }
}

/// Holds when `==` on `T` agrees exactly with mathematical equality, as it
/// does for the integer types: `T`'s equality obeys its specification, and
/// that specification is equality itself. Under this condition the window's
/// comparisons decide equality of the logical sequences exactly.
pub open spec fn exact_eq<T: PartialEq>() -> bool {
    &&& T::obeys_eq_spec()
    &&& forall|x: T, y: T| #[trigger] x.eq_spec(&y) <==> x == y
}

impl<T: PartialEq> SlidingWindow<T> {
    /// Structural comparison against a plain slice: equal lengths and
    /// element-wise equal values under the newest-to-oldest ordering.
    pub fn eq_slice(&self, other: &[T]) -> (r: bool)
        ensures
            exact_eq::<T>() ==> (r <==> self@ =~= other@),
    {
        proof {
            use_type_invariant(self);
        }
        if self.capacity != other.len() {
            return false;
        }
        let mut i: usize = 0;
        while i < self.capacity
            invariant
                i <= self.capacity,
                self.capacity == self@.len(),
                self.capacity == other@.len(),
                exact_eq::<T>() ==> forall|k: int| 0 <= k < i ==> self@[k] == other@[k],
            decreases self.capacity - i,
        {
            if !self.index(i).eq(vstd::slice::slice_index_get(other, i)) {
                proof {
                    if exact_eq::<T>() {
                        assert(self@[i as int] != other@[i as int]);
                    }
                }
                return false;
            }
            i += 1;
        }
        true
    }
}

impl<T: PartialEq> PartialEq for SlidingWindow<T> {
    /// Windows are equal when their capacities are equal and their logical
    /// newest-to-oldest sequences are element-wise equal; the comparison
    /// walks the logical order, never the raw storage, so two windows with
    /// different cursors and physical layouts compare equal whenever they
    /// present the same sequence.
    fn eq(&self, other: &Self) -> (r: bool) {
        proof {
            use_type_invariant(self);
            use_type_invariant(other);
        }
        if self.capacity != other.capacity {
            return false;
        }
        let mut i: usize = 0;
        while i < self.capacity
            invariant
                i <= self.capacity,
                self.capacity == self@.len(),
                self.capacity == other@.len(),
                exact_eq::<T>() ==> forall|k: int| 0 <= k < i ==> self@[k] == other@[k],
            decreases self.capacity - i,
        {
            if !self.index(i).eq(other.index(i)) {
                proof {
                    if exact_eq::<T>() {
                        assert(self@[i as int] != other@[i as int]);
                    }
                }
                return false;
            }
            i += 1;
        }
        true
    }
}

impl<T: PartialEq> vstd::std_specs::cmp::PartialEqSpecImpl for SlidingWindow<T> {
    open spec fn obeys_eq_spec() -> bool {
        exact_eq::<T>()
    }

    open spec fn eq_spec(&self, other: &Self) -> bool {
        self@ =~= other@
    }
}

/// A lazy, restartable walk over a window's retained values in logical
/// order, newest first. It borrows the window, so the window cannot change
/// underneath it; a fresh walk starts with another call to `iter`.
pub struct WindowIter<'a, T> {
    window: &'a SlidingWindow<T>,
    pos: usize,
}

impl<'a, T> WindowIter<'a, T> {
    #[verifier::type_invariant]
    spec fn iter_inv(self) -> bool {
        self.pos <= self.window@.len()
    }

    /// The newest-first sequence the iterator walks.
    pub closed spec fn elements(self) -> Seq<T> {
        self.window@
    }

    /// How many values have been yielded so far.
    pub closed spec fn position(self) -> nat {
        self.pos as nat
    }

    /// The next value in newest-first order, or `None` once every retained
    /// value has been yielded.
    pub fn next(&mut self) -> (r: Option<&'a T>)
        ensures
            final(self).elements() == old(self).elements(),
            old(self).position() < old(self).elements().len() ==> {
                &&& r matches Some(v) && *v == old(self).elements()[old(self).position() as int]
                &&& final(self).position() == old(self).position() + 1
            },
            old(self).position() >= old(self).elements().len() ==> {
                &&& r is None
                &&& final(self).position() == old(self).position()
            },
    {
        proof {
            use_type_invariant(&*self);
            use_type_invariant(self.window);
        }
        let w = self.window;
        if self.pos < w.capacity {
            let i = self.pos;
            self.pos = i + 1;
            Some(w.index(i))
        } else {
            None
        }
    }
}

impl<T> SlidingWindow<T> {
    /// A lazy iterator over the retained values in logical order, newest
    /// first; it yields exactly `capacity` values.
    pub fn iter<'a>(&'a self) -> (it: WindowIter<'a, T>)
        ensures
            it.elements() == self@,
            it.position() == 0,
    {
        proof {
            use_type_invariant(self);
        }
        WindowIter { window: self, pos: 0 }
    }
}

} // verus!
