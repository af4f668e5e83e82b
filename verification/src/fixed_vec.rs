// A `Vec` is used rather than a ring buffer for ease of use: the
// sequences are expected to be short, so shifting every element when
// the capacity is reached stays cheap.
use vstd::prelude::*;
use vstd::std_specs::cmp::{PartialEqSpec, PartialEqSpecImpl};

verus! {

/// The latest `cap` elements of `s` (all of `s` when it is not longer).
pub open spec fn window<T>(s: Seq<T>, cap: nat) -> Seq<T> {
    if s.len() <= cap {
        s
    } else {
        s.skip(s.len() - cap)
    }
}

/// The contents after pushing each element of `xs`, in order, onto a
/// sequence holding `s` with a fixed capacity of `cap`.
pub open spec fn push_all<T>(s: Seq<T>, xs: Seq<T>, cap: nat) -> Seq<T>
    decreases xs.len(),
{
    if xs.len() == 0 {
        s
    } else {
        push_all(window(s.push(xs[0]), cap), xs.drop_first(), cap)
    }
}

/// The value evicted by pushing onto a sequence holding `s` with a fixed
/// capacity of `cap`: the oldest one, once the capacity is reached.
pub open spec fn evicted<T>(s: Seq<T>, cap: nat) -> Option<T> {
    if cap > 0 && s.len() >= cap {
        Some(s[0])
    } else {
        None
    }
}

/// The values returned, in order, by pushing each element of `xs` onto a
/// sequence holding `s` with a fixed capacity of `cap`.
pub open spec fn push_all_evicted<T>(s: Seq<T>, xs: Seq<T>, cap: nat) -> Seq<Option<T>>
    decreases xs.len(),
{
    if xs.len() == 0 {
        Seq::empty()
    } else {
        seq![evicted(s, cap)] + push_all_evicted(window(s.push(xs[0]), cap), xs.drop_first(), cap)
    }
}

/// A sequence with a fixed capacity.
///
/// Once the capacity is reached, pushing a value evicts the oldest one.
/// The default capacity is 16 elements.
#[derive(Debug)]
pub struct FixedVec<T> {
    inner: Vec<T>,
    cap: usize,
}

impl<T> View for FixedVec<T> {
    type V = Seq<T>;

    closed spec fn view(&self) -> Seq<T> {
        self.inner@
    }
}

impl<T> FixedVec<T> {
    /// The fixed capacity, as a specification value.
    pub closed spec fn spec_capacity(&self) -> nat {
        self.cap as nat
    }

    /// The sequence holds no more elements than its capacity.
    pub open spec fn within_capacity(&self) -> bool {
        self@.len() <= self.spec_capacity()
    }

    /// Construct a new [`FixedVec`] with a fixed capacity.
    pub fn new(capacity: usize) -> (v: Self)
        ensures
            v@ == Seq::<T>::empty(),
            v.spec_capacity() == capacity,
            v.within_capacity(),
    {
        FixedVec { inner: Vec::with_capacity(capacity), cap: capacity }
    }

    /// Return a slice of the underlying sequence.
    pub fn as_slice(&self) -> (s: &[T])
        ensures
            s@ == self@,
    {
        self.inner.as_slice()
    }

    /// Return a mutable slice of the underlying sequence.
    ///
    /// Writes through the slice change the elements in place; the length
    /// and the capacity stay as they are.
    pub fn as_mut_slice(&mut self) -> (s: &mut [T])
        ensures
            s@ == old(self)@,
            final(self)@ == final(s)@,
            final(self).spec_capacity() == old(self).spec_capacity(),
    {
        self.inner.as_mut_slice()
    }

    /// Push a value, returning the evicted (oldest) value if the
    /// capacity had been reached.
    ///
    /// With a capacity of zero nothing is stored and `None` is returned.
    pub fn push(&mut self, value: T) -> (popped: Option<T>)
        ensures
            final(self).spec_capacity() == old(self).spec_capacity(),
            old(self).spec_capacity() == 0 ==> popped is None && final(self)@ == old(self)@,
            old(self).spec_capacity() > 0 ==> final(self)@ == window(
                old(self)@.push(value),
                old(self).spec_capacity(),
            ),
            old(self).spec_capacity() > 0 && old(self)@.len() < old(self).spec_capacity()
                ==> popped is None,
            old(self).spec_capacity() > 0 && old(self)@.len() >= old(self).spec_capacity()
                ==> popped == Some(old(self)@[0]),
            popped == evicted(old(self)@, old(self).spec_capacity() as nat),
            old(self).spec_capacity() > 0 ==> final(self).within_capacity(),
            old(self).within_capacity() ==> final(self).within_capacity(),
    {
        // a bit of a degenerate case
        if self.cap == 0 {
            return None;
        }
        if self.inner.len() >= self.cap {
            let popped = self.inner.remove(0);
            // The length never exceeds the capacity through this type's
            // own methods, but nothing here states that writes through
            // `as_mut_slice` keep a slice's length, so the bound is not an
            // invariant of the type; trim any excess to keep the latest
            // values.
            while self.inner.len() >= self.cap
                invariant
                    self.cap > 0,
                    self.cap == old(self).cap,
                    self.inner@.len() >= self.cap - 1,
                    self.inner@.len() < old(self)@.len(),
                    self.inner@ == old(self)@.skip(old(self)@.len() - self.inner@.len()),
                decreases self.inner@.len(),
            {
                let ghost before = self.inner@;
                self.inner.remove(0);
                proof {
                    let k = old(self)@.len() - before.len();
                    assert(self.inner@ =~= before.skip(1));
                    assert forall|i: int| 0 <= i < self.inner@.len() implies self.inner@[i]
                        == old(self)@[k + 1 + i] by {
                        assert(before[i + 1] == old(self)@[k + i + 1]);
                    }
                    assert(self.inner@ =~= old(self)@.skip(old(self)@.len() - self.inner@.len()));
                }
            }
            self.inner.push(value);
            proof {
                let s = old(self)@.push(value);
                assert(self.inner@ =~= s.skip(s.len() - self.cap));
            }
            Some(popped)
        } else {
            self.inner.push(value);
            None
        }
    }

    /// Clear the sequence, removing all values.
    pub fn clear(&mut self)
        ensures
            final(self)@ == Seq::<T>::empty(),
            final(self).spec_capacity() == old(self).spec_capacity(),
            final(self).within_capacity(),
    {
        self.inner.clear();
    }

    /// Return the number of elements in the sequence.
    pub fn len(&self) -> (n: usize)
        ensures
            n == self@.len(),
            self.within_capacity() ==> n <= self.spec_capacity(),
    {
        self.inner.len()
    }

    /// Return whether the sequence is empty.
    pub fn is_empty(&self) -> (b: bool)
        ensures
            b <==> self@.len() == 0,
    {
        self.inner.is_empty()
    }

    /// Return the fixed capacity.
    ///
    /// This cannot change after construction.
    pub fn capacity(&self) -> (c: usize)
        ensures
            c == self.spec_capacity(),
    {
        self.cap
    }
}

/// Pushing values one after another onto a [`FixedVec`] with a nonzero
/// capacity leaves it holding the latest `cap` values of everything it
/// held and everything pushed, in order.
pub proof fn lemma_push_all_keeps_latest<T>(s: Seq<T>, xs: Seq<T>, cap: nat)
    requires
        cap > 0,
        s.len() <= cap,
    ensures
        push_all(s, xs, cap) == window(s + xs, cap),
    decreases xs.len(),
{
    if xs.len() == 0 {
        assert(s + xs =~= s);
    } else {
        let s1 = window(s.push(xs[0]), cap);
        lemma_push_all_keeps_latest(s1, xs.drop_first(), cap);
        lemma_window_concat(s.push(xs[0]), xs.drop_first(), cap);
        assert(s.push(xs[0]) + xs.drop_first() =~= s + xs);
    }
}

/// Pushing values one after another onto a [`FixedVec`] with a nonzero
/// capacity `cap` that holds `s` returns `None` while there is room and
/// then the oldest values, in the order they arrived; the length never
/// exceeds the capacity.
pub proof fn lemma_push_all_evicts_oldest<T>(s: Seq<T>, xs: Seq<T>, cap: nat)
    requires
        cap > 0,
        s.len() <= cap,
    ensures
        push_all(s, xs, cap).len() <= cap,
        push_all_evicted(s, xs, cap).len() == xs.len(),
        forall|k: int|
            0 <= k < xs.len() ==> #[trigger] push_all_evicted(s, xs, cap)[k] == (if s.len() + k < cap {
                None
            } else {
                Some((s + xs)[s.len() + k - cap])
            }),
    decreases xs.len(),
{
    if xs.len() > 0 {
        let s1 = window(s.push(xs[0]), cap);
        let rest = xs.drop_first();
        lemma_push_all_evicts_oldest(s1, rest, cap);
        assert(s1 + rest =~= if s.len() < cap {
            s + xs
        } else {
            (s + xs).skip(1)
        });
        let r = push_all_evicted(s, xs, cap);
        assert forall|k: int| 0 <= k < xs.len() implies #[trigger] r[k] == (if s.len() + k < cap {
            None
        } else {
            Some((s + xs)[s.len() + k - cap])
        }) by {
            if k > 0 {
                assert(r[k] == push_all_evicted(s1, rest, cap)[k - 1]);
            }
        }
    }
}

/// Taking the window of a prefix first does not change the window of
/// the whole sequence.
pub proof fn lemma_window_concat<T>(a: Seq<T>, b: Seq<T>, cap: nat)
    ensures
        window(window(a, cap) + b, cap) == window(a + b, cap),
{
    if a.len() <= cap {
    } else {
        let wa = a.skip(a.len() - cap);
        assert((wa + b).len() == cap + b.len());
        if b.len() == 0 {
            assert(wa + b =~= wa);
            assert(a + b =~= a);
        } else {
            assert((wa + b).skip((wa + b).len() - cap) =~= (a + b).skip((a + b).len() - cap));
        }
    }
}

impl<T: Clone> Clone for FixedVec<T> {
    /// The clone keeps the capacity, which `Vec::clone` alone would not.
    fn clone(&self) -> (c: Self)
        ensures
            c.spec_capacity() == self.spec_capacity(),
            c@.len() == self@.len(),
            self.within_capacity() ==> c.within_capacity(),
            forall|i: int| 0 <= i < self@.len() ==> cloned::<T>(self@[i], #[trigger] c@[i]),
    {
        let inner = self.inner.clone();
        FixedVec { inner, cap: self.cap }
    }
}

impl<T> Default for FixedVec<T> {
    fn default() -> (v: Self)
        ensures
            v@ == Seq::<T>::empty(),
            v.spec_capacity() == 16,
            v.within_capacity(),
    {
        Self::new(16)
    }
}

impl<T: PartialEq> PartialEq for FixedVec<T> {
    /// Two sequences are equal when their elements are; the capacity
    /// plays no part.
    fn eq(&self, other: &Self) -> (r: bool) {
        self.inner == other.inner
    }
}

impl<T: PartialEq> PartialEqSpecImpl for FixedVec<T> {
    open spec fn obeys_eq_spec() -> bool {
        T::obeys_eq_spec()
    }

    open spec fn eq_spec(&self, other: &Self) -> bool {
        &&& self@.len() == other@.len()
        &&& forall|i: int| 0 <= i < self@.len() ==> #[trigger] self@[i].eq_spec(&other@[i])
    }
}

impl<T: Eq> Eq for FixedVec<T> {

}

impl<T> core::ops::Deref for FixedVec<T> {
    type Target = [T];

    fn deref(&self) -> (s: &[T])
        ensures
            s@ == self@,
    {
        self.as_slice()
    }
}

impl<T> core::ops::DerefMut for FixedVec<T> {
    fn deref_mut(&mut self) -> (s: &mut [T])
        ensures
            s@ == old(self)@,
            final(self)@ == final(s)@,
            final(self).spec_capacity() == old(self).spec_capacity(),
    {
        self.as_mut_slice()
    }
}

} // verus!
