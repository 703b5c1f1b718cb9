use vstd::prelude::*;

pub mod arraydeque;
pub mod arrayqueue;
pub mod arraystack;
pub mod dualarraydeque;
pub mod laws;
pub mod randomqueue;
pub mod rootisharraystack;

verus! {

/// The capacity a container reallocates to when it holds `m` elements:
/// twice `m`, and never less than one slot.
pub open spec fn doubled_spec(m: int) -> int {
    if m == 0 {
        1
    } else if m <= usize::MAX / 2 {
        2 * m
    } else {
        usize::MAX as int
    }
}

/// Computes `doubled_spec(m)`; the product saturates where it would not fit a `usize`.
pub(crate) fn doubled(m: usize) -> (r: usize)
    ensures
        r == doubled_spec(m as int),
        m < usize::MAX ==> m < r,
{
    if m == 0 {
        1
    } else if m <= usize::MAX / 2 {
        2 * m
    } else {
        usize::MAX
    }
}

/// The slot that lies `k` places after slot `j` in a circular array of
/// `len` slots, for `j` and `k` below `len`.
pub open spec fn circ(j: int, k: int, len: int) -> int {
    if j + k < len {
        j + k
    } else {
        j + k - len
    }
}

/// Computes `circ(j, k, len)`, that is `(j + k) mod len`, without overflow.
pub(crate) fn wrap(j: usize, k: usize, len: usize) -> (r: usize)
    requires
        j < len,
        k <= len,
    ensures
        r == circ(j as int, k as int, len as int),
{
    if k < len - j {
        j + k
    } else {
        k - (len - j)
    }
}

/// A fixed-length array of slots, each holding one element or nothing.
///
/// Capacity never changes after construction: growing or shrinking means
/// building a new array and moving the occupied slots into it.
pub(crate) struct Array<T> {
    pub(crate) a: Vec<Option<T>>,
}

impl<T> View for Array<T> {
    type V = Seq<Option<T>>;

    open(crate) spec fn view(&self) -> Seq<Option<T>> {
        self.a@
    }
}

impl<T> Array<T> {
    /// An array of `len` empty slots.
    pub(crate) fn with_capacity(len: usize) -> (r: Self)
        ensures
            r@ == Seq::new(len as nat, |k: int| None::<T>),
    {
        let mut a: Vec<Option<T>> = Vec::new();
        let mut k: usize = 0;
        while k < len
            invariant
                k <= len,
                a@ == Seq::new(k as nat, |m: int| None::<T>),
            decreases len - k,
        {
            a.push(None);
            k = k + 1;
        }
        Array { a }
    }

    pub(crate) fn length(&self) -> (r: usize)
        ensures
            r == self@.len(),
    {
        self.a.len()
    }

    /// The contents of slot `i`.
    pub(crate) fn slot(&self, i: usize) -> (r: &Option<T>)
        requires
            i < self@.len(),
        ensures
            *r == self@[i as int],
    {
        &self.a[i]
    }

    /// Moves the contents out of slot `i`, leaving it empty.
    pub(crate) fn take(&mut self, i: usize) -> (r: Option<T>)
        requires
            i < old(self)@.len(),
        ensures
            r == old(self)@[i as int],
            final(self)@ == old(self)@.update(i as int, None),
    {
        self.a[i].take()
    }

    /// Stores `v` in slot `i` and hands back what the slot held.
    pub(crate) fn put(&mut self, i: usize, v: Option<T>) -> (r: Option<T>)
        requires
            i < old(self)@.len(),
        ensures
            r == old(self)@[i as int],
            final(self)@ == old(self)@.update(i as int, v),
    {
        let mut v = v;
        core::mem::swap(&mut self.a[i], &mut v);
        v
    }

    /// Exchanges the contents of slots `i` and `k`.
    pub(crate) fn swap(&mut self, i: usize, k: usize)
        requires
            i < old(self)@.len(),
            k < old(self)@.len(),
        ensures
            final(self)@ == old(self)@.update(i as int, old(self)@[k as int]).update(
                k as int,
                old(self)@[i as int],
            ),
    {
        let ghost s = self@;
        if i != k {
            let x = self.take(i);
            let y = self.put(k, x);
            self.put(i, y);
        }
        assert(self@ =~= s.update(i as int, s[k as int]).update(k as int, s[i as int]));
    }
}

} // verus!
