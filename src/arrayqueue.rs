use vstd::prelude::*;

use crate::{circ, doubled, doubled_spec, wrap, Array};

verus! {

/// A first-in first-out queue over a circular slot array: the element at
/// position `k` lives in slot `(j + k) mod capacity`.
pub struct ArrayQueue<T> {
    a: Array<T>,
    j: usize,
    n: usize,
}

impl<T> View for ArrayQueue<T> {
    type V = Seq<T>;

    /// The elements from the oldest to the newest.
    closed spec fn view(&self) -> Seq<T> {
        Seq::new(self.n as nat, |k: int| self.a@[circ(self.j as int, k, self.a@.len() as int)]->0)
    }
}

impl<T> ArrayQueue<T> {
    /// The window of `n` slots that starts at slot `j` is occupied and every
    /// other slot is empty.
    pub closed spec fn wf(&self) -> bool {
        let len = self.a@.len() as int;
        &&& self.n <= len
        &&& (self.j < len || (len == 0 && self.j == 0))
        &&& forall|k: int|
            0 <= k < len ==> (#[trigger] self.a@[circ(self.j as int, k, len)] is Some <==> k
                < self.n)
    }

    /// Number of slots in the backing array.
    pub closed spec fn capacity(&self) -> nat {
        self.a@.len()
    }

    pub fn with_capacity(len: usize) -> (r: Self)
        ensures
            r.wf(),
            r@ == Seq::<T>::empty(),
            r.capacity() == len,
    {
        let r = Self { a: Array::with_capacity(len), j: 0, n: 0 };
        assert(r@ =~= Seq::<T>::empty());
        r
    }

    /// Number of elements.
    pub fn size(&self) -> (r: usize)
        ensures
            r == self@.len(),
    {
        self.n
    }

    /// Moves the elements, oldest first, to the start of a fresh array of
    /// `doubled_spec(n)` slots.
    fn resize(&mut self)
        requires
            old(self).wf(),
        ensures
            final(self).wf(),
            final(self)@ == old(self)@,
            final(self).j == 0,
            final(self).capacity() == doubled_spec(old(self).n as int),
    {
        let ghost s = self.a@;
        let ghost n = self.n;
        let ghost v = self@;
        let len = self.a.length();
        let cap = doubled(self.n);
        let mut new_a = Array::with_capacity(cap);
        let mut k: usize = 0;
        while k < self.n
            invariant
                self.n == n,
                n <= len,
                len == s.len(),
                self.j < len || (len == 0 && self.j == 0),
                v == Seq::new(n as nat, |m: int| s[circ(self.j as int, m, len as int)]->0),
                forall|m: int|
                    0 <= m < len ==> (#[trigger] s[circ(self.j as int, m, len as int)] is Some
                        <==> m < n),
                n <= cap,
                k <= n,
                self.a@.len() == len,
                new_a@.len() == cap,
                forall|m: int| 0 <= m < k ==> #[trigger] new_a@[m] == s[circ(self.j as int, m, len as int)],
                forall|m: int| k <= m < cap ==> #[trigger] new_a@[m] is None,
                forall|m: int|
                    k <= m < len ==> #[trigger] self.a@[circ(self.j as int, m, len as int)] == s[circ(
                        self.j as int,
                        m,
                        len as int,
                    )],
            decreases n - k,
        {
            let p = wrap(self.j, k, len);
            let x = self.a.take(p);
            new_a.put(k, x);
            k = k + 1;
        }
        proof {
            assert forall|m: int| 0 <= m < cap implies (#[trigger] new_a@[m] is Some <==> m < n) by {
                if m < n {
                    assert(s[circ(self.j as int, m, len as int)] is Some);
                }
            }
        }
        self.a = new_a;
        self.j = 0;
        assert(self@ =~= v);
    }

    /// Appends `x` at the back of the queue. The slot it goes to is always
    /// empty, so `None` comes back.
    pub fn add(&mut self, x: T) -> (r: Option<T>)
        requires
            old(self).wf(),
            old(self)@.len() < usize::MAX,
        ensures
            final(self).wf(),
            final(self)@ == old(self)@.push(x),
            r is None,
            final(self).capacity() == if old(self)@.len() + 1 >= old(self).capacity() {
                doubled_spec(old(self)@.len() as int)
            } else {
                old(self).capacity() as int
            },
    {
        if self.n + 1 >= self.a.length() {
            self.resize();
        }
        let ghost v = self@;
        let len = self.a.length();
        let p = wrap(self.j, self.n, len);
        let y = self.a.put(p, Some(x));
        self.n = self.n + 1;
        assert(self@ =~= v.push(x));
        y
    }

    /// Removes and returns the oldest element; `None` when empty.
    pub fn remove(&mut self) -> (r: Option<T>)
        requires
            old(self).wf(),
        ensures
            final(self).wf(),
            old(self)@.len() == 0 ==> r is None && final(self)@ == old(self)@,
            old(self)@.len() > 0 ==> r == Some(old(self)@[0]) && final(self)@ == old(self)@.skip(1),
            final(self).capacity() == if old(self)@.len() > 0 && 3 * final(self)@.len() <= old(self).capacity() {
                doubled_spec(final(self)@.len() as int)
            } else {
                old(self).capacity() as int
            },
    {
        if self.n == 0 {
            return None;
        }
        let ghost v = self@;
        let ghost s = self.a@;
        let ghost j0 = self.j as int;
        let len = self.a.length();
        let x = self.a.take(self.j);
        self.j = wrap(self.j, 1, len);
        self.n = self.n - 1;
        proof {
            assert forall|k: int| 0 <= k < len implies (#[trigger] self.a@[circ(
                self.j as int,
                k,
                len as int,
            )] is Some <==> k < self.n) by {
                if k + 1 < len {
                    assert(circ(self.j as int, k, len as int) == circ(j0, k + 1, len as int));
                    assert(s[circ(j0, k + 1, len as int)] is Some <==> k + 1 < self.n + 1);
                } else {
                    assert(circ(self.j as int, k, len as int) == j0);
                }
            }
        }
        assert(self@ =~= v.skip(1));
        if self.n <= len / 3 {
            self.resize();
        }
        x
    }
}

} // verus!
