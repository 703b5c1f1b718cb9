use vstd::prelude::*;

use crate::laws::{edited, ListEdit};

use crate::{circ, doubled, doubled_spec, wrap, Array};

verus! {

/// A list over a circular slot array: the element at position `k` lives in
/// slot `(j + k) mod capacity`. An insertion or removal moves whichever side
/// of the position is shorter.
pub struct ArrayDeque<T> {
    a: Array<T>,
    j: usize,
    n: usize,
}

impl<T> View for ArrayDeque<T> {
    type V = Seq<T>;

    /// The elements from the front to the back.
    closed spec fn view(&self) -> Seq<T> {
        Seq::new(self.n as nat, |k: int| self.a@[circ(self.j as int, k, self.a@.len() as int)]->0)
    }
}

impl<T> ArrayDeque<T> {
    /// The window of `n` slots that starts at slot `j` is occupied and every
    /// other slot is empty.
    pub closed spec fn wf(&self) -> bool {
        let len = self.a@.len() as int;
        &&& self.n <= len
        &&& (self.j < len || (len == 0 && self.j == 0))
        &&& forall|k: int|
            0 <= k < len ==> (#[trigger] self.a@[circ(self.j as int, k, len)] is Some <==> k
                < self.n)
    }

    /// Number of slots in the backing array.
    pub closed spec fn capacity(&self) -> nat {
        self.a@.len()
    }

    pub fn with_capacity(len: usize) -> (r: Self)
        ensures
            r.wf(),
            r@ == Seq::<T>::empty(),
            r.capacity() == len,
    {
        let r = ArrayDeque { a: Array::with_capacity(len), j: 0, n: 0 };
        assert(r@ =~= Seq::<T>::empty());
        r
    }

    /// Moves the elements, front first, to the start of a fresh array of
    /// `doubled_spec(n)` slots.
    fn resize(&mut self)
        requires
            old(self).wf(),
        ensures
            final(self).wf(),
            final(self)@ == old(self)@,
            final(self).capacity() == doubled_spec(old(self).n as int),
    {
        let ghost s = self.a@;
        let ghost n = self.n;
        let ghost v = self@;
        let len = self.a.length();
        let cap = doubled(self.n);
        let mut new_a = Array::with_capacity(cap);
        let mut k: usize = 0;
        while k < self.n
            invariant
                self.n == n,
                n <= len,
                len == s.len(),
                self.j < len || (len == 0 && self.j == 0),
                v == Seq::new(n as nat, |m: int| s[circ(self.j as int, m, len as int)]->0),
                forall|m: int|
                    0 <= m < len ==> (#[trigger] s[circ(self.j as int, m, len as int)] is Some
                        <==> m < n),
                n <= cap,
                k <= n,
                self.a@.len() == len,
                new_a@.len() == cap,
                forall|m: int| 0 <= m < k ==> #[trigger] new_a@[m] == s[circ(self.j as int, m, len as int)],
                forall|m: int| k <= m < cap ==> #[trigger] new_a@[m] is None,
                forall|m: int|
                    k <= m < len ==> #[trigger] self.a@[circ(self.j as int, m, len as int)] == s[circ(
                        self.j as int,
                        m,
                        len as int,
                    )],
            decreases n - k,
        {
            let p = wrap(self.j, k, len);
            let x = self.a.take(p);
            new_a.put(k, x);
            k = k + 1;
        }
        proof {
            assert forall|m: int| 0 <= m < cap implies (#[trigger] new_a@[m] is Some <==> m < n) by {
                if m < n {
                    assert(s[circ(self.j as int, m, len as int)] is Some);
                }
            }
        }
        self.a = new_a;
        self.j = 0;
        assert(self@ =~= v);
    }

    /// Number of elements.
    pub fn size(&self) -> (r: usize)
        requires
            self.wf(),
        ensures
            r == self@.len(),
    {
        self.n
    }

    /// The element at index `i`, or `None` when `i` is past the end.
    pub fn get(&self, i: usize) -> (r: Option<&T>)
        requires
            self.wf(),
        ensures
            i < self@.len() ==> r == Some(&self@[i as int]),
            i >= self@.len() ==> r is None,
    {
        if i < self.n {
            let p = wrap(self.j, i, self.a.length());
            self.a.slot(p).as_ref()
        } else {
            None
        }
    }

    /// Replaces the element at index `i` by `x` and returns the one it held.
    /// Past the end nothing changes and `x` comes back.
    pub fn set(&mut self, i: usize, x: T) -> (r: Option<T>)
        requires
            old(self).wf(),
        ensures
            final(self).wf(),
            i < old(self)@.len() ==> r == Some(old(self)@[i as int]) && final(self)@ == old(
                self,
            )@.update(i as int, x),
            i >= old(self)@.len() ==> r == Some(x) && final(self)@ == old(self)@,
    {
        if i < self.n {
            let ghost v = self@;
            let p = wrap(self.j, i, self.a.length());
            let r = self.a.put(p, Some(x));
            assert(self@ =~= v.update(i as int, x));
            r
        } else {
            Some(x)
        }
    }

    /// The slots of `a`, read from `j`, hold those of `s` read from `j0` with
    /// an empty slot opened at position `i` among the first `n + 1`.
    spec fn gapped(a: Seq<Option<T>>, j: int, s: Seq<Option<T>>, j0: int, n: int, i: int) -> bool {
        let len = a.len() as int;
        &&& a[circ(j, i, len)] is None
        &&& forall|m: int| 0 <= m < i ==> #[trigger] a[circ(j, m, len)] == s[circ(j0, m, len)]
        &&& forall|m: int| i < m <= n ==> #[trigger] a[circ(j, m, len)] == s[circ(j0, m - 1, len)]
        &&& forall|m: int| n < m < len ==> #[trigger] a[circ(j, m, len)] is None
    }

    /// Opens a gap at position `i` by moving the first `i` elements one
    /// slot towards the front.
    fn open_gap_front(&mut self, i: usize)
        requires
            old(self).wf(),
            old(self).n < old(self).a@.len(),
            i <= old(self).n,
        ensures
            final(self).n == old(self).n,
            final(self).a@.len() == old(self).a@.len(),
            final(self).j < final(self).a@.len(),
            Self::gapped(
                final(self).a@,
                final(self).j as int,
                old(self).a@,
                old(self).j as int,
                old(self).n as int,
                i as int,
            ),
    {
        let ghost s = self.a@;
        let ghost j0 = self.j as int;
        let ghost n = self.n as int;
        let len = self.a.length();
        self.j = if self.j == 0 {
            len - 1
        } else {
            self.j - 1
        };
        proof {
            assert(circ(self.j as int, 0, len as int) == circ(j0, len - 1, len as int));
            assert(s[circ(j0, len - 1, len as int)] is None);
            assert forall|m: int| 0 < m < len implies #[trigger] self.a@[circ(
                self.j as int,
                m,
                len as int,
            )] == s[circ(j0, m - 1, len as int)] by {
                assert(circ(self.j as int, m, len as int) == circ(j0, m - 1, len as int));
            }
        }
        let mut k: usize = 0;
        while k < i
            invariant
                self.n == n,
                n < len,
                i <= n,
                j0 < len,
                len == s.len(),
                self.a@.len() == len,
                self.j < len,
                forall|m: int|
                    0 <= m < len ==> (#[trigger] s[circ(j0, m, len as int)] is Some <==> m < n),
                forall|m: int|
                    1 <= m < len ==> circ(self.j as int, m, len as int) == circ(j0, m - 1, len as int),
                k <= i,
                forall|m: int|
                    0 <= m < k ==> #[trigger] self.a@[circ(self.j as int, m, len as int)] == s[circ(
                        j0,
                        m,
                        len as int,
                    )],
                self.a@[circ(self.j as int, k as int, len as int)] is None,
                forall|m: int|
                    k < m < len ==> #[trigger] self.a@[circ(self.j as int, m, len as int)] == s[circ(
                        j0,
                        m - 1,
                        len as int,
                    )],
            decreases i - k,
        {
            let p = wrap(self.j, k, len);
            let q = wrap(self.j, k + 1, len);
            self.a.swap(p, q);
            k = k + 1;
        }
        proof {
            assert forall|m: int| n < m < len implies #[trigger] self.a@[circ(
                self.j as int,
                m,
                len as int,
            )] is None by {
                assert(s[circ(j0, m - 1, len as int)] is None);
            }
        }
    }

    /// Opens a gap at position `i` by moving the elements from `i` on one
    /// slot towards the back.
    fn open_gap_back(&mut self, i: usize)
        requires
            old(self).wf(),
            old(self).n < old(self).a@.len(),
            i <= old(self).n,
        ensures
            final(self).n == old(self).n,
            final(self).a@.len() == old(self).a@.len(),
            final(self).j == old(self).j,
            Self::gapped(
                final(self).a@,
                final(self).j as int,
                old(self).a@,
                old(self).j as int,
                old(self).n as int,
                i as int,
            ),
    {
        let ghost s = self.a@;
        let ghost j0 = self.j as int;
        let ghost n = self.n as int;
        let len = self.a.length();
        let mut k: usize = self.n;
        while k > i
            invariant
                self.n == n,
                n < len,
                i <= k <= n,
                self.j == j0,
                j0 < len,
                len == s.len(),
                self.a@.len() == len,
                forall|m: int|
                    0 <= m < len ==> (#[trigger] s[circ(j0, m, len as int)] is Some <==> m < n),
                forall|m: int|
                    0 <= m < k ==> #[trigger] self.a@[circ(j0, m, len as int)] == s[circ(
                        j0,
                        m,
                        len as int,
                    )],
                self.a@[circ(j0, k as int, len as int)] is None,
                forall|m: int|
                    k < m <= n ==> #[trigger] self.a@[circ(j0, m, len as int)] == s[circ(
                        j0,
                        m - 1,
                        len as int,
                    )],
                forall|m: int|
                    n < m < len ==> #[trigger] self.a@[circ(j0, m, len as int)] == s[circ(
                        j0,
                        m,
                        len as int,
                    )],
            decreases k,
        {
            let p = wrap(self.j, k - 1, len);
            let q = wrap(self.j, k, len);
            self.a.swap(p, q);
            k = k - 1;
        }
    }

    /// Inserts `x` at index `i`. When `i` lies in the front half the
    /// elements before it move one place towards the front, else those from
    /// `i` on move one place towards the back. Past the end (`i > size`)
    /// nothing changes and `x` comes back.
    pub fn add(&mut self, i: usize, x: T) -> (r: Option<T>)
        requires
            old(self).wf(),
            old(self)@.len() < usize::MAX,
        ensures
            final(self).wf(),
            i <= old(self)@.len() ==> r is None && final(self)@ == old(self)@.insert(i as int, x),
            i > old(self)@.len() ==> r == Some(x) && final(self)@ == old(self)@,
            final(self)@ == edited(old(self)@, ListEdit::Add(i, x)),
            final(self).capacity() == if old(self)@.len() + 1 >= old(self).capacity() {
                doubled_spec(old(self)@.len() as int)
            } else {
                old(self).capacity() as int
            },
    {
        if self.n + 1 >= self.a.length() {
            self.resize();
        }
        if i > self.n {
            return Some(x);
        }
        let ghost v = self@;
        let ghost s = self.a@;
        let ghost j0 = self.j as int;
        let ghost n = self.n as int;
        let len = self.a.length();
        if i < self.n / 2 {
            self.open_gap_front(i);
        } else {
            self.open_gap_back(i);
        }
        let p = wrap(self.j, i, len);
        let y = self.a.put(p, Some(x));
        self.n = self.n + 1;
        proof {
            let a = self.a@;
            let j = self.j as int;
            assert forall|m: int| 0 <= m < len implies (#[trigger] a[circ(j, m, len as int)] is Some
                <==> m < self.n) by {
                if m < i {
                    assert(s[circ(j0, m, len as int)] is Some);
                } else if m > i && m <= n {
                    assert(s[circ(j0, m - 1, len as int)] is Some);
                }
            }
        }
        assert(self@ =~= v.insert(i as int, x));
        y
    }

    /// The slots of `a`, read from `j`, hold those of `s` read from `j0`
    /// with position `i` of the first `n` left out and the rest empty.
    spec fn closed_up(a: Seq<Option<T>>, j: int, s: Seq<Option<T>>, j0: int, n: int, i: int) -> bool {
        let len = a.len() as int;
        &&& forall|m: int| 0 <= m < i ==> #[trigger] a[circ(j, m, len)] == s[circ(j0, m, len)]
        &&& forall|m: int| i <= m < n - 1 ==> #[trigger] a[circ(j, m, len)] == s[circ(j0, m + 1, len)]
        &&& forall|m: int| n - 1 <= m < len ==> #[trigger] a[circ(j, m, len)] is None
    }

    /// Takes the element at position `i` and closes the gap by moving the
    /// elements before it one slot towards the back.
    fn close_gap_front(&mut self, i: usize) -> (r: Option<T>)
        requires
            old(self).wf(),
            i < old(self).n,
        ensures
            r == old(self).a@[circ(old(self).j as int, i as int, old(self).a@.len() as int)],
            final(self).n == old(self).n,
            final(self).a@.len() == old(self).a@.len(),
            final(self).j < final(self).a@.len(),
            Self::closed_up(
                final(self).a@,
                final(self).j as int,
                old(self).a@,
                old(self).j as int,
                old(self).n as int,
                i as int,
            ),
    {
        let ghost s = self.a@;
        let ghost j0 = self.j as int;
        let ghost n = self.n as int;
        let len = self.a.length();
        let p = wrap(self.j, i, len);
        let x = self.a.take(p);
        let mut k: usize = i;
        while k > 0
            invariant
                self.n == n,
                n <= len,
                i < n,
                k <= i,
                self.j == j0,
                j0 < len,
                len == s.len(),
                self.a@.len() == len,
                forall|m: int|
                    0 <= m < len ==> (#[trigger] s[circ(j0, m, len as int)] is Some <==> m < n),
                forall|m: int|
                    0 <= m < k ==> #[trigger] self.a@[circ(j0, m, len as int)] == s[circ(
                        j0,
                        m,
                        len as int,
                    )],
                self.a@[circ(j0, k as int, len as int)] is None,
                forall|m: int|
                    k < m <= i ==> #[trigger] self.a@[circ(j0, m, len as int)] == s[circ(
                        j0,
                        m - 1,
                        len as int,
                    )],
                forall|m: int|
                    i < m < len ==> #[trigger] self.a@[circ(j0, m, len as int)] == s[circ(
                        j0,
                        m,
                        len as int,
                    )],
            decreases k,
        {
            let p = wrap(self.j, k - 1, len);
            let q = wrap(self.j, k, len);
            self.a.swap(p, q);
            k = k - 1;
        }
        self.j = wrap(self.j, 1, len);
        proof {
            let a = self.a@;
            let j = self.j as int;
            assert forall|m: int| 0 <= m < len implies #[trigger] a[circ(j, m, len as int)] == if m
                + 1 < len {
                a[circ(j0, m + 1, len as int)]
            } else {
                a[circ(j0, 0, len as int)]
            } by {
                if m + 1 < len {
                    assert(circ(j, m, len as int) == circ(j0, m + 1, len as int));
                } else {
                    assert(circ(j, m, len as int) == circ(j0, 0, len as int));
                }
            }
            assert forall|m: int| n - 1 <= m < len implies #[trigger] a[circ(j, m, len as int)] is None by {
                if m + 1 < len {
                    assert(s[circ(j0, m + 1, len as int)] is None);
                }
            }
        }
        x
    }

    /// Takes the element at position `i` and closes the gap by moving the
    /// elements after it one slot towards the front.
    fn close_gap_back(&mut self, i: usize) -> (r: Option<T>)
        requires
            old(self).wf(),
            i < old(self).n,
        ensures
            r == old(self).a@[circ(old(self).j as int, i as int, old(self).a@.len() as int)],
            final(self).n == old(self).n,
            final(self).a@.len() == old(self).a@.len(),
            final(self).j == old(self).j,
            Self::closed_up(
                final(self).a@,
                final(self).j as int,
                old(self).a@,
                old(self).j as int,
                old(self).n as int,
                i as int,
            ),
    {
        let ghost s = self.a@;
        let ghost j0 = self.j as int;
        let ghost n = self.n as int;
        let len = self.a.length();
        let p = wrap(self.j, i, len);
        let x = self.a.take(p);
        let mut k: usize = i;
        while k + 1 < self.n
            invariant
                self.n == n,
                n <= len,
                i < n,
                i <= k < n,
                self.j == j0,
                j0 < len,
                len == s.len(),
                self.a@.len() == len,
                forall|m: int|
                    0 <= m < len ==> (#[trigger] s[circ(j0, m, len as int)] is Some <==> m < n),
                forall|m: int|
                    0 <= m < i ==> #[trigger] self.a@[circ(j0, m, len as int)] == s[circ(
                        j0,
                        m,
                        len as int,
                    )],
                forall|m: int|
                    i <= m < k ==> #[trigger] self.a@[circ(j0, m, len as int)] == s[circ(
                        j0,
                        m + 1,
                        len as int,
                    )],
                self.a@[circ(j0, k as int, len as int)] is None,
                forall|m: int|
                    k < m < len ==> #[trigger] self.a@[circ(j0, m, len as int)] == s[circ(
                        j0,
                        m,
                        len as int,
                    )],
            decreases n - k,
        {
            let p = wrap(self.j, k, len);
            let q = wrap(self.j, k + 1, len);
            self.a.swap(p, q);
            k = k + 1;
        }
        proof {
            let a = self.a@;
            assert forall|m: int| n - 1 <= m < len implies #[trigger] a[circ(j0, m, len as int)] is None by {
                if m > n - 1 {
                    assert(s[circ(j0, m, len as int)] is None);
                }
            }
        }
        x
    }

    /// Removes and returns the element at index `i`. When `i` lies in the
    /// front half the elements before it move one place towards the back,
    /// else those after it move one place towards the front. `None` when `i`
    /// is past the end.
    pub fn remove(&mut self, i: usize) -> (r: Option<T>)
        requires
            old(self).wf(),
        ensures
            final(self).wf(),
            i < old(self)@.len() ==> r == Some(old(self)@[i as int]) && final(self)@ == old(
                self,
            )@.remove(i as int),
            i >= old(self)@.len() ==> r is None && final(self)@ == old(self)@,
            final(self)@ == edited(old(self)@, ListEdit::Remove(i)),
            final(self).capacity() == if i < old(self)@.len() && 3 * final(self)@.len() < old(self).capacity() {
                doubled_spec(final(self)@.len() as int)
            } else {
                old(self).capacity() as int
            },
    {
        if i >= self.n {
            return None;
        }
        let ghost v = self@;
        let ghost s = self.a@;
        let ghost j0 = self.j as int;
        let ghost n = self.n as int;
        let len = self.a.length();
        let x = if i < self.n / 2 {
            self.close_gap_front(i)
        } else {
            self.close_gap_back(i)
        };
        self.n = self.n - 1;
        proof {
            let a = self.a@;
            let j = self.j as int;
            assert forall|m: int| 0 <= m < len implies (#[trigger] a[circ(j, m, len as int)] is Some
                <==> m < self.n) by {
                if m < i {
                    assert(s[circ(j0, m, len as int)] is Some);
                } else if m < n - 1 {
                    assert(s[circ(j0, m + 1, len as int)] is Some);
                }
            }
        }
        assert(self@ =~= v.remove(i as int));
        // shrink once three times the size falls below the capacity
        if self.n <= (len - 1) / 3 {
            self.resize();
        }
        x
    }

    /// Inserts `x` at the front.
    pub fn add_front(&mut self, x: T) -> (r: Option<T>)
        requires
            old(self).wf(),
            old(self)@.len() < usize::MAX,
        ensures
            final(self).wf(),
            final(self)@ == seq![x] + old(self)@,
            r is None,
    {
        let r = self.add(0, x);
        assert(old(self)@.insert(0, x) =~= seq![x] + old(self)@);
        r
    }

    /// Removes and returns the front element; `None` when empty.
    pub fn remove_front(&mut self) -> (r: Option<T>)
        requires
            old(self).wf(),
        ensures
            final(self).wf(),
            old(self)@.len() == 0 ==> r is None && final(self)@ == old(self)@,
            old(self)@.len() > 0 ==> r == Some(old(self)@[0]) && final(self)@ == old(self)@.skip(1),
    {
        let r = self.remove(0);
        assert(old(self)@.len() > 0 ==> old(self)@.remove(0) =~= old(self)@.skip(1));
        r
    }

    /// Inserts `x` at the back.
    pub fn add_back(&mut self, x: T) -> (r: Option<T>)
        requires
            old(self).wf(),
            old(self)@.len() < usize::MAX,
        ensures
            final(self).wf(),
            final(self)@ == old(self)@.push(x),
            r is None,
    {
        let n = self.n;
        let r = self.add(n, x);
        assert(old(self)@.insert(n as int, x) =~= old(self)@.push(x));
        r
    }

    /// Removes and returns the back element; `None` when empty.
    pub fn remove_back(&mut self) -> (r: Option<T>)
        requires
            old(self).wf(),
        ensures
            final(self).wf(),
            old(self)@.len() == 0 ==> r is None && final(self)@ == old(self)@,
            old(self)@.len() > 0 ==> r == Some(old(self)@.last()) && final(self)@ == old(
                self,
            )@.drop_last(),
    {
        if self.n == 0 {
            None
        } else {
            let i = self.n - 1;
            let r = self.remove(i);
            assert(old(self)@.remove(i as int) =~= old(self)@.drop_last());
            r
        }
    }
}

} // verus!
