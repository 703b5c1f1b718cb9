use vstd::prelude::*;

use crate::laws::{edited, ListEdit};

use crate::{doubled, doubled_spec, Array};

verus! {

/// A list backed by one slot array that doubles when full and halves when
/// two thirds of it stand empty.
pub struct ArrayStack<T> {
    pub(crate) a: Array<T>,
    pub(crate) n: usize,
}

impl<T> View for ArrayStack<T> {
    type V = Seq<T>;

    /// The elements in order: the contents of the first `n` slots.
    open(crate) spec fn view(&self) -> Seq<T> {
        Seq::new(self.n as nat, |k: int| self.a@[k]->0)
    }
}

impl<T> ArrayStack<T> {
    /// The first `n` slots are occupied and every other slot is empty.
    pub open(crate) spec fn wf(&self) -> bool {
        &&& self.n <= self.a@.len()
        &&& forall|k: int| 0 <= k < self.a@.len() ==> (#[trigger] self.a@[k] is Some <==> k < self.n)
    }

    /// Number of slots in the backing array.
    pub open(crate) spec fn capacity(&self) -> nat {
        self.a@.len()
    }

    pub fn with_capacity(len: usize) -> (r: Self)
        ensures
            r.wf(),
            r@ == Seq::<T>::empty(),
            r.capacity() == len,
    {
        let a = Array::with_capacity(len);
        let r = Self { a, n: 0 };
        assert(r@ =~= Seq::<T>::empty());
        r
    }

    /// Moves the elements into a fresh array of `doubled_spec(n)` slots.
    pub(crate) fn resize(&mut self)
        requires
            old(self).wf(),
        ensures
            final(self).wf(),
            final(self)@ == old(self)@,
            final(self).capacity() == doubled_spec(old(self).n as int),
    {
        let cap = doubled(self.n);
        self.resize_to(cap);
    }

    /// Moves the elements into a fresh array of `cap` slots.
    fn resize_to(&mut self, cap: usize)
        requires
            old(self).wf(),
            old(self).n <= cap,
        ensures
            final(self).wf(),
            final(self)@ == old(self)@,
            final(self).capacity() == cap,
    {
        let ghost s = self.a@;
        let ghost n = self.n;
        let mut new_a = Array::with_capacity(cap);
        let mut k: usize = 0;
        while k < self.n
            invariant
                self.n == n,
                n <= s.len(),
                forall|m: int| 0 <= m < s.len() ==> (#[trigger] s[m] is Some <==> m < n),
                self.n <= cap,
                k <= self.n,
                self.a@.len() == s.len(),
                new_a@.len() == cap,
                forall|m: int| 0 <= m < k ==> #[trigger] new_a@[m] == s[m],
                forall|m: int| k <= m < cap ==> #[trigger] new_a@[m] is None,
                forall|m: int| k <= m < s.len() ==> #[trigger] self.a@[m] == s[m],
            decreases self.n - k,
        {
            let x = self.a.take(k);
            new_a.put(k, x);
            k = k + 1;
        }
        proof {
            assert forall|m: int| 0 <= m < cap implies (#[trigger] new_a@[m] is Some <==> m < self.n) by {
                if m < self.n {
                    assert(s[m] is Some);
                }
            }
        }
        self.a = new_a;
        assert(self@ =~= Seq::new(self.n as nat, |k: int| s[k]->0));
    }

    /// Inserts the elements of `xs`, in their order, at index `i`, moving
    /// the elements from `i` on `xs.len()` places up.
    pub fn add_all(&mut self, i: usize, xs: Vec<T>)
        requires
            old(self).wf(),
            i <= old(self)@.len(),
            old(self)@.len() + xs@.len() < usize::MAX,
        ensures
            final(self).wf(),
            final(self)@ == old(self)@.take(i as int) + xs@ + old(self)@.skip(i as int),
            final(self).capacity() == if old(self)@.len() + xs@.len() > old(self).capacity() {
                doubled_spec((old(self)@.len() + xs@.len()) as int)
            } else {
                old(self).capacity() as int
            },
    {
        let mut xs = xs;
        let ghost xs0 = xs@;
        let added = xs.len();
        if self.n + added > self.a.length() {
            let cap = doubled(self.n + added);
            self.resize_to(cap);
        }
        let ghost v = self@;
        let ghost s = self.a@;
        let ghost n = self.n;
        let mut k: usize = self.n;
        while k > i
            invariant
                self.n == n,
                n + added <= s.len(),
                n + added < usize::MAX,
                xs@ == xs0,
                added == xs0.len(),
                v == Seq::new(n as nat, |m: int| s[m]->0),
                forall|m: int| 0 <= m < s.len() ==> (#[trigger] s[m] is Some <==> m < n),
                i <= k <= n,
                self.a@.len() == s.len(),
                forall|m: int| 0 <= m < k ==> #[trigger] self.a@[m] == s[m],
                forall|m: int| k <= m < k + added ==> #[trigger] self.a@[m] is None,
                forall|m: int| k + added <= m < n + added ==> #[trigger] self.a@[m] == s[m - added],
                forall|m: int| n + added <= m < s.len() ==> #[trigger] self.a@[m] == s[m],
            decreases k,
        {
            self.a.swap(k - 1, k - 1 + added);
            k = k - 1;
        }
        while xs.len() > 0
            invariant
                self.n == n,
                i <= n,
                n + added <= s.len(),
                n + added < usize::MAX,
                xs0.len() == added,
                xs@.len() <= added,
                xs@ == xs0.take(xs@.len() as int),
                self.a@.len() == s.len(),
                forall|m: int| 0 <= m < i ==> #[trigger] self.a@[m] == s[m],
                forall|m: int| i <= m < i + xs@.len() ==> #[trigger] self.a@[m] is None,
                forall|m: int|
                    i + xs@.len() <= m < i + added ==> #[trigger] self.a@[m] == Some(xs0[m - i]),
                forall|m: int| i + added <= m < n + added ==> #[trigger] self.a@[m] == s[m - added],
                forall|m: int| n + added <= m < s.len() ==> #[trigger] self.a@[m] == s[m],
            decreases xs@.len(),
        {
            let x = xs.pop();
            let p = i + xs.len();
            self.a.put(p, x);
        }
        self.n = self.n + added;
        assert(self@ =~= v.take(i as int) + xs0 + v.skip(i as int));
    }

    /// Number of elements.
    pub fn size(&self) -> (r: usize)
        requires
            self.wf(),
        ensures
            r == self@.len(),
    {
        self.n
    }

    /// The element at index `i`, or `None` when `i` is past the end.
    pub fn get(&self, i: usize) -> (r: Option<&T>)
        requires
            self.wf(),
        ensures
            i < self@.len() ==> r == Some(&self@[i as int]),
            i >= self@.len() ==> r is None,
    {
        if i < self.n {
            self.a.slot(i).as_ref()
        } else {
            None
        }
    }

    /// Replaces the element at index `i` by `x` and returns the one it held.
    /// Past the end nothing changes and `x` comes back.
    pub fn set(&mut self, i: usize, x: T) -> (r: Option<T>)
        requires
            old(self).wf(),
        ensures
            final(self).wf(),
            i < old(self)@.len() ==> r == Some(old(self)@[i as int]) && final(self)@ == old(
                self,
            )@.update(i as int, x),
            i >= old(self)@.len() ==> r == Some(x) && final(self)@ == old(self)@,
            final(self).capacity() == old(self).capacity(),
    {
        if i < self.n {
            let ghost s = self@;
            let r = self.a.put(i, Some(x));
            assert(self@ =~= s.update(i as int, x));
            r
        } else {
            Some(x)
        }
    }

    /// Inserts `x` at index `i`, moving the elements from `i` on one place
    /// up. Past the end (`i > size`) nothing changes and `x` comes back.
    pub fn add(&mut self, i: usize, x: T) -> (r: Option<T>)
        requires
            old(self).wf(),
            old(self)@.len() < usize::MAX,
        ensures
            final(self).wf(),
            i <= old(self)@.len() ==> r is None && final(self)@ == old(self)@.insert(i as int, x),
            i > old(self)@.len() ==> r == Some(x) && final(self)@ == old(self)@,
            final(self)@ == edited(old(self)@, ListEdit::Add(i, x)),
            final(self).capacity() == if old(self)@.len() + 1 > old(self).capacity() {
                doubled_spec(old(self)@.len() as int)
            } else {
                old(self).capacity() as int
            },
    {
        if self.n + 1 > self.a.length() {
            self.resize();
        }
        if i <= self.n {
            let ghost v = self@;
            let ghost s = self.a@;
            let ghost n = self.n;
            let mut k: usize = self.n;
            while k > i
                invariant
                    self.n == n,
                    n < s.len(),
                    v == Seq::new(n as nat, |m: int| s[m]->0),
                    forall|m: int| 0 <= m < s.len() ==> (#[trigger] s[m] is Some <==> m < n),
                    i <= k <= n,
                    self.a@.len() == s.len(),
                    self.a@[k as int] is None,
                    forall|m: int| 0 <= m < k ==> #[trigger] self.a@[m] == s[m],
                    forall|m: int| k < m <= n ==> #[trigger] self.a@[m] == s[m - 1],
                    forall|m: int| n < m < s.len() ==> #[trigger] self.a@[m] == s[m],
                decreases k,
            {
                self.a.swap(k - 1, k);
                k = k - 1;
            }
            let y = self.a.put(i, Some(x));
            self.n = self.n + 1;
            assert(self@ =~= v.insert(i as int, x));
            y
        } else {
            Some(x)
        }
    }

    /// Removes and returns the element at index `i`, moving the elements
    /// after it one place down; `None` when `i` is past the end.
    pub fn remove(&mut self, i: usize) -> (r: Option<T>)
        requires
            old(self).wf(),
        ensures
            final(self).wf(),
            i < old(self)@.len() ==> r == Some(old(self)@[i as int]) && final(self)@ == old(
                self,
            )@.remove(i as int),
            i >= old(self)@.len() ==> r is None && final(self)@ == old(self)@,
            final(self)@ == edited(old(self)@, ListEdit::Remove(i)),
            final(self).capacity() == if i < old(self)@.len() && 3 * final(self)@.len()
                <= old(self).capacity() {
                doubled_spec(final(self)@.len() as int)
            } else {
                old(self).capacity() as int
            },
    {
        if i < self.n {
            let ghost v = self@;
            let ghost s = self.a@;
            let ghost n = self.n;
            let x = self.a.take(i);
            let mut k: usize = i;
            while k + 1 < self.n
                invariant
                    self.n == n,
                    n <= s.len(),
                    i < n,
                    v == Seq::new(n as nat, |m: int| s[m]->0),
                    forall|m: int| 0 <= m < s.len() ==> (#[trigger] s[m] is Some <==> m < n),
                    i <= k < n,
                    self.a@.len() == s.len(),
                    self.a@[k as int] is None,
                    forall|m: int| 0 <= m < i ==> #[trigger] self.a@[m] == s[m],
                    forall|m: int| i <= m < k ==> #[trigger] self.a@[m] == s[m + 1],
                    forall|m: int| k < m < s.len() ==> #[trigger] self.a@[m] == s[m],
                decreases n - k,
            {
                self.a.swap(k, k + 1);
                k = k + 1;
            }
            self.n = self.n - 1;
            assert(self@ =~= v.remove(i as int));
            if self.n <= self.a.length() / 3 {
                self.resize();
            }
            x
        } else {
            None
        }
    }

    /// Appends `x` at the end.
    pub fn push(&mut self, x: T)
        requires
            old(self).wf(),
            old(self)@.len() < usize::MAX,
        ensures
            final(self).wf(),
            final(self)@ == old(self)@.push(x),
    {
        let n = self.n;
        self.add(n, x);
        assert(old(self)@.insert(n as int, x) =~= old(self)@.push(x));
    }

    /// Removes and returns the last element; `None` when empty.
    pub fn pop(&mut self) -> (r: Option<T>)
        requires
            old(self).wf(),
        ensures
            final(self).wf(),
            old(self)@.len() == 0 ==> r is None && final(self)@ == old(self)@,
            old(self)@.len() > 0 ==> r == Some(old(self)@.last()) && final(self)@ == old(
                self,
            )@.drop_last(),
    {
        if self.n == 0 {
            None
        } else {
            let i = self.n - 1;
            let r = self.remove(i);
            assert(old(self)@.remove(i as int) =~= old(self)@.drop_last());
            r
        }
    }
}

} // verus!
