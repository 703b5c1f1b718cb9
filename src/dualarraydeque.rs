use vstd::prelude::*;

use crate::laws::{edited, ListEdit};

use crate::arraystack::ArrayStack;
use crate::{doubled, Array};

verus! {

/// A list made of two stacks that meet in the middle: `front` holds the
/// first elements in reverse order, `back` holds the rest in order.
pub struct DualArrayDeque<T> {
    front: ArrayStack<T>,
    back: ArrayStack<T>,
}

/// Neither side holds more than three times the other, but for a single
/// element, which sits alone in the back stack.
pub open spec fn balanced(f: int, b: int) -> bool {
    (b <= 3 * f && f <= 3 * b) || (f == 0 && b == 1)
}

impl<T> View for DualArrayDeque<T> {
    type V = Seq<T>;

    closed spec fn view(&self) -> Seq<T> {
        self.front@.reverse() + self.back@
    }
}

impl<T> DualArrayDeque<T> {
    /// Both stacks are well formed, their sizes are balanced and their sum
    /// fits a `usize`.
    pub closed spec fn wf(&self) -> bool {
        &&& self.front.wf()
        &&& self.back.wf()
        &&& self.front@.len() + self.back@.len() <= usize::MAX
        &&& balanced(self.front@.len() as int, self.back@.len() as int)
    }

    /// Number of elements in the front stack.
    pub closed spec fn front_size(&self) -> nat {
        self.front@.len()
    }

    /// Number of elements in the back stack.
    pub closed spec fn back_size(&self) -> nat {
        self.back@.len()
    }

    /// After every operation, that is after `balance`, the two stacks differ
    /// in size by at most half the length (rounded up), and unless the list
    /// holds a single element neither is more than three times the other.
    pub proof fn lemma_rebalance_bound(&self)
        requires
            self.wf(),
        ensures
            ({
                let f = self.front_size() as int;
                let b = self.back_size() as int;
                let n = self@.len() as int;
                &&& f - b <= (n + 1) / 2
                &&& b - f <= (n + 1) / 2
                &&& n != 1 ==> !(3 * f < b) && !(3 * b < f)
            }),
    {
    }

    pub fn with_capacity(len: usize) -> (r: Self)
        ensures
            r.wf(),
            r@ == Seq::<T>::empty(),
    {
        let n_front = len / 2;
        let n_back = len - n_front;
        let r = DualArrayDeque {
            front: ArrayStack::with_capacity(n_front),
            back: ArrayStack::with_capacity(n_back),
        };
        assert(r@ =~= Seq::<T>::empty());
        r
    }

    /// Number of elements in the front stack.
    pub fn front_len(&self) -> (r: usize)
        requires
            self.wf(),
        ensures
            r == self.front_size(),
    {
        self.front.size()
    }

    /// Number of elements in the back stack.
    pub fn back_len(&self) -> (r: usize)
        requires
            self.wf(),
        ensures
            r == self.back_size(),
    {
        self.back.size()
    }

    /// Number of elements.
    pub fn size(&self) -> (r: usize)
        requires
            self.wf(),
        ensures
            r == self@.len(),
    {
        self.front.size() + self.back.size()
    }

    /// The element at index `i`, or `None` when `i` is past the end.
    pub fn get(&self, i: usize) -> (r: Option<&T>)
        requires
            self.wf(),
        ensures
            i < self@.len() ==> r == Some(&self@[i as int]),
            i >= self@.len() ==> r is None,
    {
        if i < self.size() {
            let front_size = self.front.size();
            if i < front_size {
                self.front.get(front_size - i - 1)
            } else {
                self.back.get(i - front_size)
            }
        } else {
            None
        }
    }

    /// Replaces the element at index `i` by `x` and returns the one it held.
    /// Past the end nothing changes and `x` comes back.
    pub fn set(&mut self, i: usize, x: T) -> (r: Option<T>)
        requires
            old(self).wf(),
        ensures
            final(self).wf(),
            i < old(self)@.len() ==> r == Some(old(self)@[i as int]) && final(self)@ == old(
                self,
            )@.update(i as int, x),
            i >= old(self)@.len() ==> r == Some(x) && final(self)@ == old(self)@,
    {
        if i < self.size() {
            let front_size = self.front.size();
            let r = if i < front_size {
                self.front.set(front_size - i - 1, x)
            } else {
                self.back.set(i - front_size, x)
            };
            assert(self@ =~= old(self)@.update(i as int, x));
            r
        } else {
            Some(x)
        }
    }

    /// The slot that holds the element at position `m`, given the sizes of
    /// the two stacks.
    spec fn slot_of(&self, m: int) -> Option<T> {
        let f = self.front.n as int;
        if m < f {
            self.front.a@[f - 1 - m]
        } else {
            self.back.a@[m - f]
        }
    }

    /// When one side holds more than three times the other, moves every
    /// element into two fresh stacks that split the list evenly.
    fn balance(&mut self)
        requires
            old(self).front.wf(),
            old(self).back.wf(),
            old(self).front@.len() + old(self).back@.len() <= usize::MAX,
        ensures
            final(self).wf(),
            final(self)@ == old(self)@,
            ({
                let f = old(self).front@.len() as int;
                let b = old(self).back@.len() as int;
                let n = f + b;
                if 3 * f < b || 3 * b < f {
                    final(self).front_size() == n / 2 && final(self).back_size() == n - n / 2
                } else {
                    final(self).front_size() == f && final(self).back_size() == b
                }
            }),
    {
        let f = self.front.size();
        let b = self.back.size();
        let back_too_big = f < b && b - f > 2 * f;
        let front_too_big = b < f && f - b > 2 * b;
        if back_too_big || front_too_big {
            let ghost v = self@;
            let n = f + b;
            let n_front = n / 2;
            let n_back = n - n_front;
            let mut new_front = Array::with_capacity(doubled(n_front));
            let mut new_back = Array::with_capacity(doubled(n_back));
            proof {
                assert forall|m: int| 0 <= m < n implies #[trigger] self.slot_of(m) == Some(v[m]) by {
                    if m < f {
                        assert(self.front.a@[f - 1 - m] is Some);
                    } else {
                        assert(self.back.a@[m - f] is Some);
                    }
                }
            }
            let mut i: usize = 0;
            while i < n
                invariant
                    n == f + b,
                    v.len() == n,
                    n_front == n / 2,
                    n_back == n - n_front,
                    self.front.n == f,
                    self.back.n == b,
                    f <= self.front.a@.len(),
                    b <= self.back.a@.len(),
                    n_front <= new_front@.len(),
                    n_back <= new_back@.len(),
                    i <= n,
                    forall|m: int| i <= m < n ==> #[trigger] self.slot_of(m) == Some(v[m]),
                    forall|k: int|
                        0 <= k < new_front@.len() ==> #[trigger] new_front@[k] == if n_front - 1 - k < i
                            && k < n_front {
                            Some(v[n_front - 1 - k])
                        } else {
                            None
                        },
                    forall|k: int|
                        0 <= k < new_back@.len() ==> #[trigger] new_back@[k] == if n_front + k < i && k
                            < n_back {
                            Some(v[n_front + k])
                        } else {
                            None
                        },
                decreases n - i,
            {
                let ghost fa = self.front.a@;
                let ghost ba = self.back.a@;
                assert(self.slot_of(i as int) == Some(v[i as int]));
                assert forall|m: int| i <= m < n implies (if m < f {
                    fa[f - 1 - m]
                } else {
                    ba[m - f]
                }) == Some(v[m]) by {
                    assert(self.slot_of(m) == Some(v[m]));
                }
                let x = if i < f {
                    self.front.a.take(f - 1 - i)
                } else {
                    self.back.a.take(i - f)
                };
                assert(x == Some(v[i as int]));
                proof {
                    assert forall|m: int| i < m < n implies #[trigger] self.slot_of(m) == Some(v[m]) by {
                        if m < f {
                            assert(self.front.a@[f - 1 - m] == fa[f - 1 - m]);
                        } else {
                            assert(self.back.a@[m - f] == ba[m - f]);
                        }
                    }
                }
                if i < n_front {
                    new_front.put(n_front - 1 - i, x);
                } else {
                    new_back.put(i - n_front, x);
                }
                i = i + 1;
            }
            self.front.a = new_front;
            self.front.n = n_front;
            self.back.a = new_back;
            self.back.n = n_back;
            assert(self@ =~= v);
        }
    }

    /// Inserts `x` at index `i`, then rebalances. Past the end (`i > size`)
    /// nothing changes and `x` comes back.
    pub fn add(&mut self, i: usize, x: T) -> (r: Option<T>)
        requires
            old(self).wf(),
            old(self)@.len() < usize::MAX,
        ensures
            final(self).wf(),
            i <= old(self)@.len() ==> r is None && final(self)@ == old(self)@.insert(i as int, x),
            i > old(self)@.len() ==> r == Some(x) && final(self)@ == old(self)@,
            final(self)@ == edited(old(self)@, ListEdit::Add(i, x)),
    {
        if i > self.size() {
            return Some(x);
        }
        let ghost v = self@;
        let front_size = self.front.size();
        let y = if i < front_size {
            self.front.add(front_size - i, x)
        } else {
            self.back.add(i - front_size, x)
        };
        assert(self@ =~= v.insert(i as int, x));
        self.balance();
        y
    }

    /// Removes and returns the element at index `i`, then rebalances;
    /// `None` when `i` is past the end.
    pub fn remove(&mut self, i: usize) -> (r: Option<T>)
        requires
            old(self).wf(),
        ensures
            final(self).wf(),
            i < old(self)@.len() ==> r == Some(old(self)@[i as int]) && final(self)@ == old(
                self,
            )@.remove(i as int),
            i >= old(self)@.len() ==> r is None && final(self)@ == old(self)@,
            final(self)@ == edited(old(self)@, ListEdit::Remove(i)),
    {
        if i >= self.size() {
            return None;
        }
        let ghost v = self@;
        let front_size = self.front.size();
        let x = if i < front_size {
            self.front.remove(front_size - i - 1)
        } else {
            self.back.remove(i - front_size)
        };
        assert(self@ =~= v.remove(i as int));
        self.balance();
        x
    }
}

} // verus!
