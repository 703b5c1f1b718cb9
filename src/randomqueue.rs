use vstd::prelude::*;

use crate::arraystack::ArrayStack;

verus! {

/// Relies on `fastrand::usize`: a number drawn from `0..n`, which it
/// requires to be non-empty.
#[verifier::external_body]
fn random_index(n: usize) -> (r: usize)
    requires
        0 < n,
    ensures
        r < n,
{
    fastrand::usize(0..n)
}

/// A bag whose removal takes an element chosen uniformly at random.
pub struct RandomQueue<T> {
    queue: ArrayStack<T>,
}

impl<T> View for RandomQueue<T> {
    type V = Seq<T>;

    /// The elements in the order in which they are stored.
    closed spec fn view(&self) -> Seq<T> {
        self.queue@
    }
}

impl<T> RandomQueue<T> {
    pub closed spec fn wf(&self) -> bool {
        self.queue.wf()
    }

    pub fn with_capacity(len: usize) -> (r: Self)
        ensures
            r.wf(),
            r@ == Seq::<T>::empty(),
    {
        Self { queue: ArrayStack::with_capacity(len) }
    }

    /// Number of elements.
    pub fn size(&self) -> (r: usize)
        requires
            self.wf(),
        ensures
            r == self@.len(),
    {
        self.queue.size()
    }

    /// Adds `x`. Nothing is displaced, so `None` comes back.
    pub fn add(&mut self, x: T) -> (r: Option<T>)
        requires
            old(self).wf(),
            old(self)@.len() < usize::MAX,
        ensures
            final(self).wf(),
            final(self)@ == old(self)@.push(x),
            r is None,
    {
        self.queue.push(x);
        None
    }

    /// Removes and returns the element stored at `i`, moving the last
    /// element into its place; `None` when `i` is past the end.
    pub fn remove_at(&mut self, i: usize) -> (r: Option<T>)
        requires
            old(self).wf(),
        ensures
            final(self).wf(),
            i < old(self)@.len() ==> r == Some(old(self)@[i as int]) && final(self)@ == old(
                self,
            )@.update(i as int, old(self)@.last()).drop_last(),
            i >= old(self)@.len() ==> r is None && final(self)@ == old(self)@,
    {
        let n = self.queue.n;
        if i >= n {
            return None;
        }
        let ghost v = self@;
        let x = self.queue.a.take(i);
        let last_idx = n - 1;
        if i != last_idx {
            self.queue.a.swap(i, last_idx);
        }
        self.queue.n = last_idx;
        assert(self@ =~= v.update(i as int, v.last()).drop_last());
        if self.queue.n <= self.queue.a.length() / 3 {
            self.queue.resize();
        }
        x
    }

    /// Removes and returns an element chosen uniformly at random; `None`
    /// when empty. Which element leaves is up to chance: whichever it is,
    /// the last element takes its place.
    pub fn remove(&mut self) -> (r: Option<T>)
        requires
            old(self).wf(),
        ensures
            final(self).wf(),
            old(self)@.len() == 0 ==> r is None && final(self)@ == old(self)@,
            old(self)@.len() > 0 ==> exists|i: int|
                0 <= i < old(self)@.len() && r == Some(old(self)@[i]) && final(self)@ == old(
                    self,
                )@.update(i, old(self)@.last()).drop_last(),
    {
        let n = self.queue.size();
        if n == 0 {
            return None;
        }
        let i = random_index(n);
        let r = self.remove_at(i);
        assert(0 <= i < old(self)@.len());
        r
    }
}

} // verus!
