use vstd::prelude::*;

use crate::laws::{edited, ListEdit};

use crate::arraystack::ArrayStack;
use crate::Array;

verus! {

/// The `b`-th triangular number: how many slots blocks `0..b` hold together.
pub open spec fn tri(b: int) -> int {
    b * (b + 1) / 2
}

/// One more block of `b + 1` slots.
pub proof fn lemma_tri_succ(b: int)
    ensures
        tri(b + 1) == tri(b) + b + 1,
{
    assert((b + 1) * (b + 2) == b * (b + 1) + 2 * (b + 1)) by (nonlinear_arith);
}

/// Triangular numbers grow with their argument, at least as fast as it.
pub proof fn lemma_tri_mono(a: int, b: int)
    requires
        0 <= a <= b,
    ensures
        tri(a) <= tri(b),
        a < b ==> tri(a + 1) <= tri(b),
        a <= tri(a),
    decreases b - a,
{
    lemma_tri_succ(a);
    if a < b {
        lemma_tri_mono(a + 1, b);
    }
    assert(a * (a + 1) >= 2 * a) by (nonlinear_arith)
        requires
            a >= 0,
    ;
}

/// `b` is the block that holds position `i`.
pub open spec fn in_block(i: int, b: int) -> bool {
    0 <= b && tri(b) <= i < tri(b + 1)
}

/// Every position lies in exactly one block.
pub proof fn lemma_block_unique(i: int, b1: int, b2: int)
    requires
        in_block(i, b1),
        in_block(i, b2),
    ensures
        b1 == b2,
{
    if b1 < b2 {
        lemma_tri_mono(b1, b2);
    } else if b2 < b1 {
        lemma_tri_mono(b2, b1);
    }
}

/// Every position lies in some block.
pub proof fn lemma_block_exists(i: int)
    requires
        0 <= i,
    ensures
        exists|b: int| #[trigger] in_block(i, b),
    decreases i,
{
    if i == 0 {
        assert(in_block(0, 0));
    } else {
        lemma_block_exists(i - 1);
        let b = choose|b: int| #[trigger] in_block(i - 1, b);
        lemma_tri_succ(b);
        lemma_tri_succ(b + 1);
        if i < tri(b + 1) {
            assert(in_block(i, b));
        } else {
            assert(in_block(i, b + 1));
        }
    }
}

/// The block that holds position `i`.
pub open spec fn block_of(i: int) -> int {
    choose|b: int| #[trigger] in_block(i, b)
}

/// `block_of` picks the one block of a position.
pub proof fn lemma_block_of(i: int, b: int)
    requires
        0 <= i,
    ensures
        in_block(i, block_of(i)),
        in_block(i, b) ==> block_of(i) == b,
{
    lemma_block_exists(i);
    if in_block(i, b) {
        lemma_block_unique(i, b, block_of(i));
    }
}

/// A position below `tri(r)` lies in one of the first `r` blocks.
pub proof fn lemma_block_below(i: int, r: int)
    requires
        0 <= i < tri(r),
        0 <= r,
    ensures
        block_of(i) < r,
{
    lemma_block_of(i, 0);
    if block_of(i) >= r {
        lemma_tri_mono(r, block_of(i));
    }
}

/// `tri(b)` computed without overflow.
fn tri_exec(b: u128) -> (r: u128)
    requires
        b <= u64::MAX,
    ensures
        r == tri(b as int),
{
    assert(b * (b + 1) <= u64::MAX * (u64::MAX + 1)) by (nonlinear_arith)
        requires
            b <= u64::MAX,
    ;
    b * (b + 1) / 2
}

/// A list stored in blocks of sizes 1, 2, 3, ...: block `b` holds the
/// positions from `tri(b)` on, so at most one block's worth of slots (about
/// the square root of the size) stands empty.
pub struct RootishArrayStack<T> {
    blocks: ArrayStack<Array<T>>,
    n: usize,
}

impl<T> View for RootishArrayStack<T> {
    type V = Seq<T>;

    closed spec fn view(&self) -> Seq<T> {
        Seq::new(self.n as nat, |m: int| self.cell(m)->0)
    }
}

impl<T> RootishArrayStack<T> {
    /// The slot that holds position `m`.
    closed spec fn cell(&self, m: int) -> Option<T> {
        self.blocks@[block_of(m)]@[m - tri(block_of(m))]
    }

    /// Number of blocks.
    pub closed spec fn block_count(&self) -> nat {
        self.blocks@.len()
    }

    /// Block `r` has `r + 1` slots.
    closed spec fn shaped(&self) -> bool {
        &&& self.blocks.wf()
        &&& forall|r: int| 0 <= r < self.blocks@.len() ==> (#[trigger] self.blocks@[r])@.len() == r + 1
    }

    /// The blocks are shaped, they hold the first `n` positions and no
    /// other, and dropping the last block would leave too little room.
    pub closed spec fn wf(&self) -> bool {
        let r = self.blocks@.len() as int;
        &&& self.shaped()
        &&& self.n <= tri(r)
        &&& r > 0 ==> tri(r - 1) < self.n
        &&& forall|m: int| 0 <= m < tri(r) ==> (#[trigger] self.cell(m) is Some <==> m < self.n)
    }

    /// The blocks hold room for all `n` elements and waste fewer slots than
    /// there are blocks: `n <= R(R+1)/2 < n + R` for `R` blocks, whenever
    /// the list is not empty.
    pub proof fn lemma_space_bound(&self)
        requires
            self.wf(),
            self@.len() > 0,
        ensures
            self@.len() <= tri(self.block_count() as int) < self@.len() + self.block_count(),
    {
        let r = self.blocks@.len() as int;
        assert(tri(0) == 0);
        assert(r > 0);
        lemma_tri_succ(r - 1);
    }

    pub fn with_capacity() -> (r: Self)
        ensures
            r.wf(),
            r@ == Seq::<T>::empty(),
            r.block_count() == 0,
    {
        let r = Self { blocks: ArrayStack::with_capacity(0), n: 0 };
        assert(tri(0) == 0);
        assert(r@ =~= Seq::<T>::empty());
        r
    }

    /// The block that holds position `i`, found by a binary search over the
    /// triangular numbers.
    fn i2b(i: usize) -> (b: usize)
        ensures
            in_block(i as int, b as int),
    {
        let target = i as u128;
        let mut lo: u128 = 0;
        let mut hi: u128 = target + 1;
        proof {
            lemma_tri_succ(hi as int);
            lemma_tri_mono(hi as int, hi as int);
        }
        while lo + 1 < hi
            invariant
                lo < hi <= target + 1,
                target <= u64::MAX,
                tri(lo as int) <= target < tri(hi as int),
            decreases hi - lo,
        {
            let mid = lo + (hi - lo) / 2;
            if tri_exec(mid) <= target {
                lo = mid;
            } else {
                hi = mid;
            }
        }
        lo as usize
    }

    /// The block that holds position `i`, and the slot within it.
    fn i2bj(i: usize) -> (r: (usize, usize))
        ensures
            r.0 == block_of(i as int),
            r.1 == i - tri(r.0 as int),
    {
        let b = Self::i2b(i);
        proof {
            lemma_block_of(i as int, b as int);
            lemma_tri_mono(b as int, b as int);
        }
        let t = tri_exec(b as u128) as usize;
        (b, i - t)
    }

    /// Stores `v` in the slot of position `i` and hands back what it held.
    fn replace_at(&mut self, i: usize, v: Option<T>) -> (r: Option<T>)
        requires
            old(self).shaped(),
            i < tri(old(self).blocks@.len() as int),
        ensures
            final(self).shaped(),
            final(self).blocks@.len() == old(self).blocks@.len(),
            final(self).n == old(self).n,
            r == old(self).cell(i as int),
            forall|m: int|
                0 <= m < tri(old(self).blocks@.len() as int) ==> #[trigger] final(self).cell(m) == if m
                    == i {
                    v
                } else {
                    old(self).cell(m)
                },
    {
        let ghost bs = self.blocks@;
        let ghost rr = self.blocks@.len() as int;
        let (b, j) = Self::i2bj(i);
        proof {
            lemma_block_below(i as int, rr);
            lemma_block_of(i as int, b as int);
        }
        let old_blk = self.blocks.set(b, Array::with_capacity(0));
        match old_blk {
            Some(mut blk) => {
                proof {
                    lemma_tri_succ(b as int);
                    assert(bs[b as int]@.len() == b + 1);
                }
                let x = blk.put(j, v);
                let ghost g = blk@;
                self.blocks.set(b, blk);
                proof {
                    let nb = self.blocks@;
                    assert forall|m: int| 0 <= m < tri(rr) implies #[trigger] self.cell(m) == if m
                        == i {
                        v
                    } else {
                        bs[block_of(m)]@[m - tri(block_of(m))]
                    } by {
                        lemma_block_below(m, rr);
                        lemma_block_of(m, b as int);
                        let bm = block_of(m);
                        if bm == b {
                            assert(nb[bm]@ == g);
                        } else {
                            assert(nb[bm] == bs[bm]);
                        }
                    }
                }
                x
            },
            None => None,
        }
    }

    /// Total number of slots over all blocks.
    fn max_size(&self) -> (r: u128)
        requires
            self.shaped(),
        ensures
            r == tri(self.blocks@.len() as int),
    {
        let r = self.blocks.size();
        tri_exec(r as u128)
    }

    /// Appends one block, one slot longer than the last.
    fn grow(&mut self)
        requires
            old(self).shaped(),
            old(self).blocks@.len() < usize::MAX,
        ensures
            final(self).shaped(),
            final(self).n == old(self).n,
            final(self).blocks@.len() == old(self).blocks@.len() + 1,
            forall|m: int|
                0 <= m < tri(final(self).blocks@.len() as int) ==> #[trigger] final(self).cell(m) == if m
                    < tri(old(self).blocks@.len() as int) {
                    old(self).cell(m)
                } else {
                    None
                },
    {
        let ghost bs = self.blocks@;
        let block_size = self.blocks.size();
        let nb = Array::with_capacity(block_size + 1);
        let ghost g = nb@;
        self.blocks.add(block_size, nb);
        proof {
            let rr = block_size as int;
            assert(self.blocks@[rr]@ == g);
            lemma_tri_succ(rr);
            assert forall|m: int| 0 <= m < tri(rr + 1) implies #[trigger] self.cell(m) == if m < tri(rr) {
                bs[block_of(m)]@[m - tri(block_of(m))]
            } else {
                None
            } by {
                if m < tri(rr) {
                    lemma_block_below(m, rr);
                    lemma_block_of(m, 0);
                    assert(self.blocks@[block_of(m)] == bs[block_of(m)]);
                } else {
                    lemma_block_of(m, rr);
                }
            }
        }
    }

    /// Drops trailing blocks while the others still hold `n` positions.
    fn shrink(&mut self)
        requires
            old(self).shaped(),
            old(self).n <= tri(old(self).blocks@.len() as int),
            forall|m: int|
                0 <= m < tri(old(self).blocks@.len() as int) ==> (#[trigger] old(self).cell(m) is Some
                    <==> m < old(self).n),
        ensures
            final(self).wf(),
            final(self).n == old(self).n,
            forall|m: int| 0 <= m < final(self).n ==> #[trigger] final(self).cell(m) == old(self).cell(m),
            final(self).blocks@.len() <= old(self).blocks@.len(),
    {
        let ghost s0 = *self;
        let mut r = self.blocks.size();
        while r > 0 && tri_exec((r - 1) as u128) >= self.n as u128
            invariant
                self.shaped(),
                r == self.blocks@.len(),
                self.n == s0.n,
                self.n <= tri(r as int),
                r <= s0.blocks@.len(),
                forall|k: int| 0 <= k < r ==> #[trigger] self.blocks@[k] == s0.blocks@[k],
                forall|m: int| 0 <= m < tri(s0.blocks@.len() as int) ==> (#[trigger] s0.cell(m) is Some
                    <==> m < s0.n),
            decreases r,
        {
            self.blocks.remove(r - 1);
            r = r - 1;
        }
        proof {
            lemma_tri_mono(r as int, s0.blocks@.len() as int);
            assert forall|m: int| 0 <= m < tri(r as int) implies #[trigger] self.cell(m) == s0.cell(m) by {
                lemma_block_below(m, r as int);
                lemma_block_of(m, 0);
                assert(self.blocks@[block_of(m)] == s0.blocks@[block_of(m)]);
            }
        }
    }

    /// Number of blocks.
    pub fn num_blocks(&self) -> (r: usize)
        requires
            self.wf(),
        ensures
            r == self.block_count(),
    {
        self.blocks.size()
    }

    /// Number of elements.
    pub fn size(&self) -> (r: usize)
        ensures
            r == self@.len(),
    {
        self.n
    }

    /// The element at index `i`, or `None` when `i` is past the end.
    pub fn get(&self, i: usize) -> (r: Option<&T>)
        requires
            self.wf(),
        ensures
            i < self@.len() ==> r == Some(&self@[i as int]),
            i >= self@.len() ==> r is None,
    {
        if i >= self.n {
            return None;
        }
        let (b, j) = Self::i2bj(i);
        proof {
            lemma_block_below(i as int, self.blocks@.len() as int);
            lemma_block_of(i as int, b as int);
            lemma_tri_succ(b as int);
            assert(self.cell(i as int) is Some);
        }
        match self.blocks.get(b) {
            Some(blk) => blk.slot(j).as_ref(),
            None => None,
        }
    }

    /// Replaces the element at index `i` by `x` and returns the one it held.
    /// Past the end nothing changes and `x` comes back.
    pub fn set(&mut self, i: usize, x: T) -> (r: Option<T>)
        requires
            old(self).wf(),
        ensures
            final(self).wf(),
            final(self).block_count() == old(self).block_count(),
            i < old(self)@.len() ==> r == Some(old(self)@[i as int]) && final(self)@ == old(
                self,
            )@.update(i as int, x),
            i >= old(self)@.len() ==> r == Some(x) && final(self)@ == old(self)@,
    {
        if i >= self.n {
            return Some(x);
        }
        let ghost v = self@;
        let r = self.replace_at(i, Some(x));
        assert(self@ =~= v.update(i as int, x));
        r
    }

    /// Inserts `x` at index `i`, adding a block first when all are full.
    /// Past the end (`i > size`) nothing changes and `x` comes back.
    pub fn add(&mut self, i: usize, x: T) -> (r: Option<T>)
        requires
            old(self).wf(),
            old(self)@.len() < usize::MAX,
        ensures
            final(self).wf(),
            i <= old(self)@.len() ==> r is None && final(self)@ == old(self)@.insert(i as int, x),
            i > old(self)@.len() ==> r == Some(x) && final(self)@ == old(self)@,
            final(self)@ == edited(old(self)@, ListEdit::Add(i, x)),
    {
        if i > self.n {
            return Some(x);
        }
        let ghost v = self@;
        if self.max_size() < self.n as u128 + 1 {
            proof {
                let rr = self.blocks@.len() as int;
                if rr > 0 {
                    lemma_tri_mono(rr - 1, rr - 1);
                }
            }
            self.grow();
            proof {
                lemma_tri_succ(self.blocks@.len() - 1);
            }
        }
        proof {
            let rn = self.blocks@.len() as int;
            assert(rn > 0 ==> tri(rn - 1) < self.n + 1);
            assert forall|m: int| 0 <= m < tri(rn) implies (#[trigger] self.cell(m) is Some <==> m
                < self.n) && (m < self.n ==> self.cell(m) == Some(v[m])) by {
                if m < tri(old(self).blocks@.len() as int) {
                    assert(old(self).cell(m) is Some <==> m < self.n);
                }
            }
        }
        let ghost s1 = *self;
        let ghost rr = self.blocks@.len() as int;
        let n = self.n;
        let mut k: usize = self.n;
        while k > i
            invariant
                self.shaped(),
                self.blocks@.len() == rr,
                self.n == n,
                n + 1 <= tri(rr),
                i <= k <= n,
                rr > 0 ==> tri(rr - 1) < n + 1,
                v.len() == n,
                forall|m: int| 0 <= m < tri(rr) ==> (#[trigger] s1.cell(m) is Some <==> m < n),
                forall|m: int| 0 <= m < n ==> #[trigger] s1.cell(m) == Some(v[m]),
                forall|m: int|
                    0 <= m < tri(rr) ==> #[trigger] self.cell(m) == if m < k {
                        s1.cell(m)
                    } else if m == k {
                        None
                    } else if m <= n {
                        s1.cell(m - 1)
                    } else {
                        s1.cell(m)
                    },
            decreases k,
        {
            let y = self.replace_at(k - 1, None);
            self.replace_at(k, y);
            k = k - 1;
        }
        let ghost s3 = *self;
        let r = self.replace_at(i, Some(x));
        let ghost s4 = *self;
        self.n = self.n + 1;
        proof {
            assert forall|m: int| 0 <= m < tri(rr) implies #[trigger] self.cell(m) == if m < i {
                Some(v[m])
            } else if m == i {
                Some(x)
            } else if m <= n {
                Some(v[m - 1])
            } else {
                None::<T>
            } by {
                assert(s3.cell(m) == if m < i {
                    s1.cell(m)
                } else if m == i {
                    None
                } else if m <= n {
                    s1.cell(m - 1)
                } else {
                    s1.cell(m)
                });
                assert(s4.cell(m) == if m == i {
                    Some(x)
                } else {
                    s3.cell(m)
                });
                assert(self.cell(m) == s4.cell(m));
                if m > n {
                    assert(s1.cell(m) is None);
                }
            }
        }
        assert(self@ =~= v.insert(i as int, x));
        r
    }

    /// Removes and returns the element at index `i`, then drops the blocks
    /// that are no longer needed; `None` when `i` is past the end.
    pub fn remove(&mut self, i: usize) -> (r: Option<T>)
        requires
            old(self).wf(),
        ensures
            final(self).wf(),
            i < old(self)@.len() ==> r == Some(old(self)@[i as int]) && final(self)@ == old(
                self,
            )@.remove(i as int),
            i >= old(self)@.len() ==> r is None && final(self)@ == old(self)@,
            final(self)@ == edited(old(self)@, ListEdit::Remove(i)),
    {
        if i >= self.n {
            return None;
        }
        let ghost v = self@;
        let ghost s1 = *self;
        let ghost rr = self.blocks@.len() as int;
        let n = self.n;
        proof {
            assert forall|m: int| 0 <= m < n implies #[trigger] s1.cell(m) == Some(v[m]) by {
                assert(s1.cell(m) is Some);
            }
        }
        let x = self.replace_at(i, None);
        let mut k: usize = i;
        while k + 1 < n
            invariant
                self.shaped(),
                self.blocks@.len() == rr,
                self.n == n,
                n <= tri(rr),
                i <= k < n,
                rr > 0 ==> tri(rr - 1) < n,
                v.len() == n,
                forall|m: int| 0 <= m < tri(rr) ==> (#[trigger] s1.cell(m) is Some <==> m < n),
                forall|m: int| 0 <= m < n ==> #[trigger] s1.cell(m) == Some(v[m]),
                forall|m: int|
                    0 <= m < tri(rr) ==> #[trigger] self.cell(m) == if m < i {
                        s1.cell(m)
                    } else if m < k {
                        s1.cell(m + 1)
                    } else if m == k {
                        None
                    } else {
                        s1.cell(m)
                    },
            decreases n - k,
        {
            let y = self.replace_at(k + 1, None);
            self.replace_at(k, y);
            k = k + 1;
        }
        let ghost s3 = *self;
        self.n = self.n - 1;
        proof {
            assert forall|m: int| 0 <= m < tri(rr) implies #[trigger] self.cell(m) == if m < i {
                Some(v[m])
            } else if m < n - 1 {
                Some(v[m + 1])
            } else {
                None::<T>
            } by {
                assert(self.cell(m) == s3.cell(m));
                if m > k {
                    assert(s1.cell(m) is None);
                }
            }
        }
        let ghost s2 = *self;
        self.shrink();
        proof {
            assert forall|m: int| 0 <= m < self.n implies #[trigger] self@[m] == v.remove(i as int)[m] by {
                assert(self.cell(m) == s2.cell(m));
            }
        }
        assert(self@ =~= v.remove(i as int));
        x
    }
}

} // verus!
