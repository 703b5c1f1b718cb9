use vstd::prelude::*;

verus! {

/// One call of a list's `add` or `remove`.
pub enum ListEdit<T> {
    Add(usize, T),
    Remove(usize),
}

/// The list after `e`, as `add` and `remove` of every list type here
/// state it: an insertion at `i <= len`, a removal at `i < len`, and no
/// change for an index out of range.
pub open spec fn edited<T>(s: Seq<T>, e: ListEdit<T>) -> Seq<T> {
    match e {
        ListEdit::Add(i, x) => if i <= s.len() {
            s.insert(i as int, x)
        } else {
            s
        },
        ListEdit::Remove(i) => if i < s.len() {
            s.remove(i as int)
        } else {
            s
        },
    }
}

/// The list after the edits `es`, in order.
pub open spec fn edited_all<T>(s: Seq<T>, es: Seq<ListEdit<T>>) -> Seq<T>
    decreases es.len(),
{
    if es.len() == 0 {
        s
    } else {
        edited_all(edited(s, es[0]), es.skip(1))
    }
}

/// The number of edits among `es` that are insertions and succeed, less
/// the number that are removals and succeed.
pub open spec fn net_growth<T>(s: Seq<T>, es: Seq<ListEdit<T>>) -> int
    decreases es.len(),
{
    if es.len() == 0 {
        0
    } else {
        let step = match es[0] {
            ListEdit::Add(i, _) => if i <= s.len() {
                1int
            } else {
                0
            },
            ListEdit::Remove(i) => if i < s.len() {
                -1int
            } else {
                0
            },
        };
        step + net_growth(edited(s, es[0]), es.skip(1))
    }
}

/// After any sequence of `add` and `remove`, the size has grown by the
/// number of successful insertions less the number of successful removals.
pub proof fn lemma_size_invariant<T>(s: Seq<T>, es: Seq<ListEdit<T>>)
    ensures
        edited_all(s, es).len() == s.len() + net_growth(s, es),
    decreases es.len(),
{
    if es.len() > 0 {
        lemma_size_invariant(edited(s, es[0]), es.skip(1));
    }
}

/// After `set(i, x)` at a valid index, `get(i)` yields `x`: `set` leaves
/// `s.update(i, x)`, and a resize leaves the elements as they are.
pub proof fn lemma_get_after_set<T>(s: Seq<T>, i: int, x: T)
    requires
        0 <= i < s.len(),
    ensures
        s.update(i, x)[i] == x,
        s.update(i, x).len() == s.len(),
{
}

/// Inserting at `k` keeps the elements before `k` in place and moves every
/// element from `k` on one position up, so their order is kept.
pub proof fn lemma_add_keeps_order<T>(s: Seq<T>, k: usize, x: T)
    requires
        k <= s.len(),
    ensures
        edited(s, ListEdit::Add(k, x))[k as int] == x,
        forall|m: int| 0 <= m < k ==> #[trigger] edited(s, ListEdit::Add(k, x))[m] == s[m],
        forall|m: int| k <= m < s.len() ==> #[trigger] edited(s, ListEdit::Add(k, x))[m + 1] == s[m],
{
}

/// Removing at `k` keeps the elements before `k` in place and moves every
/// element after `k` one position down, so their order is kept.
pub proof fn lemma_remove_keeps_order<T>(s: Seq<T>, k: usize)
    requires
        k < s.len(),
    ensures
        forall|m: int| 0 <= m < k ==> #[trigger] edited(s, ListEdit::Remove(k))[m] == s[m],
        forall|m: int| k < m < s.len() ==> #[trigger] edited(s, ListEdit::Remove(k))[m - 1] == s[m],
{
}

/// The queue after appending each of `xs` in turn, as `ArrayQueue::add`
/// states it.
pub open spec fn enqueued_all<T>(s: Seq<T>, xs: Seq<T>) -> Seq<T>
    decreases xs.len(),
{
    if xs.len() == 0 {
        s
    } else {
        enqueued_all(s.push(xs[0]), xs.skip(1))
    }
}

/// What `m` calls of `ArrayQueue::remove` hand out, in order, from a queue
/// holding `s` (each takes the first element and leaves the rest).
pub open spec fn dequeued<T>(s: Seq<T>, m: nat) -> Seq<T>
    decreases m,
{
    if m == 0 || s.len() == 0 {
        Seq::empty()
    } else {
        seq![s[0]] + dequeued(s.skip(1), (m - 1) as nat)
    }
}

/// Appending `xs` to an empty queue and then removing as many elements
/// hands them out in the order they came in.
pub proof fn lemma_fifo<T>(xs: Seq<T>)
    ensures
        dequeued(enqueued_all(Seq::empty(), xs), xs.len()) == xs,
{
    lemma_enqueued_all(Seq::empty(), xs);
    assert(Seq::<T>::empty() + xs =~= xs);
    lemma_dequeued_all(xs);
}

proof fn lemma_enqueued_all<T>(s: Seq<T>, xs: Seq<T>)
    ensures
        enqueued_all(s, xs) == s + xs,
    decreases xs.len(),
{
    if xs.len() > 0 {
        lemma_enqueued_all(s.push(xs[0]), xs.skip(1));
        assert(s.push(xs[0]) + xs.skip(1) =~= s + xs);
    } else {
        assert(s + xs =~= s);
    }
}

proof fn lemma_dequeued_all<T>(s: Seq<T>)
    ensures
        dequeued(s, s.len()) == s,
    decreases s.len(),
{
    if s.len() > 0 {
        lemma_dequeued_all(s.skip(1));
        assert(seq![s[0]] + s.skip(1) =~= s);
    } else {
        assert(s =~= Seq::<T>::empty());
    }
}

} // verus!
