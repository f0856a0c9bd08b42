use crate::queue::queue_of;
use std::collections::VecDeque;
use vstd::prelude::*;

verus! {

/// What one advance does to the (previous, current) slots when the source
/// hands out `pulled`: a current element moves into previous, and the
/// pulled value, or nothing, becomes current.
pub open spec fn step<T>(slots: (Option<T>, Option<T>), pulled: Option<T>) -> (Option<T>, Option<T>) {
    (if slots.1 is Some { slots.1 } else { slots.0 }, pulled)
}

/// The value that pull number `i` (from zero) takes from `src`.
pub open spec fn pull<T>(src: Seq<T>, i: int) -> Option<T> {
    if 0 <= i < src.len() {
        Some(src[i])
    } else {
        None
    }
}

/// The (previous, current) slots after `k` advances over `src`.
pub open spec fn slots_after<T>(src: Seq<T>, k: nat) -> (Option<T>, Option<T>)
    decreases k,
{
    if k == 0 {
        (None, None)
    } else {
        step(slots_after(src, (k - 1) as nat), pull(src, k - 1))
    }
}

/// The slots hold the last two elements handed out: after `k` successful
/// advances over `e1 .. ek`, current is `ek` and previous is `e(k-1)` (none
/// when `k < 2`); after the first advance that finds the source exhausted,
/// current is empty and previous keeps the last element.
pub proof fn lemma_shift_register<T>(src: Seq<T>, k: nat)
    ensures
        1 <= k <= src.len() ==> slots_after(src, k) == (
            if k >= 2 { Some(src[k - 2]) } else { None },
            Some(src[k - 1]),
        ),
        k == src.len() + 1 ==> slots_after(src, k) == (
            if src.len() >= 1 { Some(src[src.len() - 1]) } else { None },
            None::<T>,
        ),
        k == 0 ==> slots_after(src, k) == (None::<T>, None::<T>),
    decreases k,
{
    if k > 0 {
        lemma_shift_register(src, (k - 1) as nat);
        if 2 <= k <= src.len() {
            assert(slots_after(src, (k - 1) as nat).1 is Some);
        }
    }
}

/// An adapter that remembers the element it handed out last and the one
/// before.
pub struct MementoIter<T> {
    iter: VecDeque<T>,
    cur: Option<T>,
    prev: Option<T>,
    source: Ghost<Seq<T>>,
    advances: Ghost<nat>,
}

impl<T: Clone> MementoIter<T> {
    /// The elements the adapter was made with.
    pub closed spec fn source(&self) -> Seq<T> {
        self.source@
    }

    /// How many advances were made.
    pub closed spec fn advances(&self) -> nat {
        self.advances@
    }

    /// The source elements not yet pulled.
    pub closed spec fn remaining(&self) -> Seq<T> {
        self.iter@
    }

    /// The current slot.
    pub closed spec fn current(&self) -> Option<T> {
        self.cur
    }

    /// The previous slot.
    pub closed spec fn previous(&self) -> Option<T> {
        self.prev
    }

    /// The slots and the rest of the source agree with the advances made.
    pub closed spec fn wf(&self) -> bool {
        &&& slots_after(self.source@, self.advances@) == (self.prev, self.cur)
        &&& self.iter@ == if self.advances@ <= self.source@.len() {
            self.source@.subrange(self.advances@ as int, self.source@.len() as int)
        } else {
            Seq::empty()
        }
    }

    /// Wraps `iter`; both slots start empty.
    pub fn new(iter: Vec<T>) -> (r: Self)
        ensures
            r.wf(),
            r.source() == iter@,
            r.remaining() == iter@,
            r.advances() == 0,
            r.current() is None,
            r.previous() is None,
    {
        let ghost src = iter@;
        let q = queue_of(iter);
        let r = MementoIter { iter: q, cur: None, prev: None, source: Ghost(src), advances: Ghost(0) };
        assert(r.iter@ =~= src.subrange(0, src.len() as int));
        r
    }

    /// The element handed out last, while it is live.
    pub fn cur(&self) -> (r: Option<&T>)
        ensures
            match r {
                Some(x) => self.current() == Some(*x),
                None => self.current() is None,
            },
    {
        self.cur.as_ref()
    }

    /// The element handed out before the current one.
    pub fn prev(&self) -> (r: Option<&T>)
        ensures
            match r {
                Some(x) => self.previous() == Some(*x),
                None => self.previous() is None,
            },
    {
        self.prev.as_ref()
    }

    /// Advances: shifts current into previous (if there is one), pulls the next
    /// source element into current and hands out a copy of it; `None` once the
    /// source is exhausted.
    pub fn next(&mut self) -> (r: Option<T>)
        requires
            old(self).wf(),
        ensures
            final(self).wf(),
            final(self).source() == old(self).source(),
            final(self).advances() == old(self).advances() + 1,
            (final(self).previous(), final(self).current()) == step(
                (old(self).previous(), old(self).current()),
                pull(old(self).remaining(), 0),
            ),
            final(self).remaining() == if old(self).remaining().len() > 0 {
                old(self).remaining().drop_first()
            } else {
                old(self).remaining()
            },
            r is Some <==> old(self).remaining().len() > 0,
            r is Some ==> cloned(old(self).remaining()[0], r->0),
    {
        if let Some(x) = self.cur.take() {
            self.prev = Some(x);
        }
        let r = match self.iter.pop_front() {
            Some(x) => {
                let y = x.clone();
                self.cur = Some(x);
                Some(y)
            },
            None => {
                self.cur = None;
                None
            },
        };
        let ghost k = old(self).advances@;
        let ghost src = old(self).source@;
        self.advances = Ghost(k + 1);
        proof {
            assert(pull(old(self).iter@, 0) == pull(src, k as int));
            assert(slots_after(src, k + 1) == step(slots_after(src, k), pull(src, k as int)));
            if k < src.len() {
                assert(self.iter@ =~= src.subrange(k + 1int, src.len() as int));
            }
            assert(slots_after(self.source@, self.advances@) == (self.prev, self.cur));
            assert(self.iter@ == if self.advances@ <= self.source@.len() {
                self.source@.subrange(self.advances@ as int, self.source@.len() as int)
            } else {
                Seq::empty()
            });
        }
        r
    }
}

/// The adapter's slots are those the shift-register law gives for the
/// advances made so far.
pub proof fn lemma_memento_slots<T: Clone>(m: &MementoIter<T>)
    requires
        m.wf(),
    ensures
        ({
            let src = m.source();
            let k = m.advances();
            &&& 1 <= k <= src.len() ==> m.current() == Some(src[k - 1])
            &&& 2 <= k <= src.len() ==> m.previous() == Some(src[k - 2])
            &&& k < 2 ==> m.previous() is None
            &&& k == src.len() + 1 ==> m.current() is None
            &&& k == src.len() + 1 && src.len() >= 1 ==> m.previous() == Some(src[src.len() - 1])
        }),
{
    lemma_shift_register(m.source(), m.advances());
}

/// Turns a sequence of elements into an adapter that remembers the last two
/// it handed out.
pub trait MementoIterAdapter<T: Clone>: Sized {
    /// The elements, in order.
    spec fn memento_source(&self) -> Seq<T>;

    /// An adapter over the elements of `self`, with both slots empty.
    fn memento(self) -> (r: MementoIter<T>)
        ensures
            r.wf(),
            r.source() == self.memento_source(),
            r.remaining() == self.memento_source(),
            r.advances() == 0,
            r.current() is None,
            r.previous() is None,
    ;
}

impl<T: Clone> MementoIterAdapter<T> for Vec<T> {
    open spec fn memento_source(&self) -> Seq<T> {
        self@
    }

    fn memento(self) -> (r: MementoIter<T>) {
        MementoIter::new(self)
    }
}

} // verus!
