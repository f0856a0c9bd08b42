use crate::queue::queue_of;
use std::collections::VecDeque;
use vstd::prelude::*;

verus! {

/// `out` is what an interspersing pass over `src` produces: the elements of
/// `src` in order, with a copy of `sep` between each two of them. With
/// `lead`, a copy of `sep` also comes first (the pass was interrupted just
/// after an element, so a separator is owed). An empty `src` gives nothing.
pub open spec fn interleaved<T: Clone>(out: Seq<T>, src: Seq<T>, sep: T, lead: bool) -> bool {
    let off: int = if lead { 1 } else { 0 };
    &&& out.len() == (if src.len() == 0 { 0 } else { 2 * src.len() - 1 + off })
    &&& forall|i: int|
        0 <= i < out.len() ==> if (i - off) % 2 == 0 {
            #[trigger] out[i] == src[(i - off) / 2]
        } else {
            cloned(sep, out[i])
        }
}

/// Yields the elements of a source with a separator between each two of them.
#[derive(Debug)]
pub struct IntersperseIter<T> {
    iter: VecDeque<T>,
    elem: T,
    emit_elem: bool,
}

impl<T: Clone> IntersperseIter<T> {
    /// The source elements not yet yielded.
    pub closed spec fn remaining(&self) -> Seq<T> {
        self.iter@
    }

    /// The separator.
    pub closed spec fn separator(&self) -> T {
        self.elem
    }

    /// Whether a separator is owed before the next source element.
    pub closed spec fn pending(&self) -> bool {
        self.emit_elem
    }

    /// Wraps `iter`, to be interspersed with `elem`.
    pub fn new(iter: Vec<T>, elem: T) -> (r: Self)
        ensures
            r.remaining() == iter@,
            r.separator() == elem,
            !r.pending(),
    {
        let src = queue_of(iter);
        IntersperseIter { iter: src, elem, emit_elem: false }
    }

    /// Advances: the next source element, a copy of the separator between two
    /// elements, or `None` once the source is exhausted (and from then on).
    pub fn next(&mut self) -> (r: Option<T>)
        ensures
            final(self).separator() == old(self).separator(),
            old(self).remaining().len() == 0 ==> {
                &&& r is None
                &&& final(self).remaining() == old(self).remaining()
                &&& !final(self).pending()
            },
            old(self).remaining().len() > 0 && old(self).pending() ==> {
                &&& r is Some
                &&& cloned(old(self).separator(), r->0)
                &&& final(self).remaining() == old(self).remaining()
                &&& !final(self).pending()
            },
            old(self).remaining().len() > 0 && !old(self).pending() ==> {
                &&& r == Some(old(self).remaining()[0])
                &&& final(self).remaining() == old(self).remaining().drop_first()
                &&& final(self).pending()
            },
    {
        if self.iter.len() > 0 {
            if self.emit_elem {
                self.emit_elem = false;
                Some(self.elem.clone())
            } else {
                self.emit_elem = true;
                let r = self.iter.pop_front();
                assert(self.iter@ =~= old(self).iter@.drop_first());
                r
            }
        } else {
            self.emit_elem = false;
            None
        }
    }

    /// Advances until the end, collecting everything yielded.
    pub fn collect(self) -> (r: Vec<T>)
        ensures
            interleaved(
                r@,
                self.remaining(),
                self.separator(),
                self.pending() && self.remaining().len() > 0,
            ),
            // from a fresh adapter: one more element than separators
            !self.pending() ==> r@.len() == (if self.remaining().len() == 0 {
                0
            } else {
                2 * self.remaining().len() - 1
            }),
            // from a fresh adapter: elements at even places, separators at odd ones
            !self.pending() ==> forall|i: int|
                0 <= i < r@.len() ==> if i % 2 == 0 {
                    #[trigger] r@[i] == self.remaining()[i / 2]
                } else {
                    cloned(self.separator(), r@[i])
                },
            self.remaining().len() == 0 ==> r@.len() == 0,
    {
        let mut it = self;
        let ghost src = it.iter@;
        let ghost sep = it.elem;
        let ghost lead = it.emit_elem && it.iter@.len() > 0;
        let ghost off: int = if lead { 1 } else { 0 };
        let mut out: Vec<T> = Vec::new();
        loop
            invariant_except_break
                it.iter@.len() == 0 && src.len() > 0 ==> it.emit_elem,
            invariant
                off == (if lead { 1int } else { 0int }),
                it.elem == sep,
                src.len() > 0 || !lead,
                it.iter@.len() <= src.len(),
                it.iter@ == src.subrange(src.len() - it.iter@.len(), src.len() as int),
                ({
                    let c = src.len() - it.iter@.len();
                    &&& it.iter@.len() > 0 ==> out@.len() == off + 2 * c - (if it.emit_elem { 1int } else { 0 })
                    &&& it.iter@.len() == 0 ==> out@.len() == (if src.len() == 0 { 0 } else { 2 * src.len() - 1 + off })
                    &&& c == 0 && lead ==> (it.emit_elem <==> out@.len() == 0)
                    &&& c == 0 && !lead && src.len() > 0 ==> out@.len() == 0 && !it.emit_elem
                }),
                forall|i: int|
                    0 <= i < out@.len() ==> if (i - off) % 2 == 0 {
                        #[trigger] out@[i] == src[(i - off) / 2]
                    } else {
                        cloned(sep, out@[i])
                    },
            ensures
                interleaved(out@, src, sep, lead),
            decreases 2 * it.iter@.len() + (if it.emit_elem { 1int } else { 0 }),
        {
            match it.next() {
                Some(x) => {
                    out.push(x);
                },
                None => {
                    break;
                },
            }
        }
        out
    }
}

/// Turns a sequence of elements into one that intersperses a separator.
pub trait IntersperseIterAdapter<T: Clone>: Sized {
    /// The elements, in order.
    spec fn elements(&self) -> Seq<T>;

    /// An adapter over the elements of `self`, with `elem` between each two.
    fn intersperse(self, elem: T) -> (r: IntersperseIter<T>)
        ensures
            r.remaining() == self.elements(),
            r.separator() == elem,
            !r.pending(),
    ;
}

impl<T: Clone> IntersperseIterAdapter<T> for Vec<T> {
    open spec fn elements(&self) -> Seq<T> {
        self@
    }

    fn intersperse(self, elem: T) -> (r: IntersperseIter<T>) {
        IntersperseIter::new(self, elem)
    }
}

} // verus!
