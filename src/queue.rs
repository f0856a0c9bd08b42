use std::collections::VecDeque;
use vstd::prelude::*;

verus! {

/// Moves the elements of `v`, in order, into a queue that hands them out from
/// the front.
pub(crate) fn queue_of<T>(v: Vec<T>) -> (q: VecDeque<T>)
    ensures
        q@ == v@,
{
    let mut v = v;
    let ghost all = v@;
    let mut rest: Vec<T> = Vec::new();
    while v.len() > 0
        invariant
            all == v@ + rest@.reverse(),
        decreases v.len(),
    {
        let x = v.pop().unwrap();
        rest.push(x);
        assert(v@ + rest@.reverse() =~= all);
    }
    assert(rest@.reverse() =~= all);
    let mut q: VecDeque<T> = VecDeque::new();
    while rest.len() > 0
        invariant
            all == q@ + rest@.reverse(),
        decreases rest.len(),
    {
        let x = rest.pop().unwrap();
        q.push_back(x);
        assert(q@ + rest@.reverse() =~= all);
    }
    assert(q@ =~= all);
    q
}

} // verus!
