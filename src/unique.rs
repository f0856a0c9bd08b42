use crate::queue::queue_of;
use vstd::laws_eq::obeys_concrete_eq;
use vstd::prelude::*;

verus! {

/// The element at `i` is the first whose key is `keys[i]`.
pub open spec fn first_occurrence<K>(keys: Seq<K>, i: int) -> bool {
    !keys.subrange(0, i).contains(keys[i])
}

/// The elements of `items` whose key (the key of `items[i]` is `keys[i]`)
/// did not come up earlier, in their order.
pub open spec fn unique_filter<T, K>(items: Seq<T>, keys: Seq<K>) -> Seq<T>
    decreases items.len(),
{
    if items.len() == 0 {
        Seq::empty()
    } else {
        let n = items.len() - 1;
        let rest = unique_filter(items.take(n), keys.take(n));
        if first_occurrence(keys, n) {
            rest.push(items[n])
        } else {
            rest
        }
    }
}

/// The positions `unique_filter` keeps: `idx[j]` is where the `j`-th kept
/// element stood.
pub open spec fn kept_positions<K>(keys: Seq<K>, len: nat, idx: Seq<int>) -> bool {
    &&& forall|j: int| 0 <= j < idx.len() ==> 0 <= #[trigger] idx[j] < len
    &&& forall|j: int, l: int| 0 <= j < l < idx.len() ==> #[trigger] idx[j] < #[trigger] idx[l]
    &&& forall|j: int| 0 <= j < idx.len() ==> first_occurrence(keys, #[trigger] idx[j])
    &&& forall|i: int|
        0 <= i < len && first_occurrence(keys, i) ==> exists|j: int|
            0 <= j < idx.len() && #[trigger] idx[j] == i
}

/// `keys[i]` is a key that `f` gives for `items[i]`, for every `i`.
pub open spec fn keyed_by<T, K, F: Fn(&T) -> K>(items: Seq<T>, f: F, keys: Seq<K>) -> bool {
    &&& keys.len() == items.len()
    &&& forall|i: int| 0 <= i < keys.len() ==> f.ensures((&items[i],), #[trigger] keys[i])
}

/// `r` is what deduplicating `items` by `f` gives, for some run of `f`.
pub open spec fn unique_by_outcome<T, K, F: Fn(&T) -> K>(items: Seq<T>, f: F, r: Seq<T>) -> bool {
    exists|keys: Seq<K>| keyed_by(items, f, keys) && r == unique_filter(items, keys)
}

/// `f` gives at most one key for each element.
pub open spec fn deterministic<T, K, F: Fn(&T) -> K>(f: F) -> bool {
    forall|x: &T, k1: K, k2: K| f.ensures((x,), k1) && f.ensures((x,), k2) ==> k1 == k2
}

/// First occurrences win: the result is the subsequence of `items` at exactly
/// the positions `i` whose key did not occur among the keys before `i`. The
/// positions are returned, increasing, so survivors keep their source order.
pub proof fn lemma_unique_positions<T, K>(items: Seq<T>, keys: Seq<K>) -> (idx: Seq<int>)
    requires
        items.len() == keys.len(),
    ensures
        kept_positions(keys, items.len(), idx),
        unique_filter(items, keys).len() == idx.len(),
        forall|j: int|
            0 <= j < idx.len() ==> unique_filter(items, keys)[j] == items[#[trigger] idx[j]],
    decreases items.len(),
{
    if items.len() == 0 {
        Seq::empty()
    } else {
        let n = items.len() - 1;
        let before = lemma_unique_positions(items.take(n), keys.take(n));
        assert forall|i: int| 0 <= i < n implies first_occurrence(keys.take(n), i)
            == first_occurrence(keys, i) by {
            assert(keys.take(n).subrange(0, i) =~= keys.subrange(0, i));
        }
        let rest = unique_filter(items.take(n), keys.take(n));
        let idx = if first_occurrence(keys, n) {
            before.push(n)
        } else {
            before
        };
        assert forall|i: int|
            0 <= i < items.len() && first_occurrence(keys, i) implies exists|j: int|
                0 <= j < idx.len() && #[trigger] idx[j] == i by {
            if i < n {
                let j = choose|j: int| 0 <= j < before.len() && #[trigger] before[j] == i;
                assert(idx[j] == i);
            } else {
                assert(idx[before.len() as int] == i);
            }
        }
        idx
    }
}

/// Survivors appear in source order: the `j`-th and `l`-th elements of the
/// result (`j < l`) stand at positions `p < q` of `items`.
pub proof fn lemma_unique_order<T, K>(items: Seq<T>, keys: Seq<K>, j: int, l: int)
    requires
        items.len() == keys.len(),
        0 <= j < l < unique_filter(items, keys).len(),
    ensures
        exists|p: int, q: int|
            0 <= p < q < items.len() && unique_filter(items, keys)[j] == items[p]
                && unique_filter(items, keys)[l] == items[q],
{
    let idx = lemma_unique_positions(items, keys);
    assert(idx[j] < idx[l]);
    assert(unique_filter(items, keys)[j] == items[idx[j]]);
    assert(unique_filter(items, keys)[l] == items[idx[l]]);
}

/// With a key function that gives one key per element, two runs over equal
/// sources give equal results.
pub proof fn lemma_unique_by_deterministic<T, K, F: Fn(&T) -> K>(
    items1: Seq<T>,
    items2: Seq<T>,
    f: F,
    r1: Seq<T>,
    r2: Seq<T>,
)
    requires
        deterministic::<T, K, F>(f),
        items1 == items2,
        unique_by_outcome::<T, K, F>(items1, f, r1),
        unique_by_outcome::<T, K, F>(items2, f, r2),
    ensures
        r1 == r2,
{
    let k1 = choose|keys: Seq<K>| keyed_by(items1, f, keys) && r1 == unique_filter(items1, keys);
    let k2 = choose|keys: Seq<K>| keyed_by(items2, f, keys) && r2 == unique_filter(items2, keys);
    assert forall|i: int| 0 <= i < k1.len() implies k1[i] == k2[i] by {
        assert(f.ensures((&items1[i],), k1[i]));
        assert(f.ensures((&items1[i],), k2[i]));
    }
    assert(k1 =~= k2);
}

proof fn lemma_push_contains<A>(s: Seq<A>, x: A, y: A)
    ensures
        s.push(x).contains(y) <==> s.contains(y) || x == y,
{
    if s.push(x).contains(y) {
        let j = choose|j: int| 0 <= j < s.push(x).len() && s.push(x)[j] == y;
        if j < s.len() {
            assert(s[j] == y);
        }
    }
    if s.contains(y) {
        let j = choose|j: int| 0 <= j < s.len() && s[j] == y;
        assert(s.push(x)[j] == y);
    }
    if x == y {
        assert(s.push(x)[s.len() as int] == y);
    }
}

/// The deduplicating adapter's state: the source, the key function, and the
/// keys handed out so far.
pub struct Unique<St, F, K> {
    /// The source of elements.
    pub stream: St,
    /// The key function.
    pub f: F,
    seen: Vec<K>,
}

impl<St, F, K: PartialEq> Unique<St, F, K> {
    /// The keys of the elements handed out so far, in order.
    pub closed spec fn seen_keys(&self) -> Seq<K> {
        self.seen@
    }

    /// The source of elements.
    pub closed spec fn source(&self) -> St {
        self.stream
    }

    /// The key function.
    pub closed spec fn key_fn(&self) -> F {
        self.f
    }

    /// Wraps `stream` with the key function `f`; no key is seen yet.
    pub fn new(stream: St, f: F) -> (r: Self)
        ensures
            r.source() == stream,
            r.key_fn() == f,
            r.seen_keys() == Seq::<K>::empty(),
            r.seen_keys().no_duplicates(),
    {
        Unique { stream, f, seen: Vec::new() }
    }

    /// Decides on a source element with key `key`: `true` (hand it out, and
    /// remember the key) when no element with that key was handed out
    /// before, `false` (drop it) otherwise.
    pub fn first_seen(&mut self, key: K) -> (r: bool)
        requires
            obeys_concrete_eq::<K>(),
        ensures
            r == !old(self).seen_keys().contains(key),
            final(self).seen_keys() == if r {
                old(self).seen_keys().push(key)
            } else {
                old(self).seen_keys()
            },
            old(self).seen_keys().no_duplicates() ==> final(self).seen_keys().no_duplicates(),
            final(self).source() == old(self).source(),
            final(self).key_fn() == old(self).key_fn(),
    {
        proof {
            reveal(obeys_concrete_eq);
        }
        let mut i: usize = 0;
        while i < self.seen.len()
            invariant
                obeys_concrete_eq::<K>(),
                self == old(self),
                i <= self.seen@.len(),
                forall|j: int| 0 <= j < i ==> self.seen@[j] != key,
            decreases self.seen@.len() - i,
        {
            proof {
                reveal(obeys_concrete_eq);
            }
            if self.seen[i] == key {
                assert(self.seen@[i as int] == key);
                return false;
            }
            i += 1;
        }
        self.seen.push(key);
        true
    }
}

/// Keeps the elements of `items` whose key (`keys[i]` for `items[i]`) did not
/// come up earlier, in their order.
pub fn unique_by_keys<T, K: PartialEq>(items: Vec<T>, keys: Vec<K>) -> (r: Vec<T>)
    requires
        obeys_concrete_eq::<K>(),
        items@.len() == keys@.len(),
    ensures
        r@ == unique_filter(items@, keys@),
{
    let ghost all = items@;
    let ghost all_keys = keys@;
    let n = items.len();
    let mut src = queue_of(items);
    let mut ks = queue_of(keys);
    let mut u: Unique<(), (), K> = Unique::new((), ());
    let mut out: Vec<T> = Vec::new();
    let mut i: usize = 0;
    while i < n
        invariant
            obeys_concrete_eq::<K>(),
            n == all.len(),
            all.len() == all_keys.len(),
            i <= n,
            src@ == all.subrange(i as int, n as int),
            ks@ == all_keys.subrange(i as int, n as int),
            out@ == unique_filter(all.take(i as int), all_keys.take(i as int)),
            forall|k: K| u.seen_keys().contains(k) <==> all_keys.take(i as int).contains(k),
        decreases n - i,
    {
        let x = src.pop_front().unwrap();
        let k = ks.pop_front().unwrap();
        let ghost before = u.seen_keys();
        let keep = u.first_seen(k);
        proof {
            let i1 = (i + 1) as int;
            assert(all.take(i1).take(i as int) =~= all.take(i as int));
            assert(all_keys.take(i1).take(i as int) =~= all_keys.take(i as int));
            assert(all_keys.take(i1) =~= all_keys.take(i as int).push(k));
            assert(all_keys.subrange(0, i as int) =~= all_keys.take(i as int));
            assert forall|k2: K| u.seen_keys().contains(k2) <==> all_keys.take(i1).contains(k2) by {
                lemma_push_contains(before, k, k2);
                lemma_push_contains(all_keys.take(i as int), k, k2);
            }
            assert(src@ =~= all.subrange(i1, n as int));
            assert(ks@ =~= all_keys.subrange(i1, n as int));
        }
        if keep {
            out.push(x);
        }
        i += 1;
    }
    assert(all.take(n as int) =~= all);
    assert(all_keys.take(n as int) =~= all_keys);
    out
}

/// Keeps the elements of a sequence whose key has not come up before.
pub trait UniqueBy<T>: Sized {
    /// The elements, in order.
    spec fn unique_source(&self) -> Seq<T>;

    /// The elements of `self` whose key under `f` no earlier element had, in
    /// their order. `f` is called once per element, in order.
    fn unique_by<K: PartialEq, F: Fn(&T) -> K>(self, f: F) -> (r: Vec<T>)
        requires
            obeys_concrete_eq::<K>(),
            forall|x: &T| #[trigger] f.requires((x,)),
        ensures
            unique_by_outcome::<T, K, F>(self.unique_source(), f, r@),
    ;
}

impl<T> UniqueBy<T> for Vec<T> {
    open spec fn unique_source(&self) -> Seq<T> {
        self@
    }

    fn unique_by<K: PartialEq, F: Fn(&T) -> K>(self, f: F) -> (r: Vec<T>) {
        let mut keys: Vec<K> = Vec::new();
        let mut i: usize = 0;
        while i < self.len()
            invariant
                forall|x: &T| #[trigger] f.requires((x,)),
                i <= self@.len(),
                keys@.len() == i,
                forall|j: int| 0 <= j < i ==> f.ensures((&self@[j],), #[trigger] keys@[j]),
            decreases self@.len() - i,
        {
            let k = f(&self[i]);
            keys.push(k);
            i += 1;
        }
        let ghost ks = keys@;
        let ghost items = self@;
        let r = unique_by_keys(self, keys);
        assert(keyed_by(items, f, ks));
        r
    }
}

} // verus!
