//! Putting rendered frames back in order: frames finish on worker threads in
//! any order, and are written out strictly by index.
use vstd::prelude::*;
use std::collections::BTreeMap;
use vstd::std_specs::iter::IteratorSpec;
use vstd::std_specs::cmp::OrdSpec;

verus! {

broadcast use vstd::std_specs::btree::group_btree_axioms, vstd::laws_cmp::group_laws_cmp;

/// Items waiting for their turn, and the index of the next item to write.
pub struct ReorderBuffer<T> {
    next: usize,
    pending: BTreeMap<usize, T>,
}

impl<T> ReorderBuffer<T> {
    /// The index of the next item to be written.
    pub closed spec fn spec_next(&self) -> usize {
        self.next
    }

    /// The items received and not yet written, by index.
    pub closed spec fn spec_pending(&self) -> Map<usize, T> {
        self.pending@
    }

    /// An empty buffer waiting for item 0.
    pub fn new() -> (b: Self)
        ensures
            b.spec_next() == 0,
            b.spec_pending() == Map::<usize, T>::empty(),
    {
        ReorderBuffer { next: 0, pending: BTreeMap::new() }
    }

    /// The index of the next item to be written.
    pub fn next_index(&self) -> (n: usize)
        ensures
            n == self.spec_next(),
    {
        self.next
    }

    /// Receives item `idx` (replacing an earlier item under the same index).
    pub fn insert(&mut self, idx: usize, item: T)
        ensures
            final(self).spec_next() == old(self).spec_next(),
            final(self).spec_pending() == old(self).spec_pending().insert(idx, item),
    {
        self.pending.insert(idx, item);
    }

    /// The next item in index order, if it has arrived; the buffer then
    /// waits for the one after it.
    pub fn pop_ready(&mut self) -> (r: Option<T>)
        requires
            old(self).spec_next() < usize::MAX,
        ensures
            old(self).spec_pending().contains_key(old(self).spec_next()) ==> {
                &&& r == Some(old(self).spec_pending()[old(self).spec_next()])
                &&& final(self).spec_pending() == old(self).spec_pending().remove(old(self).spec_next())
                &&& final(self).spec_next() == old(self).spec_next() + 1
            },
            !old(self).spec_pending().contains_key(old(self).spec_next()) ==> {
                &&& r is None
                &&& final(self).spec_pending() == old(self).spec_pending()
                &&& final(self).spec_next() == old(self).spec_next()
            },
    {
        match self.pending.remove(&self.next) {
            Some(item) => {
                self.next = self.next + 1;
                Some(item)
            },
            None => None,
        }
    }

    /// Receives item `idx` and hands back every item that is now due, in
    /// index order: the longest run of received items from the next index on.
    /// The buffer then waits for the first index after that run.
    pub fn accept(&mut self, idx: usize, item: T) -> (run: Vec<T>)
        requires
            idx < usize::MAX,
            !old(self).spec_pending().contains_key(usize::MAX),
        ensures
            run@.len() == ready_len(old(self).spec_pending().insert(idx, item), old(self).spec_next()),
            final(self).spec_next() == old(self).spec_next() + run@.len(),
            forall|k: int|
                0 <= k < run@.len() ==> #[trigger] run@[k] == old(self).spec_pending().insert(
                    idx,
                    item,
                )[(old(self).spec_next() + k) as usize],
            final(self).spec_pending() == old(self).spec_pending().insert(idx, item).remove_keys(
                Set::new(|j: usize| old(self).spec_next() <= j < final(self).spec_next()),
            ),
            !final(self).spec_pending().contains_key(usize::MAX),
            (final(self).spec_next(), final(self).spec_pending(), run@) == arrive(
                old(self).spec_next(),
                old(self).spec_pending(),
                idx,
                item,
            ),
    {
        let ghost n0 = self.next;
        self.insert(idx, item);
        let ghost m = self.pending@;
        let mut run: Vec<T> = Vec::new();
        proof {
            lemma_ready_len_unfold(m, n0);
        }
        loop
            invariant
                !m.contains_key(usize::MAX),
                n0 <= self.next,
                run@.len() == self.next - n0,
                ready_len(m, n0) == run@.len() + ready_len(m, self.next),
                forall|j: usize| n0 <= j < self.next ==> m.contains_key(j),
                forall|k: int| 0 <= k < run@.len() ==> #[trigger] run@[k] == m[(n0 + k) as usize],
                self.pending@ == m.remove_keys(Set::new(|j: usize| n0 <= j < self.next)),
            ensures
                run@.len() == ready_len(m, n0),
                run@.len() == self.next - n0,
                forall|k: int| 0 <= k < run@.len() ==> #[trigger] run@[k] == m[(n0 + k) as usize],
                self.pending@ == m.remove_keys(Set::new(|j: usize| n0 <= j < self.next)),
            decreases usize::MAX - self.next,
        {
            let ghost before = self.next;
            if self.next == usize::MAX {
                proof {
                    lemma_ready_len_unfold(m, before);
                }
                break;
            }
            proof {
                lemma_ready_len_unfold(m, before);
                if self.pending@.contains_key(before) {
                    assert(m.contains_key(before));
                }
            }
            match self.pop_ready() {
                Some(x) => {
                    proof {
                        assert(self.pending@ =~= m.remove_keys(
                            Set::new(|j: usize| n0 <= j < self.next),
                        ));
                    }
                    run.push(x);
                },
                None => {
                    proof {
                        assert(!m.contains_key(before));
                    }
                    break;
                },
            }
        }
        proof {
            let len = ready_len(m, n0);
            assert(run@ =~= Seq::new(len, |k: int| m[(n0 + k) as usize]));
        }
        run
    }

    /// The items still waiting, in index order (the buffer is used up).
    pub fn take_rest(self) -> (items: Vec<T>)
        ensures
            exists|keys: Seq<usize>|
                {
                    &&& keys.len() == items@.len()
                    &&& forall|i: int, j: int| 0 <= i < j < keys.len() ==> keys[i] < keys[j]
                    &&& forall|k: usize| #[trigger] self.spec_pending().contains_key(k) <==> keys.contains(k)
                    &&& forall|i: int| 0 <= i < keys.len() ==> #[trigger] items@[i] == self.spec_pending()[keys[i]]
                },
    {
        let mut pending = self.pending;
        let ghost m0 = pending@;
        let mut keys: Vec<usize> = Vec::new();
        let ghost ks = vstd::std_specs::btree::spec_keys_iter(&pending).remaining();
        for k in it: pending.keys()
            invariant
                it.seq() == ks,
                keys@ == ks.take(it.index() as int).map_values(|r: &usize| *r),
        {
            keys.push(*k);
        }
        proof {
            assert(keys@ == ks.map_values(|r: &usize| *r));
            vstd::std_specs::btree::axiom_spec_keys_iter(&pending);
            lemma_increasing_keys(ks);
            assert forall|k: usize| #[trigger] m0.contains_key(k) <==> keys@.contains(k) by {
                if m0.contains_key(k) {
                    assert(ks.unref().to_set().contains(k));
                    let i = choose|i: int| 0 <= i < ks.len() && ks.unref()[i] == k;
                    assert(keys@[i] == k);
                }
                if keys@.contains(k) {
                    let i = choose|i: int| 0 <= i < keys@.len() && keys@[i] == k;
                    assert(ks.unref()[i] == k);
                    assert(ks.unref().contains(k));
                }
            }
        }
        let ghost key_seq = keys@;
        let mut items: Vec<T> = Vec::new();
        let mut i: usize = 0;
        while i < keys.len()
            invariant
                i <= keys@.len(),
                keys@ == key_seq,
                forall|a: int, b: int| 0 <= a < b < key_seq.len() ==> key_seq[a] < key_seq[b],
                forall|k: usize| #[trigger] m0.contains_key(k) <==> key_seq.contains(k),
                items@.len() == i,
                forall|a: int| 0 <= a < i ==> #[trigger] items@[a] == m0[key_seq[a]],
                forall|a: int| i <= a < key_seq.len() ==> pending@.contains_key(#[trigger] key_seq[a]),
                forall|k: usize| #[trigger] pending@.contains_key(k) ==> m0.contains_key(k) && pending@[k] == m0[k],
            decreases keys.len() - i,
        {
            let k = keys[i];
            assert(pending@.contains_key(key_seq[i as int]));
            match pending.remove(&k) {
                Some(v) => {
                    items.push(v);
                },
                None => {
                    assert(false);
                },
            }
            i = i + 1;
        }
        items
    }
}

/// The number of items of `m` due from index `from` on: the length of the
/// run of indices `from`, `from + 1`, … that `m` holds.
pub open spec fn ready_len<T>(m: Map<usize, T>, from: usize) -> nat
    decreases usize::MAX - from,
{
    if from < usize::MAX && m.contains_key(from) {
        1 + ready_len(m, (from + 1) as usize)
    } else {
        0
    }
}

proof fn lemma_ready_len_unfold<T>(m: Map<usize, T>, from: usize)
    ensures
        ready_len(m, from) == if from < usize::MAX && m.contains_key(from) {
            1 + ready_len(m, (from + 1) as usize)
        } else {
            0
        },
{
}

/// The state after item `idx` arrives at a buffer waiting for `next` with
/// `pending` items: the index it then waits for, the items still pending,
/// and the run of items handed back.
pub open spec fn arrive<T>(next: usize, pending: Map<usize, T>, idx: usize, item: T) -> (
    usize,
    Map<usize, T>,
    Seq<T>,
) {
    let m = pending.insert(idx, item);
    let len = ready_len(m, next);
    let n2 = (next + len) as usize;
    (
        n2,
        m.remove_keys(Set::new(|j: usize| next <= j < n2)),
        Seq::new(len, |k: int| m[(next + k) as usize]),
    )
}

/// Everything handed back while items arrive in the order `order`, item
/// `j` being `items[j]`, starting from a buffer waiting for `next` with
/// `pending` items.
pub open spec fn feed<T>(next: usize, pending: Map<usize, T>, order: Seq<usize>, items: Seq<T>) -> Seq<
    T,
>
    decreases order.len(),
{
    if order.len() == 0 {
        seq![]
    } else {
        let (n2, p2, run) = arrive(next, pending, order[0], items[order[0] as int]);
        run + feed(n2, p2, order.drop_first(), items)
    }
}

proof fn lemma_ready_len_run<T>(m: Map<usize, T>, from: usize)
    ensures
        from + ready_len(m, from) <= usize::MAX,
        forall|k: int| 0 <= k < ready_len(m, from) ==> m.contains_key(#[trigger] ((from + k) as usize)),
        from + ready_len(m, from) < usize::MAX ==> !m.contains_key(
            (from + ready_len(m, from)) as usize,
        ),
    decreases usize::MAX - from,
{
    if from < usize::MAX && m.contains_key(from) {
        lemma_ready_len_run(m, (from + 1) as usize);
        assert forall|k: int| 0 <= k < ready_len(m, from) implies m.contains_key(
            #[trigger] ((from + k) as usize),
        ) by {
            if k > 0 {
                assert(((from + 1) as usize + (k - 1)) as usize == (from + k) as usize);
            }
        }
    }
}

/// The items that have arrived and are not yet handed back, when the items
/// not in `rest` have arrived and those before `next` were handed back.
pub open spec fn waiting<T>(next: usize, rest: Seq<usize>, items: Seq<T>) -> Map<usize, T> {
    Map::new(
        |j: usize| j < items.len() && next <= j && !rest.contains(j),
        |j: usize| items[j as int],
    )
}

proof fn lemma_feed_hands_back_the_rest<T>(next: usize, rest: Seq<usize>, items: Seq<T>)
    requires
        items.len() < usize::MAX,
        next <= items.len(),
        rest.no_duplicates(),
        forall|k: int| 0 <= k < rest.len() ==> next <= #[trigger] rest[k] < items.len(),
        next < items.len() ==> rest.contains(next),
    ensures
        feed(next, waiting(next, rest, items), rest, items) == items.subrange(
            next as int,
            items.len() as int,
        ),
    decreases rest.len(),
{
    let n = items.len();
    let pending = waiting(next, rest, items);
    if rest.len() == 0 {
        assert(items.subrange(next as int, n as int) =~= seq![]);
    } else {
        let i = rest[0];
        let rest2 = rest.drop_first();
        let m = pending.insert(i, items[i as int]);
        assert(m =~= Map::new(
            |j: usize| j < n && next <= j && !rest2.contains(j),
            |j: usize| items[j as int],
        )) by {
            assert forall|j: usize| #[trigger] m.contains_key(j) <==> (j < n && next <= j && !rest2.contains(j)) by {
                if rest.contains(j) && j != i {
                    let k = choose|k: int| 0 <= k < rest.len() && rest[k] == j;
                    assert(k != 0);
                    assert(rest2[k - 1] == j);
                }
                if rest2.contains(j) {
                    let k = choose|k: int| 0 <= k < rest2.len() && rest2[k] == j;
                    assert(rest[k + 1] == j);
                    assert(j != i);
                }
            }
        }
        lemma_ready_len_run(m, next);
        let len = ready_len(m, next);
        let n2 = (next + len) as usize;
        assert(n2 <= n) by {
            if n2 > n {
                assert(m.contains_key((next + (n - next)) as usize));
            }
        }
        let p2 = m.remove_keys(Set::new(|j: usize| next <= j < n2));
        assert(p2 =~= waiting(n2, rest2, items));
        assert forall|k: int| 0 <= k < rest2.len() implies n2 <= #[trigger] rest2[k] < n by {
            assert(rest2[k] == rest[k + 1]);
            if rest2[k] < n2 {
                assert(m.contains_key((next + (rest2[k] - next)) as usize));
            }
        }
        assert(rest2.no_duplicates()) by {
            assert forall|a: int, b: int| 0 <= a < rest2.len() && 0 <= b < rest2.len() && a != b implies rest2[a] != rest2[b] by {
                assert(rest2[a] == rest[a + 1] && rest2[b] == rest[b + 1]);
            }
        }
        if n2 < n {
            assert(!m.contains_key(n2));
        }
        lemma_feed_hands_back_the_rest(n2, rest2, items);
        let run = Seq::new(len, |k: int| m[(next + k) as usize]);
        assert(run =~= items.subrange(next as int, n2 as int)) by {
            assert forall|k: int| 0 <= k < len implies #[trigger] run[k] == items[next + k] by {
                assert(m.contains_key((next + k) as usize));
            }
        }
        assert(arrive(next, pending, i, items[i as int]) == (n2, p2, run));
        assert(items.subrange(next as int, n as int) =~= items.subrange(next as int, n2 as int)
            + items.subrange(n2 as int, n as int));
    }
}

/// Whatever order the items `0..n` arrive in, accepting them one by one
/// hands back every item exactly once, in index order.
pub proof fn law_arrivals_come_out_in_order<T>(order: Seq<usize>, items: Seq<T>)
    requires
        items.len() < usize::MAX,
        order.no_duplicates(),
        forall|k: int| 0 <= k < order.len() ==> #[trigger] order[k] < items.len(),
        forall|j: usize| j < items.len() ==> #[trigger] order.contains(j),
    ensures
        feed(0, Map::empty(), order, items) == items,
{
    assert(waiting(0, order, items) =~= Map::<usize, T>::empty());
    if items.len() > 0 {
        assert(order.contains(0));
    }
    lemma_feed_hands_back_the_rest(0, order, items);
    assert(items.subrange(0, items.len() as int) =~= items);
}

proof fn lemma_increasing_keys(ks: Seq<&usize>)
    requires
        vstd::std_specs::btree::increasing_seq(ks),
    ensures
        forall|i: int, j: int| 0 <= i < j < ks.len() ==> *ks[i] < *ks[j],
{
    broadcast use vstd::laws_cmp::lemma_ref_obeys_cmp_spec;

    assert(vstd::laws_cmp::obeys_cmp::<usize>());
    assert(vstd::laws_cmp::obeys_cmp::<&usize>());
    vstd::std_specs::btree::axiom_increasing_seq_meaning(ks);
    assert forall|i: int, j: int| 0 <= i < j < ks.len() implies *ks[i] < *ks[j] by {
        assert(OrdSpec::cmp_spec(&ks[i], &ks[j]) is Less);
    }
}

} // verus!
