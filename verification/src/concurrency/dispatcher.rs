//! Delivery by key: whoever subscribed to a key gets the next value sent
//! under it, once.
use crate::concurrency::eventual::Poll;
use crate::keyed::{list_of, ListMap};
use crate::seqs::{lemma_filter_all, lemma_filter_no_duplicates, lemma_filter_same};
use crate::types::faithful_key;
use std::collections::HashMap;
use vstd::prelude::*;

verus! {

/// A subscription: its key, the value that was delivered and not yet taken,
/// and what wakes the one who waits for it.
pub struct Slot<K, V, W> {
    pub key: K,
    pub value: Option<V>,
    pub waker: Option<W>,
}

/// What a `Dispatcher` holds: under each key those still waiting for a value,
/// in the order in which they subscribed, and all live subscriptions.
#[verifier::ext_equal]
#[verifier::reject_recursive_types(K)]
pub struct DispatcherView<K, V, W> {
    pub queues: Map<K, Seq<u64>>,
    pub slots: Map<u64, Slot<K, V, W>>,
    pub next_id: u64,
}

/// What wakes those who wait for the given subscriptions, in their order.
pub open spec fn slot_wakers<K, V, W>(slots: Map<u64, Slot<K, V, W>>, ids: Seq<u64>) -> Seq<W>
    decreases ids.len(),
{
    if ids.len() == 0 {
        Seq::empty()
    } else {
        match slots[ids.last()].waker {
            Some(w) => slot_wakers(slots, ids.drop_last()).push(w),
            None => slot_wakers(slots, ids.drop_last()),
        }
    }
}

/// Tells live subscriptions from those that have gone.
pub open spec fn alive<K, V, W>(slots: Map<u64, Slot<K, V, W>>) -> spec_fn(u64) -> bool {
    |id: u64| slots.contains_key(id)
}

impl<K, V, W> DispatcherView<K, V, W> {
    /// Those waiting under a key are distinct live subscriptions to it, and
    /// nothing was delivered to them.
    pub open spec fn wf(self) -> bool {
        &&& forall|k: K, i: int|
            self.queues.contains_key(k) && 0 <= i < self.queues[k].len() ==> {
                let id = #[trigger] self.queues[k][i];
                self.slots.contains_key(id) && self.slots[id].key == k && self.slots[id].value is None
            }
        &&& forall|k: K| #[trigger]
            self.queues.contains_key(k) ==> self.queues[k].no_duplicates()
        &&& forall|id: u64| #[trigger] self.slots.contains_key(id) ==> id < self.next_id
    }

    /// One more subscription to `k`.
    pub open spec fn subscribe(self, k: K) -> Self {
        DispatcherView {
            queues: self.queues.insert(k, list_of(self.queues, k).push(self.next_id)),
            slots: self.slots.insert(self.next_id, Slot { key: k, value: None, waker: None }),
            next_id: (self.next_id + 1) as u64,
        }
    }

    /// `after` is what becomes of it when `v` is sent under `k`: each of those
    /// who waited under `k` has a clone of `v`, and nobody waits under `k`.
    pub open spec fn sent(self, k: K, v: V, after: Self) -> bool where V: Clone {
        &&& after.queues == self.queues.remove(k)
        &&& after.next_id == self.next_id
        &&& after.slots.dom() == self.slots.dom()
        &&& forall|id: u64| #[trigger]
            self.slots.contains_key(id) ==> if list_of(self.queues, k).contains(id) {
                &&& after.slots[id].key == self.slots[id].key
                &&& after.slots[id].value is Some
                &&& cloned(v, after.slots[id].value->0)
                &&& after.slots[id].waker is None
            } else {
                after.slots[id] == self.slots[id]
            }
    }

    /// Under `k` only live subscriptions are left waiting.
    pub open spec fn flush(self, k: K) -> Self {
        if self.queues.contains_key(k) {
            DispatcherView {
                queues: self.queues.insert(k, self.queues[k].filter(alive(self.slots))),
                ..self
            }
        } else {
            self
        }
    }

    /// The value delivered to `id` was taken.
    pub open spec fn taken(self, id: u64) -> Self {
        DispatcherView {
            slots: self.slots.insert(id, Slot { value: None, ..self.slots[id] }),
            ..self
        }
    }

    /// `waker` wakes the one who waits for `id`.
    pub open spec fn park(self, id: u64, waker: W) -> Self {
        DispatcherView {
            slots: self.slots.insert(id, Slot { waker: Some(waker), ..self.slots[id] }),
            ..self
        }
    }

    /// Subscription `id` has gone.
    pub open spec fn release(self, id: u64) -> Self {
        if self.slots.contains_key(id) {
            DispatcherView { slots: self.slots.remove(id), ..self }.flush(self.slots[id].key)
        } else {
            self
        }
    }
}

/// Delivers values of type `V` by keys of type `K`. `W` wakes one who waits.
pub struct Dispatcher<K, V, W> {
    receivers: ListMap<K, u64>,
    slots: HashMap<u64, Slot<K, V, W>>,
    next_id: u64,
}

/// A subscription to a key.
#[derive(Debug)]
pub struct Receiver {
    id: u64,
}

impl Receiver {
    pub closed spec fn id(self) -> u64 {
        self.id
    }
}

impl<K, V, W> View for Dispatcher<K, V, W> {
    type V = DispatcherView<K, V, W>;

    closed spec fn view(&self) -> DispatcherView<K, V, W> {
        DispatcherView { queues: self.receivers@, slots: self.slots@, next_id: self.next_id }
    }
}

impl<K, V, W> Default for Dispatcher<K, V, W> {
    /// Nobody subscribed to anything.
    fn default() -> (d: Self)
        ensures
            d@ == (DispatcherView::<K, V, W> {
                queues: Map::empty(),
                slots: Map::empty(),
                next_id: 0,
            }),
            d.wf(),
    {
        let d = Dispatcher { receivers: ListMap::new(), slots: HashMap::new(), next_id: 0 };
        assert(d@.queues =~= Map::empty());
        assert(d@.slots =~= Map::empty());
        d
    }
}

impl<K, V, W> Dispatcher<K, V, W> {
    pub closed spec fn wf(self) -> bool {
        self.receivers.wf() && self@.wf()
    }

    /// Whether one more can subscribe.
    pub fn has_room(&self) -> (b: bool)
        ensures
            b <==> self@.next_id < u64::MAX,
    {
        self.next_id < u64::MAX
    }

    /// What well-formedness says of the view.
    pub proof fn lemma_wf(self)
        requires
            self.wf(),
        ensures
            self@.wf(),
    {
    }
}

impl<K: PartialEq + Clone, V, W> Dispatcher<K, V, W> {
    /// Subscribes to `k`.
    pub fn subscribe(&mut self, k: &K) -> (r: Receiver)
        requires
            faithful_key::<K>(),
            old(self).wf(),
            old(self)@.next_id < u64::MAX,
        ensures
            final(self).wf(),
            r.id() == old(self)@.next_id,
            final(self)@ == old(self)@.subscribe(*k),
    {
        let id: u64 = self.next_id;
        let key = k.clone();
        assert(cloned(*k, key));
        self.slots.insert(id, Slot { key, value: None, waker: None });
        let key = k.clone();
        assert(cloned(*k, key));
        self.receivers.push(key, id);
        self.next_id = id + 1;
        proof {
            let o = old(self)@;
            let l = list_of(o.queues, *k);
            assert(self@ =~= o.subscribe(*k));
            assert forall|q: K, i: int|
                self@.queues.contains_key(q) && 0 <= i < self@.queues[q].len() implies ({
                let x = #[trigger] self@.queues[q][i];
                self@.slots.contains_key(x) && self@.slots[x].key == q && self@.slots[x].value is None
            }) by {
                if q == *k {
                    if i < l.len() {
                        assert(o.queues[q][i] == l[i]);
                    }
                } else {
                    assert(o.queues[q][i] == self@.queues[q][i]);
                }
            }
            assert(!l.contains(id)) by {
                if l.contains(id) {
                    let i = l.index_of(id);
                    assert(o.queues[*k][i] == id);
                }
            }
            assert forall|q: K| #[trigger] self@.queues.contains_key(q) implies self@.queues[q].no_duplicates() by {
                if q == *k {
                    assert(l.no_duplicates());
                } else {
                    assert(o.queues.contains_key(q));
                }
            }
        }
        Receiver { id }
    }

    /// Sends `v` to those who wait under `k`. Returns what wakes them.
    pub fn send(&mut self, k: &K, v: V) -> (woken: Vec<W>) where V: Clone
        requires
            faithful_key::<K>(),
            old(self).wf(),
        ensures
            final(self).wf(),
            old(self)@.sent(*k, v, final(self)@),
            woken@ == slot_wakers(old(self)@.slots, list_of(old(self)@.queues, *k)),
    {
        let ghost o = self@;
        let mut woken: Vec<W> = Vec::new();
        let ids: Vec<u64> = match self.receivers.take(k) {
            Some(ids) => ids,
            None => Vec::new(),
        };
        assert(ids@ == list_of(o.queues, *k));
        let n: usize = ids.len();
        for i in 0..n
            invariant
                n == ids.len(),
                ids@ == list_of(o.queues, *k),
                o.wf(),
                self.receivers.wf(),
                self.receivers@ == o.queues.remove(*k),
                self.next_id == o.next_id,
                self.slots@.dom() == o.slots.dom(),
                forall|id: u64| #[trigger]
                    o.slots.contains_key(id) ==> if ids@.take(i as int).contains(id) {
                        &&& self.slots@[id].key == o.slots[id].key
                        &&& self.slots@[id].value is Some
                        &&& cloned(v, self.slots@[id].value->0)
                        &&& self.slots@[id].waker is None
                    } else {
                        self.slots@[id] == o.slots[id]
                    },
                woken@ == slot_wakers(o.slots, ids@.take(i as int)),
        {
            let id: u64 = ids[i];
            let ghost before = ids@.take(i as int);
            let ghost after = ids@.take(i + 1);
            proof {
                assert(o.queues[*k][i as int] == id);
                assert(ids@.no_duplicates());
                assert(!before.contains(id));
                assert(after =~= before.push(id));
                assert(after.drop_last() =~= before);
                assert forall|x: u64| after.contains(x) <==> before.contains(x) || x == id by {
                    if before.contains(x) {
                        let j = before.index_of(x);
                        assert(after[j] == x);
                    }
                    assert(after[i as int] == id);
                    if after.contains(x) && x != id {
                        let j = after.index_of(x);
                        assert(before[j] == x);
                    }
                }
            }
            if let Some(mut slot) = self.slots.remove(&id) {
                slot.value = Some(v.clone());
                if let Some(w) = slot.waker.take() {
                    woken.push(w);
                }
                self.slots.insert(id, slot);
            }
            assert(self.slots@.dom() =~= o.slots.dom());
        }
        proof {
            assert(ids@.take(n as int) =~= ids@);
            assert forall|q: K, i: int|
                self@.queues.contains_key(q) && 0 <= i < self@.queues[q].len() implies ({
                let x = #[trigger] self@.queues[q][i];
                self@.slots.contains_key(x) && self@.slots[x].key == q && self@.slots[x].value is None
            }) by {
                let x = o.queues[q][i];
                if ids@.contains(x) {
                    let j = ids@.index_of(x);
                    assert(o.queues[*k][j] == x);
                }
            }
            assert forall|q: K| #[trigger] self@.queues.contains_key(q) implies self@.queues[q].no_duplicates() by {
                assert(o.queues.contains_key(q));
            }
        }
        woken
    }

    /// Leaves only live subscriptions waiting under `k`.
    fn flush(&mut self, k: &K)
        requires
            faithful_key::<K>(),
            old(self).receivers.wf(),
        ensures
            final(self).receivers.wf(),
            final(self)@ == old(self)@.flush(*k),
    {
        let ghost o = self@;
        if let Some(ids) = self.receivers.take(k) {
            let mut left: Vec<u64> = Vec::new();
            let ghost keep = alive(o.slots);
            for i in 0..ids.len()
                invariant
                    self.slots@ == o.slots,
                    keep == alive(o.slots),
                    left@ == ids@.take(i as int).filter(keep),
            {
                proof {
                    reveal(Seq::filter);
                    assert(ids@.take(i + 1).drop_last() =~= ids@.take(i as int));
                }
                if self.slots.contains_key(&ids[i]) {
                    left.push(ids[i]);
                }
            }
            assert(ids@.take(ids.len() as int) =~= ids@);
            let key = k.clone();
            assert(cloned(*k, key));
            self.receivers.put(key, left);
        }
        assert(self@ =~= o.flush(*k));
    }

    /// Subscription `r` has gone.
    pub fn release(&mut self, r: Receiver)
        requires
            faithful_key::<K>(),
            old(self).wf(),
        ensures
            final(self).wf(),
            final(self)@ == old(self)@.release(r.id()),
    {
        let ghost o = self@;
        if let Some(slot) = self.slots.remove(&r.id) {
            let ghost mid = self@;
            assert(mid =~= (DispatcherView { slots: o.slots.remove(r.id), ..o }));
            self.flush(&slot.key);
            proof {
                lemma_release_wf(o, r.id);
            }
        }
    }
}

proof fn lemma_release_wf<K, V, W>(o: DispatcherView<K, V, W>, id: u64)
    requires
        o.wf(),
        o.slots.contains_key(id),
    ensures
        o.release(id).wf(),
{
    let s = o.release(id);
    let slots = o.slots.remove(id);
    let key = o.slots[id].key;
    let keep = alive(slots);
    assert forall|q: K, i: int| s.queues.contains_key(q) && 0 <= i < s.queues[q].len() implies ({
        let x = #[trigger] s.queues[q][i];
        s.slots.contains_key(x) && s.slots[x].key == q && s.slots[x].value is None
    }) by {
        let x = s.queues[q][i];
        if q == key {
            o.queues[q].lemma_filter_contains_rev(keep, x);
            o.queues[q].lemma_filter_pred(keep, i);
            let j = o.queues[q].index_of(x);
            assert(o.queues[q][j] == x);
        } else {
            assert(o.queues[q][i] == x);
        }
    }
    assert forall|q: K| #[trigger] s.queues.contains_key(q) implies s.queues[q].no_duplicates() by {
        assert(o.queues.contains_key(q));
        if q == key {
            lemma_filter_no_duplicates(o.queues[q], keep);
        }
    }
}

impl Receiver {
    /// The value that was delivered, which is then no longer there. If there
    /// is none, `waker` is kept, to be given back on delivery.
    pub fn poll<K, V, W>(&self, d: &mut Dispatcher<K, V, W>, waker: W) -> (r: Poll<V>)
        requires
            old(d).wf(),
        ensures
            final(d).wf(),
            ({
                let o = old(d)@;
                let id = self.id();
                if !o.slots.contains_key(id) {
                    r is Pending && final(d)@ == o
                } else {
                    match o.slots[id].value {
                        Some(v) => r == Poll::<V>::Ready(v) && final(d)@ == o.taken(id),
                        None => r is Pending && final(d)@ == o.park(id, waker),
                    }
                }
            }),
    {
        let ghost o = d@;
        let ghost id = self.id;
        let mut r = Poll::Pending;
        if let Some(mut slot) = d.slots.remove(&self.id) {
            match slot.value.take() {
                Some(v) => {
                    r = Poll::Ready(v);
                },
                None => {
                    slot.waker = Some(waker);
                },
            }
            d.slots.insert(self.id, slot);
        }
        proof {
            if o.slots.contains_key(id) {
                assert(r is Ready ==> d@ =~= o.taken(id));
                assert(r is Pending ==> d@ =~= o.park(id, waker));
            } else {
                assert(d@ =~= o);
            }
            assert forall|q: K, i: int| d@.queues.contains_key(q) && 0 <= i < d@.queues[q].len() implies ({
                let x = #[trigger] d@.queues[q][i];
                d@.slots.contains_key(x) && d@.slots[x].key == q && d@.slots[x].value is None
            }) by {
                assert(o.queues[q][i] == d@.queues[q][i]);
            }
            assert forall|q: K| #[trigger] d@.queues.contains_key(q) implies d@.queues[q].no_duplicates() by {
                assert(o.queues.contains_key(q));
            }
        }
        r
    }
}

/// Whoever waits under `k` when `v` is sent under it has a clone of `v` to
/// take; once taken it is gone, and what is sent later does not replace it.
pub proof fn sent_value_is_received_once<K, V: Clone, W>(
    d: DispatcherView<K, V, W>,
    k: K,
    id: u64,
    v: V,
    sent: DispatcherView<K, V, W>,
    later: V,
    after: DispatcherView<K, V, W>,
)
    requires
        d.wf(),
        list_of(d.queues, k).contains(id),
        d.sent(k, v, sent),
        sent.taken(id).sent(k, later, after),
    ensures
        sent.slots.contains_key(id),
        sent.slots[id].value is Some,
        cloned(v, sent.slots[id].value->0),
        sent.taken(id).slots[id].value is None,
        after.slots[id].value is None,
{
    let i = list_of(d.queues, k).index_of(id);
    assert(d.queues[k][i] == id);
    assert(d.slots.contains_key(id));
    assert(sent.slots.contains_key(id));
    assert(sent.taken(id).slots.contains_key(id));
}

/// A subscription waits under its key, and gets what is sent there next.
pub proof fn subscriber_waits<K, V: Clone, W>(
    d: DispatcherView<K, V, W>,
    k: K,
    v: V,
    after: DispatcherView<K, V, W>,
)
    requires
        d.wf(),
        d.next_id < u64::MAX,
        d.subscribe(k).sent(k, v, after),
    ensures
        list_of(d.subscribe(k).queues, k).contains(d.next_id),
        d.subscribe(k).slots[d.next_id].value is None,
        after.slots[d.next_id].value is Some,
        cloned(v, after.slots[d.next_id].value->0),
{
    let s = d.subscribe(k);
    let l = list_of(d.queues, k);
    assert(s.queues[k][l.len() as int] == d.next_id);
    assert(s.slots.contains_key(d.next_id));
}

/// What is sent under one key changes nothing for those of another.
pub proof fn other_keys_are_left_alone<K, V: Clone, W>(
    d: DispatcherView<K, V, W>,
    k: K,
    v: V,
    after: DispatcherView<K, V, W>,
    id: u64,
)
    requires
        d.wf(),
        d.sent(k, v, after),
        d.slots.contains_key(id),
        d.slots[id].key != k,
    ensures
        after.slots.contains_key(id),
        after.slots[id] == d.slots[id],
        list_of(after.queues, d.slots[id].key) == list_of(d.queues, d.slots[id].key),
{
    let l = list_of(d.queues, k);
    if l.contains(id) {
        let i = l.index_of(id);
        assert(d.queues[k][i] == id);
    }
    assert(after.slots.dom().contains(id));
}

/// When a subscription goes, the others stay as they are, and those who wait
/// go on waiting in the same order.
pub proof fn release_keeps_the_others<K, V, W>(d: DispatcherView<K, V, W>, id: u64, k: K)
    requires
        d.wf(),
        d.slots.contains_key(id),
    ensures
        d.release(id).slots == d.slots.remove(id),
        list_of(d.release(id).queues, k) == list_of(d.queues, k).filter(|x: u64| x != id),
{
    let others = |x: u64| x != id;
    let l = list_of(d.queues, k);
    assert forall|i: int| 0 <= i < l.len() implies d.slots.contains_key(#[trigger] l[i])
        && d.slots[l[i]].key == k by {
        assert(d.queues[k][i] == l[i]);
    }
    if k == d.slots[id].key {
        lemma_filter_same(l, alive(d.slots.remove(id)), others);
    } else {
        assert forall|i: int| 0 <= i < l.len() implies others(#[trigger] l[i]) by {}
        lemma_filter_all(l, others);
    }
}

/// A subscription stands last under its key, with nothing delivered and nothing to
/// wake it. Nothing changes for the others.
pub proof fn a_subscription_is_added<K, V, W>(d: DispatcherView<K, V, W>, k: K, id: u64, j: K)
    requires
        d.wf(),
        d.next_id < u64::MAX,
        id != d.next_id,
        j != k,
    ensures
        ({
            let s = d.subscribe(k);
            let n = d.next_id;
            &&& s.slots.contains_key(n)
            &&& s.slots[n].key == k
            &&& s.slots[n].value is None
            &&& s.slots[n].waker is None
            &&& list_of(s.queues, k) == list_of(d.queues, k).push(n)
            &&& s.next_id == n + 1
            &&& s.slots.contains_key(id) == d.slots.contains_key(id)
            &&& s.slots[id] == d.slots[id]
            &&& list_of(s.queues, j) == list_of(d.queues, j)
        }),
{
}

/// What is sent under a key goes to all who wait under it: each has it from then
/// on, is to be woken no more, and no longer waits. Nothing changes for those who
/// do not wait under it.
pub proof fn what_is_sent_goes_to_all_who_wait<K, V: Clone, W>(
    d: DispatcherView<K, V, W>,
    k: K,
    v: V,
    after: DispatcherView<K, V, W>,
    id: u64,
    j: K,
)
    requires
        d.wf(),
        d.sent(k, v, after),
        d.slots.contains_key(id),
        j != k,
    ensures
        after.slots.contains_key(id),
        after.slots[id].key == d.slots[id].key,
        list_of(d.queues, k).contains(id) ==> after.slots[id].value is Some && cloned(
            v,
            after.slots[id].value->0,
        ) && after.slots[id].waker is None,
        !list_of(d.queues, k).contains(id) ==> after.slots[id] == d.slots[id],
        list_of(after.queues, k).len() == 0,
        list_of(after.queues, j) == list_of(d.queues, j),
        after.next_id == d.next_id,
{
    assert(after.slots.dom().contains(id));
}

/// Who is woken are those who wait and were polled, in the order in which they
/// wait: each of them, and nobody else.
pub proof fn all_who_wait_are_woken<K, V, W>(slots: Map<u64, Slot<K, V, W>>, ids: Seq<u64>)
    ensures
        slot_wakers(slots, ids) == ids.filter(|id: u64| slots[id].waker is Some).map_values(
            |id: u64| slots[id].waker->0,
        ),
        forall|i: int|
            0 <= i < ids.len() ==> (slots[#[trigger] ids[i]].waker matches Some(w) ==> slot_wakers(
                slots,
                ids,
            ).contains(w)),
    decreases ids.len(),
{
    let p = |id: u64| slots[id].waker is Some;
    let f = |id: u64| slots[id].waker->0;
    reveal(Seq::filter);
    if ids.len() > 0 {
        let rest = ids.drop_last();
        all_who_wait_are_woken(slots, rest);
        assert(ids =~= rest.push(ids.last()));
        rest.lemma_filter_push(ids.last(), p);
        assert(slot_wakers(slots, ids) =~= ids.filter(p).map_values(f));
        assert forall|i: int| 0 <= i < ids.len() implies (slots[#[trigger] ids[i]].waker matches Some(
            w,
        ) ==> slot_wakers(slots, ids).contains(w)) by {
            if slots[ids[i]].waker is Some {
                let w = slots[ids[i]].waker->0;
                if i < rest.len() {
                    assert(rest[i] == ids[i]);
                    let k = slot_wakers(slots, rest).index_of(w);
                    assert(slot_wakers(slots, ids)[k] == w);
                } else {
                    assert(slot_wakers(slots, ids).last() == w);
                }
            }
        }
    } else {
        assert(slot_wakers(slots, ids) =~= ids.filter(p).map_values(f));
    }
}

/// A value is taken by the one it was delivered to, and one who waits is woken by
/// what it was polled with last. Nothing changes for the others.
pub proof fn polling_is_ones_own_affair<K, V, W>(
    d: DispatcherView<K, V, W>,
    id: u64,
    waker: W,
    other: u64,
)
    requires
        d.slots.contains_key(id),
        other != id,
    ensures
        d.taken(id).slots[id].value is None,
        d.taken(id).slots[id].key == d.slots[id].key,
        d.taken(id).slots[id].waker == d.slots[id].waker,
        d.taken(id).slots.contains_key(other) == d.slots.contains_key(other),
        d.taken(id).slots[other] == d.slots[other],
        d.taken(id).queues == d.queues,
        d.taken(id).next_id == d.next_id,
        d.park(id, waker).slots[id].waker == Some(waker),
        d.park(id, waker).slots[id].value == d.slots[id].value,
        d.park(id, waker).slots[id].key == d.slots[id].key,
        d.park(id, waker).slots.contains_key(other) == d.slots.contains_key(other),
        d.park(id, waker).slots[other] == d.slots[other],
        d.park(id, waker).queues == d.queues,
        d.park(id, waker).next_id == d.next_id,
{
}

/// Who does not subscribe cannot go.
pub proof fn releasing_nobody_changes_nothing<K, V, W>(d: DispatcherView<K, V, W>, id: u64)
    requires
        !d.slots.contains_key(id),
    ensures
        d.release(id) == d,
{
}

} // verus!
