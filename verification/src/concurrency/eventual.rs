//! A value that is set at most once, and those who wait for it.
use vstd::prelude::*;

verus! {

/// What polling gives: the value, or nothing yet.
#[derive(Debug, PartialEq, Eq)]
pub enum Poll<T> {
    Ready(T),
    Pending,
}

/// A waiter as it stands in the list: who waits, and what wakes it, once it
/// has been polled.
pub type Entry<W> = (u64, Option<W>);

/// What an `Eventual` holds.
#[verifier::ext_equal]
pub struct EventualView<T, W> {
    pub value: Option<T>,
    pub waiters: Seq<Entry<W>>,
    pub next_id: u64,
}

/// What wakes the given waiters, in their order; those never polled have none.
pub open spec fn wakers<W>(waiters: Seq<Entry<W>>) -> Seq<W>
    decreases waiters.len(),
{
    if waiters.len() == 0 {
        Seq::empty()
    } else {
        match waiters.last().1 {
            Some(w) => wakers(waiters.drop_last()).push(w),
            None => wakers(waiters.drop_last()),
        }
    }
}

/// Tells waiter `id` from the others.
pub open spec fn other_than<W>(id: u64) -> spec_fn(Entry<W>) -> bool {
    |w: Entry<W>| w.0 != id
}

impl<T, W> EventualView<T, W> {
    /// Ids are handed out once each, so no two waiters share one.
    pub open spec fn wf(self) -> bool {
        &&& forall|i: int| 0 <= i < self.waiters.len() ==> (#[trigger] self.waiters[i]).0 < self.next_id
        &&& forall|i: int, j: int|
            0 <= i < j < self.waiters.len() ==> (#[trigger] self.waiters[i]).0 != (
            #[trigger] self.waiters[j]).0
    }

    /// The value is there from now on, and nobody waits any more.
    pub open spec fn set(self, v: T) -> Self {
        EventualView { value: Some(v), waiters: Seq::empty(), next_id: self.next_id }
    }

    /// One more waiter at the end of the list.
    pub open spec fn wait(self) -> Self {
        EventualView {
            value: self.value,
            waiters: self.waiters.push((self.next_id, None)),
            next_id: (self.next_id + 1) as u64,
        }
    }

    /// Waiter `id` is to be woken by `waker`.
    pub open spec fn park(self, id: u64, waker: W) -> Self {
        EventualView {
            value: self.value,
            waiters: self.waiters.map_values(
                |w: Entry<W>|
                    if w.0 == id {
                        (id, Some(waker))
                    } else {
                        w
                    },
            ),
            next_id: self.next_id,
        }
    }

    /// Waiter `id` is no longer in the list.
    pub open spec fn release(self, id: u64) -> Self {
        EventualView {
            value: self.value,
            waiters: self.waiters.filter(other_than(id)),
            next_id: self.next_id,
        }
    }
}

/// A value of type `T` that is set at most once. `W` is what wakes a waiter.
pub struct Eventual<T, W> {
    value: Option<T>,
    waiters: Vec<Entry<W>>,
    next_id: u64,
}

/// One who waits for an `Eventual`.
#[derive(Debug)]
pub struct Waiter {
    id: u64,
}

impl Waiter {
    pub closed spec fn id(self) -> u64 {
        self.id
    }
}

impl<T, W> View for Eventual<T, W> {
    type V = EventualView<T, W>;

    closed spec fn view(&self) -> EventualView<T, W> {
        EventualView { value: self.value, waiters: self.waiters@, next_id: self.next_id }
    }
}

impl<T, W> Eventual<T, W> {
    /// Nothing set, nobody waiting.
    pub fn new() -> (e: Self)
        ensures
            e@ == (EventualView::<T, W> { value: None, waiters: Seq::empty(), next_id: 0 }),
            e@.wf(),
    {
        Eventual { value: None, waiters: Vec::new(), next_id: 0 }
    }

    /// Sets the value unless one is set already. Returns whether it was set
    /// now, and what wakes those who waited.
    pub fn set(&mut self, v: T) -> (r: (bool, Vec<W>))
        ensures
            r.0 <==> old(self)@.value is None,
            r.0 ==> final(self)@ == old(self)@.set(v) && r.1@ == wakers(old(self)@.waiters),
            !r.0 ==> final(self)@ == old(self)@ && r.1@.len() == 0,
            old(self)@.wf() ==> final(self)@.wf(),
    {
        let mut woken: Vec<W> = Vec::new();
        if self.value.is_some() {
            return (false, woken);
        }
        self.value = Some(v);
        let mut waiters: Vec<Entry<W>> = Vec::new();
        core::mem::swap(&mut waiters, &mut self.waiters);
        let ghost all = waiters@;
        for w in it: waiters
            invariant
                it.seq() == all,
                woken@ == wakers(all.take(it.index() as int)),
        {
            proof {
                let i = it.index() as int;
                assert(all.take(i + 1).drop_last() =~= all.take(i));
            }
            if let Some(waker) = w.1 {
                woken.push(waker);
            }
        }
        assert(all.take(all.len() as int) =~= all);
        (true, woken)
    }

    /// The value, if it is set.
    pub fn get(&self) -> (r: Option<T>) where T: Clone
        ensures
            r is Some <==> self@.value is Some,
            r is Some ==> cloned(self@.value->0, r->0),
    {
        match &self.value {
            Some(v) => Some(v.clone()),
            None => None,
        }
    }

    /// Whether one more can wait.
    pub fn has_room(&self) -> (b: bool)
        ensures
            b <==> self@.next_id < u64::MAX,
    {
        self.next_id < u64::MAX
    }

    /// Starts to wait for the value.
    pub fn wait(&mut self) -> (w: Waiter)
        requires
            old(self)@.wf(),
            old(self)@.next_id < u64::MAX,
        ensures
            w.id() == old(self)@.next_id,
            final(self)@ == old(self)@.wait(),
            final(self)@.wf(),
    {
        let id: u64 = self.next_id;
        self.waiters.push((id, None));
        self.next_id = id + 1;
        Waiter { id }
    }

    /// Waiter `w` has gone.
    pub fn release(&mut self, w: &Waiter)
        ensures
            final(self)@ == old(self)@.release(w.id()),
            old(self)@.wf() ==> final(self)@.wf(),
    {
        let mut waiters: Vec<Entry<W>> = Vec::new();
        core::mem::swap(&mut waiters, &mut self.waiters);
        let ghost all = waiters@;
        let ghost other = other_than::<W>(w.id);
        for x in it: waiters
            invariant
                it.seq() == all,
                other == other_than::<W>(w.id),
                self.waiters@ == all.take(it.index() as int).filter(other),
                self.value == old(self).value,
                self.next_id == old(self).next_id,
        {
            proof {
                let i = it.index() as int;
                assert(all.take(i + 1).drop_last() =~= all.take(i));
                reveal(Seq::filter);
            }
            if x.0 != w.id {
                self.waiters.push(x);
            }
        }
        proof {
            assert(all.take(all.len() as int) =~= all);
            assert(self.waiters@ == all.filter(other));
            lemma_filter_keeps_distinct(old(self)@, w.id());
        }
    }
}

/// Leaving waiters out keeps ids distinct.
proof fn lemma_filter_keeps_distinct<T, W>(e: EventualView<T, W>, id: u64)
    ensures
        e.wf() ==> e.release(id).wf(),
    decreases e.waiters.len(),
{
    let keep = other_than::<W>(id);
    reveal(Seq::filter);
    if e.wf() && e.waiters.len() > 0 {
        let rest = EventualView { value: e.value, waiters: e.waiters.drop_last(), next_id: e.next_id };
        lemma_filter_keeps_distinct(rest, id);
        let kept = rest.waiters.filter(keep);
        assert forall|i: int| 0 <= i < kept.len() implies kept[i].0 != e.waiters.last().0 by {
            rest.waiters.lemma_filter_contains_rev(keep, kept[i]);
        }
        let out = e.release(id).waiters;
        assert(out == if keep(e.waiters.last()) {
            kept.push(e.waiters.last())
        } else {
            kept
        });
        assert forall|i: int, j: int| 0 <= i < j < out.len() implies (#[trigger] out[i]).0 != (
        #[trigger] out[j]).0 by {
            assert(out[i] == kept[i]);
            if j < kept.len() {
                assert(rest.release(id).waiters[i].0 != rest.release(id).waiters[j].0);
            }
        }
        assert forall|i: int| 0 <= i < out.len() implies (#[trigger] out[i]).0 < e.next_id by {
            if i < kept.len() {
                assert(rest.release(id).waiters[i].0 < rest.next_id);
            }
        }
    }
}

impl Waiter {
    /// The value if it is set; otherwise `waker` is kept, to be given back
    /// when the value is set.
    pub fn poll<T: Clone, W>(&self, e: &mut Eventual<T, W>, waker: W) -> (r: Poll<T>)
        requires
            old(e)@.wf(),
        ensures
            match r {
                Poll::Ready(v) => old(e)@.value is Some && cloned(old(e)@.value->0, v) && final(e)@
                    == old(e)@,
                Poll::Pending => old(e)@.value is None && final(e)@ == old(e)@.park(
                    self.id(),
                    waker,
                ),
            },
            final(e)@.wf(),
    {
        match &e.value {
            Some(v) => {
                return Poll::Ready(v.clone());
            },
            None => {},
        }
        let mut i: usize = 0;
        let n: usize = e.waiters.len();
        while i < n && e.waiters[i].0 != self.id
            invariant
                n == e.waiters.len(),
                i <= n,
                forall|j: int| 0 <= j < i ==> (#[trigger] e.waiters[j]).0 != self.id,
            decreases n - i,
        {
            i = i + 1;
        }
        if i < n {
            e.waiters[i] = (self.id, Some(waker));
        }
        assert(e@ =~= old(e)@.park(self.id(), waker));
        Poll::Pending
    }
}

/// Once set, the value is there and nobody waits any more.
pub proof fn a_set_value_is_there<T, W>(e: EventualView<T, W>, v: T)
    ensures
        e.set(v).value == Some(v),
        e.set(v).waiters.len() == 0,
        e.set(v).next_id == e.next_id,
{
}

/// Those who are woken are those who were polled, in the order in which they
/// wait: each of them, and nobody else.
pub proof fn all_who_were_polled_are_woken<W>(waiters: Seq<Entry<W>>)
    ensures
        wakers(waiters) == waiters.filter(|e: Entry<W>| e.1 is Some).map_values(
            |e: Entry<W>| e.1->0,
        ),
        forall|i: int|
            0 <= i < waiters.len() ==> ((#[trigger] waiters[i]).1 matches Some(w) ==> wakers(
                waiters,
            ).contains(w)),
    decreases waiters.len(),
{
    let p = |e: Entry<W>| e.1 is Some;
    let f = |e: Entry<W>| e.1->0;
    reveal(Seq::filter);
    if waiters.len() > 0 {
        let rest = waiters.drop_last();
        all_who_were_polled_are_woken(rest);
        assert(waiters =~= rest.push(waiters.last()));
        rest.lemma_filter_push(waiters.last(), p);
        assert(wakers(waiters) =~= waiters.filter(p).map_values(f));
        assert forall|i: int| 0 <= i < waiters.len() implies ((#[trigger] waiters[i]).1 matches Some(
            w,
        ) ==> wakers(waiters).contains(w)) by {
            if waiters[i].1 is Some {
                let w = waiters[i].1->0;
                if i < rest.len() {
                    assert(rest[i] == waiters[i]);
                    let k = wakers(rest).index_of(w);
                    assert(wakers(waiters)[k] == w);
                } else {
                    assert(wakers(waiters).last() == w);
                }
            }
        }
    } else {
        assert(wakers(waiters) =~= waiters.filter(p).map_values(f));
    }
}

/// One who starts to wait stands last, with nothing to wake it yet; the others
/// wait on.
pub proof fn who_starts_to_wait_stands_last<T, W>(e: EventualView<T, W>)
    requires
        e.next_id < u64::MAX,
    ensures
        e.wait().waiters == e.waiters.push((e.next_id, None)),
        e.wait().value == e.value,
        e.wait().next_id == e.next_id + 1,
{
}

/// One who was polled is woken by what it was polled with last; the others as
/// before.
pub proof fn the_last_waker_counts<T, W>(e: EventualView<T, W>, id: u64, waker: W, i: int)
    requires
        0 <= i < e.waiters.len(),
    ensures
        e.park(id, waker).waiters.len() == e.waiters.len(),
        e.waiters[i].0 == id ==> e.park(id, waker).waiters[i] == (id, Some(waker)),
        e.waiters[i].0 != id ==> e.park(id, waker).waiters[i] == e.waiters[i],
        e.park(id, waker).value == e.value,
        e.park(id, waker).next_id == e.next_id,
{
}

/// One who has gone does not wait; the others do, in the same order.
pub proof fn who_has_gone_does_not_wait<T, W>(e: EventualView<T, W>, id: u64)
    ensures
        e.release(id).waiters == e.waiters.filter(|w: Entry<W>| w.0 != id),
        e.release(id).value == e.value,
        e.release(id).next_id == e.next_id,
{
    assert(other_than::<W>(id) =~= |w: Entry<W>| w.0 != id);
}

} // verus!
