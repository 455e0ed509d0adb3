//! Contexts whose cancellation is not passed on, and which a passed deadline
//! does not end for others.
use crate::clock::{is_since, Clock, MAX_NANOS};
pub use crate::concurrency::ctx::{AnyhowCast, CastError};
use crate::concurrency::eventual::{wakers, Poll, Waiter};
use crate::concurrency::tree::{lemma_node, CtxTree, TreeView};
use vstd::prelude::*;

verus! {

/// Why a context is over.
#[derive(Debug, Clone, Copy, PartialEq, Eq, Structural)]
pub enum AsyncErr {
    DeadlineExceeded,
    ContextCancelled,
}

impl AsyncErr {
    /// The name of the variant.
    pub fn to_string(&self) -> (s: String)
        ensures
            s@ == match self {
                AsyncErr::DeadlineExceeded => "DeadlineExceeded"@,
                AsyncErr::ContextCancelled => "ContextCancelled"@,
            },
    {
        match self {
            AsyncErr::DeadlineExceeded => "DeadlineExceeded".to_owned(),
            AsyncErr::ContextCancelled => "ContextCancelled".to_owned(),
        }
    }
}

/// The contexts of a program. `W` wakes one who waits for a context to end.
pub type Contexts<W> = CtxTree<AsyncErr, W>;

/// A context.
#[derive(Debug, Clone, Copy)]
pub struct Ctx {
    id: u64,
}

/// What cancels a context.
#[derive(Debug)]
pub struct Cancel {
    id: u64,
}

/// The tree after `id` was cancelled: it has ended, unless it had before, and
/// lets go of its children.
pub open spec fn cancel_alone<W>(t: TreeView<AsyncErr, W>, id: u64) -> TreeView<AsyncErr, W> {
    if t.err(id) is Some {
        t
    } else {
        t.with_done(id, t.done(id).set(AsyncErr::ContextCancelled)).disown(id)
    }
}

impl Cancel {
    /// The context that it cancels.
    pub closed spec fn id(self) -> u64 {
        self.id
    }

    /// Cancels the context, and with it those that end with it. Returns what
    /// wakes those who waited for that.
    pub fn call<W>(&self, tree: &mut Contexts<W>) -> (woken: Vec<W>)
        requires
            old(tree)@.wf(),
            old(tree)@.nodes.contains_key(self.id()),
        ensures
            final(tree)@ == cancel_alone(old(tree)@, self.id()),
            final(tree)@.wf(),
            woken@ == if old(tree)@.err(self.id()) is Some {
                Seq::empty()
            } else {
                wakers(old(tree)@.done(self.id()).waiters)
            },
    {
        proof {
            lemma_node(tree@, self.id);
        }
        let (ended, woken) = tree.end(self.id, AsyncErr::ContextCancelled);
        if ended {
            let _ = tree.disown(self.id);
        }
        woken
    }
}

impl Ctx {
    pub closed spec fn id(self) -> u64 {
        self.id
    }

    /// A context that descends from none and has no deadline.
    pub fn background<W>(tree: &mut Contexts<W>) -> (ctx: Ctx)
        requires
            old(tree)@.wf(),
            old(tree)@.next_id < u64::MAX,
        ensures
            ctx.id() == old(tree)@.next_id,
            final(tree)@ == old(tree)@.add_root(),
            final(tree)@.wf(),
    {
        Ctx { id: tree.add_root() }
    }

    /// How the context ended, if it has.
    pub fn err<W>(&self, tree: &Contexts<W>) -> (r: Option<AsyncErr>)
        requires
            tree@.wf(),
            tree@.nodes.contains_key(self.id()),
        ensures
            r == tree@.err(self.id()),
    {
        tree.err(self.id)
    }

    /// Whether one more can wait for the end of the context.
    pub fn can_wait<W>(&self, tree: &Contexts<W>) -> (b: bool)
        requires
            tree@.wf(),
            tree@.nodes.contains_key(self.id()),
        ensures
            b <==> tree@.done(self.id()).next_id < u64::MAX,
    {
        tree.can_wait(self.id)
    }

    /// Starts to wait for the end of the context.
    pub fn done<W>(&self, tree: &mut Contexts<W>) -> (w: Waiter)
        requires
            old(tree)@.wf(),
            old(tree)@.nodes.contains_key(self.id()),
            old(tree)@.done(self.id()).next_id < u64::MAX,
        ensures
            w.id() == old(tree)@.done(self.id()).next_id,
            final(tree)@ == old(tree)@.with_done(self.id(), old(tree)@.done(self.id()).wait()),
            final(tree)@.wf(),
    {
        tree.wait(self.id)
    }

    /// Whether the context is over at the time `now`, and why. A deadline that
    /// has passed is told to the one who asks, who then no longer waits; the
    /// context itself does not end by it. Otherwise `waker` is kept for `w`.
    pub fn poll_done<W>(
        &self,
        tree: &mut Contexts<W>,
        w: &Waiter,
        now: u128,
        waker: W,
    ) -> (r: Poll<AsyncErr>)
        requires
            old(tree)@.wf(),
            old(tree)@.nodes.contains_key(self.id()),
        ensures
            final(tree)@.wf(),
            ({
                let t = old(tree)@;
                let id = self.id();
                let d = t.nodes[id].deadline;
                match t.err(id) {
                    Some(e) => r == Poll::<AsyncErr>::Ready(e) && final(tree)@ == t,
                    None => if d is Some && d->0 <= now {
                        &&& r == Poll::<AsyncErr>::Ready(AsyncErr::DeadlineExceeded)
                        &&& final(tree)@ == t.with_done(id, t.done(id).release(w.id()))
                    } else {
                        &&& r is Pending
                        &&& final(tree)@ == t.with_done(id, t.done(id).park(w.id(), waker))
                    },
                }
            }),
    {
        if let Some(e) = tree.err(self.id) {
            return Poll::Ready(e);
        }
        if let Some(d) = tree.deadline(self.id) {
            if d <= now {
                tree.stop_waiting(self.id, w);
                return Poll::Ready(AsyncErr::DeadlineExceeded);
            }
        }
        tree.poll(self.id, w, waker)
    }

    /// `w` no longer waits for the end of the context.
    pub fn stop_waiting<W>(&self, tree: &mut Contexts<W>, w: &Waiter)
        requires
            old(tree)@.wf(),
            old(tree)@.nodes.contains_key(self.id()),
        ensures
            final(tree)@ == old(tree)@.with_done(
                self.id(),
                old(tree)@.done(self.id()).release(w.id()),
            ),
            final(tree)@.wf(),
    {
        tree.stop_waiting(self.id, w)
    }

    /// A context that descends from this one and can be cancelled on its own.
    pub fn with_cancel<W>(&self, tree: &mut Contexts<W>) -> (r: (Ctx, Cancel))
        requires
            old(tree)@.wf(),
            old(tree)@.nodes.contains_key(self.id()),
            old(tree)@.next_id < u64::MAX,
        ensures
            r.0.id() == old(tree)@.next_id,
            r.1.id() == old(tree)@.next_id,
            final(tree)@ == old(tree)@.with_cancel(self.id()),
            final(tree)@.wf(),
    {
        let own_end = tree.err(self.id).is_none();
        let deadline = tree.deadline(self.id);
        let id: u64 = tree.add_child(self.id, None, deadline, own_end);
        (Ctx { id }, Cancel { id })
    }

    /// A context that ends with this one, and by `deadline` at the latest.
    pub fn with_deadline<W>(&self, tree: &mut Contexts<W>, deadline: u128) -> (ctx: Ctx)
        requires
            old(tree)@.wf(),
            old(tree)@.nodes.contains_key(self.id()),
            old(tree)@.next_id < u64::MAX,
        ensures
            ctx.id() == old(tree)@.next_id,
            final(tree)@ == old(tree)@.with_deadline(self.id(), deadline),
            final(tree)@.wf(),
    {
        let mut d: u128 = deadline;
        if let Some(own) = tree.deadline(self.id) {
            if own < d {
                d = own;
            }
        }
        Ctx { id: tree.add_child(self.id, None, Some(d), false) }
    }

    /// A context that ends with this one, and at the latest when `timeout`
    /// nanoseconds have passed by `clock`.
    pub fn with_timeout<W>(&self, tree: &mut Contexts<W>, clock: &Clock, timeout: u128) -> (ctx: Ctx)
        requires
            old(tree)@.wf(),
            old(tree)@.nodes.contains_key(self.id()),
            old(tree)@.next_id < u64::MAX,
            timeout <= MAX_NANOS,
        ensures
            ctx.id() == old(tree)@.next_id,
            exists|now: u128|
                is_since(clock.origin, now) && now <= MAX_NANOS && final(tree)@
                    == #[trigger] old(tree)@.with_deadline(self.id(), (now + timeout) as u128),
            final(tree)@.wf(),
    {
        let now: u128 = clock.now();
        self.with_deadline(tree, now + timeout)
    }

    /// Removes the context, from which no live context descends.
    pub fn release<W>(self, tree: &mut Contexts<W>)
        requires
            old(tree)@.wf(),
            old(tree)@.nodes.contains_key(self.id()),
            old(tree)@.childless(self.id()),
        ensures
            final(tree)@ == old(tree)@.release(self.id()),
            final(tree)@.wf(),
    {
        tree.release(self.id)
    }
}

/// A cancellation ends the contexts that end with the cancelled one, and no
/// others: a descendant with an end of its own goes on.
pub proof fn cancellation_is_not_passed_on<W>(t: TreeView<AsyncErr, W>, a: u64, x: u64)
    requires
        t.wf(),
        t.nodes.contains_key(a),
        t.nodes.contains_key(x),
        t.err(a) is None,
    ensures
        cancel_alone(t, a).err(x) == if t.nodes[x].done == t.nodes[a].done {
            Some(AsyncErr::ContextCancelled)
        } else {
            t.err(x)
        },
{
    lemma_node(t, a);
    lemma_node(t, x);
}

/// A cancellation lets the children of the cancelled context go, and changes
/// nothing else: no other end, and no other context. Nobody waits for what has
/// ended. Cancelling what has ended changes nothing.
pub proof fn cancelling_ends_one_end<W>(t: TreeView<AsyncErr, W>, a: u64, x: u64, d: u64)
    requires
        t.wf(),
        t.nodes.contains_key(a),
        x != a,
        d != t.nodes[a].done,
    ensures
        t.dones[t.nodes[a].done].value is Some ==> cancel_alone(t, a) == t,
        t.dones[t.nodes[a].done].value is None ==> {
            let s = cancel_alone(t, a);
            &&& s.dones[t.nodes[a].done].value == Some(AsyncErr::ContextCancelled)
            &&& s.dones[t.nodes[a].done].waiters.len() == 0
            &&& s.dones[d] == t.dones[d]
            &&& s.dones.contains_key(d) == t.dones.contains_key(d)
            &&& s.nodes[a].children.len() == 0
            &&& s.nodes[a].parent == t.nodes[a].parent
            &&& s.nodes[a].deadline == t.nodes[a].deadline
            &&& s.nodes[a].done == t.nodes[a].done
            &&& s.nodes[x] == t.nodes[x]
            &&& s.nodes.contains_key(x) == t.nodes.contains_key(x)
            &&& s.next_id == t.next_id
        },
{
    lemma_node(t, a);
}

} // verus!
