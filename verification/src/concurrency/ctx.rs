//! Contexts: what a task runs under. A context made by `with_cancel` has an end
//! of its own; one made by `with_deadline` or `with_label` shares that of its
//! parent. An end comes when it is cancelled, when a deadline of one who shares
//! it passes, or when the cancellation of the parent of the context that has it
//! is passed on. Cancellation is passed on from a context to those children that
//! have an end of their own, and from these further down; it stops at a child
//! that shares an end, and does not reach what was derived from that child.
use crate::clock::{is_since, Clock, MAX_NANOS};
use crate::concurrency::cancel::cancel;
use crate::concurrency::eventual::{wakers, Poll, Waiter};
use crate::concurrency::tree::{lemma_node, CtxTree};
use std::fmt;
use vstd::prelude::*;
use vstd::std_specs::cmp::PartialEqSpec;

verus! {

/// How a context ended.
#[derive(Debug, Clone, Copy, PartialEq, Eq, Structural)]
pub enum CtxErr {
    Timeout,
    Cancelled,
}

impl CtxErr {
    /// The name of the variant.
    pub fn to_string(&self) -> (s: String)
        ensures
            s@ == match self {
                CtxErr::Timeout => "Timeout"@,
                CtxErr::Cancelled => "Cancelled"@,
            },
    {
        match self {
            CtxErr::Timeout => "Timeout".to_owned(),
            CtxErr::Cancelled => "Cancelled".to_owned(),
        }
    }
}

/// The contexts of a program. `W` wakes one who waits for a context to end.
pub type Contexts<W> = CtxTree<CtxErr, W>;

/// A context.
#[derive(Debug, Clone, Copy)]
pub struct Ctx {
    id: u64,
}

/// What cancels a context.
#[derive(Debug)]
pub struct Cancel {
    id: u64,
}

impl Cancel {
    /// The context that it cancels.
    pub closed spec fn id(self) -> u64 {
        self.id
    }

    /// Cancels the context and those that the cancellation is passed on to.
    /// Returns what wakes those who waited for that.
    pub fn call<W>(&self, tree: &mut Contexts<W>) -> (woken: Vec<W>)
        requires
            old(tree)@.wf(),
            old(tree)@.nodes.contains_key(self.id()),
        ensures
            final(tree)@ == old(tree)@.cancel(self.id(), CtxErr::Cancelled),
            final(tree)@.wf(),
            woken@ == if old(tree)@.err(self.id()) is Some {
                Seq::empty()
            } else {
                old(tree)@.cancel_wakers(self.id())
            },
    {
        cancel(tree, self.id, CtxErr::Cancelled)
    }
}

impl Ctx {
    pub closed spec fn id(self) -> u64 {
        self.id
    }

    /// A context that descends from none and has no deadline.
    pub fn background<W>(tree: &mut Contexts<W>) -> (ctx: Ctx)
        requires
            old(tree)@.wf(),
            old(tree)@.next_id < u64::MAX,
        ensures
            ctx.id() == old(tree)@.next_id,
            final(tree)@ == old(tree)@.add_root(),
            final(tree)@.wf(),
    {
        Ctx { id: tree.add_root() }
    }

    /// How the context ended, if it has.
    pub fn err<W>(&self, tree: &Contexts<W>) -> (r: Option<CtxErr>)
        requires
            tree@.wf(),
            tree@.nodes.contains_key(self.id()),
        ensures
            r == tree@.err(self.id()),
    {
        tree.err(self.id)
    }

    /// Whether one more can wait for the end of the context.
    pub fn can_wait<W>(&self, tree: &Contexts<W>) -> (b: bool)
        requires
            tree@.wf(),
            tree@.nodes.contains_key(self.id()),
        ensures
            b <==> tree@.done(self.id()).next_id < u64::MAX,
    {
        tree.can_wait(self.id)
    }

    /// Starts to wait for the end of the context.
    pub fn done<W>(&self, tree: &mut Contexts<W>) -> (w: Waiter)
        requires
            old(tree)@.wf(),
            old(tree)@.nodes.contains_key(self.id()),
            old(tree)@.done(self.id()).next_id < u64::MAX,
        ensures
            w.id() == old(tree)@.done(self.id()).next_id,
            final(tree)@ == old(tree)@.with_done(self.id(), old(tree)@.done(self.id()).wait()),
            final(tree)@.wf(),
    {
        tree.wait(self.id)
    }

    /// How the context ended, asked at the time `now`. One that has not ended
    /// by its deadline ends with a timeout; then what wakes the others who
    /// waited is returned too. Otherwise `waker` is kept for `w`.
    pub fn poll_done<W>(
        &self,
        tree: &mut Contexts<W>,
        w: &Waiter,
        now: u128,
        waker: W,
    ) -> (r: (Poll<CtxErr>, Vec<W>))
        requires
            old(tree)@.wf(),
            old(tree)@.nodes.contains_key(self.id()),
        ensures
            final(tree)@.wf(),
            ({
                let t = old(tree)@;
                let id = self.id();
                let d = t.nodes[id].deadline;
                match t.err(id) {
                    Some(e) => r.0 == Poll::<CtxErr>::Ready(e) && final(tree)@ == t && r.1@.len() == 0,
                    None => if d is Some && d->0 <= now {
                        &&& r.0 == Poll::<CtxErr>::Ready(CtxErr::Timeout)
                        &&& final(tree)@ == t.with_done(
                            id,
                            t.done(id).release(w.id()).set(CtxErr::Timeout),
                        )
                        &&& r.1@ == wakers(t.done(id).release(w.id()).waiters)
                    } else {
                        &&& r.0 is Pending
                        &&& final(tree)@ == t.with_done(id, t.done(id).park(w.id(), waker))
                        &&& r.1@.len() == 0
                    },
                }
            }),
    {
        if let Some(e) = tree.err(self.id) {
            return (Poll::Ready(e), Vec::new());
        }
        if let Some(d) = tree.deadline(self.id) {
            if d <= now {
                proof {
                    lemma_node(tree@, self.id);
                }
                tree.stop_waiting(self.id, w);
                let (_, woken) = tree.end(self.id, CtxErr::Timeout);
                assert(tree@ =~= old(tree)@.with_done(
                    self.id(),
                    old(tree)@.done(self.id()).release(w.id()).set(CtxErr::Timeout),
                ));
                return (Poll::Ready(CtxErr::Timeout), woken);
            }
        }
        (tree.poll(self.id, w, waker), Vec::new())
    }

    /// `w` no longer waits for the end of the context.
    pub fn stop_waiting<W>(&self, tree: &mut Contexts<W>, w: &Waiter)
        requires
            old(tree)@.wf(),
            old(tree)@.nodes.contains_key(self.id()),
        ensures
            final(tree)@ == old(tree)@.with_done(
                self.id(),
                old(tree)@.done(self.id()).release(w.id()),
            ),
            final(tree)@.wf(),
    {
        tree.stop_waiting(self.id, w)
    }

    /// By when the context has to end.
    pub fn deadline<W>(&self, tree: &Contexts<W>) -> (d: Option<u128>)
        requires
            tree@.nodes.contains_key(self.id()),
        ensures
            d == tree@.nodes[self.id()].deadline,
    {
        tree.deadline(self.id)
    }

    /// A context that descends from this one and can be cancelled on its own.
    pub fn with_cancel<W>(&self, tree: &mut Contexts<W>) -> (r: (Ctx, Cancel))
        requires
            old(tree)@.wf(),
            old(tree)@.nodes.contains_key(self.id()),
            old(tree)@.next_id < u64::MAX,
        ensures
            r.0.id() == old(tree)@.next_id,
            r.1.id() == old(tree)@.next_id,
            final(tree)@ == old(tree)@.with_cancel(self.id()),
            final(tree)@.wf(),
    {
        let own_end = tree.err(self.id).is_none();
        let deadline = tree.deadline(self.id);
        let id: u64 = tree.add_child(self.id, None, deadline, own_end);
        (Ctx { id }, Cancel { id })
    }

    /// A context that ends with this one, and by `deadline` at the latest.
    pub fn with_deadline<W>(&self, tree: &mut Contexts<W>, deadline: u128) -> (ctx: Ctx)
        requires
            old(tree)@.wf(),
            old(tree)@.nodes.contains_key(self.id()),
            old(tree)@.next_id < u64::MAX,
        ensures
            ctx.id() == old(tree)@.next_id,
            final(tree)@ == old(tree)@.with_deadline(self.id(), deadline),
            final(tree)@.wf(),
    {
        let mut d: u128 = deadline;
        if let Some(own) = tree.deadline(self.id) {
            if own < d {
                d = own;
            }
        }
        Ctx { id: tree.add_child(self.id, None, Some(d), false) }
    }

    /// A context that ends with this one, under a label.
    pub fn with_label<W>(&self, tree: &mut Contexts<W>, label: &str) -> (ctx: Ctx)
        requires
            old(tree)@.wf(),
            old(tree)@.nodes.contains_key(self.id()),
            old(tree)@.next_id < u64::MAX,
        ensures
            ctx.id() == old(tree)@.next_id,
            final(tree)@ == old(tree)@.with_label(self.id(), label@),
            final(tree)@.wf(),
    {
        let deadline = tree.deadline(self.id);
        Ctx { id: tree.add_child(self.id, Some(label.to_owned()), deadline, false) }
    }

    /// A context that ends with this one, and at the latest when `timeout`
    /// nanoseconds have passed by `clock`.
    pub fn with_timeout<W>(&self, tree: &mut Contexts<W>, clock: &Clock, timeout: u128) -> (ctx: Ctx)
        requires
            old(tree)@.wf(),
            old(tree)@.nodes.contains_key(self.id()),
            old(tree)@.next_id < u64::MAX,
            timeout <= MAX_NANOS,
        ensures
            ctx.id() == old(tree)@.next_id,
            exists|now: u128|
                is_since(clock.origin, now) && now <= MAX_NANOS && final(tree)@
                    == #[trigger] old(tree)@.with_deadline(self.id(), (now + timeout) as u128),
            final(tree)@.wf(),
    {
        let now: u128 = clock.now();
        self.with_deadline(tree, now + timeout)
    }

    /// Removes the context, from which no live context descends.
    pub fn release<W>(self, tree: &mut Contexts<W>)
        requires
            old(tree)@.wf(),
            old(tree)@.nodes.contains_key(self.id()),
            old(tree)@.childless(self.id()),
        ensures
            final(tree)@ == old(tree)@.release(self.id()),
            final(tree)@.wf(),
    {
        tree.release(self.id)
    }

    /// The labels on the way down to the context, each after `::`.
    pub fn debug_string<W>(&self, tree: &Contexts<W>) -> (s: String)
        requires
            tree@.wf(),
            tree@.nodes.contains_key(self.id()),
        ensures
            s@ == tree@.path(self.id()),
    {
        tree.path(self.id)
    }
}

/// An error that can be looked for inside another.
pub trait CastError: fmt::Display + fmt::Debug + Send + Sync + PartialEq + 'static {

}

impl<T> CastError for T where T: fmt::Display + fmt::Debug + Send + Sync + PartialEq + 'static {

}

/// Asks whether a certain error is what is at hand.
pub trait AnyhowCast {
    /// Whether it is `err`.
    fn matches<E: CastError>(&self, err: &E) -> bool;
}

/// `anyhow::Error`, carried as it is.
#[verifier::external_type_specification]
#[verifier::external_body]
pub struct ExAnyhowError(anyhow::Error);

/// Calls `anyhow::Error::downcast_ref`. Which error an `anyhow::Error` was made
/// from cannot be seen from here, so nothing is claimed of the result.
#[verifier::external_body]
fn downcast<E: CastError>(e: &anyhow::Error) -> Option<&E> {
    e.downcast_ref::<E>()
}

/// Looking for an error of type `E` in `e` can give `found`.
pub closed spec fn is_found<E: CastError>(e: &anyhow::Error, found: Option<&E>) -> bool {
    call_ensures(downcast::<E>, (e,), found)
}

/// `r` says whether `err` is what was found.
pub open spec fn tells_match<E: CastError>(found: Option<&E>, err: &E, r: bool) -> bool {
    &&& found is None ==> !r
    &&& E::obeys_eq_spec() ==> r == (found is Some && found->0.eq_spec(err))
}

/// Whether `err` is what was found.
pub fn found_matches<E: CastError>(found: Option<&E>, err: &E) -> (r: bool)
    ensures
        tells_match(found, err, r),
{
    match found {
        Some(e) => *e == *err,
        None => false,
    }
}

impl AnyhowCast for anyhow::Error {
    fn matches<E: CastError>(&self, err: &E) -> (r: bool)
        ensures
            exists|found: Option<&E>| #[trigger] is_found(self, found) && tells_match(found, err, r),
    {
        let found = downcast::<E>(self);
        assert(is_found(self, found));
        found_matches(found, err)
    }
}

impl<T> AnyhowCast for Result<T, anyhow::Error> {
    fn matches<E: CastError>(&self, err: &E) -> (r: bool)
        ensures
            match self {
                Ok(_) => !r,
                Err(e) => exists|found: Option<&E>| #[trigger]
                    is_found(e, found) && tells_match(found, err, r),
            },
    {
        match self {
            Ok(_) => false,
            Err(e) => e.matches(err),
        }
    }
}

/// What can be found in an error is what looking into it gives.
proof fn finds_come_from_looking<E: CastError>(e: &anyhow::Error, found: Option<&E>)
    ensures
        is_found(e, found) <==> call_ensures(downcast::<E>, (e,), found),
{
}

} // verus!
