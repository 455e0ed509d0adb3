//! Scopes: tasks that run under one context, the first failure of which
//! cancels that context and is what the scope fails with.
use crate::concurrency::ctx::{Cancel, Contexts, Ctx, CtxErr};
use vstd::prelude::*;

verus! {

/// What a `Scope` holds.
#[verifier::ext_equal]
pub struct ScopeView<E, H> {
    /// The context of the scope.
    pub ctx: u64,
    /// No task has failed.
    pub armed: bool,
    /// The first failure.
    pub err: Option<E>,
    /// The tasks to be joined.
    pub futures: Seq<H>,
}

impl<E, H> ScopeView<E, H> {
    /// A failure is there only once a task has failed.
    pub open spec fn wf(self) -> bool {
        self.armed ==> self.err is None
    }

    /// A task completed with `v`.
    pub open spec fn complete(self, v: Result<(), E>) -> Self {
        match v {
            Err(e) if self.armed => ScopeView { armed: false, err: Some(e), ..self },
            _ => self,
        }
    }

    /// Tasks completed with `vs`, in this order.
    pub open spec fn complete_all(self, vs: Seq<Result<(), E>>) -> Self
        decreases vs.len(),
    {
        if vs.len() == 0 {
            self
        } else {
            self.complete_all(vs.drop_last()).complete(vs.last())
        }
    }
}

/// The first failure among `vs`.
pub open spec fn first_err<E>(vs: Seq<Result<(), E>>) -> Option<E>
    decreases vs.len(),
{
    if vs.len() == 0 {
        None
    } else {
        match vs.first() {
            Err(e) => Some(e),
            Ok(()) => first_err(vs.drop_first()),
        }
    }
}

/// What is next for the one who runs a scope whose body has completed.
pub enum ScopeStep<E, H> {
    /// The given task is to be joined.
    Join(H),
    /// The scope is over, with this result.
    Finished(Result<(), E>),
}

/// Tasks under one context. `E` is how a task fails, `H` joins one.
pub struct Scope<E, H> {
    ctx: Ctx,
    cancel: Option<Cancel>,
    err: Option<E>,
    futures: Vec<H>,
}

impl<E, H> View for Scope<E, H> {
    type V = ScopeView<E, H>;

    closed spec fn view(&self) -> ScopeView<E, H> {
        ScopeView {
            ctx: self.ctx.id(),
            armed: self.cancel is Some,
            err: self.err,
            futures: self.futures@,
        }
    }
}

impl<E, H> Scope<E, H> {
    /// What cancels the scope cancels its context, and `err` is set only by
    /// that.
    pub closed spec fn wf(self) -> bool {
        &&& self@.wf()
        &&& self.cancel is Some ==> self.cancel->0.id() == self.ctx.id()
    }

    /// A scope without tasks, under a context that descends from `ctx`.
    pub fn new<W>(tree: &mut Contexts<W>, ctx: &Ctx) -> (s: Self)
        requires
            old(tree)@.wf(),
            old(tree)@.nodes.contains_key(ctx.id()),
            old(tree)@.next_id < u64::MAX,
        ensures
            s.wf(),
            s@ == (ScopeView::<E, H> {
                ctx: old(tree)@.next_id,
                armed: true,
                err: None,
                futures: Seq::empty(),
            }),
            final(tree)@ == old(tree)@.with_cancel(ctx.id()),
            final(tree)@.wf(),
    {
        let (ctx, cancel) = ctx.with_cancel(tree);
        let s = Scope { ctx, cancel: Some(cancel), err: None, futures: Vec::new() };
        assert(s@.futures =~= Seq::<H>::empty());
        s
    }

    /// The context that the tasks run under.
    pub fn ctx(&self) -> (ctx: Ctx)
        ensures
            ctx.id() == self@.ctx,
    {
        self.ctx
    }

    /// One more task to be joined.
    pub fn spawn(&mut self, h: H)
        requires
            old(self).wf(),
        ensures
            final(self).wf(),
            final(self)@ == (ScopeView { futures: old(self)@.futures.push(h), ..old(self)@ }),
    {
        self.futures.push(h);
    }

    /// A task, or the body, completed with `v`. The first failure is kept and
    /// cancels the context; what wakes those who waited for that is returned.
    pub fn complete<W>(&mut self, tree: &mut Contexts<W>, v: Result<(), E>) -> (woken: Vec<W>)
        requires
            old(self).wf(),
            old(tree)@.wf(),
            old(tree)@.nodes.contains_key(old(self)@.ctx),
        ensures
            final(self).wf(),
            final(tree)@.wf(),
            final(self)@ == old(self)@.complete(v),
            ({
                let t = old(tree)@;
                let id = old(self)@.ctx;
                if v is Err && old(self)@.armed {
                    &&& final(tree)@ == t.cancel(id, CtxErr::Cancelled)
                    &&& woken@ == if t.err(id) is Some {
                        Seq::empty()
                    } else {
                        t.cancel_wakers(id)
                    }
                } else {
                    final(tree)@ == t && woken@.len() == 0
                }
            }),
    {
        let mut woken: Vec<W> = Vec::new();
        if let Err(e) = v {
            if let Some(cancel) = self.cancel.take() {
                woken = cancel.call(tree);
                self.err = Some(e);
            }
        }
        woken
    }

    /// The task to be joined next, the last one spawned first; once there is
    /// none, the first failure, or success if there was none.
    pub fn step(&mut self) -> (r: ScopeStep<E, H>)
        requires
            old(self).wf(),
        ensures
            final(self).wf(),
            ({
                let s = old(self)@;
                if s.futures.len() > 0 {
                    &&& r == ScopeStep::<E, H>::Join(s.futures.last())
                    &&& final(self)@ == (ScopeView { futures: s.futures.drop_last(), ..s })
                } else {
                    &&& r == ScopeStep::<E, H>::Finished(
                        match s.err {
                            Some(e) => Err(e),
                            None => Ok(()),
                        },
                    )
                    &&& final(self)@ == (ScopeView { err: None, ..s })
                }
            }),
    {
        match self.futures.pop() {
            Some(h) => ScopeStep::Join(h),
            None => match self.err.take() {
                Some(e) => ScopeStep::Finished(Err(e)),
                None => ScopeStep::Finished(Ok(())),
            },
        }
    }
}

/// A scope fails with the first failure among its tasks, and succeeds if none
/// failed.
pub proof fn first_failure_wins<E, H>(s: ScopeView<E, H>, vs: Seq<Result<(), E>>)
    requires
        s.armed,
        s.err is None,
    ensures
        s.complete_all(vs).err == first_err(vs),
        s.complete_all(vs).armed <==> first_err(vs) is None,
        s.complete_all(vs).ctx == s.ctx,
        s.complete_all(vs).futures == s.futures,
    decreases vs.len(),
{
    if vs.len() > 0 {
        first_failure_wins(s, vs.drop_last());
        lemma_first_err_push(vs.drop_last(), vs.last());
        assert(vs.drop_last().push(vs.last()) =~= vs);
    }
}

proof fn lemma_first_err_push<E>(vs: Seq<Result<(), E>>, v: Result<(), E>)
    ensures
        first_err(vs.push(v)) == if first_err(vs) is Some {
            first_err(vs)
        } else {
            match v {
                Err(e) => Some(e),
                Ok(()) => None,
            }
        },
    decreases vs.len(),
{
    let all = vs.push(v);
    if vs.len() == 0 {
        assert(all.drop_first() =~= vs);
    } else {
        lemma_first_err_push(vs.drop_first(), v);
        assert(all.drop_first() =~= vs.drop_first().push(v));
    }
}

/// A failure is kept if it is the first, and then the scope can fail no more; a
/// success, and any later failure, changes nothing.
pub proof fn only_the_first_failure_counts<E, H>(s: ScopeView<E, H>, e: E)
    ensures
        s.complete(Ok(())) == s,
        s.armed ==> s.complete(Err(e)).err == Some(e) && !s.complete(Err(e)).armed,
        !s.armed ==> s.complete(Err(e)) == s,
        s.complete(Err(e)).ctx == s.ctx,
        s.complete(Err(e)).futures == s.futures,
{
}

} // verus!
