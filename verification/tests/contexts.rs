use chainsync_loadtest::async_ctx;
use chainsync_loadtest::async_ctx::AsyncErr;
use chainsync_loadtest::clock::Clock;
use chainsync_loadtest::concurrency::ctx::{AnyhowCast, Contexts, Ctx, CtxErr};
use chainsync_loadtest::concurrency::eventual::{Eventual, Poll};
use chainsync_loadtest::concurrency::scope::{Scope, ScopeStep};
use std::fmt;

fn try_await<T>(p: Poll<T>) -> Option<T> {
    match p {
        Poll::Ready(v) => Some(v),
        Poll::Pending => None,
    }
}

#[test]
fn test_cancel_propagation() {
    let mut t: Contexts<()> = Contexts::new();
    let (ctx1, cancel1) = Ctx::background(&mut t).with_cancel(&mut t);
    let (ctx2, _) = ctx1.with_cancel(&mut t);
    let (ctx3, cancel3) = ctx1.with_cancel(&mut t);
    let h1 = ctx1.done(&mut t);
    let h2 = ctx2.done(&mut t);
    let h3 = ctx3.done(&mut t);
    assert!(ctx1.err(&t).is_none());
    assert!(ctx2.err(&t).is_none());
    assert!(ctx3.err(&t).is_none());

    cancel3.call(&mut t);
    assert!(ctx1.err(&t).is_none());
    assert!(ctx2.err(&t).is_none());
    assert!(ctx3.err(&t).is_some());
    assert_eq!(None, try_await(ctx1.poll_done(&mut t, &h1, 0, ()).0));
    assert_eq!(None, try_await(ctx2.poll_done(&mut t, &h2, 0, ()).0));
    assert_eq!(Some(CtxErr::Cancelled), try_await(ctx3.poll_done(&mut t, &h3, 0, ()).0));

    cancel1.call(&mut t);
    assert!(ctx1.err(&t).is_some());
    assert!(ctx2.err(&t).is_some());
    assert!(ctx3.err(&t).is_some());
    assert_eq!(Some(CtxErr::Cancelled), try_await(ctx1.poll_done(&mut t, &h1, 0, ()).0));
    assert_eq!(Some(CtxErr::Cancelled), try_await(ctx2.poll_done(&mut t, &h2, 0, ()).0));
}

#[test]
fn cancelling_wakes_who_waits_below() {
    let mut t: Contexts<&str> = Contexts::new();
    let (a, cancel_a) = Ctx::background(&mut t).with_cancel(&mut t);
    let (b, _) = a.with_cancel(&mut t);
    let (c, _) = b.with_cancel(&mut t);
    let (other, _) = Ctx::background(&mut t).with_cancel(&mut t);
    let wa = a.done(&mut t);
    let wc = c.done(&mut t);
    let wo = other.done(&mut t);
    assert!(try_await(a.poll_done(&mut t, &wa, 0, "a").0).is_none());
    assert!(try_await(c.poll_done(&mut t, &wc, 0, "c").0).is_none());
    assert!(try_await(other.poll_done(&mut t, &wo, 0, "other").0).is_none());
    let mut woken = cancel_a.call(&mut t);
    woken.sort();
    assert_eq!(woken, vec!["a", "c"]);
    assert_eq!(c.err(&t), Some(CtxErr::Cancelled));
    assert_eq!(other.err(&t), None);
    // Once is enough.
    assert!(cancel_a.call(&mut t).is_empty());
}

#[test]
fn one_who_stopped_waiting_is_not_woken() {
    let mut t: Contexts<u8> = Contexts::new();
    let (a, cancel) = Ctx::background(&mut t).with_cancel(&mut t);
    let w1 = a.done(&mut t);
    let w2 = a.done(&mut t);
    assert!(try_await(a.poll_done(&mut t, &w1, 0, 1).0).is_none());
    assert!(try_await(a.poll_done(&mut t, &w2, 0, 2).0).is_none());
    a.stop_waiting(&mut t, &w1);
    assert_eq!(cancel.call(&mut t), vec![2]);
}

#[test]
fn a_deadline_ends_a_context() {
    let mut t: Contexts<u8> = Contexts::new();
    let root = Ctx::background(&mut t);
    let (a, _) = root.with_cancel(&mut t);
    let b = a.with_deadline(&mut t, 100);
    assert_eq!(b.deadline(&t), Some(100));
    assert_eq!(a.deadline(&t), None);
    let w = b.done(&mut t);
    let other = b.done(&mut t);
    assert!(try_await(b.poll_done(&mut t, &other, 99, 7).0).is_none());
    assert!(try_await(b.poll_done(&mut t, &w, 99, 8).0).is_none());
    let (p, woken) = b.poll_done(&mut t, &w, 100, 8);
    assert_eq!(try_await(p), Some(CtxErr::Timeout));
    assert_eq!(woken, vec![7]);
    assert_eq!(b.err(&t), Some(CtxErr::Timeout));
    // A deadline and its context end together.
    assert_eq!(a.err(&t), Some(CtxErr::Timeout));
}

#[test]
fn deadlines_only_get_earlier() {
    let mut t: Contexts<()> = Contexts::new();
    let root = Ctx::background(&mut t);
    let a = root.with_deadline(&mut t, 100);
    assert_eq!(a.with_deadline(&mut t, 200).deadline(&t), Some(100));
    assert_eq!(a.with_deadline(&mut t, 50).deadline(&t), Some(50));
    assert_eq!(a.with_cancel(&mut t).0.deadline(&t), Some(100));
    assert_eq!(a.with_label(&mut t, "x").deadline(&t), Some(100));
}

#[test]
fn a_context_of_one_that_ended_has_ended() {
    let mut t: Contexts<()> = Contexts::new();
    let (a, cancel) = Ctx::background(&mut t).with_cancel(&mut t);
    cancel.call(&mut t);
    assert_eq!(a.with_cancel(&mut t).0.err(&t), Some(CtxErr::Cancelled));
    assert_eq!(a.with_deadline(&mut t, 5).err(&t), Some(CtxErr::Cancelled));
}

#[test]
fn an_end_stays_as_it_is() {
    let mut t: Contexts<()> = Contexts::new();
    let (a, cancel) = Ctx::background(&mut t).with_cancel(&mut t);
    let b = a.with_deadline(&mut t, 10);
    let w = b.done(&mut t);
    assert_eq!(try_await(b.poll_done(&mut t, &w, 10, ()).0), Some(CtxErr::Timeout));
    cancel.call(&mut t);
    assert_eq!(a.err(&t), Some(CtxErr::Timeout));
}

#[test]
fn labels_lead_to_a_context() {
    let mut t: Contexts<()> = Contexts::new();
    let root = Ctx::background(&mut t);
    let a = root.with_label(&mut t, "sync");
    let (b, _) = a.with_cancel(&mut t);
    let c = b.with_label(&mut t, "headers");
    assert!(t.has_room());
    assert!(c.can_wait(&t));
    assert_eq!(root.debug_string(&t), "");
    assert_eq!(c.debug_string(&t), "::sync::headers");
}

#[test]
fn a_label_ends_with_its_parent() {
    let mut t: Contexts<()> = Contexts::new();
    let (a, cancel) = Ctx::background(&mut t).with_cancel(&mut t);
    let b = a.with_label(&mut t, "x");
    let (below, _) = b.with_cancel(&mut t);
    cancel.call(&mut t);
    assert_eq!(b.err(&t), Some(CtxErr::Cancelled));
    // The end of a labelled context is that of its parent, which does not know
    // what hangs below.
    assert_eq!(below.err(&t), None);
}

#[test]
fn a_released_context_is_not_cancelled() {
    let mut t: Contexts<u8> = Contexts::new();
    let (a, cancel) = Ctx::background(&mut t).with_cancel(&mut t);
    let (b, _) = a.with_cancel(&mut t);
    let (c, _) = a.with_cancel(&mut t);
    let w = c.done(&mut t);
    assert!(try_await(c.poll_done(&mut t, &w, 0, 3).0).is_none());
    b.release(&mut t);
    assert_eq!(cancel.call(&mut t), vec![3]);
    assert_eq!(c.err(&t), Some(CtxErr::Cancelled));
}

#[test]
fn a_timeout_counts_from_now() {
    let clock = Clock::start();
    let mut t: Contexts<()> = Contexts::new();
    let root = Ctx::background(&mut t);
    let before = clock.now();
    let a = root.with_timeout(&mut t, &clock, 1_000);
    let after = clock.now();
    let d = a.deadline(&t).unwrap();
    assert!(before + 1_000 <= d && d <= after + 1_000);
    assert!(after < 60_000_000_000);
}

#[test]
fn errors_have_names() {
    assert_eq!(CtxErr::Timeout.to_string(), "Timeout");
    assert_eq!(CtxErr::Cancelled.to_string(), "Cancelled");
    assert_eq!(AsyncErr::DeadlineExceeded.to_string(), "DeadlineExceeded");
    assert_eq!(AsyncErr::ContextCancelled.to_string(), "ContextCancelled");
}

#[derive(Debug, PartialEq)]
struct Shown(u32);

impl fmt::Display for Shown {
    fn fmt(&self, f: &mut fmt::Formatter<'_>) -> fmt::Result {
        f.write_str("shown")
    }
}

impl std::error::Error for Shown {}

#[derive(Debug, PartialEq)]
struct OtherShown;

impl fmt::Display for OtherShown {
    fn fmt(&self, f: &mut fmt::Formatter<'_>) -> fmt::Result {
        f.write_str("other")
    }
}

#[test]
fn an_error_is_found_in_another() {
    let e = anyhow::Error::new(Shown(4));
    assert!(e.matches(&Shown(4)));
    assert!(!e.matches(&Shown(5)));
    assert!(!e.matches(&OtherShown));
    let r: Result<(), anyhow::Error> = Err(anyhow::Error::new(Shown(4)));
    assert!(r.matches(&Shown(4)));
    assert!(!r.matches(&Shown(5)));
    let ok: Result<(), anyhow::Error> = Ok(());
    assert!(!ok.matches(&Shown(4)));
}

#[test]
fn lone_contexts_keep_cancellation_to_themselves() {
    let mut t: async_ctx::Contexts<u8> = async_ctx::Contexts::new();
    let (a, cancel) = async_ctx::Ctx::background(&mut t).with_cancel(&mut t);
    let (b, _) = a.with_cancel(&mut t);
    let c = a.with_deadline(&mut t, 10);
    let w = a.done(&mut t);
    assert!(try_await(a.poll_done(&mut t, &w, 0, 1)).is_none());
    assert_eq!(cancel.call(&mut t), vec![1]);
    assert_eq!(a.err(&t), Some(AsyncErr::ContextCancelled));
    assert_eq!(b.err(&t), None);
    assert_eq!(try_await(a.poll_done(&mut t, &w, 0, 1)), Some(AsyncErr::ContextCancelled));
    assert!(cancel.call(&mut t).is_empty());
    let wc = c.done(&mut t);
    let late = try_await(c.poll_done(&mut t, &wc, 10, 2));
    assert!(late.is_some());
}

#[test]
fn a_lone_timeout_counts_from_now() {
    let clock = Clock::start();
    let mut t: async_ctx::Contexts<u8> = async_ctx::Contexts::new();
    let before = clock.now();
    let a = async_ctx::Ctx::background(&mut t).with_timeout(&mut t, &clock, 1_000_000_000_000);
    let w = a.done(&mut t);
    assert!(try_await(a.poll_done(&mut t, &w, before + 999_999_999_999, 1)).is_none());
    let late = try_await(a.poll_done(&mut t, &w, clock.now() + 1_000_000_000_000, 1));
    assert_eq!(late, Some(AsyncErr::DeadlineExceeded));
}

#[test]
fn a_lone_deadline_passes() {
    let mut t: async_ctx::Contexts<u8> = async_ctx::Contexts::new();
    let root = async_ctx::Ctx::background(&mut t);
    let (a, _) = root.with_cancel(&mut t);
    let b = a.with_deadline(&mut t, 10);
    let w = b.done(&mut t);
    assert!(try_await(b.poll_done(&mut t, &w, 9, 2)).is_none());
    assert_eq!(try_await(b.poll_done(&mut t, &w, 10, 2)), Some(AsyncErr::DeadlineExceeded));
    assert_eq!(a.err(&t), None);
}

#[test]
fn an_eventual_is_set_once() {
    let mut e: Eventual<u32, &str> = Eventual::new();
    let w1 = e.wait();
    let w2 = e.wait();
    assert_eq!(e.get(), None);
    assert!(try_await(w1.poll(&mut e, "one")).is_none());
    assert!(try_await(w2.poll(&mut e, "two")).is_none());
    e.release(&w2);
    assert_eq!(e.set(5), (true, vec!["one"]));
    assert_eq!(e.set(6), (false, vec![]));
    assert_eq!(e.get(), Some(5));
    assert_eq!(try_await(w1.poll(&mut e, "one")), Some(5));
}

#[test]
fn a_scope_fails_with_the_first_failure() {
    let mut t: Contexts<()> = Contexts::new();
    let root = Ctx::background(&mut t);
    let mut s: Scope<&str, u32> = Scope::new(&mut t, &root);
    let ctx = s.ctx();
    s.spawn(1);
    s.spawn(2);
    s.spawn(3);
    s.complete(&mut t, Ok(()));
    assert_eq!(ctx.err(&t), None);
    s.complete(&mut t, Err("first"));
    assert_eq!(ctx.err(&t), Some(CtxErr::Cancelled));
    assert_eq!(root.err(&t), None);
    s.complete(&mut t, Err("second"));
    let mut joined = vec![];
    let result = loop {
        match s.step() {
            ScopeStep::Join(h) => joined.push(h),
            ScopeStep::Finished(r) => break r,
        }
    };
    assert_eq!(joined, vec![3, 2, 1]);
    assert_eq!(result, Err("first"));
}

#[test]
fn a_scope_without_failure_succeeds() {
    let mut t: Contexts<()> = Contexts::new();
    let root = Ctx::background(&mut t);
    let mut s: Scope<&str, u32> = Scope::new(&mut t, &root);
    s.complete(&mut t, Ok(()));
    assert!(matches!(s.step(), ScopeStep::Finished(Ok(()))));
    assert_eq!(s.ctx().err(&t), None);
}

#[test]
fn a_scope_hears_of_cancellation() {
    let mut t: Contexts<u8> = Contexts::new();
    let (a, cancel) = Ctx::background(&mut t).with_cancel(&mut t);
    let s: Scope<&str, u32> = Scope::new(&mut t, &a);
    let w = s.ctx().done(&mut t);
    assert!(try_await(s.ctx().poll_done(&mut t, &w, 0, 9).0).is_none());
    assert_eq!(cancel.call(&mut t), vec![9]);
    assert_eq!(s.ctx().err(&t), Some(CtxErr::Cancelled));
}
