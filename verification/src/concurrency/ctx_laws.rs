//! What holds of contexts whatever is done with them.
use crate::concurrency::ctx::CtxErr;
use crate::concurrency::tree::{lemma_node, no_later, TreeView};
use vstd::prelude::*;

verus! {

/// `x` is `a` or descends from it.
pub open spec fn descends<E, W>(t: TreeView<E, W>, a: u64, x: u64) -> bool
    decreases x,
{
    x == a || {
        let p = t.nodes[x].parent->0;
        &&& t.nodes[x].parent is Some
        &&& p < x
        &&& descends(t, a, p)
    }
}

/// `x` is `a`, or descends from it by contexts that each have an end of their
/// own and have not ended, `x` being one of them.
pub open spec fn descends_pending<E, W>(t: TreeView<E, W>, a: u64, x: u64) -> bool
    decreases x,
{
    x == a || {
        let p = t.nodes[x].parent->0;
        &&& t.nodes.contains_key(x)
        &&& t.nodes[x].done == x
        &&& t.dones[x].value is None
        &&& t.nodes[x].parent is Some
        &&& p < x
        &&& descends_pending(t, a, p)
    }
}

/// What a cancellation reaches descends from where it starts.
proof fn lemma_cancels_descends<E, W>(t: TreeView<E, W>, a: u64, x: u64)
    requires
        t.cancels(a, x),
    ensures
        descends(t, a, x),
    decreases x,
{
    if x != a {
        lemma_cancels_descends(t, a, t.nodes[x].parent->0);
    }
}

/// A context descends from the one whose end is also its own.
proof fn lemma_descends_from_done<E, W>(t: TreeView<E, W>, x: u64)
    requires
        t.wf(),
        t.nodes.contains_key(x),
    ensures
        descends(t, t.nodes[x].done, x),
    decreases x,
{
    lemma_node(t, x);
    if t.nodes[x].done != x {
        lemma_descends_from_done(t, t.nodes[x].parent->0);
    }
}

proof fn lemma_descends_transitive<E, W>(t: TreeView<E, W>, a: u64, b: u64, x: u64)
    requires
        descends(t, a, b),
        descends(t, b, x),
    ensures
        descends(t, a, x),
    decreases x,
{
    if x != b {
        lemma_descends_transitive(t, a, b, t.nodes[x].parent->0);
    }
}

/// A pending chain of descent is one along which a cancellation is passed on.
proof fn lemma_pending_chain_cancels<W>(t: TreeView<CtxErr, W>, a: u64, x: u64)
    requires
        t.wf(),
        t.nodes.contains_key(a),
        t.err(a) is None,
        descends_pending(t, a, x),
    ensures
        t.cancels(a, x),
        t.nodes.contains_key(x),
        t.err(x) is None,
    decreases x,
{
    if x != a {
        let p = t.nodes[x].parent->0;
        lemma_node(t, x);
        lemma_pending_chain_cancels(t, a, p);
    }
}

/// Cancelling a context that has not ended ends it, ends every context that
/// descends from it by contexts with a pending end of their own, and ends
/// every context that ends with one of these: all of them as cancelled.
pub proof fn cancellation_propagates<W>(t: TreeView<CtxErr, W>, a: u64, x: u64)
    requires
        t.wf(),
        t.nodes.contains_key(a),
        t.err(a) is None,
        t.nodes.contains_key(x),
        descends_pending(t, a, t.nodes[x].done) || t.nodes[x].done == t.nodes[a].done,
    ensures
        t.cancel(a, CtxErr::Cancelled).err(x) == Some(CtxErr::Cancelled),
{
    lemma_node(t, x);
    if descends_pending(t, a, t.nodes[x].done) {
        lemma_pending_chain_cancels(t, a, t.nodes[x].done);
    }
}

/// Cancelling a context changes nothing about one that neither descends from
/// it nor ends with it: not about its parent, nor about its siblings.
pub proof fn cancellation_stays_below<W>(t: TreeView<CtxErr, W>, a: u64, x: u64)
    requires
        t.wf(),
        t.nodes.contains_key(a),
        t.nodes.contains_key(x),
        !descends(t, a, x),
        t.nodes[x].done != t.nodes[a].done,
    ensures
        t.cancel(a, CtxErr::Cancelled).err(x) == t.err(x),
        t.cancel(a, CtxErr::Cancelled).nodes[x] == t.nodes[x],
{
    let d = t.nodes[x].done;
    lemma_node(t, x);
    if t.cancels(a, d) {
        lemma_cancels_descends(t, a, d);
        lemma_descends_from_done(t, x);
        lemma_descends_transitive(t, a, d, x);
    }
    if t.cancels(a, x) {
        lemma_cancels_descends(t, a, x);
    }
}

/// How a context ended does not change: not by a cancellation, not by a
/// deadline that passes, and not by contexts that are added or removed.
pub proof fn an_end_is_final<W>(
    t: TreeView<CtxErr, W>,
    x: u64,
    a: u64,
    deadline: u128,
    label: Seq<char>,
)
    requires
        t.wf(),
        t.nodes.contains_key(x),
        t.err(x) is Some,
        t.nodes.contains_key(a),
        t.next_id < u64::MAX,
    ensures
        t.cancel(a, CtxErr::Cancelled).err(x) == t.err(x),
        t.err(a) is None ==> t.with_done(a, t.done(a).set(CtxErr::Timeout)).err(x) == t.err(x),
        t.add_root().err(x) == t.err(x),
        t.with_cancel(a).err(x) == t.err(x),
        t.with_deadline(a, deadline).err(x) == t.err(x),
        t.with_label(a, label).err(x) == t.err(x),
        t.childless(a) && x != a ==> t.release(a).err(x) == t.err(x),
{
    lemma_node(t, x);
    lemma_node(t, a);
    let d = t.nodes[x].done;
    if t.err(a) is None && t.cancels(a, d) {
        assert(d == a || t.pending(d));
    }
    if t.childless(a) && x != a && d == a {
        lemma_shares_through_child(t, x);
    }
}

/// What ends with another context descends from one of its children, or is one.
proof fn lemma_shares_through_child<E, W>(t: TreeView<E, W>, x: u64)
    requires
        t.wf(),
        t.nodes.contains_key(x),
        t.nodes[x].done != x,
    ensures
        !t.childless(t.nodes[x].done),
    decreases x,
{
    lemma_node(t, x);
    let p = t.nodes[x].parent->0;
    if p == t.nodes[x].done {
        assert(t.nodes.contains_key(x));
    } else {
        lemma_shares_through_child(t, p);
    }
}

/// A context has to end no later than any it descends from.
pub proof fn deadlines_only_tighten<W>(t: TreeView<CtxErr, W>, a: u64, x: u64)
    requires
        t.wf(),
        t.nodes.contains_key(x),
        descends(t, a, x),
    ensures
        no_later(t.nodes[x].deadline, t.nodes[a].deadline),
        t.nodes[a].deadline matches Some(d) ==> (t.nodes[x].deadline matches Some(e) && e <= d),
    decreases x,
{
    lemma_node(t, x);
    if x != a {
        deadlines_only_tighten(t, a, t.nodes[x].parent->0);
    }
}

/// What is derived from a context that has ended has ended in the same way.
pub proof fn born_ended<W>(t: TreeView<CtxErr, W>, a: u64, deadline: u128, label: Seq<char>)
    requires
        t.wf(),
        t.nodes.contains_key(a),
        t.err(a) is Some,
        t.next_id < u64::MAX,
    ensures
        t.with_cancel(a).err(t.next_id) == t.err(a),
        t.with_deadline(a, deadline).err(t.next_id) == t.err(a),
        t.with_label(a, label).err(t.next_id) == t.err(a),
{
    lemma_node(t, a);
}

/// A context derived with a deadline or a label ends when its parent does, and
/// its parent when it does; a cancellation of either ends both.
pub proof fn labelled_ends_with_parent<W>(
    t: TreeView<CtxErr, W>,
    a: u64,
    top: u64,
    deadline: u128,
    label: Seq<char>,
)
    requires
        t.wf(),
        t.nodes.contains_key(a),
        t.nodes.contains_key(top),
        t.next_id < u64::MAX,
    ensures
        t.with_label(a, label).err(t.next_id) == t.err(a),
        t.with_deadline(a, deadline).err(t.next_id) == t.err(a),
        ({
            let s = t.with_label(a, label);
            s.cancel(top, CtxErr::Cancelled).err(t.next_id) == s.cancel(
                top,
                CtxErr::Cancelled,
            ).err(a)
        }),
        ({
            let s = t.with_deadline(a, deadline);
            s.cancel(top, CtxErr::Cancelled).err(t.next_id) == s.cancel(
                top,
                CtxErr::Cancelled,
            ).err(a)
        }),
{
    lemma_node(t, a);
    lemma_node(t, top);
}

/// What a cancellation reaches descends by pending ends from where it starts.
proof fn lemma_cancels_pending<E, W>(t: TreeView<E, W>, a: u64, x: u64)
    requires
        t.cancels(a, x),
    ensures
        descends_pending(t, a, x),
    decreases x,
{
    if x != a {
        lemma_cancels_pending(t, a, t.nodes[x].parent->0);
    }
}

/// Cancelling a context that has not ended ends, as cancelled, what shares its end
/// and what has, or shares, an end that is reached by pending ends; nobody waits
/// for these any more. All other ends stay as they are, and nothing else about a
/// context changes.
pub proof fn cancelling_ends_what_it_reaches<W>(t: TreeView<CtxErr, W>, a: u64, x: u64)
    requires
        t.wf(),
        t.nodes.contains_key(a),
        t.nodes.contains_key(x),
        t.dones[t.nodes[a].done].value is None,
    ensures
        ({
            let s = t.cancel(a, CtxErr::Cancelled);
            let d = t.nodes[x].done;
            &&& s.nodes.contains_key(x)
            &&& s.nodes[x].parent == t.nodes[x].parent
            &&& s.nodes[x].deadline == t.nodes[x].deadline
            &&& s.nodes[x].label == t.nodes[x].label
            &&& s.nodes[x].done == d
            &&& s.nodes[x].children == if descends_pending(t, a, x) {
                Seq::<u64>::empty()
            } else {
                t.nodes[x].children
            }
            &&& s.next_id == t.next_id
            &&& if d == t.nodes[a].done || descends_pending(t, a, d) {
                &&& s.dones[d].value == Some(CtxErr::Cancelled)
                &&& s.dones[d].waiters.len() == 0
            } else {
                s.dones[d] == t.dones[d]
            }
        }),
{
    lemma_node(t, x);
    let d = t.nodes[x].done;
    if descends_pending(t, a, d) {
        lemma_pending_chain_cancels(t, a, d);
    }
    if t.cancels(a, d) {
        lemma_cancels_pending(t, a, d);
    }
    if descends_pending(t, a, x) {
        lemma_pending_chain_cancels(t, a, x);
    }
    if t.cancels(a, x) {
        lemma_cancels_pending(t, a, x);
    }
}

/// Cancelling a context that has ended changes nothing.
pub proof fn cancelling_again_changes_nothing<E, W>(t: TreeView<E, W>, a: u64, e: E)
    requires
        t.dones[t.nodes[a].done].value is Some,
    ensures
        t.cancel(a, e) == t,
{
}

/// A child of a context that has ended as cancelled is not passed on to again: it
/// was let go.
pub proof fn a_cancelled_context_lets_its_children_go<E, W>(t: TreeView<E, W>, a: u64, e: E)
    requires
        t.wf(),
        t.nodes.contains_key(a),
        t.dones[t.nodes[a].done].value is None,
    ensures
        t.cancel(a, e).nodes[a].children.len() == 0,
{
    lemma_node(t, a);
}

/// A cancellation does not reach what is older.
proof fn lemma_older_is_not_reached<E, W>(t: TreeView<E, W>, top: u64, x: u64)
    requires
        x < top,
    ensures
        !t.cancels(top, x),
    decreases x,
{
    if t.cancels(top, x) {
        lemma_older_is_not_reached(t, top, t.nodes[x].parent->0);
    }
}

/// A context derived to be cancelled, from one that has not ended, has an end of
/// its own: cancelling it ends it, and ends none that was there before.
pub proof fn cancelling_a_child_leaves_the_others<E, W>(t: TreeView<E, W>, p: u64, x: u64, e: E)
    requires
        t.wf(),
        t.nodes.contains_key(p),
        t.nodes.contains_key(x),
        t.next_id < u64::MAX,
        t.dones[t.nodes[p].done].value is None,
    ensures
        ({
            let s = t.with_cancel(p);
            let c = s.cancel(t.next_id, e);
            &&& s.nodes[t.next_id].done == t.next_id
            &&& s.dones[t.next_id].value is None
            &&& c.dones[c.nodes[t.next_id].done].value == Some(e)
            &&& c.nodes[x].done == t.nodes[x].done
            &&& c.dones[t.nodes[x].done] == t.dones[t.nodes[x].done]
        }),
{
    lemma_node(t, p);
    lemma_node(t, x);
    let s = t.with_cancel(p);
    let d = t.nodes[x].done;
    lemma_older_is_not_reached(s, t.next_id, d);
    lemma_older_is_not_reached(s, t.next_id, x);
}

/// Cancelling a context cancels those that were derived from it to be cancelled.
pub proof fn cancelling_a_parent_cancels_its_child<W>(t: TreeView<CtxErr, W>, p: u64)
    requires
        t.wf(),
        t.nodes.contains_key(p),
        t.next_id < u64::MAX,
        t.dones[t.nodes[p].done].value is None,
    ensures
        ({
            let c = t.with_cancel(p).cancel(p, CtxErr::Cancelled);
            &&& c.dones[c.nodes[p].done].value == Some(CtxErr::Cancelled)
            &&& c.dones[c.nodes[t.next_id].done].value == Some(CtxErr::Cancelled)
        }),
{
    lemma_node(t, p);
    let s = t.with_cancel(p);
    assert(s.nodes[p].children.last() == t.next_id);
    assert(s.cancels(p, p));
    assert(s.cancels(p, t.next_id));
}

/// A context whose deadline passes ends with that, and with it what shares its
/// end, and no other.
pub proof fn a_deadline_ends_what_shares_the_end<E, W>(t: TreeView<E, W>, a: u64, x: u64, e: E)
    requires
        t.wf(),
        t.nodes.contains_key(a),
        t.nodes.contains_key(x),
    ensures
        ({
            let s = t.with_done(a, t.done(a).set(e));
            s.err(x) == if t.nodes[x].done == t.nodes[a].done {
                Some(e)
            } else {
                t.dones[t.nodes[x].done].value
            }
        }),
{
    lemma_node(t, a);
    lemma_node(t, x);
}

} // verus!
