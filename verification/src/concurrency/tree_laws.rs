//! What each operation does to the tree of contexts, and what it leaves alone.
use crate::concurrency::ctx_laws::descends_pending;
use crate::concurrency::eventual::{all_who_were_polled_are_woken, wakers, EventualView};
use crate::concurrency::tree::{lemma_node, TreeView};
use vstd::prelude::*;

verus! {

/// How a context ended is what its end holds, and waiting for it is waiting for
/// that.
pub proof fn an_end_is_where_it_points<E, W>(t: TreeView<E, W>, x: u64, v: EventualView<E, W>)
    ensures
        t.err(x) == t.dones[t.nodes[x].done].value,
        t.done(x) == t.dones[t.nodes[x].done],
        t.with_done(x, v).dones == t.dones.insert(t.nodes[x].done, v),
        t.with_done(x, v).nodes == t.nodes,
        t.with_done(x, v).next_id == t.next_id,
{
}

/// A context that descends from none has no deadline and no label, has not ended,
/// and changes nothing for the others.
pub proof fn a_background_context_stands_alone<E, W>(t: TreeView<E, W>)
    requires
        t.next_id < u64::MAX,
    ensures
        ({
            let s = t.add_root();
            let id = t.next_id;
            &&& s.nodes.contains_key(id)
            &&& s.nodes[id].parent is None
            &&& s.nodes[id].deadline is None
            &&& s.nodes[id].label is None
            &&& s.nodes[id].children.len() == 0
            &&& s.nodes[id].done == id
            &&& s.dones.contains_key(id)
            &&& s.dones[id].value is None
            &&& s.dones[id].waiters.len() == 0
            &&& s.next_id == id + 1
            &&& s.nodes.remove(id) == t.nodes.remove(id)
            &&& s.dones.remove(id) == t.dones.remove(id)
        }),
{
    let s = t.add_root();
    assert(s.nodes.remove(t.next_id) =~= t.nodes.remove(t.next_id));
    assert(s.dones.remove(t.next_id) =~= t.dones.remove(t.next_id));
}

/// A context derived to be cancelled has the deadline of its parent, which passes
/// cancellation on to it. It has an end of its own if the parent has not ended,
/// and the end of the parent otherwise. Nothing changes for the others.
pub proof fn what_with_cancel_derives<E, W>(t: TreeView<E, W>, p: u64, x: u64)
    requires
        t.wf(),
        t.nodes.contains_key(p),
        t.next_id < u64::MAX,
    ensures
        ({
            let s = t.with_cancel(p);
            let id = t.next_id;
            &&& s.nodes.contains_key(id)
            &&& s.nodes[id].parent == Some(p)
            &&& s.nodes[id].deadline == t.nodes[p].deadline
            &&& s.nodes[id].label is None
            &&& s.nodes[id].children.len() == 0
            &&& s.next_id == id + 1
            &&& s.nodes[p].children == t.nodes[p].children.push(id)
            &&& s.nodes[p].parent == t.nodes[p].parent
            &&& s.nodes[p].deadline == t.nodes[p].deadline
            &&& s.nodes[p].label == t.nodes[p].label
            &&& s.nodes[p].done == t.nodes[p].done
            &&& x != p && x != id ==> s.nodes.contains_key(x) == t.nodes.contains_key(x)
                && s.nodes[x] == t.nodes[x]
            &&& x != id ==> s.dones.contains_key(x) == t.dones.contains_key(x) && s.dones[x]
                == t.dones[x]
            &&& match t.dones[t.nodes[p].done].value {
                None => s.nodes[id].done == id && s.dones.contains_key(id) && s.dones[id].value is None
                    && s.dones[id].waiters.len() == 0,
                Some(_) => s.nodes[id].done == t.nodes[p].done && s.dones == t.dones,
            }
        }),
{
    lemma_node(t, p);
}

/// A context derived with a deadline has the earlier of that and of the deadline
/// of its parent, and shares its end. Nothing changes for the others.
pub proof fn what_with_deadline_derives<E, W>(t: TreeView<E, W>, p: u64, deadline: u128, x: u64)
    requires
        t.wf(),
        t.nodes.contains_key(p),
        t.next_id < u64::MAX,
    ensures
        ({
            let s = t.with_deadline(p, deadline);
            let id = t.next_id;
            &&& s.nodes.contains_key(id)
            &&& s.nodes[id].parent == Some(p)
            &&& s.nodes[id].deadline == match t.nodes[p].deadline {
                None => Some(deadline),
                Some(d) => Some(
                    if d < deadline {
                        d
                    } else {
                        deadline
                    },
                ),
            }
            &&& s.nodes[id].label is None
            &&& s.nodes[id].children.len() == 0
            &&& s.nodes[id].done == t.nodes[p].done
            &&& s.next_id == id + 1
            &&& s.nodes[p].children == t.nodes[p].children.push(id)
            &&& s.nodes[p].parent == t.nodes[p].parent
            &&& s.nodes[p].deadline == t.nodes[p].deadline
            &&& s.nodes[p].label == t.nodes[p].label
            &&& s.nodes[p].done == t.nodes[p].done
            &&& x != p && x != id ==> s.nodes.contains_key(x) == t.nodes.contains_key(x)
                && s.nodes[x] == t.nodes[x]
            &&& s.dones == t.dones
        }),
{
    lemma_node(t, p);
}

/// A context derived with a label has that label and the deadline of its parent,
/// and shares its end. Nothing changes for the others.
pub proof fn what_with_label_derives<E, W>(t: TreeView<E, W>, p: u64, label: Seq<char>, x: u64)
    requires
        t.wf(),
        t.nodes.contains_key(p),
        t.next_id < u64::MAX,
    ensures
        ({
            let s = t.with_label(p, label);
            let id = t.next_id;
            &&& s.nodes.contains_key(id)
            &&& s.nodes[id].parent == Some(p)
            &&& s.nodes[id].deadline == t.nodes[p].deadline
            &&& s.nodes[id].label == Some(label)
            &&& s.nodes[id].children.len() == 0
            &&& s.nodes[id].done == t.nodes[p].done
            &&& s.next_id == id + 1
            &&& s.nodes[p].children == t.nodes[p].children.push(id)
            &&& s.nodes[p].parent == t.nodes[p].parent
            &&& s.nodes[p].deadline == t.nodes[p].deadline
            &&& s.nodes[p].label == t.nodes[p].label
            &&& s.nodes[p].done == t.nodes[p].done
            &&& x != p && x != id ==> s.nodes.contains_key(x) == t.nodes.contains_key(x)
                && s.nodes[x] == t.nodes[x]
            &&& s.dones == t.dones
        }),
{
    lemma_node(t, p);
}

/// A context that is removed is gone, and its parent no longer passes anything on
/// to it. Nothing else changes.
pub proof fn a_released_context_is_gone<E, W>(t: TreeView<E, W>, id: u64, x: u64)
    requires
        t.wf(),
        t.nodes.contains_key(id),
        t.childless(id),
        t.nodes.contains_key(x),
        x != id,
    ensures
        ({
            let s = t.release(id);
            &&& !s.nodes.contains_key(id)
            &&& s.nodes.contains_key(x)
            &&& s.nodes[x].parent == t.nodes[x].parent
            &&& s.nodes[x].deadline == t.nodes[x].deadline
            &&& s.nodes[x].label == t.nodes[x].label
            &&& s.nodes[x].done == t.nodes[x].done
            &&& s.nodes[x].children == if t.nodes[id].parent == Some(x) {
                t.nodes[x].children.filter(|c: u64| c != id)
            } else {
                t.nodes[x].children
            }
            &&& t.nodes[x].done != id ==> s.dones[t.nodes[x].done] == t.dones[t.nodes[x].done]
            &&& s.next_id == t.next_id
        }),
{
    lemma_node(t, id);
    lemma_node(t, x);
    assert(crate::concurrency::tree::other_than(id) =~= |c: u64| c != id);
}

/// A context is childless if and only if it is the parent of none.
pub proof fn childless_means_nobodys_parent<E, W>(t: TreeView<E, W>, id: u64)
    ensures
        t.childless(id) <==> forall|x: u64| #[trigger]
            t.nodes.contains_key(x) ==> t.nodes[x].parent != Some(id),
{
}

/// The path to a context does not change when another is derived.
proof fn lemma_path_stays<E, W>(t: TreeView<E, W>, s: TreeView<E, W>, x: u64)
    requires
        t.wf(),
        t.nodes.contains_key(x),
        forall|y: u64| #[trigger]
            t.nodes.contains_key(y) ==> s.nodes[y].parent == t.nodes[y].parent && s.nodes[y].label
                == t.nodes[y].label,
    ensures
        s.path(x) == t.path(x),
    decreases x,
{
    lemma_node(t, x);
    if t.nodes[x].parent is Some {
        lemma_path_stays(t, s, t.nodes[x].parent->0);
    }
}

/// The path to a context is that to its parent, and then its label, if it has one,
/// after two colons. Paths stay as they are when contexts are derived.
pub proof fn labels_lead_down<E, W>(
    t: TreeView<E, W>,
    p: u64,
    label: Seq<char>,
    deadline: u128,
    x: u64,
)
    requires
        t.wf(),
        t.nodes.contains_key(p),
        t.nodes.contains_key(x),
        t.next_id < u64::MAX,
    ensures
        t.with_label(p, label).path(t.next_id) == t.path(p) + seq![':', ':'] + label,
        t.with_cancel(p).path(t.next_id) == t.path(p),
        t.with_deadline(p, deadline).path(t.next_id) == t.path(p),
        t.add_root().path(t.next_id) == Seq::<char>::empty(),
        t.with_label(p, label).path(x) == t.path(x),
        t.with_cancel(p).path(x) == t.path(x),
        t.with_deadline(p, deadline).path(x) == t.path(x),
        t.add_root().path(x) == t.path(x),
{
    lemma_node(t, p);
    lemma_node(t, x);
    assert forall|y: u64| #[trigger] t.nodes.contains_key(y) implies y < t.next_id by {
        lemma_node(t, y);
    }
    lemma_path_stays(t, t.with_label(p, label), p);
    lemma_path_stays(t, t.with_cancel(p), p);
    lemma_path_stays(t, t.with_deadline(p, deadline), p);
    lemma_path_stays(t, t.with_label(p, label), x);
    lemma_path_stays(t, t.with_cancel(p), x);
    lemma_path_stays(t, t.with_deadline(p, deadline), x);
    lemma_path_stays(t, t.add_root(), x);
}

/// A cancellation of `a` reaches the end `d`: that of `a`, or one of a context that
/// descends from `a` by contexts that each have a pending end of their own.
pub open spec fn reaches<E, W>(t: TreeView<E, W>, a: u64, d: u64) -> bool {
    d == t.nodes[a].done || (d != a && descends_pending(t, a, d))
}

/// What the first children make up is part of what more of them do.
proof fn lemma_more_children<E, W>(t: TreeView<E, W>, id: u64, j: nat, k: nat, w: W)
    requires
        j <= k,
        t.child_wakers(id, j).contains(w),
    ensures
        t.child_wakers(id, k).contains(w),
    decreases k,
{
    if j < k {
        let i = (k - 1) as nat;
        lemma_more_children(t, id, j, i, w);
        let at = t.child_wakers(id, i).index_of(w);
        assert(t.child_wakers(id, k)[at] == w);
    }
}

/// Who is woken by the cancellation of a child is woken by that of its parent.
proof fn lemma_child_is_woken<E, W>(t: TreeView<E, W>, p: u64, x: u64, w: W)
    requires
        t.wf(),
        t.nodes.contains_key(x),
        t.nodes[x].done == x,
        t.dones[x].value is None,
        t.nodes[x].parent == Some(p),
        t.dones[t.nodes[p].done].value is None,
        t.cancel_wakers(x).contains(w),
    ensures
        t.cancel_wakers(p).contains(w),
{
    lemma_node(t, x);
    lemma_node(t, p);
    assert(t.nodes[p].children.contains(x));
    let i = t.nodes[p].children.index_of(x);
    let k = (i + 1) as nat;
    let before = t.child_wakers(p, i as nat);
    let at = t.cancel_wakers(x).index_of(w);
    assert(t.child_wakers(p, k) == before + t.cancel_wakers(x));
    assert(t.child_wakers(p, k)[before.len() + at] == w);
    lemma_more_children(t, p, k, t.nodes[p].children.len(), w);
    let own = wakers(t.dones[t.nodes[p].done].waiters);
    let below = t.child_wakers(p, t.nodes[p].children.len());
    assert(t.cancel_wakers(p)[own.len() + below.index_of(w)] == w);
}

/// Cancelling a context wakes everyone who was polled and waits for an end that
/// the cancellation reaches.
pub proof fn cancelling_wakes_all_it_reaches<E, W>(
    t: TreeView<E, W>,
    a: u64,
    x: u64,
    i: int,
    w: W,
)
    requires
        t.wf(),
        t.nodes.contains_key(a),
        t.dones[t.nodes[a].done].value is None,
        reaches(t, a, x),
        0 <= i < t.dones[x].waiters.len(),
        t.dones[x].waiters[i].1 == Some(w),
    ensures
        t.cancel_wakers(a).contains(w),
{
    all_who_were_polled_are_woken(t.dones[x].waiters);
    lemma_node(t, a);
    if x == t.nodes[a].done {
        let own = wakers(t.dones[x].waiters);
        assert(t.cancel_wakers(a)[own.index_of(w)] == w);
    } else {
        lemma_node_is_woken(t, a, x, w);
    }
}

proof fn lemma_node_is_woken<E, W>(t: TreeView<E, W>, a: u64, x: u64, w: W)
    requires
        t.wf(),
        t.nodes.contains_key(a),
        t.dones[t.nodes[a].done].value is None,
        descends_pending(t, a, x),
        x != a,
        wakers(t.dones[x].waiters).contains(w) || t.cancel_wakers(x).contains(w),
    ensures
        t.cancel_wakers(a).contains(w),
    decreases x,
{
    lemma_node(t, x);
    let p = t.nodes[x].parent->0;
    if !t.cancel_wakers(x).contains(w) {
        let own = wakers(t.dones[x].waiters);
        assert(t.cancel_wakers(x)[own.index_of(w)] == w);
    }
    if p != a {
        assert(descends_pending(t, a, p));
        reveal_with_fuel(descends_pending, 2);
        lemma_child_is_woken(t, p, x, w);
        lemma_node_is_woken(t, a, p, w);
    } else {
        lemma_child_is_woken(t, a, x, w);
    }
}

proof fn lemma_pending_transitive<E, W>(t: TreeView<E, W>, a: u64, b: u64, x: u64)
    requires
        descends_pending(t, a, b),
        descends_pending(t, b, x),
    ensures
        descends_pending(t, a, x),
    decreases x,
{
    if x != b {
        lemma_pending_transitive(t, a, b, t.nodes[x].parent->0);
    }
}

proof fn lemma_not_older<E, W>(t: TreeView<E, W>, a: u64, x: u64)
    requires
        descends_pending(t, a, x),
    ensures
        a <= x,
    decreases x,
{
    if x != a {
        lemma_not_older(t, a, t.nodes[x].parent->0);
    }
}

/// Cancelling a context wakes only those who wait for an end that the cancellation
/// reaches.
pub proof fn cancelling_wakes_nobody_else<E, W>(t: TreeView<E, W>, a: u64, w: W)
    requires
        t.wf(),
        t.nodes.contains_key(a),
        t.cancel_wakers(a).contains(w),
    ensures
        exists|d: u64| #[trigger] reaches(t, a, d) && wakers(t.dones[d].waiters).contains(w),
    decreases t.next_id - a, t.nodes[a].children.len() + 1,
{
    lemma_node(t, a);
    let own = wakers(t.dones[t.nodes[a].done].waiters);
    let below = t.child_wakers(a, t.nodes[a].children.len());
    if own.contains(w) {
        let d = t.nodes[a].done;
        assert(reaches(t, a, d));
    } else {
        let at = t.cancel_wakers(a).index_of(w);
        assert(below[at - own.len()] == w);
        lemma_only_below(t, a, t.nodes[a].children.len(), w);
    }
}

proof fn lemma_only_below<E, W>(t: TreeView<E, W>, a: u64, k: nat, w: W)
    requires
        t.wf(),
        t.nodes.contains_key(a),
        k <= t.nodes[a].children.len(),
        t.child_wakers(a, k).contains(w),
    ensures
        exists|d: u64| #[trigger] reaches(t, a, d) && wakers(t.dones[d].waiters).contains(w),
    decreases t.next_id - a, k,
{
    lemma_node(t, a);
    if k > 0 {
        let c = t.nodes[a].children[k - 1];
        let before = t.child_wakers(a, (k - 1) as nat);
        if before.contains(w) {
            lemma_only_below(t, a, (k - 1) as nat, w);
        } else {
            assert(t.pending(c) && a < c < t.next_id) by {
                if !(t.pending(c) && a < c < t.next_id) {
                    assert(t.child_wakers(a, k) == before);
                }
            }
            let at = t.child_wakers(a, k).index_of(w);
            assert(t.cancel_wakers(c)[at - before.len()] == w);
            cancelling_wakes_nobody_else(t, c, w);
            let d = choose|d: u64| #[trigger]
                reaches(t, c, d) && wakers(t.dones[d].waiters).contains(w);
            assert(t.nodes[c].parent == Some(a));
            assert(descends_pending(t, a, a));
            assert(descends_pending(t, a, c));
            assert(descends_pending(t, c, d));
            lemma_pending_transitive(t, a, c, d);
            lemma_not_older(t, c, d);
            assert(reaches(t, a, d));
        }
    }
}

} // verus!
