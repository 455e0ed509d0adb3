//! Cancellation: ending a context and passing that on to its descendants.
use crate::concurrency::eventual::{wakers, EventualView};
use crate::concurrency::tree::{lemma_node, CtxTree, NodeView, TreeView};
use vstd::prelude::*;

verus! {

/// A cancellation reaches only younger contexts.
proof fn lemma_cancels_younger<E, W>(t: TreeView<E, W>, top: u64, x: u64)
    requires
        t.cancels(top, x),
    ensures
        top <= x,
    decreases x,
{
    if x != top {
        lemma_cancels_younger(t, top, t.nodes[x].parent->0);
    }
}

/// Of two contexts from which a cancellation reaches `x`, the older one's
/// reaches the younger.
proof fn lemma_cancels_meet<E, W>(t: TreeView<E, W>, a: u64, b: u64, x: u64)
    requires
        a < b,
        t.cancels(a, x),
        t.cancels(b, x),
    ensures
        t.cancels(a, b),
    decreases x,
{
    if x != b {
        lemma_cancels_younger(t, b, x);
        lemma_cancels_meet(t, a, b, t.nodes[x].parent->0);
    }
}

/// A cancellation of one child of `id` does not reach what that of another
/// reaches.
proof fn lemma_siblings_apart<E, W>(t: TreeView<E, W>, id: u64, a: u64, b: u64, x: u64)
    requires
        id < a,
        id < b,
        a != b,
        t.nodes[a].parent == Some(id),
        t.nodes[b].parent == Some(id),
        t.cancels(a, x),
    ensures
        !t.cancels(b, x),
{
    if t.cancels(b, x) {
        let (lo, hi) = if a < b {
            (a, b)
        } else {
            (b, a)
        };
        lemma_cancels_meet(t, lo, hi, x);
        lemma_cancels_younger(t, lo, id);
    }
}

/// `x` is `id` or is reached through one of the first `k` children of `id`.
spec fn through<E, W>(t: TreeView<E, W>, id: u64, k: int, x: u64) -> bool {
    x == id || exists|j: int|
        0 <= j < k && t.pending(t.nodes[id].children[j]) && #[trigger] t.cancels(
            t.nodes[id].children[j],
            x,
        )
}

/// The tree once `id` and the first `k` of its children were cancelled.
spec fn partly<E, W>(t: TreeView<E, W>, id: u64, e: E, k: int) -> TreeView<E, W> {
    TreeView {
        nodes: t.nodes.map_entries(
            |x: u64, n: NodeView|
                if through(t, id, k, x) {
                    NodeView { children: Seq::empty(), ..n }
                } else {
                    n
                },
        ),
        dones: t.dones.map_entries(
            |d: u64, v: EventualView<E, W>|
                if d == t.nodes[id].done || through(t, id, k, d) {
                    v.set(e)
                } else {
                    v
                },
        ),
        next_id: t.next_id,
    }
}

/// A cancellation of `id` reaches `id` and what it reaches through its
/// children, nothing else.
proof fn lemma_through_all<E, W>(t: TreeView<E, W>, id: u64, x: u64)
    requires
        t.wf(),
        t.nodes.contains_key(id),
    ensures
        t.cancels(id, x) <==> through(t, id, t.nodes[id].children.len() as int, x),
    decreases x,
{
    let kids = t.nodes[id].children;
    let n = kids.len() as int;
    assert(t.node_wf(id));
    if x != id {
        let p = t.nodes[x].parent->0;
        if t.cancels(id, x) {
            lemma_through_all(t, id, p);
            if p == id {
                let j = kids.index_of(x);
                assert(t.cancels(kids[j], x));
            } else {
                let j = choose|j: int|
                    0 <= j < n && t.pending(kids[j]) && #[trigger] t.cancels(kids[j], p);
                lemma_cancels_younger(t, kids[j], p);
                assert(t.cancels(kids[j], x));
            }
        }
        if through(t, id, n, x) {
            let j = choose|j: int|
                0 <= j < n && t.pending(kids[j]) && #[trigger] t.cancels(kids[j], x);
            let c = kids[j];
            assert(t.node_wf(c));
            assert(kids.contains(c));
            if x == c {
                assert(t.cancels(id, id));
            } else {
                assert(t.cancels(c, p));
                lemma_through_all(t, id, p);
            }
        }
    }
}

/// Cancelling the first `k` children leaves alone what the next one reaches.
proof fn lemma_partly_spares<E, W>(t: TreeView<E, W>, id: u64, e: E, k: int, x: u64)
    requires
        t.wf(),
        t.nodes.contains_key(id),
        0 <= k < t.nodes[id].children.len(),
        t.pending(t.nodes[id].children[k]),
    ensures
        t.cancels(t.nodes[id].children[k], x) ==> {
            &&& t.pending(x)
            &&& partly(t, id, e, k).nodes[x] == t.nodes[x]
            &&& partly(t, id, e, k).dones[x] == t.dones[x]
        },
        partly(t, id, e, k).pending(x) ==> t.pending(x),
        partly(t, id, e, k).cancels(t.nodes[id].children[k], x) <==> t.cancels(
            t.nodes[id].children[k],
            x,
        ),
    decreases x,
{
    let s = partly(t, id, e, k);
    let kids = t.nodes[id].children;
    let c = kids[k];
    let p = t.nodes[x].parent->0;
    lemma_node(t, id);
    assert(t.node_wf(c));
    if t.cancels(c, x) {
        lemma_cancels_younger(t, c, x);
        if through(t, id, k, x) {
            let j = choose|j: int|
                0 <= j < k && t.pending(kids[j]) && #[trigger] t.cancels(kids[j], x);
            assert(t.node_wf(kids[j]));
            assert(kids[j] != kids[k]);
            lemma_siblings_apart(t, id, kids[j], c, x);
        }
        assert(t.dones.contains_key(x)) by {
            assert(t.node_wf(x));
        }
        if x != c {
            lemma_partly_spares(t, id, e, k, p);
        }
    }
    if s.pending(x) {
        assert(t.node_wf(x));
        assert(t.dones.contains_key(x));
    }
    if s.cancels(c, x) && x != c {
        assert(s.nodes[x].parent == t.nodes[x].parent);
        assert(t.node_wf(x));
        lemma_partly_spares(t, id, e, k, p);
    }
}

/// One more child cancelled.
proof fn lemma_partly_step<E, W>(t: TreeView<E, W>, id: u64, e: E, k: int)
    requires
        t.wf(),
        t.nodes.contains_key(id),
        0 <= k < t.nodes[id].children.len(),
    ensures
        partly(t, id, e, k).cancel(t.nodes[id].children[k], e) == partly(t, id, e, k + 1),
        partly(t, id, e, k).err(t.nodes[id].children[k]) is Some <==> !t.pending(
            t.nodes[id].children[k],
        ),
{
    let s = partly(t, id, e, k);
    let u = partly(t, id, e, k + 1);
    let kids = t.nodes[id].children;
    let c = kids[k];
    lemma_node(t, id);
    assert(t.node_wf(c));
    assert(t.done_wf(t.nodes[c].done));
    assert forall|x: u64|
        through(t, id, k + 1, x) <==> through(t, id, k, x) || (t.pending(c) && t.cancels(c, x)) by {
        if t.pending(c) && t.cancels(c, x) {
            assert(t.cancels(kids[k], x));
        }
    }
    if t.pending(c) {
        lemma_partly_spares(t, id, e, k, c);
        let v = s.cancel(c, e);
        assert forall|x: u64| s.nodes.contains_key(x) implies v.nodes[x] == u.nodes[x] by {
            lemma_partly_spares(t, id, e, k, x);
        }
        assert forall|d: u64| s.dones.contains_key(d) implies v.dones[d] == u.dones[d] by {
            lemma_partly_spares(t, id, e, k, d);
        }
        assert(v =~= u);
    } else {
        assert(s =~= u);
    }
}

/// `s` is as `t` is where a cancellation of `top` goes in `t`, and nothing that
/// has ended in `t` has not ended in `s`.
spec fn agree<E, W>(t: TreeView<E, W>, s: TreeView<E, W>, top: u64) -> bool {
    &&& s.next_id == t.next_id
    &&& forall|x: u64| #[trigger]
        t.cancels(top, x) ==> t.pending(x) && s.pending(x) && s.nodes[x] == t.nodes[x] && s.dones[x]
            == t.dones[x]
    &&& forall|x: u64| #[trigger] s.pending(x) ==> t.pending(x)
}

/// Where trees agree, the same is woken.
proof fn lemma_same_wakers<E, W>(t: TreeView<E, W>, s: TreeView<E, W>, top: u64, y: u64)
    requires
        t.wf(),
        agree(t, s, top),
        t.cancels(top, y),
    ensures
        s.cancel_wakers(y) == t.cancel_wakers(y),
    decreases t.next_id - y, t.nodes[y].children.len() + 1,
{
    assert(t.node_wf(y));
    lemma_same_child_wakers(t, s, top, y, t.nodes[y].children.len());
}

proof fn lemma_same_child_wakers<E, W>(
    t: TreeView<E, W>,
    s: TreeView<E, W>,
    top: u64,
    y: u64,
    k: nat,
)
    requires
        t.wf(),
        agree(t, s, top),
        t.cancels(top, y),
        k <= t.nodes[y].children.len(),
    ensures
        s.child_wakers(y, k) == t.child_wakers(y, k),
    decreases t.next_id - y, k,
{
    if k > 0 {
        let c = t.nodes[y].children[k - 1];
        assert(t.node_wf(y));
        assert(t.node_wf(c));
        lemma_same_child_wakers(t, s, top, y, (k - 1) as nat);
        if t.pending(c) {
            assert(t.nodes[y].children.contains(c));
            assert(t.cancels(top, c));
            lemma_same_wakers(t, s, top, c);
        }
    }
}

/// Ends `id` by `e` unless it has ended, and passes that on to the children.
/// Returns what wakes those who waited.
pub(crate) fn cancel<E: Copy, W>(tree: &mut CtxTree<E, W>, id: u64, e: E) -> (woken: Vec<W>)
    requires
        old(tree)@.wf(),
        old(tree)@.nodes.contains_key(id),
    ensures
        final(tree)@ == old(tree)@.cancel(id, e),
        final(tree)@.wf(),
        woken@ == if old(tree)@.err(id) is Some {
            Seq::empty()
        } else {
            old(tree)@.cancel_wakers(id)
        },
    decreases old(tree)@.next_id - id,
{
    let ghost t = tree@;
    proof {
        lemma_node(t, id);
    }
    let (ended, mut woken) = tree.end(id, e);
    if !ended {
        return woken;
    }
    let children = tree.disown(id);
    proof {
        assert(t.dones.contains_key(id) ==> t.done_wf(id));
        assert forall|x: u64| through(t, id, 0, x) <==> x == id by {}
        assert(tree@ =~= partly(t, id, e, 0));
        assert(woken@ =~= wakers(t.done(id).waiters) + t.child_wakers(id, 0));
    }
    for k in 0..children.len()
        invariant
            t.wf(),
            t.nodes.contains_key(id),
            t == old(tree)@,
            t.err(id) is None,
            children@ == t.nodes[id].children,
            tree@ == partly(t, id, e, k as int),
            tree@.wf(),
            woken@ == wakers(t.done(id).waiters) + t.child_wakers(id, k as nat),
    {
        let c: u64 = children[k];
        proof {
            lemma_node(t, id);
            assert(t.node_wf(c));
            lemma_partly_step(t, id, e, k as int);
            if t.pending(c) {
                assert forall|x: u64| #[trigger] t.cancels(c, x) implies t.pending(x) && tree@.pending(
                    x,
                ) && tree@.nodes[x] == t.nodes[x] && tree@.dones[x] == t.dones[x] by {
                    lemma_partly_spares(t, id, e, k as int, x);
                }
                assert forall|x: u64| #[trigger] tree@.pending(x) implies t.pending(x) by {
                    lemma_partly_spares(t, id, e, k as int, x);
                }
                lemma_same_wakers(t, tree@, c, c);
            }
        }
        let ghost before = woken@;
        let mut more = cancel(tree, c, e);
        woken.append(&mut more);
        assert(woken@ =~= wakers(t.done(id).waiters) + t.child_wakers(id, (k + 1) as nat));
    }
    proof {
        let n = children.len() as int;
        assert forall|x: u64| t.cancels(id, x) <==> through(t, id, n, x) by {
            lemma_through_all(t, id, x);
        }
        assert(tree@ =~= t.cancel(id, e));
    }
    woken
}

} // verus!
