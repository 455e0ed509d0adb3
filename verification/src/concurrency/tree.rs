//! The tree in which contexts live: who descends from whom, which contexts
//! end together, and by when each has to end.
use crate::concurrency::eventual::{wakers, Eventual, EventualView, Poll, Waiter};
use crate::seqs::lemma_filter_no_duplicates;
use std::collections::HashMap;
use vstd::prelude::*;

verus! {

/// What a context is.
#[verifier::ext_equal]
pub struct NodeView {
    pub label: Option<Seq<char>>,
    pub parent: Option<u64>,
    pub deadline: Option<u128>,
    /// The context whose end is also the end of this one.
    pub done: u64,
    /// The contexts that a cancellation is passed on to.
    pub children: Seq<u64>,
}

/// What a `CtxTree` holds: the live contexts, and how each of those that have
/// an end of their own ended or is waited for.
#[verifier::ext_equal]
pub struct TreeView<E, W> {
    pub nodes: Map<u64, NodeView>,
    pub dones: Map<u64, EventualView<E, W>>,
    pub next_id: u64,
}

/// `a` ends no later than `b`; without a deadline there is no limit.
pub open spec fn no_later(a: Option<u128>, b: Option<u128>) -> bool {
    b is Some ==> a is Some && a->0 <= b->0
}

/// The earlier of a deadline and one that there may be.
pub open spec fn earlier(a: u128, b: Option<u128>) -> u128 {
    if b is Some && b->0 < a {
        b->0
    } else {
        a
    }
}

impl<E, W> TreeView<E, W> {
    /// How the context `id` ended, if it has.
    pub open spec fn err(self, id: u64) -> Option<E> {
        self.dones[self.nodes[id].done].value
    }

    /// `id` stands in the tree as it should: its parent is older and alive, it
    /// ends with its parent or on its own, no later than its parent has to,
    /// and its parent passes a cancellation on to it unless the parent has
    /// ended; its own children are alive and distinct.
    pub open spec fn node_wf(self, id: u64) -> bool {
        let n = self.nodes[id];
        &&& id < self.next_id
        &&& self.dones.contains_key(n.done)
        &&& n.done <= id
        &&& n.done != id ==> n.parent is Some && n.done == self.nodes[n.parent->0].done
        &&& n.parent is Some ==> {
            let p = n.parent->0;
            &&& p < id
            &&& self.nodes.contains_key(p)
            &&& no_later(n.deadline, self.nodes[p].deadline)
            &&& self.nodes[p].children.contains(id) || self.err(p) is Some
        }
        &&& forall|i: int|
            0 <= i < n.children.len() ==> self.nodes.contains_key(#[trigger] n.children[i])
                && self.nodes[n.children[i]].parent == Some(id)
        &&& n.children.no_duplicates()
    }

    pub open spec fn done_wf(self, d: u64) -> bool {
        &&& self.nodes.contains_key(d)
        &&& self.nodes[d].done == d
        &&& self.dones[d].wf()
    }

    pub open spec fn wf(self) -> bool {
        &&& forall|id: u64| self.nodes.contains_key(id) ==> #[trigger] self.node_wf(id)
        &&& forall|d: u64| self.dones.contains_key(d) ==> #[trigger] self.done_wf(d)
    }

    /// `x` has an end of its own and has not ended.
    pub open spec fn pending(self, x: u64) -> bool {
        &&& self.nodes.contains_key(x)
        &&& self.nodes[x].done == x
        &&& self.dones[x].value is None
    }

    /// A cancellation of `top` reaches `x`: from each context it goes on to
    /// those of its children that have an end of their own and have not ended.
    pub open spec fn cancels(self, top: u64, x: u64) -> bool
        decreases x,
    {
        x == top || {
            let p = self.nodes[x].parent->0;
            &&& self.pending(x)
            &&& self.nodes[x].parent is Some
            &&& p < x
            &&& self.nodes[p].children.contains(x)
            &&& self.cancels(top, p)
        }
    }

    /// The tree after `top` was ended by `e` and the cancellation passed on.
    pub open spec fn cancel(self, top: u64, e: E) -> Self {
        if self.err(top) is Some {
            self
        } else {
            TreeView {
                nodes: self.nodes.map_entries(
                    |x: u64, n: NodeView|
                        if self.cancels(top, x) {
                            NodeView { children: Seq::empty(), ..n }
                        } else {
                            n
                        },
                ),
                dones: self.dones.map_entries(
                    |d: u64, v: EventualView<E, W>|
                        if d == self.nodes[top].done || self.cancels(top, d) {
                            v.set(e)
                        } else {
                            v
                        },
                ),
                next_id: self.next_id,
            }
        }
    }

    /// What wakes those who wait for the end of `id` or of a context that a
    /// cancellation of `id` reaches: `id` first, then child by child.
    pub open spec fn cancel_wakers(self, id: u64) -> Seq<W>
        decreases self.next_id - id, self.nodes[id].children.len() + 1,
    {
        wakers(self.dones[self.nodes[id].done].waiters) + self.child_wakers(
            id,
            self.nodes[id].children.len(),
        )
    }

    /// The part of it that the first `k` children of `id` make up.
    pub open spec fn child_wakers(self, id: u64, k: nat) -> Seq<W>
        decreases self.next_id - id, k,
    {
        if k == 0 {
            Seq::empty()
        } else {
            let c = self.nodes[id].children[k - 1];
            let before = self.child_wakers(id, (k - 1) as nat);
            if self.pending(c) && id < c < self.next_id {
                before + self.cancel_wakers(c)
            } else {
                before
            }
        }
    }
}

/// Tells `id` from other contexts.
pub open spec fn other_than(id: u64) -> spec_fn(u64) -> bool {
    |c: u64| c != id
}

impl<E, W> TreeView<E, W> {
    /// No context at all.
    pub open spec fn empty() -> Self {
        TreeView { nodes: Map::empty(), dones: Map::empty(), next_id: 0 }
    }

    /// One more context that descends from none.
    pub open spec fn add_root(self) -> Self {
        TreeView {
            nodes: self.nodes.insert(
                self.next_id,
                NodeView {
                    label: None,
                    parent: None,
                    deadline: None,
                    done: self.next_id,
                    children: Seq::empty(),
                },
            ),
            dones: self.dones.insert(
                self.next_id,
                EventualView { value: None, waiters: Seq::empty(), next_id: 0 },
            ),
            next_id: (self.next_id + 1) as u64,
        }
    }

    /// One more child of `p`, with an end of its own or ending with `p`.
    pub open spec fn add_child(
        self,
        p: u64,
        label: Option<Seq<char>>,
        deadline: Option<u128>,
        own_end: bool,
    ) -> Self {
        let parent = self.nodes[p];
        TreeView {
            nodes: self.nodes.insert(
                p,
                NodeView { children: parent.children.push(self.next_id), ..parent },
            ).insert(
                self.next_id,
                NodeView {
                    label,
                    parent: Some(p),
                    deadline,
                    done: if own_end {
                        self.next_id
                    } else {
                        parent.done
                    },
                    children: Seq::empty(),
                },
            ),
            dones: if own_end {
                self.dones.insert(
                    self.next_id,
                    EventualView { value: None, waiters: Seq::empty(), next_id: 0 },
                )
            } else {
                self.dones
            },
            next_id: (self.next_id + 1) as u64,
        }
    }

    /// One more child of `p`, to be cancelled on its own; it has ended if `p`
    /// has.
    pub open spec fn with_cancel(self, p: u64) -> Self {
        self.add_child(p, None, self.nodes[p].deadline, self.err(p) is None)
    }

    /// One more child of `p` that ends with it, by `deadline` at the latest and
    /// no later than `p` has to.
    pub open spec fn with_deadline(self, p: u64, deadline: u128) -> Self {
        self.add_child(p, None, Some(earlier(deadline, self.nodes[p].deadline)), false)
    }

    /// One more child of `p` that ends with it, under a label.
    pub open spec fn with_label(self, p: u64, label: Seq<char>) -> Self {
        self.add_child(p, Some(label), self.nodes[p].deadline, false)
    }

    /// The end of `id`, and of all that end with it, is now `v`.
    pub open spec fn with_done(self, id: u64, v: EventualView<E, W>) -> Self {
        TreeView { dones: self.dones.insert(self.nodes[id].done, v), ..self }
    }

    /// How the end of `id` stands.
    pub open spec fn done(self, id: u64) -> EventualView<E, W> {
        self.dones[self.nodes[id].done]
    }

    /// `id` passes nothing on to the children it had.
    pub open spec fn disown(self, id: u64) -> Self {
        TreeView {
            nodes: self.nodes.insert(id, NodeView { children: Seq::empty(), ..self.nodes[id] }),
            ..self
        }
    }

    /// No live context descends from `id`.
    pub open spec fn childless(self, id: u64) -> bool {
        forall|x: u64| #[trigger]
            self.nodes.contains_key(x) ==> self.nodes[x].parent != Some(id)
    }

    /// Without `id`, which nothing refers to any more.
    pub open spec fn release(self, id: u64) -> Self {
        let parent = self.nodes[id].parent;
        let nodes = if parent is Some {
            let p = self.nodes[parent->0];
            self.nodes.insert(
                parent->0,
                NodeView { children: p.children.filter(other_than(id)), ..p },
            )
        } else {
            self.nodes
        };
        TreeView { nodes: nodes.remove(id), dones: self.dones.remove(id), ..self }
    }

    /// The labels on the way from the root down to `id`, each after `::`.
    pub open spec fn path(self, id: u64) -> Seq<char>
        decreases id,
    {
        let n = self.nodes[id];
        let above = if n.parent is Some && n.parent->0 < id {
            self.path(n.parent->0)
        } else {
            Seq::empty()
        };
        if n.label is Some {
            above + seq![':', ':'] + n.label->0
        } else {
            above
        }
    }
}

/// A context as it is kept.
struct Node {
    label: Option<String>,
    parent: Option<u64>,
    deadline: Option<u128>,
    done: u64,
    children: Vec<u64>,
}

/// The label's characters, if there is a label.
pub open spec fn label_view(l: Option<String>) -> Option<Seq<char>> {
    match l {
        Some(s) => Some(s@),
        None => None,
    }
}

impl View for Node {
    type V = NodeView;

    closed spec fn view(&self) -> NodeView {
        NodeView {
            label: label_view(self.label),
            parent: self.parent,
            deadline: self.deadline,
            done: self.done,
            children: self.children@,
        }
    }
}

/// All live contexts. `E` says how a context ended, `W` wakes one who waits
/// for that.
pub struct CtxTree<E, W> {
    nodes: HashMap<u64, Node>,
    dones: HashMap<u64, Eventual<E, W>>,
    next_id: u64,
}

impl<E, W> View for CtxTree<E, W> {
    type V = TreeView<E, W>;

    closed spec fn view(&self) -> TreeView<E, W> {
        TreeView {
            nodes: self.nodes@.map_values(|n: Node| n@),
            dones: self.dones@.map_values(|d: Eventual<E, W>| d@),
            next_id: self.next_id,
        }
    }
}

impl<E, W> CtxTree<E, W> {
    /// A tree without contexts.
    pub fn new() -> (t: Self)
        ensures
            t@ == TreeView::<E, W>::empty(),
            t@.wf(),
    {
        let t = CtxTree { nodes: HashMap::new(), dones: HashMap::new(), next_id: 0 };
        assert(t@ =~= TreeView::<E, W>::empty());
        t
    }

    /// Whether one more context can be added.
    pub fn has_room(&self) -> (b: bool)
        ensures
            b <==> self@.next_id < u64::MAX,
    {
        self.next_id < u64::MAX
    }

    /// Adds a root.
    pub(crate) fn add_root(&mut self) -> (id: u64)
        requires
            old(self)@.wf(),
            old(self)@.next_id < u64::MAX,
        ensures
            id == old(self)@.next_id,
            final(self)@ == old(self)@.add_root(),
            final(self)@.wf(),
    {
        let id: u64 = self.next_id;
        let node = Node { label: None, parent: None, deadline: None, done: id, children: Vec::new() };
        self.nodes.insert(id, node);
        self.dones.insert(id, Eventual::new());
        self.next_id = id + 1;
        proof {
            assert(self@ =~= old(self)@.add_root());
            lemma_add_root_wf(old(self)@);
        }
        id
    }
}

impl<E, W> CtxTree<E, W> {
    /// Adds a child of `p`.
    pub(crate) fn add_child(
        &mut self,
        p: u64,
        label: Option<String>,
        deadline: Option<u128>,
        own_end: bool,
    ) -> (id: u64)
        requires
            old(self)@.wf(),
            old(self)@.next_id < u64::MAX,
            old(self)@.nodes.contains_key(p),
            no_later(deadline, old(self)@.nodes[p].deadline),
        ensures
            id == old(self)@.next_id,
            final(self)@ == old(self)@.add_child(p, label_view(label), deadline, own_end),
            final(self)@.wf(),
    {
        let id: u64 = self.next_id;
        match self.nodes.remove(&p) {
            Some(mut parent) => {
                let done: u64 = if own_end {
                    id
                } else {
                    parent.done
                };
                parent.children.push(id);
                self.nodes.insert(p, parent);
                self.nodes.insert(id, Node { label, parent: Some(p), deadline, done, children: Vec::new() });
            },
            None => {},
        }
        if own_end {
            self.dones.insert(id, Eventual::new());
        }
        self.next_id = id + 1;
        proof {
            lemma_node(old(self)@, p);
            assert(self@ =~= old(self)@.add_child(p, label_view(label), deadline, own_end));
            lemma_add_child_wf(old(self)@, p, label_view(label), deadline, own_end);
        }
        id
    }

    /// By when `id` has to end.
    pub(crate) fn deadline(&self, id: u64) -> (d: Option<u128>)
        requires
            self@.nodes.contains_key(id),
        ensures
            d == self@.nodes[id].deadline,
    {
        match self.nodes.get(&id) {
            Some(n) => n.deadline,
            None => None,
        }
    }

    /// How `id` ended, if it has.
    pub(crate) fn err(&self, id: u64) -> (r: Option<E>) where E: Clone
        requires
            self@.wf(),
            self@.nodes.contains_key(id),
        ensures
            r is Some <==> self@.err(id) is Some,
            r is Some ==> cloned(self@.err(id)->0, r->0),
    {
        proof {
            lemma_node(self@, id);
        }
        match self.nodes.get(&id) {
            Some(n) => match self.dones.get(&n.done) {
                Some(d) => d.get(),
                None => None,
            },
            None => None,
        }
    }

    /// Whether one more can wait for the end of `id`.
    pub(crate) fn can_wait(&self, id: u64) -> (b: bool)
        requires
            self@.wf(),
            self@.nodes.contains_key(id),
        ensures
            b <==> self@.done(id).next_id < u64::MAX,
    {
        proof {
            lemma_node(self@, id);
        }
        match self.nodes.get(&id) {
            Some(n) => match self.dones.get(&n.done) {
                Some(d) => d.has_room(),
                None => false,
            },
            None => false,
        }
    }

    /// Takes out the end of `id`, to be put back by `put_done`.
    fn take_done(&mut self, id: u64) -> (r: (u64, Eventual<E, W>))
        requires
            old(self)@.wf(),
            old(self)@.nodes.contains_key(id),
        ensures
            r.0 == old(self)@.nodes[id].done,
            r.1@ == old(self)@.done(id),
            final(self)@ == (TreeView { dones: old(self)@.dones.remove(r.0), ..old(self)@ }),
    {
        proof {
            lemma_node(self@, id);
        }
        let d: u64 = match self.nodes.get(&id) {
            Some(n) => n.done,
            None => id,
        };
        let e = match self.dones.remove(&d) {
            Some(e) => e,
            None => Eventual::new(),
        };
        assert(self@ =~= (TreeView { dones: old(self)@.dones.remove(d), ..old(self)@ }));
        (d, e)
    }

    fn put_done(&mut self, d: u64, e: Eventual<E, W>)
        ensures
            final(self)@ == (TreeView { dones: old(self)@.dones.insert(d, e@), ..old(self)@ }),
    {
        self.dones.insert(d, e);
        assert(self@ =~= (TreeView { dones: old(self)@.dones.insert(d, e@), ..old(self)@ }));
    }

    /// Ends `id` by `e` unless it has ended. Returns whether it ended now, and
    /// what wakes those who waited for that.
    pub(crate) fn end(&mut self, id: u64, e: E) -> (r: (bool, Vec<W>))
        requires
            old(self)@.wf(),
            old(self)@.nodes.contains_key(id),
        ensures
            r.0 <==> old(self)@.err(id) is None,
            r.0 ==> final(self)@ == old(self)@.with_done(id, old(self)@.done(id).set(e)) && r.1@
                == wakers(old(self)@.done(id).waiters),
            !r.0 ==> final(self)@ == old(self)@ && r.1@.len() == 0,
            final(self)@.wf(),
    {
        let (d, mut done) = self.take_done(id);
        let r = done.set(e);
        let ghost v = done@;
        self.put_done(d, done);
        proof {
            lemma_node(old(self)@, id);
            lemma_with_done_wf(old(self)@, id, v);
            assert(self@ =~= old(self)@.with_done(id, v));
            if !r.0 {
                assert(self@ =~= old(self)@);
            }
        }
        r
    }
}

impl<E, W> CtxTree<E, W> {
    /// Takes the children of `id`, which has ended, out of its list.
    pub(crate) fn disown(&mut self, id: u64) -> (children: Vec<u64>)
        requires
            old(self)@.wf(),
            old(self)@.nodes.contains_key(id),
            old(self)@.err(id) is Some,
        ensures
            children@ == old(self)@.nodes[id].children,
            final(self)@ == old(self)@.disown(id),
            final(self)@.wf(),
    {
        let mut children: Vec<u64> = Vec::new();
        match self.nodes.remove(&id) {
            Some(mut n) => {
                core::mem::swap(&mut children, &mut n.children);
                self.nodes.insert(id, n);
            },
            None => {},
        }
        proof {
            assert(self@ =~= old(self)@.disown(id));
            lemma_disown_wf(old(self)@, id);
        }
        children
    }
}

impl<E, W> CtxTree<E, W> {
    /// Starts to wait for the end of `id`.
    pub(crate) fn wait(&mut self, id: u64) -> (w: Waiter)
        requires
            old(self)@.wf(),
            old(self)@.nodes.contains_key(id),
            old(self)@.done(id).next_id < u64::MAX,
        ensures
            w.id() == old(self)@.done(id).next_id,
            final(self)@ == old(self)@.with_done(id, old(self)@.done(id).wait()),
            final(self)@.wf(),
    {
        proof {
            lemma_node(old(self)@, id);
        }
        let (d, mut done) = self.take_done(id);
        let w = done.wait();
        let ghost v = done@;
        self.put_done(d, done);
        proof {
            lemma_with_done_wf(old(self)@, id, v);
            assert(self@ =~= old(self)@.with_done(id, v));
        }
        w
    }

    /// How `id` ended; if it has not, `waker` is kept for `w`.
    pub(crate) fn poll(&mut self, id: u64, w: &Waiter, waker: W) -> (r: Poll<E>) where E: Clone
        requires
            old(self)@.wf(),
            old(self)@.nodes.contains_key(id),
        ensures
            match r {
                Poll::Ready(e) => old(self)@.err(id) is Some && cloned(old(self)@.err(id)->0, e)
                    && final(self)@ == old(self)@,
                Poll::Pending => old(self)@.err(id) is None && final(self)@ == old(self)@.with_done(
                    id,
                    old(self)@.done(id).park(w.id(), waker),
                ),
            },
            final(self)@.wf(),
    {
        proof {
            lemma_node(old(self)@, id);
        }
        let (d, mut done) = self.take_done(id);
        let r = w.poll(&mut done, waker);
        let ghost v = done@;
        self.put_done(d, done);
        proof {
            lemma_with_done_wf(old(self)@, id, v);
            assert(self@ =~= old(self)@.with_done(id, v));
            if r is Ready {
                assert(self@ =~= old(self)@);
            }
        }
        r
    }

    /// `w` no longer waits for the end of `id`.
    pub(crate) fn stop_waiting(&mut self, id: u64, w: &Waiter)
        requires
            old(self)@.wf(),
            old(self)@.nodes.contains_key(id),
        ensures
            final(self)@ == old(self)@.with_done(id, old(self)@.done(id).release(w.id())),
            final(self)@.wf(),
    {
        proof {
            lemma_node(old(self)@, id);
        }
        let (d, mut done) = self.take_done(id);
        done.release(w);
        let ghost v = done@;
        self.put_done(d, done);
        proof {
            lemma_with_done_wf(old(self)@, id, v);
            assert(self@ =~= old(self)@.with_done(id, v));
        }
    }

    /// The labels on the way down to `id`.
    pub(crate) fn path(&self, id: u64) -> (r: String)
        requires
            self@.wf(),
            self@.nodes.contains_key(id),
        ensures
            r@ == self@.path(id),
        decreases id,
    {
        proof {
            lemma_node(self@, id);
        }
        let mut s = String::new();
        match self.nodes.get(&id) {
            Some(n) => {
                if let Some(p) = n.parent {
                    s = self.path(p);
                }
                if let Some(l) = &n.label {
                    s.append("::");
                    s.append(l.as_str());
                    proof {
                        reveal_strlit("::");
                        assert("::"@ =~= seq![':', ':']);
                    }
                }
            },
            None => {},
        }
        s
    }

    /// Removes `id`, from which no live context descends.
    pub(crate) fn release(&mut self, id: u64)
        requires
            old(self)@.wf(),
            old(self)@.nodes.contains_key(id),
            old(self)@.childless(id),
        ensures
            final(self)@ == old(self)@.release(id),
            final(self)@.wf(),
    {
        let ghost t = self@;
        proof {
            lemma_node(t, id);
        }
        if let Some(n) = self.nodes.remove(&id) {
            if let Some(p) = n.parent {
                if let Some(mut parent) = self.nodes.remove(&p) {
                    parent.children = without(&parent.children, id);
                    self.nodes.insert(p, parent);
                }
            }
        }
        self.dones.remove(&id);
        proof {
            assert(self@ =~= t.release(id));
            lemma_release_wf(t, id);
        }
    }
}

/// The ids in `v` other than `id`, in their order.
fn without(v: &Vec<u64>, id: u64) -> (r: Vec<u64>)
    ensures
        r@ == v@.filter(other_than(id)),
{
    let mut r: Vec<u64> = Vec::new();
    let ghost keep = other_than(id);
    for i in 0..v.len()
        invariant
            keep == other_than(id),
            r@ == v@.take(i as int).filter(keep),
    {
        proof {
            reveal(Seq::filter);
            assert(v@.take(i + 1).drop_last() =~= v@.take(i as int));
        }
        if v[i] != id {
            r.push(v[i]);
        }
    }
    assert(v@.take(v.len() as int) =~= v@);
    r
}

/// What well-formedness says about one context.
pub proof fn lemma_node<E, W>(t: TreeView<E, W>, id: u64)
    requires
        t.wf(),
        t.nodes.contains_key(id),
    ensures
        t.node_wf(id),
        t.done_wf(t.nodes[id].done),
        t.node_wf(t.nodes[id].done),
        t.nodes[id].parent is Some ==> {
            &&& t.node_wf(t.nodes[id].parent->0)
            &&& t.done_wf(t.nodes[t.nodes[id].parent->0].done)
            &&& t.node_wf(t.nodes[t.nodes[id].parent->0].done)
        },
{
    assert(t.node_wf(id));
    assert(t.done_wf(t.nodes[id].done));
    if t.nodes[id].parent is Some {
        let p = t.nodes[id].parent->0;
        assert(t.node_wf(p));
        assert(t.done_wf(t.nodes[p].done));
    }
}

proof fn lemma_add_root_wf<E, W>(t: TreeView<E, W>)
    requires
        t.wf(),
        t.next_id < u64::MAX,
    ensures
        t.add_root().wf(),
{
    let s = t.add_root();
    assert(t.nodes.contains_key(t.next_id) ==> t.node_wf(t.next_id));
    assert forall|id: u64| s.nodes.contains_key(id) implies #[trigger] s.node_wf(id) by {
        if id != t.next_id {
            lemma_node(t, id);
        }
    }
    assert forall|d: u64| s.dones.contains_key(d) implies #[trigger] s.done_wf(d) by {
        if d != t.next_id {
            assert(t.done_wf(d));
        }
    }
}

proof fn lemma_add_child_wf<E, W>(
    t: TreeView<E, W>,
    p: u64,
    label: Option<Seq<char>>,
    deadline: Option<u128>,
    own_end: bool,
)
    requires
        t.wf(),
        t.next_id < u64::MAX,
        t.nodes.contains_key(p),
        no_later(deadline, t.nodes[p].deadline),
    ensures
        t.add_child(p, label, deadline, own_end).wf(),
{
    let s = t.add_child(p, label, deadline, own_end);
    let new = t.next_id;
    assert(t.nodes.contains_key(new) ==> t.node_wf(new));
    lemma_node(t, p);
    let kids = t.nodes[p].children;
    assert forall|id: u64| s.nodes.contains_key(id) implies #[trigger] s.node_wf(id) by {
        if id == new {
            assert(s.nodes[p].children[kids.len() as int] == new);
        } else {
            lemma_node(t, id);
            let n = t.nodes[id];
            if n.parent == Some(p) && kids.contains(id) {
                let i = kids.index_of(id);
                assert(s.nodes[p].children[i] == id);
            }
            if id == p {
                assert(!kids.contains(new));
            }
        }
    }
    assert forall|d: u64| s.dones.contains_key(d) implies #[trigger] s.done_wf(d) by {
        if d != new {
            assert(t.done_wf(d));
        }
    }
}

proof fn lemma_with_done_wf<E, W>(t: TreeView<E, W>, id: u64, v: EventualView<E, W>)
    requires
        t.wf(),
        t.nodes.contains_key(id),
        v.wf(),
        t.err(id) is Some ==> v.value is Some,
    ensures
        t.with_done(id, v).wf(),
{
    let s = t.with_done(id, v);
    lemma_node(t, id);
    assert forall|x: u64| s.nodes.contains_key(x) implies #[trigger] s.node_wf(x) by {
        lemma_node(t, x);
    }
    assert forall|d: u64| s.dones.contains_key(d) implies #[trigger] s.done_wf(d) by {
        assert(t.done_wf(d));
    }
}

proof fn lemma_disown_wf<E, W>(t: TreeView<E, W>, id: u64)
    requires
        t.wf(),
        t.nodes.contains_key(id),
        t.err(id) is Some,
    ensures
        t.disown(id).wf(),
{
    let s = t.disown(id);
    assert forall|x: u64| s.nodes.contains_key(x) implies #[trigger] s.node_wf(x) by {
        lemma_node(t, x);
    }
    assert forall|d: u64| s.dones.contains_key(d) implies #[trigger] s.done_wf(d) by {
        assert(t.done_wf(d));
    }
}

proof fn lemma_release_wf<E, W>(t: TreeView<E, W>, id: u64)
    requires
        t.wf(),
        t.nodes.contains_key(id),
        t.childless(id),
    ensures
        t.release(id).wf(),
{
    let s = t.release(id);
    let keep = other_than(id);
    lemma_node(t, id);
    assert forall|x: u64| s.nodes.contains_key(x) implies #[trigger] s.node_wf(x) by {
        lemma_node(t, x);
        let n = t.nodes[x];
        let kids = n.children;
        // Nothing else ends with `id`: only a child could.
        assert(n.done != id) by {
            if n.done == id {
                lemma_ends_with_descends(t, x);
            }
        }
        if n.parent is Some {
            let p = n.parent->0;
            assert(t.nodes.contains_key(x));
            assert(t.nodes[p].done != id) by {
                if t.nodes[p].done == id {
                    lemma_ends_with_descends(t, p);
                }
            }
            if t.nodes[p].children.contains(x) {
                t.nodes[p].children.lemma_filter_contains(keep, t.nodes[p].children.index_of(x));
            }
        }
        if Some(x) == t.nodes[id].parent {
            let left = s.nodes[x].children;
            assert(left == kids.filter(keep));
            assert forall|i: int| 0 <= i < left.len() implies s.nodes.contains_key(#[trigger] left[i])
                && s.nodes[left[i]].parent == Some(x) by {
                kids.lemma_filter_contains_rev(keep, left[i]);
            }
            lemma_filter_no_duplicates(kids, keep);
        } else {
            assert forall|i: int| 0 <= i < kids.len() implies s.nodes.contains_key(#[trigger] kids[i])
                && s.nodes[kids[i]].parent == Some(x) by {}
        }
    }
    assert forall|d: u64| s.dones.contains_key(d) implies #[trigger] s.done_wf(d) by {
        assert(t.done_wf(d));
    }
}

/// What ends with another context has a parent that does too.
proof fn lemma_ends_with_descends<E, W>(t: TreeView<E, W>, x: u64)
    requires
        t.wf(),
        t.nodes.contains_key(x),
    ensures
        t.nodes[x].done == x || exists|y: u64| #[trigger]
            t.nodes.contains_key(y) && t.nodes[y].parent == Some(t.nodes[x].done),
    decreases x,
{
    lemma_node(t, x);
    let d = t.nodes[x].done;
    if d != x {
        let p = t.nodes[x].parent->0;
        if p == d {
            assert(t.nodes.contains_key(x));
        } else {
            lemma_ends_with_descends(t, p);
        }
    }
}

} // verus!
