//! What a locator holds of a chain that stays as it is while the locator is put
//! together.
use crate::near_client::locator::{jump_by, LocatorStage, LocatorView, JUMPS, RECENT};
use crate::near_client::sync::{ChainError, ChainReply};
use crate::near_client::sync_laws::{lemma_ancestor, ChainModel};
use crate::types::{BlockHeader, CryptoHash, Tip};
use vstd::prelude::*;

verus! {

impl<E> ChainModel<E> {
    /// The locator `n` answers on.
    pub open spec fn locate(self, n: nat) -> LocatorView
        decreases n,
    {
        if n == 0 {
            LocatorView::start()
        } else {
            let before = self.locate((n - 1) as nat);
            match before.query_spec() {
                Some(q) => before.next(self.answer(q)),
                None => before,
            }
        }
    }

    /// `x` is `h` or an ancestor of it.
    pub open spec fn is_ancestor(self, h: BlockHeader, x: BlockHeader) -> bool {
        exists|n: nat| #[trigger] self.ancestor(h, n) == Some(x)
    }

    /// The headers are one chain: it ends in `h`, the headers found by height
    /// belong to it and have that height, and it begins with `g`.
    pub open spec fn one_chain(self, h: BlockHeader, g: BlockHeader) -> bool {
        &&& self.header_head == Ok::<Tip, ChainError<E>>(
            Tip { height: h.height, last_block_hash: h.hash },
        )
        &&& (self.header)(h.hash) == Ok::<BlockHeader, ChainError<E>>(h)
        &&& forall|n: u64|
            n <= h.height ==> ((#[trigger] (self.by_height)(n)) matches Ok(x) ==> x.height == n
                && self.is_ancestor(h, x))
        &&& self.genesis == Ok::<BlockHeader, ChainError<E>>(g)
        &&& self.is_ancestor(h, g)
        &&& (self.header)(g.prev_hash) is Err
    }

    /// The header that jump number `k` leads to, if there is one at that height:
    /// the jumps are counted from the last of the most recent headers.
    pub open spec fn jumped_to(self, h: BlockHeader, k: nat) -> Option<BlockHeader> {
        match self.ancestor(h, (RECENT - 1) as nat) {
            Some(base) => if k < JUMPS && jump_by(k) <= base.height {
                match (self.by_height)((base.height - jump_by(k)) as u64) {
                    Ok(x) => Some(x),
                    Err(_) => None,
                }
            } else {
                None
            },
            None => None,
        }
    }

    /// The hashes are those of headers on the way back from `h`, at these depths,
    /// each further back than the one before.
    pub open spec fn goes_back(self, h: BlockHeader, hashes: Seq<CryptoHash>, depths: Seq<nat>) -> bool {
        &&& depths.len() == hashes.len()
        &&& hashes.len() > 0 ==> depths[0] == 0
        &&& forall|i: int, j: int|
            0 <= i < j < depths.len() ==> #[trigger] depths[i] < #[trigger] depths[j]
        &&& forall|i: int|
            0 <= i < depths.len() ==> (self.ancestor(h, #[trigger] depths[i]) matches Some(x)
                && x.hash == hashes[i])
    }
}

/// How many answers a locator has to get at most.
spec fn left(v: LocatorView) -> int {
    match v.stage {
        LocatorStage::Head => 21,
        LocatorStage::HeadHeader(_) => 20,
        LocatorStage::Parent(_) => 9 + (RECENT - v.hashes.len()),
        LocatorStage::Jump { base, number, by } => 1 + (JUMPS - number),
        LocatorStage::Genesis => 1,
        LocatorStage::Complete | LocatorStage::Failed => 0,
    }
}

proof fn lemma_wf<E>(m: ChainModel<E>, n: nat)
    ensures
        m.locate(n).wf(),
        left(m.locate(n)) + n <= 21 || left(m.locate(n)) == 0,
    decreases n,
{
    if n > 0 {
        lemma_wf(m, (n - 1) as nat);
        let v = m.locate((n - 1) as nat);
        if let LocatorStage::Jump { base, number, by } = v.stage {
            reveal_with_fuel(jump_by, 10);
        }
    }
}

/// A locator is complete after twenty-one answers at most.
pub proof fn a_locator_is_completed<E>(m: ChainModel<E>)
    ensures
        m.locate(21).query_spec() is None,
{
    lemma_wf(m, 21);
}

/// Further back is lower.
proof fn lemma_lower<E>(m: ChainModel<E>, hash: CryptoHash, a: nat, b: nat)
    requires
        m.parents_are_lower(),
        (m.header)(hash) is Ok,
        a < b,
        m.ancestor((m.header)(hash)->Ok_0, b) is Some,
    ensures
        m.ancestor((m.header)(hash)->Ok_0, a) is Some,
        m.ancestor((m.header)(hash)->Ok_0, b)->0.height < m.ancestor(
            (m.header)(hash)->Ok_0,
            a,
        )->0.height,
    decreases b,
{
    let h = (m.header)(hash)->Ok_0;
    let c = (b - 1) as nat;
    let x = m.ancestor(h, c)->0;
    lemma_ancestor(m, hash, c);
    let at = choose|at: CryptoHash| #[trigger] (m.header)(at) is Ok && (m.header)(at)->Ok_0 == x;
    assert((m.header)(at) is Ok);
    assert(m.ancestor(h, b)->0.height < x.height);
    if a < c {
        lemma_lower(m, hash, a, c);
    }
}

/// Later jumps go further back.
proof fn lemma_jumps_grow(j: nat, k: nat)
    requires
        j < k,
    ensures
        0 < jump_by(j) < jump_by(k),
    decreases k,
{
    if j + 1 < k {
        lemma_jumps_grow(j, (k - 1) as nat);
    } else if j > 0 {
        lemma_jumps_grow((j - 1) as nat, j);
    }
}

/// The headers that the first `number` jumps lead to are among those at `depths`.
spec fn jumps_held<E>(m: ChainModel<E>, h: BlockHeader, depths: Seq<nat>, number: nat) -> bool {
    forall|k: nat|
        k < number ==> ((#[trigger] m.jumped_to(h, k)) matches Some(x) ==> exists|i: int|
            0 <= i < depths.len() && m.ancestor(h, #[trigger] depths[i]) == Some(x))
}

/// What is true of a locator at each point.
spec fn fits<E>(
    m: ChainModel<E>,
    h: BlockHeader,
    g: BlockHeader,
    v: LocatorView,
    depths: Seq<nat>,
) -> bool {
    &&& m.goes_back(h, v.hashes, depths)
    &&& v.hashes.len() > 0 ==> m.ancestor(h, depths.last())->0.height == v.height
    &&& forall|i: int| 0 <= i < depths.len() && i < RECENT ==> #[trigger] depths[i] == i
    &&& match v.stage {
        LocatorStage::Head => v.hashes.len() == 0,
        LocatorStage::HeadHeader(hash) => v.hashes.len() == 1 && hash == h.hash,
        LocatorStage::Parent(hash) => {
            &&& 0 < v.hashes.len() < RECENT
            &&& hash == m.ancestor(h, (v.hashes.len() - 1) as nat)->0.prev_hash
        },
        LocatorStage::Jump { base, number, by } => {
            &&& v.hashes.len() >= RECENT
            &&& base == m.ancestor(h, (RECENT - 1) as nat)->0.height
            &&& v.height > base - by
            &&& jumps_held(m, h, depths, number as nat)
        },
        LocatorStage::Genesis => {
            &&& v.hashes.len() > 0
            &&& v.hashes.len() >= RECENT || m.ancestor(h, v.hashes.len()) is None
            &&& v.hashes.len() >= RECENT ==> jumps_held(m, h, depths, JUMPS as nat)
        },
        LocatorStage::Complete => {
            &&& v.hashes.len() > 0
            &&& v.hashes.contains(g.hash)
            &&& v.hashes.len() >= RECENT || m.ancestor(h, v.hashes.len()) is None
            &&& v.hashes.len() >= RECENT ==> jumps_held(m, h, depths, JUMPS as nat)
        },
        LocatorStage::Failed => false,
    }
}

/// One more header on the way back keeps it true.
proof fn lemma_with<E>(
    m: ChainModel<E>,
    h: BlockHeader,
    v: LocatorView,
    depths: Seq<nat>,
    x: BlockHeader,
    n: nat,
)
    requires
        m.parents_are_lower(),
        (m.header)(h.hash) == Ok::<BlockHeader, ChainError<E>>(h),
        m.goes_back(h, v.hashes, depths),
        v.hashes.len() > 0,
        m.ancestor(h, depths.last())->0.height == v.height,
        m.ancestor(h, n) == Some(x),
        x.height < v.height,
    ensures
        n > depths.last(),
        m.goes_back(h, v.with(x.height, x.hash).hashes, depths.push(n)),
{
    let d = depths.last();
    assert(m.ancestor(h, depths[depths.len() - 1]) is Some);
    if n < d {
        lemma_lower(m, h.hash, n, d);
    }
    assert(n != d);
}

/// The jumps that were made stay held when a header is added.
proof fn lemma_held<E>(m: ChainModel<E>, h: BlockHeader, depths: Seq<nat>, number: nat, n: nat)
    requires
        jumps_held(m, h, depths, number),
    ensures
        jumps_held(m, h, depths.push(n), number),
{
    let after = depths.push(n);
    assert forall|k: nat| k < number implies ((#[trigger] m.jumped_to(h, k)) matches Some(x)
        ==> exists|i: int| 0 <= i < after.len() && m.ancestor(h, #[trigger] after[i]) == Some(x)) by {
        if m.jumped_to(h, k) is Some {
            let i = choose|i: int|
                0 <= i < depths.len() && m.ancestor(h, #[trigger] depths[i]) == m.jumped_to(h, k);
            assert(after[i] == depths[i]);
        }
    }
}

/// After the jump number `number` was made, or could not be, comes the next one,
/// or all are made.
proof fn lemma_jumped<E>(
    m: ChainModel<E>,
    h: BlockHeader,
    g: BlockHeader,
    v: LocatorView,
    depths: Seq<nat>,
    base: u64,
    number: nat,
)
    requires
        m.goes_back(h, v.hashes, depths),
        v.hashes.len() >= RECENT,
        m.ancestor(h, depths.last())->0.height == v.height,
        forall|i: int| 0 <= i < depths.len() && i < RECENT ==> #[trigger] depths[i] == i,
        m.ancestor(h, (RECENT - 1) as nat) is Some,
        base == m.ancestor(h, (RECENT - 1) as nat)->0.height,
        number <= JUMPS,
        v.height > base - jump_by(number),
        jumps_held(m, h, depths, number),
    ensures
        fits(m, h, g, v.at(LocatorView::jump_stage(base, number)), depths),
{
    if !(number < JUMPS && jump_by(number) <= base) {
        assert forall|k: nat| k < JUMPS implies ((#[trigger] m.jumped_to(h, k)) matches Some(x)
            ==> exists|i: int|
            0 <= i < depths.len() && m.ancestor(h, #[trigger] depths[i]) == Some(x)) by {
            if number < k {
                lemma_jumps_grow(number, k);
            }
        }
    }
}

proof fn lemma_step<E>(
    m: ChainModel<E>,
    h: BlockHeader,
    g: BlockHeader,
    v: LocatorView,
    depths: Seq<nat>,
) -> (after: Seq<nat>)
    requires
        m.parents_are_lower(),
        m.one_chain(h, g),
        v.wf(),
        fits(m, h, g, v, depths),
        v.query_spec() is Some,
    ensures
        fits(m, h, g, v.next(m.answer(v.query_spec()->0)), after),
{
    let w = v.next(m.answer(v.query_spec()->0));
    match v.stage {
        LocatorStage::Head => {
            assert(m.ancestor(h, 0) == Some(h));
            let after = seq![0nat];
            assert(fits(m, h, g, w, after));
            after
        },
        LocatorStage::HeadHeader(hash) => {
            assert(m.ancestor(h, 0) == Some(h));
            assert(fits(m, h, g, w, depths));
            depths
        },
        LocatorStage::Parent(hash) => {
            let n = v.hashes.len();
            assert(depths[n - 1] == n - 1);
            assert(m.ancestor(h, (n - 1) as nat) is Some);
            match (m.header)(hash) {
                Ok(p) => {
                    assert(m.ancestor(h, n) == Some(p));
                    lemma_lower(m, h.hash, (n - 1) as nat, n);
                    lemma_with(m, h, v, depths, p, n);
                    lemma_lower(m, h.hash, 0, n);
                    assert(m.ancestor(h, 0) == Some(h));
                    let after = depths.push(n);
                    if n + 1 >= RECENT {
                        lemma_jumped(m, h, g, v.with(p.height, p.hash), after, p.height, 0);
                    }
                    assert(fits(m, h, g, w, after));
                    after
                },
                Err(_) => {
                    assert(m.ancestor(h, n) is None);
                    assert(fits(m, h, g, w, depths));
                    depths
                },
            }
        },
        LocatorStage::Jump { base, number, by } => {
            let last = (RECENT - 1) as nat;
            let next = (number + 1) as nat;
            assert(depths[last as int] == last);
            lemma_lower(m, h.hash, 0, last);
            assert(m.ancestor(h, 0) == Some(h));
            lemma_jumps_grow(number as nat, next);
            match (m.by_height)((base - by) as u64) {
                Ok(x) => {
                    assert(m.is_ancestor(h, x));
                    let n = choose|n: nat| #[trigger] m.ancestor(h, n) == Some(x);
                    lemma_with(m, h, v, depths, x, n);
                    let after = depths.push(n);
                    lemma_held(m, h, depths, number as nat, n);
                    assert(m.ancestor(h, after[depths.len() as int]) == Some(x));
                    assert(jumps_held(m, h, after, next));
                    lemma_jumped(m, h, g, v.with(x.height, x.hash), after, base, next);
                    after
                },
                Err(_) => {
                    assert(jumps_held(m, h, depths, next));
                    lemma_jumped(m, h, g, v, depths, base, next);
                    depths
                },
            }
        },
        LocatorStage::Genesis => {
            let n = choose|n: nat| #[trigger] m.ancestor(h, n) == Some(g);
            let d = depths.last();
            assert(m.ancestor(h, depths[depths.len() - 1]) is Some);
            if n < d {
                assert(m.ancestor(h, n + 1) is None);
                if n + 1 < d {
                    lemma_lower(m, h.hash, n + 1, d);
                }
            }
            if g.height < v.height {
                lemma_with(m, h, v, depths, g, n);
                let after = depths.push(n);
                if v.hashes.len() < RECENT {
                    assert(depths[v.hashes.len() - 1] == v.hashes.len() - 1);
                    if n > v.hashes.len() {
                        lemma_lower(m, h.hash, v.hashes.len(), n);
                    }
                }
                assert(w.hashes[v.hashes.len() as int] == g.hash);
                if v.hashes.len() >= RECENT {
                    lemma_held(m, h, depths, JUMPS as nat, n);
                }
                assert(fits(m, h, g, w, after));
                after
            } else {
                if d < n {
                    lemma_lower(m, h.hash, d, n);
                }
                assert(v.hashes[v.hashes.len() - 1] == g.hash);
                assert(fits(m, h, g, w, depths));
                depths
            }
        },
        _ => depths,
    }
}

proof fn lemma_fits<E>(m: ChainModel<E>, h: BlockHeader, g: BlockHeader, n: nat) -> (depths: Seq<
    nat,
>)
    requires
        m.parents_are_lower(),
        m.one_chain(h, g),
    ensures
        fits(m, h, g, m.locate(n), depths),
    decreases n,
{
    if n == 0 {
        Seq::empty()
    } else {
        let before = m.locate((n - 1) as nat);
        let depths = lemma_fits(m, h, g, (n - 1) as nat);
        lemma_wf(m, (n - 1) as nat);
        if before.query_spec() is Some {
            lemma_step(m, h, g, before, depths)
        } else {
            depths
        }
    }
}

/// A complete locator begins with the end of the headers and goes back to their
/// beginning; each hash is that of an ancestor of the one before, and the most
/// recent headers are all there.
pub proof fn a_locator_goes_back<E>(m: ChainModel<E>, h: BlockHeader, g: BlockHeader, n: nat)
    requires
        m.parents_are_lower(),
        m.one_chain(h, g),
        m.locate(n).query_spec() is None,
    ensures
        m.locate(n).stage is Complete,
        m.locate(n).hashes.len() > 0,
        m.locate(n).hashes[0] == h.hash,
        exists|depths: Seq<nat>| #[trigger] m.goes_back(h, m.locate(n).hashes, depths),
        m.locate(n).hashes.contains(g.hash),
        forall|k: nat|
            k < RECENT ==> ((#[trigger] m.ancestor(h, k)) matches Some(x) ==> k < m.locate(
                n,
            ).hashes.len() && m.locate(n).hashes[k as int] == x.hash),
{
    let depths = lemma_fits(m, h, g, n);
    let hashes = m.locate(n).hashes;
    assert(m.goes_back(h, hashes, depths));
    assert(depths[0] == 0);
    assert(m.ancestor(h, 0) == Some(h));
    assert forall|k: nat| k < RECENT implies ((#[trigger] m.ancestor(h, k)) matches Some(x) ==> k
        < hashes.len() && hashes[k as int] == x.hash) by {
        if k < hashes.len() {
            assert(depths[k as int] == k);
        } else if m.ancestor(h, k) is Some {
            let l = (hashes.len() - 1) as nat;
            assert(depths[l as int] == l);
            if l + 1 < k {
                lemma_lower(m, h.hash, l + 1, k);
            }
        }
    }
}

/// Among the hashes there is a first one that the peer has, if it has some.
proof fn lemma_first(hashes: Seq<CryptoHash>, theirs: spec_fn(CryptoHash) -> bool, k: int) -> (i: int)
    requires
        0 <= k < hashes.len(),
        theirs(hashes[k]),
    ensures
        0 <= i <= k,
        theirs(hashes[i]),
        forall|j: int| 0 <= j < i ==> !theirs(#[trigger] hashes[j]),
    decreases k,
{
    if exists|j: int| 0 <= j < k && theirs(#[trigger] hashes[j]) {
        let j = choose|j: int| 0 <= j < k && theirs(#[trigger] hashes[j]);
        lemma_first(hashes, theirs, j)
    } else {
        k
    }
}

/// Each header stands at one depth.
proof fn lemma_one_depth<E>(m: ChainModel<E>, hash: CryptoHash, a: nat, b: nat)
    requires
        m.parents_are_lower(),
        (m.header)(hash) is Ok,
        m.ancestor((m.header)(hash)->Ok_0, a) is Some,
        m.ancestor((m.header)(hash)->Ok_0, a) == m.ancestor((m.header)(hash)->Ok_0, b),
    ensures
        a == b,
{
    if a < b {
        lemma_lower(m, hash, a, b);
    } else if b < a {
        lemma_lower(m, hash, b, a);
    }
}

/// No header is further back than the first of all.
proof fn lemma_deepest<E>(m: ChainModel<E>, h: BlockHeader, g: BlockHeader, e: nat, d: nat)
    requires
        m.parents_are_lower(),
        m.one_chain(h, g),
        m.ancestor(h, e) == Some(g),
        m.ancestor(h, d) is Some,
    ensures
        d <= e,
{
    if d > e {
        assert(m.ancestor(h, e + 1) is None);
        if d > e + 1 {
            lemma_lower(m, h.hash, e + 1, d);
        }
    }
}

impl<E> ChainModel<E> {
    /// The first of these hashes that a peer has is that number `i`, of the header
    /// that stands `d` headers back from `h`.
    pub open spec fn resumes_at(
        self,
        h: BlockHeader,
        hashes: Seq<CryptoHash>,
        theirs: spec_fn(CryptoHash) -> bool,
        i: int,
        d: nat,
    ) -> bool {
        &&& 0 <= i < hashes.len()
        &&& theirs(hashes[i])
        &&& forall|j: int| 0 <= j < i ==> !theirs(#[trigger] hashes[j])
        &&& self.ancestor(h, d) matches Some(x) && x.hash == hashes[i]
    }

    /// `e` headers back stands one that a jump leads to.
    pub open spec fn is_jump(self, h: BlockHeader, e: nat) -> bool {
        exists|k: nat|
            (#[trigger] self.jumped_to(h, k)) is Some && self.jumped_to(h, k) == self.ancestor(h, e)
    }
}

/// However far back a peer is on another fork, the locator holds a header that it
/// has. Let the closest one that matches be `c` headers back, those before it being
/// on the chain of the peer too. The first in the locator that the peer has, from
/// which the headers are downloaded again, is that very one if it is among the
/// most recent. Otherwise it is no further back than any header that a jump leads
/// to and that is at or before the closest one, and no further back than the first
/// header of all.
pub proof fn a_re_org_is_handled<E>(
    m: ChainModel<E>,
    h: BlockHeader,
    g: BlockHeader,
    n: nat,
    theirs: spec_fn(CryptoHash) -> bool,
    c: nat,
)
    requires
        m.parents_are_lower(),
        m.one_chain(h, g),
        m.locate(n).query_spec() is None,
        m.ancestor(h, c) is Some,
        forall|k: nat|
            (#[trigger] m.ancestor(h, k)) matches Some(x) ==> (theirs(x.hash) <==> k >= c),
    ensures
        exists|i: int, d: nat|
            {
                &&& #[trigger] m.resumes_at(h, m.locate(n).hashes, theirs, i, d)
                &&& d >= c
                &&& c < RECENT ==> d == c
                &&& forall|e: nat| e >= c && #[trigger] m.is_jump(h, e) ==> d <= e
                &&& forall|e: nat| #[trigger] m.ancestor(h, e) == Some(g) ==> d <= e
            },
{
    a_locator_goes_back(m, h, g, n);
    let hashes = m.locate(n).hashes;
    let depths = lemma_fits(m, h, g, n);
    let b = choose|b: nat| #[trigger] m.ancestor(h, b) == Some(g);
    lemma_deepest(m, h, g, b, c);
    let at = hashes.index_of(g.hash);
    assert(theirs(hashes[at]));
    let i = lemma_first(hashes, theirs, at);
    let d = depths[i];
    assert(m.ancestor(h, d) is Some);
    assert(m.resumes_at(h, hashes, theirs, i, d));
    if c < RECENT {
        assert(m.ancestor(h, c) is Some);
        assert(depths[c as int] == c);
        assert(theirs(hashes[c as int]));
        assert(i <= c);
        assert(depths[i] == i);
    }
    assert forall|e: nat| e >= c && #[trigger] m.is_jump(h, e) implies d <= e by {
        let k = choose|k: nat|
            (#[trigger] m.jumped_to(h, k)) is Some && m.jumped_to(h, k) == m.ancestor(h, e);
        let x = m.jumped_to(h, k)->0;
        assert(m.ancestor(h, (RECENT - 1) as nat) is Some);
        assert(hashes.len() >= RECENT);
        assert(jumps_held(m, h, depths, JUMPS as nat));
        let l = choose|l: int|
            0 <= l < depths.len() && m.ancestor(h, #[trigger] depths[l]) == Some(x);
        lemma_one_depth(m, h.hash, e, depths[l]);
        assert(theirs(hashes[l]));
        assert(i <= l);
    }
    assert forall|e: nat| #[trigger] m.ancestor(h, e) == Some(g) implies d <= e by {
        lemma_deepest(m, h, g, e, d);
    }
}

/// Where the end of the headers is not known there is no locator; an answer to
/// another question leaves it as it is.
pub proof fn no_locator_without_an_end<E>(v: LocatorView, e: ChainError<E>, r: ChainReply<E>)
    requires
        v.stage is Head,
    ensures
        v.next(ChainReply::Tip(Err(e))).stage is Failed,
        v.next(ChainReply::Tip(Err(e))).hashes == v.hashes,
        !(r is Tip) ==> v.next(r) == v,
        v.query_spec() is Some && v.query_spec()->0 is HeaderHead,
{
}

} // verus!
