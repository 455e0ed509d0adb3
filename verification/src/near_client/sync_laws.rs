//! What the search for the next block finds in a chain that stays as it is
//! while it is searched.
use crate::near_client::sync::{
    is_archival, turn, BlockSyncRequest, BlockSyncView, ChainError, ChainQuery,
    ChainReply, MissingBlock, Search,
};
use crate::types::{BlockHeader, CryptoHash, FullPeerInfo, Tip};
use vstd::prelude::*;

verus! {

/// What a chain answers.
#[verifier::reject_recursive_types(E)]
pub struct ChainModel<E> {
    pub orphan: spec_fn(CryptoHash) -> bool,
    pub head: Result<Tip, ChainError<E>>,
    pub header_head: Result<Tip, ChainError<E>>,
    pub header: spec_fn(CryptoHash) -> Result<BlockHeader, ChainError<E>>,
    pub by_height: spec_fn(u64) -> Result<BlockHeader, ChainError<E>>,
    pub next: spec_fn(CryptoHash) -> Result<CryptoHash, ChainError<E>>,
    pub exists_block: spec_fn(CryptoHash) -> Result<bool, ChainError<E>>,
    pub gc_stop: spec_fn(CryptoHash) -> u64,
    pub genesis: Result<BlockHeader, ChainError<E>>,
}

impl<E> ChainModel<E> {
    pub open spec fn answer(self, q: ChainQuery) -> ChainReply<E> {
        match q {
            ChainQuery::IsChunkOrphan(hash) => ChainReply::Orphan((self.orphan)(hash)),
            ChainQuery::Head => ChainReply::Tip(self.head),
            ChainQuery::HeaderHead => ChainReply::Tip(self.header_head),
            ChainQuery::BlockHeader(hash) => ChainReply::Header((self.header)(hash)),
            ChainQuery::HeaderByHeight(h) => ChainReply::Header((self.by_height)(h)),
            ChainQuery::NextBlockHash(hash) => ChainReply::Hash((self.next)(hash)),
            ChainQuery::BlockExists(hash) => ChainReply::Exists((self.exists_block)(hash)),
            ChainQuery::GcStopHeight(hash) => ChainReply::Height((self.gc_stop)(hash)),
            ChainQuery::Genesis => ChainReply::Header(self.genesis),
        }
    }

    /// The search `n` answers on.
    pub open spec fn run(self, s: Search<E>, n: nat) -> Search<E>
        decreases n,
    {
        if n == 0 {
            s
        } else {
            let before = self.run(s, (n - 1) as nat);
            match before.query_spec() {
                Some(q) => before.next(self.answer(q)),
                None => before,
            }
        }
    }

    /// The hash that a search starts from: that of the block asked for last, if
    /// it waits for chunks, otherwise that of the end of the chain.
    pub open spec fn starts_from(self, last: Option<BlockSyncRequest>, hash: CryptoHash) -> bool {
        if last is Some && (self.orphan)(last->0.hash) {
            hash == last->0.hash
        } else {
            self.head matches Ok(t) && hash == t.last_block_hash
        }
    }

    /// `h` is the header of the canonical chain at its height.
    pub open spec fn canonical(self, h: BlockHeader) -> bool {
        (self.by_height)(h.height) matches Ok(x) && x.hash == h.hash
    }

    /// The `n`th ancestor of `h`, as far as the chain tells.
    pub open spec fn ancestor(self, h: BlockHeader, n: nat) -> Option<BlockHeader>
        decreases n,
    {
        if n == 0 {
            Some(h)
        } else {
            match self.ancestor(h, (n - 1) as nat) {
                Some(x) => match (self.header)(x.prev_hash) {
                    Ok(p) => Some(p),
                    Err(_) => None,
                },
                None => None,
            }
        }
    }

    /// The `n`th block after `hash`, as far as the blocks are there.
    pub open spec fn successor(self, hash: CryptoHash, n: nat) -> Option<CryptoHash>
        decreases n,
    {
        if n == 0 {
            Some(hash)
        } else {
            match self.successor(hash, (n - 1) as nat) {
                Some(x) => match (self.next)(x) {
                    Ok(y) => if (self.exists_block)(y) == Ok::<bool, ChainError<E>>(true) {
                        Some(y)
                    } else {
                        None
                    },
                    Err(_) => None,
                },
                None => None,
            }
        }
    }

    /// `c` is the `n`th ancestor of the header that a search starts from, and no
    /// header from there to `c`, `c` itself aside, is canonical.
    pub open spec fn back_by(self, last: Option<BlockSyncRequest>, c: BlockHeader, hash: CryptoHash, n: nat) -> bool {
        &&& self.starts_from(last, hash)
        &&& (self.header)(hash) is Ok
        &&& self.ancestor((self.header)(hash)->Ok_0, n) == Some(c)
        &&& forall|j: nat|
            j < n ==> !self.canonical((#[trigger] self.ancestor((self.header)(hash)->Ok_0, j))->0)
    }

    /// `c` is where going back from the start leads, if it leads that far.
    pub open spec fn back(self, last: Option<BlockSyncRequest>, c: BlockHeader) -> bool {
        exists|hash: CryptoHash, n: nat| self.back_by(last, c, hash, n)
    }

    /// `known` follows, by blocks that are there, the most recent block on the
    /// canonical chain, `c`.
    pub open spec fn known_by(self, last: Option<BlockSyncRequest>, known: CryptoHash, c: BlockHeader, n: nat) -> bool {
        &&& self.back(last, c)
        &&& self.canonical(c)
        &&& self.successor(c.hash, n) == Some(known)
    }

    pub open spec fn known(self, last: Option<BlockSyncRequest>, known: CryptoHash) -> bool {
        exists|c: BlockHeader, n: nat| self.known_by(last, known, c, n)
    }

    /// `hash` is the first block that is not there: it follows what is known.
    pub open spec fn first_missing(self, last: Option<BlockSyncRequest>, hash: CryptoHash) -> bool {
        &&& (self.exists_block)(hash) == Ok::<bool, ChainError<E>>(false)
        &&& exists|k: CryptoHash|
            #[trigger] self.known(last, k) && (self.next)(k) == Ok::<CryptoHash, ChainError<E>>(hash)
    }

    /// Nothing follows what is known.
    pub open spec fn at_the_end(self, last: Option<BlockSyncRequest>) -> bool {
        exists|k: CryptoHash|
            #[trigger] self.known(last, k) && ((self.next)(k) matches Err(e) && e is NotFound)
    }

    /// A parent is lower than its child.
    pub open spec fn parents_are_lower(self) -> bool {
        forall|hash: CryptoHash|
            (#[trigger] (self.header)(hash)) matches Ok(x) ==> ((self.header)(x.prev_hash) matches Ok(
                p,
            ) ==> p.height < x.height)
    }

    /// A parent is lower than its child, and a block that is there is higher than
    /// the one it follows.
    pub open spec fn heights_grow(self) -> bool {
        &&& self.parents_are_lower()
        &&& forall|k: CryptoHash|
            (#[trigger] (self.next)(k)) matches Ok(y) ==> ((self.exists_block)(y) == Ok::<
                bool,
                ChainError<E>,
            >(true) ==> self.rank(k) < self.rank(y))
    }

    /// How high a header is, counted from one; zero if it is not known.
    pub open spec fn rank(self, hash: CryptoHash) -> int {
        match (self.header)(hash) {
            Ok(x) => x.height + 1,
            Err(_) => 0,
        }
    }

    /// The chain answers some question with `e`.
    pub open spec fn fails_with(self, e: ChainError<E>) -> bool {
        exists|q: ChainQuery| carries(#[trigger] self.answer(q), e)
    }
}

/// The answer is that `e` happened.
pub open spec fn carries<E>(r: ChainReply<E>, e: ChainError<E>) -> bool {
    match r {
        ChainReply::Tip(Err(x)) => x == e,
        ChainReply::Header(Err(x)) => x == e,
        ChainReply::Hash(Err(x)) => x == e,
        ChainReply::Exists(Err(x)) => x == e,
        _ => false,
    }
}

/// What is true at each point of a search.
spec fn holds<E>(m: ChainModel<E>, last: Option<BlockSyncRequest>, s: Search<E>) -> bool {
    match s {
        Search::Orphan(hash) => last is Some && hash == last->0.hash,
        Search::Head => last is Some ==> !(m.orphan)(last->0.hash),
        Search::Reference(hash) => m.starts_from(last, hash),
        Search::Back(c) => m.back(last, c),
        Search::Prev(p) => exists|c: BlockHeader|
            #[trigger] m.back(last, c) && !m.canonical(c) && p == c.prev_hash,
        Search::Forward(k) => m.known(last, k),
        Search::Exists { known, next } => m.known(last, known) && (m.next)(known) == Ok::<
            CryptoHash,
            ChainError<E>,
        >(next),
        Search::Next(k) => m.known(last, k) && match (m.next)(k) {
            Ok(h) => (m.exists_block)(h) == Ok::<bool, ChainError<E>>(false),
            Err(e) => e is NotFound,
        },
        Search::NextHeader(hash) => m.first_missing(last, hash),
        Search::HeadOf(req) => m.first_missing(last, req.hash) && height_known(m, req),
        Search::HeaderHeadOf(req, head) => m.first_missing(last, req.hash) && height_known(m, req)
            && m.head == Ok::<Tip, ChainError<E>>(head),
        Search::GcStop(req, head, header_head) => m.first_missing(last, req.hash)
            && height_known(m, req) && m.head == Ok::<Tip, ChainError<E>>(head) && m.header_head
            == Ok::<Tip, ChainError<E>>(header_head),
        Search::Missing(b) => m.first_missing(last, b.request.hash) && height_known(m, b.request)
            && m.head == Ok::<Tip, ChainError<E>>(b.head) && m.header_head == Ok::<
            Tip,
            ChainError<E>,
        >(b.header_head) && b.gc_stop_height == (m.gc_stop)(b.header_head.last_block_hash),
        Search::UpToDate => m.at_the_end(last),
        Search::Failed(e) => m.fails_with(e),
    }
}

spec fn height_known<E>(m: ChainModel<E>, req: BlockSyncRequest) -> bool {
    (m.header)(req.hash) matches Ok(h) && h.height == req.height
}

/// Each answer keeps it true.
proof fn lemma_step<E>(m: ChainModel<E>, last: Option<BlockSyncRequest>, s: Search<E>)
    requires
        holds(m, last, s),
        s.query_spec() is Some,
    ensures
        holds(m, last, s.next(m.answer(s.query_spec()->0))),
{
    let q = s.query_spec()->0;
    let r = m.answer(q);
    let t = s.next(r);
    if t is Failed {
        assert(carries(m.answer(q), t->Failed_0));
    }
    match s {
        Search::Reference(hash) => {
            if let Search::Back(c) = t {
                assert(m.ancestor(c, 0) == Some(c));
                assert(m.back_by(last, c, hash, 0));
            }
        },
        Search::Back(c) => {
            if t is Forward {
                assert(m.successor(c.hash, 0) == Some(c.hash));
                assert(m.known_by(last, c.hash, c, 0));
            }
        },
        Search::Prev(p) => {
            if let Search::Back(d) = t {
                let c = choose|c: BlockHeader|
                    #[trigger] m.back(last, c) && !m.canonical(c) && p == c.prev_hash;
                let (hash, n) = choose|hash: CryptoHash, n: nat| m.back_by(last, c, hash, n);
                let b = (m.header)(hash)->Ok_0;
                assert(m.ancestor(b, n + 1) == Some(d));
                assert forall|j: nat| j < n + 1 implies !m.canonical(
                    (#[trigger] m.ancestor(b, j))->0,
                ) by {
                    if j == n {
                        assert(m.ancestor(b, j) == Some(c));
                    }
                }
                assert(m.back_by(last, d, hash, n + 1));
            }
        },
        Search::Exists { known, next } => {
            if t is Forward {
                let (c, n) = choose|c: BlockHeader, n: nat| m.known_by(last, known, c, n);
                assert(m.successor(c.hash, n + 1) == Some(next));
                assert(m.known_by(last, next, c, n + 1));
            }
        },
        Search::Next(k) => {
            assert(m.known(last, k));
        },
        _ => {},
    }
}

/// What is true all along.
proof fn lemma_run<E>(m: ChainModel<E>, b: BlockSyncView, n: nat)
    ensures
        holds(m, b.last_request, m.run(b.start::<E>(), n)),
    decreases n,
{
    if n > 0 {
        lemma_run(m, b, (n - 1) as nat);
        let before = m.run(b.start::<E>(), (n - 1) as nat);
        if before.query_spec() is Some {
            lemma_step(m, b.last_request, before);
        }
    }
}

/// How many answers a search has to get at most.
spec fn left<E>(m: ChainModel<E>, s: Search<E>) -> int {
    let top = u64::MAX + 1;
    let forward = 10 + 2 * top;
    match s {
        Search::Orphan(_) => 2 * forward + 5,
        Search::Head => 2 * forward + 4,
        Search::Reference(_) => 2 * forward + 3,
        Search::Back(c) => forward + 2 * (c.height + 1),
        Search::Prev(p) => forward + 2 * m.rank(p) + 1,
        Search::Forward(k) => 10 + 2 * (top - m.rank(k)),
        Search::Exists { known, next } => 9 + 2 * (top - m.rank(known)),
        Search::Next(_) => 8,
        Search::NextHeader(_) => 7,
        Search::HeadOf(_) => 6,
        Search::HeaderHeadOf(..) => 5,
        Search::GcStop(..) => 4,
        _ => 0,
    }
}

/// An ancestor of a header that the chain has is one that the chain has.
pub proof fn lemma_ancestor<E>(m: ChainModel<E>, hash: CryptoHash, n: nat)
    requires
        (m.header)(hash) is Ok,
        m.ancestor((m.header)(hash)->Ok_0, n) is Some,
    ensures
        exists|h: CryptoHash|
            #[trigger] (m.header)(h) is Ok && (m.header)(h)->Ok_0 == m.ancestor(
                (m.header)(hash)->Ok_0,
                n,
            )->0,
{
    if n > 0 {
        let x = m.ancestor((m.header)(hash)->Ok_0, (n - 1) as nat)->0;
        assert((m.header)(x.prev_hash) is Ok);
    } else {
        assert((m.header)(hash) is Ok);
    }
}

/// Each answer leaves fewer to get.
proof fn lemma_left<E>(m: ChainModel<E>, last: Option<BlockSyncRequest>, s: Search<E>)
    requires
        m.heights_grow(),
        holds(m, last, s),
        s.query_spec() is Some,
    ensures
        0 <= left(m, s.next(m.answer(s.query_spec()->0))) < left(m, s),
{
    let t = s.next(m.answer(s.query_spec()->0));
    match s {
        Search::Back(c) => {
            let (hash, n) = choose|hash: CryptoHash, n: nat| m.back_by(last, c, hash, n);
            lemma_ancestor(m, hash, n);
            let h = choose|h: CryptoHash|
                #[trigger] (m.header)(h) is Ok && (m.header)(h)->Ok_0 == m.ancestor(
                    (m.header)(hash)->Ok_0,
                    n,
                )->0;
            assert((m.header)(h) == Ok::<BlockHeader, ChainError<E>>(c));
            assert(m.rank(c.prev_hash) < c.height + 1);
        },
        Search::Exists { known, next } => {
            assert((m.next)(known) is Ok);
        },
        _ => {},
    }
}

proof fn lemma_run_from<E>(m: ChainModel<E>, s: Search<E>, n: nat)
    requires
        s.query_spec() is Some,
    ensures
        m.run(s, n + 1) == m.run(s.next(m.answer(s.query_spec()->0)), n),
    decreases n,
{
    let t = s.next(m.answer(s.query_spec()->0));
    if n == 0 {
        assert(m.run(s, 0) == s);
        assert(m.run(s, 1) == t);
        assert(m.run(t, 0) == t);
    } else {
        lemma_run_from(m, s, (n - 1) as nat);
        assert(m.run(s, n + 1) == match m.run(s, n).query_spec() {
            Some(q) => m.run(s, n).next(m.answer(q)),
            None => m.run(s, n),
        });
    }
}

proof fn lemma_ends<E>(m: ChainModel<E>, last: Option<BlockSyncRequest>, s: Search<E>) -> (n: nat)
    requires
        m.heights_grow(),
        holds(m, last, s),
    ensures
        m.run(s, n).query_spec() is None,
    decreases left(m, s),
{
    if s.query_spec() is None {
        assert(m.run(s, 0) == s);
        0
    } else {
        lemma_left(m, last, s);
        lemma_step(m, last, s);
        let n = lemma_ends(m, last, s.next(m.answer(s.query_spec()->0)));
        lemma_run_from(m, s, n);
        n + 1
    }
}

/// A search ends, in a chain in which parents are lower than their children.
pub proof fn a_search_ends<E>(m: ChainModel<E>, b: BlockSyncView)
    requires
        m.heights_grow(),
    ensures
        exists|n: nat| (#[trigger] m.run(b.start::<E>(), n)).query_spec() is None,
{
    lemma_run(m, b, 0);
    assert(m.run(b.start::<E>(), 0) == b.start::<E>());
    let n = lemma_ends(m, b.last_request, b.start::<E>());
}

/// The block that a search comes up with is one that is not there. It is the
/// first such block on the way forward from the most recent block that is on the
/// canonical chain, which is looked for from the block asked for last, if that
/// waits for chunks, otherwise from the end of the chain. Its height is that of
/// its header, how far it is behind is told by the ends of both chains, and how
/// old a block has to be to be gone is taken from the end of the chain of headers.
pub proof fn search_finds_the_first_missing_block<E>(
    m: ChainModel<E>,
    b: BlockSyncView,
    n: nat,
    missing: MissingBlock,
)
    requires
        m.run(b.start::<E>(), n) == Search::<E>::Missing(missing),
    ensures
        m.first_missing(b.last_request, missing.request.hash),
        (m.header)(missing.request.hash) matches Ok(h) && h.height == missing.request.height,
        m.head == Ok::<Tip, ChainError<E>>(missing.head),
        m.header_head == Ok::<Tip, ChainError<E>>(missing.header_head),
        missing.gc_stop_height == (m.gc_stop)(missing.header_head.last_block_hash),
{
    lemma_run(m, b, n);
}

/// A search comes up with nothing only where nothing follows the last block that
/// is there.
pub proof fn nothing_missing_only_at_the_end<E>(m: ChainModel<E>, b: BlockSyncView, n: nat)
    requires
        m.run(b.start::<E>(), n) is UpToDate,
    ensures
        m.at_the_end(b.last_request),
{
    lemma_run(m, b, n);
}

/// A search fails only with what the chain failed with.
pub proof fn only_the_chain_fails<E>(m: ChainModel<E>, b: BlockSyncView, n: nat, e: ChainError<E>)
    requires
        m.run(b.start::<E>(), n) == Search::<E>::Failed(e),
    ensures
        m.fails_with(e),
{
    lemma_run(m, b, n);
}

/// Whoever can be asked for a block so old that it is gone elsewhere keeps old
/// blocks, and is one of the given peers.
pub proof fn old_blocks_are_asked_of_archival_peers(
    b: BlockSyncView,
    missing: MissingBlock,
    peers: Seq<FullPeerInfo>,
    i: int,
)
    requires
        0 <= i < b.askable(missing, peers).len(),
    ensures
        peers.contains(b.askable(missing, peers)[i]),
        b.archive && missing.request.height < missing.gc_stop_height ==> b.askable(
            missing,
            peers,
        )[i].archival,
{
    let e = b.askable(missing, peers);
    if b.from_archival(missing) {
        peers.lemma_filter_pred(is_archival(), i);
        peers.lemma_filter_contains_rev(is_archival(), e[i]);
    }
}

/// Who is asked by the request number `k` after one at whose time `next` was next,
/// as long as `n` peers can be asked.
pub open spec fn asked(next: nat, n: nat, k: nat) -> nat
    decreases k,
{
    if k == 0 {
        turn(next, n)
    } else {
        turn(asked(next, n, (k - 1) as nat) + 1, n)
    }
}

/// The peers that can be asked are asked in turn.
pub proof fn peers_are_asked_in_turn(next: nat, n: nat, k: nat)
    requires
        n > 0,
    ensures
        asked(next, n, k) == (turn(next, n) + k) % n,
        asked(next, n, k) < n,
        n > 1 ==> asked(next, n, k + 1) != asked(next, n, k),
    decreases k,
{
    let t = turn(next, n) as int;
    if k == 0 {
        assert((t + 0) % n as int == t) by (nonlinear_arith)
            requires
                0 <= t < n,
        ;
    } else {
        peers_are_asked_in_turn(next, n, (k - 1) as nat);
        let a = asked(next, n, (k - 1) as nat) as int;
        let x = t + k - 1;
        assert((x + 1) % n as int == if x % n as int + 1 < n {
            x % n as int + 1
        } else {
            0
        }) by {
            vstd::arithmetic::div_mod::lemma_fundamental_div_mod(x, n as int);
            let q = x / n as int;
            let r = x % n as int;
            if r + 1 < n {
                vstd::arithmetic::div_mod::lemma_fundamental_div_mod_converse(
                    x + 1,
                    n as int,
                    q,
                    r + 1,
                );
            } else {
                assert(x + 1 == n as int * (q + 1)) by (nonlinear_arith)
                    requires
                        x == n as int * q + r,
                        r + 1 == n,
                ;
                vstd::arithmetic::div_mod::lemma_fundamental_div_mod_converse(
                    x + 1,
                    n as int,
                    q + 1,
                    0,
                );
            }
        }
    }
}

/// Every suitable peer that is given can be asked: all of them, in their order, if
/// the block is young or old blocks are not wanted; otherwise those that keep old
/// blocks, in their order.
pub proof fn every_suitable_peer_can_be_asked(
    b: BlockSyncView,
    missing: MissingBlock,
    peers: Seq<FullPeerInfo>,
)
    ensures
        !(b.archive && missing.request.height < missing.gc_stop_height) ==> b.askable(
            missing,
            peers,
        ) == peers,
        b.archive && missing.request.height < missing.gc_stop_height ==> b.askable(missing, peers)
            == peers.filter(|p: FullPeerInfo| p.archival),
        forall|i: int|
            0 <= i < peers.len() && (#[trigger] peers[i]).archival ==> b.askable(
                missing,
                peers,
            ).contains(peers[i]),
{
    assert(is_archival() =~= |p: FullPeerInfo| p.archival);
    assert forall|i: int| 0 <= i < peers.len() && (#[trigger] peers[i]).archival implies b.askable(
        missing,
        peers,
    ).contains(peers[i]) by {
        assert(peers.contains(peers[i]));
        if b.from_archival(missing) {
            peers.lemma_filter_contains(is_archival(), i);
        }
    }
}

/// The state is needed if and only if the blocks are further behind the headers
/// than is allowed, and block sync is not enforced.
pub proof fn the_state_is_needed_when_too_far(b: BlockSyncView, missing: MissingBlock)
    ensures
        b.too_far(missing) <==> !b.archive && missing.header_head.height > missing.head.height
            + b.block_fetch_horizon,
{
}

/// It is the turn of the one after the last, and after the last of all that of the
/// first.
pub proof fn turns_go_round(next: nat, n: nat)
    ensures
        next < n ==> turn(next, n) == next,
        next >= n ==> turn(next, n) == 0,
{
}

/// `r` is an answer to the question `q`.
pub open spec fn is_answer<E>(q: ChainQuery, r: ChainReply<E>) -> bool {
    match q {
        ChainQuery::IsChunkOrphan(_) => r is Orphan,
        ChainQuery::Head | ChainQuery::HeaderHead => r is Tip,
        ChainQuery::BlockHeader(_) | ChainQuery::HeaderByHeight(_) | ChainQuery::Genesis => {
            r is Header
        },
        ChainQuery::NextBlockHash(_) => r is Hash,
        ChainQuery::BlockExists(_) => r is Exists,
        ChainQuery::GcStopHeight(_) => r is Height,
    }
}

/// If the chain fails, other than by not finding something, the search fails with
/// that.
pub proof fn a_failure_of_the_chain_ends_the_search<E>(s: Search<E>, r: ChainReply<E>, e: E)
    requires
        s.query_spec() is Some,
        is_answer(s.query_spec()->0, r),
        carries(r, ChainError::Other(e)),
    ensures
        s.next(r) == Search::<E>::Failed(ChainError::Other(e)),
{
}

/// Each answer to its question takes the search further.
pub proof fn an_answer_is_taken<E>(s: Search<E>, r: ChainReply<E>)
    requires
        s.query_spec() is Some,
        is_answer(s.query_spec()->0, r),
    ensures
        s.next(r) != s,
{
}

impl<E> ChainModel<E> {
    /// The chain can tell what a search has to know: both ends, the header that
    /// the search starts from, the parents of headers that are not canonical, the
    /// headers of blocks that follow others, and which blocks are there. It may
    /// not find a header by its height, or what follows a block.
    pub open spec fn can_tell(self, last: Option<BlockSyncRequest>) -> bool {
        &&& self.head is Ok
        &&& self.header_head is Ok
        &&& forall|hash: CryptoHash| #[trigger]
            self.starts_from(last, hash) ==> (self.header)(hash) is Ok
        &&& forall|hash: CryptoHash|
            (#[trigger] (self.header)(hash)) matches Ok(x) ==> (!self.canonical(x) ==> (self.header)(
                x.prev_hash,
            ) is Ok)
        &&& forall|h: u64| (#[trigger] (self.by_height)(h)) matches Err(e) ==> e is NotFound
        &&& forall|k: CryptoHash|
            match #[trigger] (self.next)(k) {
                Ok(y) => (self.header)(y) is Ok,
                Err(e) => e is NotFound,
            }
        &&& forall|k: CryptoHash| (#[trigger] (self.exists_block)(k)) is Ok
    }
}

/// A search in a chain that can tell what the search has to know does not fail.
pub proof fn a_search_succeeds_where_the_chain_can_tell<E>(
    m: ChainModel<E>,
    b: BlockSyncView,
    n: nat,
)
    requires
        m.can_tell(b.last_request),
    ensures
        !(m.run(b.start::<E>(), n) is Failed),
    decreases n,
{
    if n > 0 {
        a_search_succeeds_where_the_chain_can_tell(m, b, (n - 1) as nat);
        lemma_run(m, b, (n - 1) as nat);
        let s = m.run(b.start::<E>(), (n - 1) as nat);
        match s {
            Search::Prev(p) => {
                let last = b.last_request;
                let c = choose|c: BlockHeader|
                    #[trigger] m.back(last, c) && !m.canonical(c) && p == c.prev_hash;
                let (hash, k) = choose|hash: CryptoHash, k: nat| m.back_by(last, c, hash, k);
                lemma_ancestor(m, hash, k);
                let h = choose|h: CryptoHash|
                    #[trigger] (m.header)(h) is Ok && (m.header)(h)->Ok_0 == m.ancestor(
                        (m.header)(hash)->Ok_0,
                        k,
                    )->0;
                assert((m.header)(h) == Ok::<BlockHeader, ChainError<E>>(c));
            },
            Search::NextHeader(hash) => {
                let k = choose|k: CryptoHash|
                    #[trigger] m.known(b.last_request, k) && (m.next)(k) == Ok::<
                        CryptoHash,
                        ChainError<E>,
                    >(hash);
                assert((m.next)(k) is Ok);
            },
            _ => {},
        }
    }
}

/// A search starts with the block asked for last, if there was one, and otherwise
/// from the end of the chain; what does not answer its question leaves it as it is.
pub proof fn a_search_starts_and_stands<E>(b: BlockSyncView, s: Search<E>, r: ChainReply<E>)
    ensures
        b.start::<E>() == match b.last_request {
            Some(request) => Search::<E>::Orphan(request.hash),
            None => Search::<E>::Head,
        },
        s.query_spec() is None ==> s.next(r) == s,
        s.query_spec() matches Some(q) ==> (!is_answer(q, r) ==> s.next(r) == s),
{
}

} // verus!
