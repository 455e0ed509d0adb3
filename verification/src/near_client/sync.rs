//! Catching up with the peers: first the headers, then the blocks. What is in
//! the chain is asked for step by step; the answers come from outside.
use crate::near_client::locator::{Locator, LocatorStage};
use crate::random::{is_picked, pick_peer};
use crate::types::{
    block_request, BlockHeader, CryptoHash, FullPeerInfo, NetworkRequests, RequestView, Tip,
};
use vstd::prelude::*;

verus! {

/// Maximum number of block headers send over the network.
pub const MAX_BLOCK_HEADERS: u64 = 512;

/// Maximum number of block header hashes to send as part of a locator.
pub const MAX_BLOCK_HEADER_HASHES: usize = 20;

/// Maximum number of state parts to request per peer on each round when node is
/// trying to download the state.
pub const MAX_STATE_PART_REQUEST: u64 = 16;

/// Number of state parts already requested stored as pending.
/// This number should not exceed MAX_STATE_PART_REQUEST times (number of peers
/// in the network).
pub const MAX_PENDING_PART: u64 = MAX_STATE_PART_REQUEST * 10000;

pub const NS_PER_SECOND: u128 = 1_000_000_000;

/// Why the chain did not answer. `E` is what it said.
pub enum ChainError<E> {
    /// There is no such thing in it.
    NotFound(E),
    /// Anything else.
    Other(E),
}

/// Helper to keep track of sync headers: which peer they are asked of.
/// Handles major re-orgs: a peer is asked by a locator, so it can find the closest
/// header that matches, and headers are downloaded again from that point.
pub struct HeaderSync {
    syncing_peer: Option<FullPeerInfo>,
}

impl View for HeaderSync {
    type V = Option<FullPeerInfo>;

    closed spec fn view(&self) -> Option<FullPeerInfo> {
        self.syncing_peer
    }
}

impl HeaderSync {
    /// No peer is asked.
    pub fn new() -> (s: Self)
        ensures
            s@ is None,
    {
        HeaderSync { syncing_peer: None }
    }

    /// Looks for a peer to ask for headers, among those with the highest
    /// chains: one picked at random, if its chain is longer than the headers
    /// that are known go. Fails if it is not known how far they go.
    pub fn run<E>(
        &mut self,
        header_head: Result<Tip, E>,
        highest_height_peers: &Vec<FullPeerInfo>,
    ) -> (r: Result<Option<FullPeerInfo>, E>)
        ensures
            match header_head {
                Err(e) => r == Err::<Option<FullPeerInfo>, E>(e) && final(self)@ == old(self)@,
                Ok(head) => {
                    &&& final(self)@ is None
                    &&& r is Ok
                    &&& exists|choice: Option<FullPeerInfo>| #[trigger]
                        is_picked(highest_height_peers, choice) && r->Ok_0 == if choice is Some
                            && choice->0.height > head.height {
                            choice
                        } else {
                            None
                        }
                    &&& r->Ok_0 is Some ==> highest_height_peers@.contains(r->Ok_0->0)
                        && r->Ok_0->0.height > head.height
                    &&& r->Ok_0 is None ==> highest_height_peers@.len() == 0 || exists|i: int|
                        0 <= i < highest_height_peers@.len() && (
                        #[trigger] highest_height_peers@[i]).height <= head.height
                },
            },
    {
        let choice = pick_peer(highest_height_peers);
        self.run_with(header_head, choice)
    }

    /// The same for the peer that was picked.
    pub fn run_with<E>(
        &mut self,
        header_head: Result<Tip, E>,
        choice: Option<FullPeerInfo>,
    ) -> (r: Result<Option<FullPeerInfo>, E>)
        ensures
            match header_head {
                Err(e) => r == Err::<Option<FullPeerInfo>, E>(e) && final(self)@ == old(self)@,
                Ok(head) => {
                    &&& final(self)@ is None
                    &&& r == Ok::<Option<FullPeerInfo>, E>(
                        if choice is Some && choice->0.height > head.height {
                            choice
                        } else {
                            None
                        },
                    )
                },
            },
    {
        let head = match header_head {
            Ok(head) => head,
            Err(e) => {
                return Err(e);
            },
        };
        self.syncing_peer = None;
        if let Some(peer) = choice {
            if peer.height > head.height {
                return Ok(Some(peer));
            }
        }
        Ok(None)
    }

    /// Asks `peer` for the headers that follow the first of those in the locator
    /// that it has; where it is not known how far the headers go, nothing is
    /// asked. Returns the request to be sent.
    pub fn request_headers(&mut self, locator: Locator, peer: FullPeerInfo) -> (r: Option<
        NetworkRequests,
    >)
        requires
            locator.wf(),
            locator@.query_spec() is None,
        ensures
            match locator@.stage {
                LocatorStage::Failed => final(self)@ is None && r is None,
                _ => {
                    &&& final(self)@ == Some(peer)
                    &&& r is Some
                    &&& r->0@ == (RequestView::Headers {
                        hashes: locator@.hashes,
                        peer_id: peer.peer_id,
                    })
                    &&& 1 <= locator@.hashes.len() <= MAX_BLOCK_HEADER_HASHES
                },
            },
    {
        proof {
            locator.lemma_wf();
        }
        match locator.hashes() {
            Some(hashes) => {
                self.syncing_peer = Some(peer);
                Some(NetworkRequests::BlockHeadersRequest { hashes, peer_id: peer.peer_id })
            },
            None => {
                self.syncing_peer = None;
                None
            },
        }
    }
}

/// A block that was asked for.
#[derive(Debug, Clone, Copy)]
pub struct BlockSyncRequest {
    pub height: u64,
    pub hash: CryptoHash,
}

/// A block that is not there, and what is known of the chain besides.
#[derive(Debug, Clone, Copy)]
pub struct MissingBlock {
    pub request: BlockSyncRequest,
    /// The end of the chain of blocks.
    pub head: Tip,
    /// The end of the chain of headers.
    pub header_head: Tip,
    /// From this height on blocks are kept.
    pub gc_stop_height: u64,
}

/// What is asked of the chain.
pub enum ChainQuery {
    /// Does the block with this hash wait for chunks?
    IsChunkOrphan(CryptoHash),
    /// Where does the chain of blocks end?
    Head,
    /// Where does the chain of headers end?
    HeaderHead,
    /// The header with this hash.
    BlockHeader(CryptoHash),
    /// The header at this height.
    HeaderByHeight(u64),
    /// The hash that follows this one.
    NextBlockHash(CryptoHash),
    /// Is the block with this hash there?
    BlockExists(CryptoHash),
    /// From which height on are blocks kept, by the header with this hash?
    GcStopHeight(CryptoHash),
    /// The header that the chain begins with.
    Genesis,
}

/// What the chain answers.
pub enum ChainReply<E> {
    Orphan(bool),
    Tip(Result<Tip, ChainError<E>>),
    Header(Result<BlockHeader, ChainError<E>>),
    Hash(Result<CryptoHash, ChainError<E>>),
    Exists(Result<bool, ChainError<E>>),
    Height(u64),
}

/// The search for the next block to ask for.
pub enum Search<E> {
    /// Was this block, asked for last, put aside for want of chunks?
    Orphan(CryptoHash),
    /// If not, from the end of the chain.
    Head,
    /// The header to start from.
    Reference(CryptoHash),
    /// Going back: is this header on the canonical chain?
    Back(BlockHeader),
    /// It is not: its parent.
    Prev(CryptoHash),
    /// Going forward from this block, which is there.
    Forward(CryptoHash),
    /// Is the block that follows it there?
    Exists { known: CryptoHash, next: CryptoHash },
    /// What follows the last block that is there?
    Next(CryptoHash),
    /// How high is that?
    NextHeader(CryptoHash),
    /// The end of the chain of blocks has to be known,
    HeadOf(BlockSyncRequest),
    /// and that of the chain of headers,
    HeaderHeadOf(BlockSyncRequest, Tip),
    /// from which follows which blocks are kept.
    GcStop(BlockSyncRequest, Tip, Tip),
    /// The block to ask for.
    Missing(MissingBlock),
    /// There is no block to ask for.
    UpToDate,
    /// The chain did not answer.
    Failed(ChainError<E>),
}

impl<E> Search<E> {
    /// What the search has to know next; nothing once it is over.
    pub open spec fn query_spec(self) -> Option<ChainQuery> {
        match self {
            Search::Orphan(hash) => Some(ChainQuery::IsChunkOrphan(hash)),
            Search::Head | Search::HeadOf(_) => Some(ChainQuery::Head),
            Search::Reference(hash) | Search::Prev(hash) | Search::NextHeader(hash) => Some(
                ChainQuery::BlockHeader(hash),
            ),
            Search::Back(c) => Some(ChainQuery::HeaderByHeight(c.height)),
            Search::Forward(hash) | Search::Next(hash) => Some(ChainQuery::NextBlockHash(hash)),
            Search::Exists { known, next } => Some(ChainQuery::BlockExists(next)),
            Search::HeaderHeadOf(..) => Some(ChainQuery::HeaderHead),
            Search::GcStop(_, _, t) => Some(ChainQuery::GcStopHeight(t.last_block_hash)),
            Search::Missing(..) | Search::UpToDate | Search::Failed(_) => None,
        }
    }

    /// Where the search goes with an answer. One that does not answer the
    /// question leaves it where it is.
    pub open spec fn next(self, reply: ChainReply<E>) -> Search<E> {
        match (self, reply) {
            (Search::Orphan(hash), ChainReply::Orphan(orphan)) => if orphan {
                Search::Reference(hash)
            } else {
                Search::Head
            },
            (Search::Head, ChainReply::Tip(Ok(t))) => Search::Reference(t.last_block_hash),
            (Search::Reference(_), ChainReply::Header(Ok(h))) => Search::Back(h),
            (Search::Back(c), ChainReply::Header(Ok(h))) => if h.hash == c.hash {
                Search::Forward(c.hash)
            } else {
                Search::Prev(c.prev_hash)
            },
            (Search::Back(c), ChainReply::Header(Err(ChainError::NotFound(_)))) => Search::Prev(
                c.prev_hash,
            ),
            (Search::Prev(_), ChainReply::Header(Ok(h))) => Search::Back(h),
            (Search::Forward(known), ChainReply::Hash(Ok(next))) => Search::Exists { known, next },
            (Search::Forward(known), ChainReply::Hash(Err(ChainError::NotFound(_)))) => Search::Next(
                known,
            ),
            (Search::Exists { known, next }, ChainReply::Exists(Ok(there))) => if there {
                Search::Forward(next)
            } else {
                Search::Next(known)
            },
            (Search::Next(_), ChainReply::Hash(Ok(next))) => Search::NextHeader(next),
            (Search::Next(_), ChainReply::Hash(Err(ChainError::NotFound(_)))) => Search::UpToDate,
            (Search::NextHeader(hash), ChainReply::Header(Ok(h))) => Search::HeadOf(
                BlockSyncRequest { height: h.height, hash },
            ),
            (Search::HeadOf(req), ChainReply::Tip(Ok(head))) => Search::HeaderHeadOf(req, head),
            (Search::HeaderHeadOf(req, head), ChainReply::Tip(Ok(t))) => Search::GcStop(
                req,
                head,
                t,
            ),
            (Search::GcStop(request, head, header_head), ChainReply::Height(h)) => Search::Missing(
                MissingBlock { request, head, header_head, gc_stop_height: h },
            ),
            (Search::Head | Search::HeadOf(_) | Search::HeaderHeadOf(..), ChainReply::Tip(Err(e))) => {
                Search::Failed(e)
            },
            (
                Search::Reference(_) | Search::Back(_) | Search::Prev(_) | Search::NextHeader(_),
                ChainReply::Header(Err(e)),
            ) => Search::Failed(e),
            (Search::Forward(_) | Search::Next(_), ChainReply::Hash(Err(e))) => Search::Failed(e),
            (Search::Exists { .. }, ChainReply::Exists(Err(e))) => Search::Failed(e),
            _ => self,
        }
    }

    /// What the search has to know next; nothing once it is over.
    pub fn query(&self) -> (q: Option<ChainQuery>)
        ensures
            q == self.query_spec(),
    {
        match self {
            Search::Orphan(hash) => Some(ChainQuery::IsChunkOrphan(*hash)),
            Search::Head | Search::HeadOf(_) => Some(ChainQuery::Head),
            Search::Reference(hash) | Search::Prev(hash) | Search::NextHeader(hash) => Some(
                ChainQuery::BlockHeader(*hash),
            ),
            Search::Back(c) => Some(ChainQuery::HeaderByHeight(c.height)),
            Search::Forward(hash) | Search::Next(hash) => Some(ChainQuery::NextBlockHash(*hash)),
            Search::Exists { known: _, next } => Some(ChainQuery::BlockExists(*next)),
            Search::HeaderHeadOf(..) => Some(ChainQuery::HeaderHead),
            Search::GcStop(_, _, t) => Some(ChainQuery::GcStopHeight(t.last_block_hash)),
            Search::Missing(..) | Search::UpToDate | Search::Failed(_) => None,
        }
    }

    /// Goes on with an answer.
    pub fn reply(self, reply: ChainReply<E>) -> (s: Search<E>)
        ensures
            s == self.next(reply),
    {
        match (self, reply) {
            (Search::Orphan(hash), ChainReply::Orphan(orphan)) => if orphan {
                Search::Reference(hash)
            } else {
                Search::Head
            },
            (Search::Head, ChainReply::Tip(r)) => match r {
                Ok(t) => Search::Reference(t.last_block_hash),
                Err(e) => Search::Failed(e),
            },
            (Search::Reference(_), ChainReply::Header(r)) => match r {
                Ok(h) => Search::Back(h),
                Err(e) => Search::Failed(e),
            },
            (Search::Back(c), ChainReply::Header(r)) => match r {
                Ok(h) => if h.hash != c.hash {
                    Search::Prev(c.prev_hash)
                } else {
                    Search::Forward(c.hash)
                },
                Err(ChainError::NotFound(_)) => Search::Prev(c.prev_hash),
                Err(e) => Search::Failed(e),
            },
            (Search::Prev(_), ChainReply::Header(r)) => match r {
                Ok(h) => Search::Back(h),
                Err(e) => Search::Failed(e),
            },
            (Search::Forward(known), ChainReply::Hash(r)) => match r {
                Ok(next) => Search::Exists { known, next },
                Err(ChainError::NotFound(_)) => Search::Next(known),
                Err(e) => Search::Failed(e),
            },
            (Search::Exists { known, next }, ChainReply::Exists(r)) => match r {
                Ok(there) => if there {
                    Search::Forward(next)
                } else {
                    Search::Next(known)
                },
                Err(e) => Search::Failed(e),
            },
            (Search::Next(_), ChainReply::Hash(r)) => match r {
                Ok(next) => Search::NextHeader(next),
                Err(ChainError::NotFound(_)) => Search::UpToDate,
                Err(e) => Search::Failed(e),
            },
            (Search::NextHeader(hash), ChainReply::Header(r)) => match r {
                Ok(h) => Search::HeadOf(BlockSyncRequest { height: h.height, hash }),
                Err(e) => Search::Failed(e),
            },
            (Search::HeadOf(req), ChainReply::Tip(r)) => match r {
                Ok(head) => Search::HeaderHeadOf(req, head),
                Err(e) => Search::Failed(e),
            },
            (Search::HeaderHeadOf(req, head), ChainReply::Tip(r)) => match r {
                Ok(t) => Search::GcStop(req, head, t),
                Err(e) => Search::Failed(e),
            },
            (Search::GcStop(request, head, header_head), ChainReply::Height(h)) => Search::Missing(
                MissingBlock { request, head, header_head, gc_stop_height: h },
            ),
            (s, _) => s,
        }
    }
}

/// Tells the peers that keep old blocks.
pub open spec fn is_archival() -> spec_fn(FullPeerInfo) -> bool {
    |p: FullPeerInfo| p.archival
}

/// The peers that can be asked for a block: all of them, or those that keep old
/// blocks.
pub open spec fn eligible(peers: Seq<FullPeerInfo>, archival_only: bool) -> Seq<FullPeerInfo> {
    if archival_only {
        peers.filter(is_archival())
    } else {
        peers
    }
}

/// Whose turn it is among `n`, if `next` comes after the last one.
pub open spec fn turn(next: nat, n: nat) -> nat {
    if next < n {
        next
    } else {
        0
    }
}

/// What a `BlockSync` holds.
pub struct BlockSyncView {
    pub last_request: Option<BlockSyncRequest>,
    /// Whether to enforce block sync: old blocks are wanted too.
    pub archive: bool,
    /// How far the blocks may be behind the headers.
    pub block_fetch_horizon: u64,
    /// The number, among those that can be asked, of the peer after the one asked
    /// last.
    pub next_peer: nat,
}

impl BlockSyncView {
    /// The last block that is there is too far behind to fetch those in between:
    /// the state is needed instead, unless block sync is enforced.
    pub open spec fn too_far(self, missing: MissingBlock) -> bool {
        &&& !self.archive
        &&& missing.header_head.height - missing.head.height > self.block_fetch_horizon
    }

    /// A block is to be asked of peers that keep old blocks: it is so old that
    /// others do not have it.
    pub open spec fn from_archival(self, missing: MissingBlock) -> bool {
        self.archive && missing.request.height < missing.gc_stop_height
    }

    /// The peers that can be asked for a block.
    pub open spec fn askable(self, missing: MissingBlock, peers: Seq<FullPeerInfo>) -> Seq<
        FullPeerInfo,
    > {
        eligible(peers, self.from_archival(missing))
    }

    /// The search for the next block to ask for begins with the one asked for
    /// last.
    pub open spec fn start<E>(self) -> Search<E> {
        match self.last_request {
            Some(request) => Search::Orphan(request.hash),
            None => Search::Head,
        }
    }
}

/// Helper to track block syncing.
pub struct BlockSync {
    last_request: Option<BlockSyncRequest>,
    /// Whether to enforce block sync
    archive: bool,
    block_fetch_horizon: u64,
    next_peer: usize,
}

impl View for BlockSync {
    type V = BlockSyncView;

    closed spec fn view(&self) -> BlockSyncView {
        BlockSyncView {
            last_request: self.last_request,
            archive: self.archive,
            block_fetch_horizon: self.block_fetch_horizon,
            next_peer: self.next_peer as nat,
        }
    }
}

/// The peers that can be asked for a block, in their order.
fn eligible_peers(peers: &Vec<FullPeerInfo>, archival_only: bool) -> (r: Vec<FullPeerInfo>)
    ensures
        r@ == eligible(peers@, archival_only),
{
    let mut r: Vec<FullPeerInfo> = Vec::new();
    for i in 0..peers.len()
        invariant
            r@ == eligible(peers@.take(i as int), archival_only),
    {
        proof {
            reveal(Seq::filter);
            assert(peers@.take(i + 1).drop_last() =~= peers@.take(i as int));
            assert(peers@.take(i + 1) =~= peers@.take(i as int).push(peers@[i as int]));
        }
        if !archival_only || peers[i].archival {
            r.push(peers[i]);
        }
    }
    assert(peers@.take(peers.len() as int) =~= peers@);
    r
}

impl BlockSync {
    /// No block was asked for.
    pub fn new(archive: bool, block_fetch_horizon: u64) -> (s: Self)
        ensures
            s@ == (BlockSyncView {
                last_request: None,
                archive,
                block_fetch_horizon,
                next_peer: 0,
            }),
    {
        BlockSync { last_request: None, archive, block_fetch_horizon, next_peer: 0 }
    }

    /// Begins the search for the next block to ask for.
    pub fn block_sync<E>(&self) -> (s: Search<E>)
        ensures
            s == self@.start::<E>(),
    {
        match &self.last_request {
            Some(request) => Search::Orphan(request.hash),
            None => Search::Head,
        }
    }

    /// Ends a search that is over. Returns true if state download is required,
    /// because the last block that is there is too far behind; then no block is
    /// asked for. Otherwise the block that is missing is remembered and asked of
    /// the peers round robin: returns the request to be sent, if there is a block
    /// to ask for and a peer to ask.
    pub fn run<E>(
        &mut self,
        search: Search<E>,
        highest_height_peers: &Vec<FullPeerInfo>,
    ) -> (r: Result<(bool, Option<NetworkRequests>), ChainError<E>>)
        requires
            search.query_spec() is None,
        ensures
            match search {
                Search::Missing(missing) => {
                    let o = old(self)@;
                    let peers = o.askable(missing, highest_height_peers@);
                    let i = turn(o.next_peer, peers.len());
                    &&& r is Ok
                    &&& r->Ok_0.0 <==> !o.archive && missing.header_head.height
                        > missing.head.height + o.block_fetch_horizon
                    &&& !r->Ok_0.0 && !(o.archive && missing.request.height
                        < missing.gc_stop_height) && highest_height_peers@.len() > 0
                        ==> r->Ok_0.1 is Some
                    &&& !r->Ok_0.0 && (exists|j: int|
                        0 <= j < highest_height_peers@.len() && (
                        #[trigger] highest_height_peers@[j]).archival) ==> r->Ok_0.1 is Some
                    &&& r->Ok_0.0 <==> o.too_far(missing)
                    &&& if o.too_far(missing) {
                        r->Ok_0.1 is None && final(self)@ == o
                    } else if peers.len() == 0 {
                        &&& r->Ok_0.1 is None
                        &&& final(self)@ == (BlockSyncView {
                            last_request: Some(missing.request),
                            ..o
                        })
                    } else {
                        &&& r->Ok_0.1 is Some
                        &&& r->Ok_0.1->0@ == (RequestView::Block {
                            hash: missing.request.hash,
                            peer_id: peers[i as int].peer_id,
                        })
                        &&& final(self)@ == (BlockSyncView {
                            last_request: Some(missing.request),
                            next_peer: i + 1,
                            ..o
                        })
                    }
                },
                Search::Failed(e) => final(self)@ == old(self)@ && r == Err::<
                    (bool, Option<NetworkRequests>),
                    ChainError<E>,
                >(e),
                _ => final(self)@ == old(self)@ && r is Ok && !r->Ok_0.0 && r->Ok_0.1 is None,
            },
    {
        match search {
            Search::Missing(missing) => {
                let behind: u64 = missing.header_head.height.saturating_sub(missing.head.height);
                if !self.archive && behind > self.block_fetch_horizon {
                    return Ok((true, None));
                }
                let archival_only = self.archive && missing.request.height < missing.gc_stop_height;
                let peers = eligible_peers(highest_height_peers, archival_only);
                proof {
                    let given = highest_height_peers@;
                    assert forall|j: int| 0 <= j < given.len() && (
                    #[trigger] given[j]).archival implies peers@.contains(given[j]) by {
                        assert(given.contains(given[j]));
                        if archival_only {
                            given.lemma_filter_contains(is_archival(), j);
                        }
                    }
                }
                self.last_request = Some(missing.request);
                if peers.len() == 0 {
                    return Ok((false, None));
                }
                let i: usize = if self.next_peer < peers.len() {
                    self.next_peer
                } else {
                    0
                };
                self.next_peer = i + 1;
                Ok((false, Some(block_request(missing.request.hash, peers[i].peer_id))))
            },
            Search::Failed(e) => Err(e),
            _ => Ok((false, None)),
        }
    }
}

} // verus!
