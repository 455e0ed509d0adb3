//! The network as one who asks single peers sees it.
use crate::headers::{lowest, lowest_header, lowest_is_lowest};
use crate::keyed::{list_of, ListMap};
use crate::types::{
    block_request, chunk_request, chunk_request_view, headers_request, lemma_hashes_are_keys, Block,
    BlockHeader, ChunkHash, CryptoHash, NetworkClientMessages, NetworkInfo, NetworkRequests,
    PartialEncodedChunkResponseMsg, PeerHash, PeerId, RequestView, ShardChunkHeader,
};
use std::sync::Arc;
use vstd::prelude::*;

verus! {

/// What a `Network` holds: what it last heard of the network, who waits for how
/// many peers, and who waits for what.
#[verifier::ext_equal]
pub struct NetworkView<I, H, B, C> {
    pub info: NetworkInfo,
    pub info_futures: Seq<(I, usize)>,
    pub block_headers_futures: Map<PeerHash, Seq<H>>,
    pub block_futures: Map<PeerHash, Seq<B>>,
    pub chunk_futures: Map<ChunkHash, Seq<C>>,
}

/// Picks those for whom `connected` peers are enough.
pub open spec fn served<I>(connected: usize) -> spec_fn((I, usize)) -> bool {
    |f: (I, usize)| connected >= f.1
}

/// Picks those for whom they are not.
pub open spec fn unserved<I>(connected: usize) -> spec_fn((I, usize)) -> bool {
    |f: (I, usize)| connected < f.1
}

/// The lists with `x` put last under `k`.
pub open spec fn with_last<K, X>(m: Map<K, Seq<X>>, k: K, x: X) -> Map<K, Seq<X>> {
    m.insert(k, list_of(m, k).push(x))
}

/// The lists after the last under `k` was taken, if there was one.
pub open spec fn popped<K, X>(m: Map<K, Seq<X>>, k: K) -> Map<K, Seq<X>> {
    let l = list_of(m, k);
    m.insert(
        k,
        if l.len() > 0 {
            l.drop_last()
        } else {
            l
        },
    )
}

/// The last under `k`, if there is one.
pub open spec fn last_of<K, X>(m: Map<K, Seq<X>>, k: K) -> Option<X> {
    let l = list_of(m, k);
    if l.len() > 0 {
        Some(l.last())
    } else {
        None
    }
}

/// What is to be done about a message that came in: whom to tell what.
pub enum Notified<I, H, B, C> {
    Info(Vec<(I, Arc<NetworkInfo>)>),
    Headers(H, Vec<BlockHeader>),
    Block(B, Block),
    Chunk(C, PartialEncodedChunkResponseMsg),
    /// Nobody waits for it.
    Nobody,
}

impl<I, H, B, C> NetworkView<I, H, B, C> {
    /// Whoever waits for peers waits because there are not enough.
    pub open spec fn wf(self) -> bool {
        forall|i: int|
            0 <= i < self.info_futures.len() ==> self.info.num_connected_peers < (
            #[trigger] self.info_futures[i]).1
    }

    /// `send` waits for the headers that follow those of `k`.
    pub open spec fn await_headers(self, k: PeerHash, send: H) -> Self {
        NetworkView {
            block_headers_futures: with_last(self.block_headers_futures, k, send),
            ..self
        }
    }

    /// `send` waits for the block of `k`.
    pub open spec fn await_block(self, k: PeerHash, send: B) -> Self {
        NetworkView { block_futures: with_last(self.block_futures, k, send), ..self }
    }

    /// `send` waits for the chunk with hash `k`.
    pub open spec fn await_chunk(self, k: ChunkHash, send: C) -> Self {
        NetworkView { chunk_futures: with_last(self.chunk_futures, k, send), ..self }
    }

    /// Who waits for what is the same, but for empty lists.
    pub open spec fn same_waiting(self, other: Self) -> bool {
        &&& self.info_futures == other.info_futures
        &&& forall|k: PeerHash| #[trigger]
            list_of(self.block_headers_futures, k) == list_of(other.block_headers_futures, k)
        &&& forall|k: PeerHash| #[trigger]
            list_of(self.block_futures, k) == list_of(other.block_futures, k)
        &&& forall|k: ChunkHash| #[trigger]
            list_of(self.chunk_futures, k) == list_of(other.chunk_futures, k)
    }

    /// What becomes of it when `msg` comes in.
    pub open spec fn notified(self, msg: NetworkClientMessages) -> Self {
        match msg {
            NetworkClientMessages::NetworkInfo(info) => NetworkView {
                info,
                info_futures: self.info_futures.filter(unserved(info.num_connected_peers)),
                ..self
            },
            NetworkClientMessages::Block(block, peer_id, _) => NetworkView {
                block_futures: popped(self.block_futures, PeerHash { peer_id, hash: block.hash }),
                ..self
            },
            NetworkClientMessages::BlockHeaders(hs, peer_id) => if hs@.len() > 0 {
                NetworkView {
                    block_headers_futures: popped(
                        self.block_headers_futures,
                        PeerHash { peer_id, hash: lowest(hs@).prev_hash },
                    ),
                    ..self
                }
            } else {
                self
            },
            NetworkClientMessages::PartialEncodedChunkResponse(resp) => NetworkView {
                chunk_futures: popped(self.chunk_futures, resp.chunk_hash),
                ..self
            },
            NetworkClientMessages::Other => self,
        }
    }

    /// `r` is what is to be done when `msg` comes in: what is known of the
    /// network goes to all for whom there are enough peers, in the order in
    /// which they asked; an answer goes to the last one who asked that peer for
    /// it.
    pub open spec fn response(self, msg: NetworkClientMessages, r: Notified<I, H, B, C>) -> bool {
        match msg {
            NetworkClientMessages::NetworkInfo(info) => r matches Notified::Info(replies)
                && replies@.map_values(|p: (I, Arc<NetworkInfo>)| (p.0, *p.1))
                == self.info_futures.filter(served(info.num_connected_peers)).map_values(
                |f: (I, usize)| (f.0, info),
            ),
            NetworkClientMessages::Block(block, peer_id, _) => match last_of(
                self.block_futures,
                PeerHash { peer_id, hash: block.hash },
            ) {
                Some(s) => r == Notified::<I, H, B, C>::Block(s, block),
                None => r is Nobody,
            },
            NetworkClientMessages::BlockHeaders(hs, peer_id) => if hs@.len() > 0 {
                match last_of(
                    self.block_headers_futures,
                    PeerHash { peer_id, hash: lowest(hs@).prev_hash },
                ) {
                    Some(s) => r == Notified::<I, H, B, C>::Headers(s, hs),
                    None => r is Nobody,
                }
            } else {
                r is Nobody
            },
            NetworkClientMessages::PartialEncodedChunkResponse(resp) => match last_of(
                self.chunk_futures,
                resp.chunk_hash,
            ) {
                Some(s) => r == Notified::<I, H, B, C>::Chunk(s, resp),
                None => r is Nobody,
            },
            NetworkClientMessages::Other => r is Nobody,
        }
    }
}

/// The network. `I`, `H`, `B` and `C` reply to one who asked about the network,
/// for headers, for a block and for a chunk.
pub struct Network<I, H, B, C> {
    info: Arc<NetworkInfo>,
    info_futures: Vec<(I, usize)>,
    block_headers_futures: ListMap<PeerHash, H>,
    block_futures: ListMap<PeerHash, B>,
    chunk_futures: ListMap<ChunkHash, C>,
}

impl<I, H, B, C> View for Network<I, H, B, C> {
    type V = NetworkView<I, H, B, C>;

    closed spec fn view(&self) -> NetworkView<I, H, B, C> {
        NetworkView {
            info: *self.info,
            info_futures: self.info_futures@,
            block_headers_futures: self.block_headers_futures@,
            block_futures: self.block_futures@,
            chunk_futures: self.chunk_futures@,
        }
    }
}

impl<I, H, B, C> Network<I, H, B, C> {
    pub closed spec fn wf(self) -> bool {
        &&& self@.wf()
        &&& self.block_headers_futures.wf()
        &&& self.block_futures.wf()
        &&& self.chunk_futures.wf()
    }

    /// What well-formedness says of the view.
    pub proof fn lemma_wf(self)
        requires
            self.wf(),
        ensures
            self@.wf(),
    {
    }

    /// A network that nothing was heard of and nothing was asked.
    pub fn new() -> (n: Self)
        ensures
            n.wf(),
            n@.info.is_empty(),
            n@ == (NetworkView::<I, H, B, C> {
                info: n@.info,
                info_futures: Seq::empty(),
                block_headers_futures: Map::empty(),
                block_futures: Map::empty(),
                chunk_futures: Map::empty(),
            }),
    {
        Network {
            info: Arc::new(NetworkInfo::empty()),
            info_futures: Vec::new(),
            block_headers_futures: ListMap::new(),
            block_futures: ListMap::new(),
            chunk_futures: ListMap::new(),
        }
    }

    /// Asks about the network. If at least `min_peers` peers are connected,
    /// `send` is handed back with what is known; otherwise it is kept until
    /// there are as many.
    pub fn info(&mut self, send: I, min_peers: usize) -> (r: Option<(I, Arc<NetworkInfo>)>)
        requires
            old(self).wf(),
        ensures
            final(self).wf(),
            ({
                let o = old(self)@;
                if o.info.num_connected_peers >= min_peers {
                    &&& r matches Some(p) && p.0 == send && *p.1 == o.info
                    &&& final(self)@ == o
                } else {
                    &&& r is None
                    &&& final(self)@ == (NetworkView {
                        info_futures: o.info_futures.push((send, min_peers)),
                        ..o
                    })
                }
            }),
    {
        if self.info.num_connected_peers >= min_peers {
            Some((send, self.info.clone()))
        } else {
            self.info_futures.push((send, min_peers));
            None
        }
    }

    /// Asks `peer_id` for the headers that follow the one with the given hash.
    /// Returns the request to be sent.
    pub fn fetch_block_headers(&mut self, peer_id: PeerId, hash: CryptoHash, send: H) -> (r:
        NetworkRequests)
        requires
            old(self).wf(),
        ensures
            final(self).wf(),
            final(self)@ == old(self)@.await_headers(PeerHash { peer_id, hash }, send),
            r@ == (RequestView::Headers { hashes: seq![hash], peer_id }),
    {
        proof {
            lemma_hashes_are_keys();
        }
        self.block_headers_futures.push(PeerHash { peer_id, hash }, send);
        assert(self@.info_futures == old(self)@.info_futures);
        headers_request(hash, peer_id)
    }

    /// Asks `peer_id` for the block with the given hash. Returns the request to
    /// be sent.
    pub fn fetch_block(&mut self, peer_id: PeerId, hash: CryptoHash, send: B) -> (r:
        NetworkRequests)
        requires
            old(self).wf(),
        ensures
            final(self).wf(),
            final(self)@ == old(self)@.await_block(PeerHash { peer_id, hash }, send),
            r@ == (RequestView::Block { hash, peer_id }),
    {
        proof {
            lemma_hashes_are_keys();
        }
        self.block_futures.push(PeerHash { peer_id, hash }, send);
        assert(self@.info_futures == old(self)@.info_futures);
        block_request(hash, peer_id)
    }

    /// Asks for the given parts of a chunk. Returns the request to be sent.
    pub fn fetch_chunk(&mut self, ch: &ShardChunkHeader, parts: Vec<u64>, send: C) -> (r:
        NetworkRequests)
        requires
            old(self).wf(),
        ensures
            final(self).wf(),
            final(self)@ == old(self)@.await_chunk(ch.chunk_hash, send),
            r@ == chunk_request_view(*ch, parts@),
    {
        proof {
            lemma_hashes_are_keys();
        }
        self.chunk_futures.push(ch.chunk_hash, send);
        assert(self@.info_futures == old(self)@.info_futures);
        chunk_request(ch, parts)
    }

    /// Takes in what is known of the network. Returns whom to tell.
    fn heard(&mut self, info: NetworkInfo) -> (replies: Vec<(I, Arc<NetworkInfo>)>)
        requires
            old(self).wf(),
        ensures
            final(self).wf(),
            final(self)@ == old(self)@.notified(NetworkClientMessages::NetworkInfo(info)),
            replies@.map_values(|p: (I, Arc<NetworkInfo>)| (p.0, *p.1))
                == old(self)@.info_futures.filter(served(info.num_connected_peers)).map_values(
                |f: (I, usize)| (f.0, info),
            ),
    {
        let ghost o = self@;
        let connected: usize = info.num_connected_peers;
        let mut replies: Vec<(I, Arc<NetworkInfo>)> = Vec::new();
        self.info = Arc::new(info);
        let mut waiting: Vec<(I, usize)> = Vec::new();
        core::mem::swap(&mut waiting, &mut self.info_futures);
        let ghost all = waiting@;
        let ghost yes = served::<I>(connected);
        let ghost no = unserved::<I>(connected);
        for f in it: waiting
            invariant
                it.seq() == all,
                *self.info == info,
                connected == info.num_connected_peers,
                yes == served::<I>(connected),
                no == unserved::<I>(connected),
                self.info_futures@ == all.take(it.index() as int).filter(no),
                replies.len() == all.take(it.index() as int).filter(yes).len(),
                forall|i: int|
                    0 <= i < replies.len() ==> (#[trigger] replies[i]).0 == all.take(
                        it.index() as int,
                    ).filter(yes)[i].0 && *replies[i].1 == info,
                forall|i: int|
                    0 <= i < self.info_futures.len() ==> connected < (
                    #[trigger] self.info_futures[i]).1,
                self.block_headers_futures == old(self).block_headers_futures,
                self.block_futures == old(self).block_futures,
                self.chunk_futures == old(self).chunk_futures,
        {
            proof {
                let i = it.index() as int;
                reveal(Seq::filter);
                assert(all.take(i + 1).drop_last() =~= all.take(i));
            }
            if connected >= f.1 {
                replies.push((f.0, self.info.clone()));
            } else {
                self.info_futures.push(f);
            }
        }
        proof {
            assert(all.take(all.len() as int) =~= all);
            assert(replies@.map_values(|p: (I, Arc<NetworkInfo>)| (p.0, *p.1)) =~= all.filter(
                yes,
            ).map_values(|f: (I, usize)| (f.0, info)));
        }
        replies
    }

    /// Takes in a message. Returns what to do about it.
    pub fn notify(&mut self, msg: NetworkClientMessages) -> (r: Notified<I, H, B, C>)
        requires
            old(self).wf(),
        ensures
            final(self).wf(),
            final(self)@ == old(self)@.notified(msg),
            old(self)@.response(msg, r),
    {
        proof {
            lemma_hashes_are_keys();
        }
        let r = match msg {
            NetworkClientMessages::NetworkInfo(info) => Notified::Info(self.heard(info)),
            NetworkClientMessages::Block(block, peer_id, _) => {
                match self.block_futures.pop(PeerHash { peer_id, hash: block.hash }) {
                    Some(s) => Notified::Block(s, block),
                    None => Notified::Nobody,
                }
            },
            NetworkClientMessages::BlockHeaders(headers, peer_id) => {
                match lowest_header(&headers) {
                    Some(h) => match self.block_headers_futures.pop(
                        PeerHash { peer_id, hash: h.prev_hash },
                    ) {
                        Some(s) => Notified::Headers(s, headers),
                        None => Notified::Nobody,
                    },
                    None => Notified::Nobody,
                }
            },
            NetworkClientMessages::PartialEncodedChunkResponse(resp) => {
                match self.chunk_futures.pop(resp.chunk_hash) {
                    Some(s) => Notified::Chunk(s, resp),
                    None => Notified::Nobody,
                }
            },
            NetworkClientMessages::Other => Notified::Nobody,
        };
        assert(!(msg is NetworkInfo) ==> self@.info_futures == old(self)@.info_futures);
        r
    }
}

/// Taking the last under `k` undoes putting it there.
proof fn lemma_popped<K, X>(m: Map<K, Seq<X>>, k: K, x: X)
    ensures
        last_of(with_last(m, k, x), k) == Some(x),
        forall|j: K| #[trigger] list_of(popped(with_last(m, k, x), k), j) == list_of(m, j),
{
    let l = list_of(m, k).push(x);
    assert(l.drop_last() =~= list_of(m, k));
}

/// A block goes to the one who asked that peer for it last, and to nobody else:
/// the others wait on as they did.
pub proof fn block_goes_to_the_last_who_asked<I, H, B, C>(
    n: NetworkView<I, H, B, C>,
    block: Block,
    peer_id: PeerId,
    requested: bool,
    send: B,
    r: Notified<I, H, B, C>,
)
    requires
        n.await_block(PeerHash { peer_id, hash: block.hash }, send).response(
            NetworkClientMessages::Block(block, peer_id, requested),
            r,
        ),
    ensures
        r == Notified::<I, H, B, C>::Block(send, block),
        n.await_block(PeerHash { peer_id, hash: block.hash }, send).notified(
            NetworkClientMessages::Block(block, peer_id, requested),
        ).same_waiting(n),
{
    lemma_popped(n.block_futures, PeerHash { peer_id, hash: block.hash }, send);
}

/// Headers go to the one who asked that peer last for what follows the parent of
/// the lowest of them, and to nobody else: the others wait on as they did.
pub proof fn headers_go_to_the_last_who_asked<I, H, B, C>(
    n: NetworkView<I, H, B, C>,
    headers: Vec<BlockHeader>,
    peer_id: PeerId,
    send: H,
    r: Notified<I, H, B, C>,
)
    requires
        headers@.len() > 0,
        n.await_headers(PeerHash { peer_id, hash: lowest(headers@).prev_hash }, send).response(
            NetworkClientMessages::BlockHeaders(headers, peer_id),
            r,
        ),
    ensures
        r == Notified::<I, H, B, C>::Headers(send, headers),
        n.await_headers(PeerHash { peer_id, hash: lowest(headers@).prev_hash }, send).notified(
            NetworkClientMessages::BlockHeaders(headers, peer_id),
        ).same_waiting(n),
{
    lemma_popped(
        n.block_headers_futures,
        PeerHash { peer_id, hash: lowest(headers@).prev_hash },
        send,
    );
}

/// A chunk goes to the one who asked for it last, and to nobody else: the others
/// wait on as they did.
pub proof fn chunk_goes_to_the_last_who_asked<I, H, B, C>(
    n: NetworkView<I, H, B, C>,
    resp: PartialEncodedChunkResponseMsg,
    send: C,
    r: Notified<I, H, B, C>,
)
    requires
        n.await_chunk(resp.chunk_hash, send).response(
            NetworkClientMessages::PartialEncodedChunkResponse(resp),
            r,
        ),
    ensures
        r == Notified::<I, H, B, C>::Chunk(send, resp),
        n.await_chunk(resp.chunk_hash, send).notified(
            NetworkClientMessages::PartialEncodedChunkResponse(resp),
        ).same_waiting(n),
{
    lemma_popped(n.chunk_futures, resp.chunk_hash, send);
}

/// An answer that nobody waits for changes nothing for anybody.
pub proof fn an_answer_unasked_for_is_dropped<I, H, B, C>(
    n: NetworkView<I, H, B, C>,
    block: Block,
    peer_id: PeerId,
    requested: bool,
    r: Notified<I, H, B, C>,
)
    requires
        list_of(n.block_futures, PeerHash { peer_id, hash: block.hash }).len() == 0,
        n.response(NetworkClientMessages::Block(block, peer_id, requested), r),
    ensures
        r is Nobody,
        n.notified(NetworkClientMessages::Block(block, peer_id, requested)).same_waiting(n),
{
}

/// What is heard of the network is what is known of it from then on. Those for
/// whom there are enough peers are told, in the order in which they asked, and wait
/// no more; the others wait on, in their order. Nothing else changes.
pub proof fn the_latest_news_counts<I, H, B, C>(
    n: NetworkView<I, H, B, C>,
    info: NetworkInfo,
    r: Notified<I, H, B, C>,
)
    requires
        n.response(NetworkClientMessages::NetworkInfo(info), r),
    ensures
        ({
            let after = n.notified(NetworkClientMessages::NetworkInfo(info));
            &&& after.info == info
            &&& after.info_futures == n.info_futures.filter(
                |f: (I, usize)| info.num_connected_peers < f.1,
            )
            &&& after.block_headers_futures == n.block_headers_futures
            &&& after.block_futures == n.block_futures
            &&& after.chunk_futures == n.chunk_futures
        }),
        r matches Notified::Info(replies) && replies@.map_values(
            |p: (I, Arc<NetworkInfo>)| (p.0, *p.1),
        ) == n.info_futures.filter(
            |f: (I, usize)| info.num_connected_peers >= f.1,
        ).map_values(|f: (I, usize)| (f.0, info)),
{
    let connected = info.num_connected_peers;
    assert(served::<I>(connected) =~= |f: (I, usize)| info.num_connected_peers >= f.1);
    assert(unserved::<I>(connected) =~= |f: (I, usize)| info.num_connected_peers < f.1);
}

/// Who asks waits last under what was asked for; who asked before, and who asked
/// for something else, waits on as before.
pub proof fn who_asks_waits_last<I, H, B, C>(
    n: NetworkView<I, H, B, C>,
    k: PeerHash,
    c: ChunkHash,
    h: H,
    b: B,
    ch: C,
    j: PeerHash,
    d: ChunkHash,
)
    requires
        j != k,
        d != c,
    ensures
        list_of(n.await_headers(k, h).block_headers_futures, k) == list_of(
            n.block_headers_futures,
            k,
        ).push(h),
        list_of(n.await_headers(k, h).block_headers_futures, j) == list_of(
            n.block_headers_futures,
            j,
        ),
        n.await_headers(k, h).block_futures == n.block_futures,
        n.await_headers(k, h).chunk_futures == n.chunk_futures,
        n.await_headers(k, h).info_futures == n.info_futures,
        n.await_headers(k, h).info == n.info,
        list_of(n.await_block(k, b).block_futures, k) == list_of(n.block_futures, k).push(b),
        list_of(n.await_block(k, b).block_futures, j) == list_of(n.block_futures, j),
        n.await_block(k, b).block_headers_futures == n.block_headers_futures,
        n.await_block(k, b).chunk_futures == n.chunk_futures,
        n.await_block(k, b).info_futures == n.info_futures,
        n.await_block(k, b).info == n.info,
        list_of(n.await_chunk(c, ch).chunk_futures, c) == list_of(n.chunk_futures, c).push(ch),
        list_of(n.await_chunk(c, ch).chunk_futures, d) == list_of(n.chunk_futures, d),
        n.await_chunk(c, ch).block_headers_futures == n.block_headers_futures,
        n.await_chunk(c, ch).block_futures == n.block_futures,
        n.await_chunk(c, ch).info_futures == n.info_futures,
        n.await_chunk(c, ch).info == n.info,
{
}

/// A block goes to the last who waits for it from that peer, who waits no more; if
/// nobody does, nobody hears of it. All others wait on.
pub proof fn a_block_is_for_the_last_in_line<I, H, B, C>(
    n: NetworkView<I, H, B, C>,
    block: Block,
    peer_id: PeerId,
    requested: bool,
    r: Notified<I, H, B, C>,
    j: PeerHash,
)
    requires
        n.response(NetworkClientMessages::Block(block, peer_id, requested), r),
        j != (PeerHash { peer_id, hash: block.hash }),
    ensures
        ({
            let k = PeerHash { peer_id, hash: block.hash };
            let after = n.notified(NetworkClientMessages::Block(block, peer_id, requested));
            let line = list_of(n.block_futures, k);
            &&& if line.len() > 0 {
                &&& r == Notified::<I, H, B, C>::Block(line.last(), block)
                &&& list_of(after.block_futures, k) == line.drop_last()
            } else {
                &&& r is Nobody
                &&& list_of(after.block_futures, k).len() == 0
            }
            &&& list_of(after.block_futures, j) == list_of(n.block_futures, j)
            &&& after.block_headers_futures == n.block_headers_futures
            &&& after.chunk_futures == n.chunk_futures
            &&& after.info_futures == n.info_futures
            &&& after.info == n.info
        }),
{
}

/// Headers go to the last who waits, from that peer, for what follows the parent of
/// the lowest of them, who waits no more; if nobody does, nobody hears of them. All
/// others wait on.
pub proof fn headers_are_for_the_last_in_line<I, H, B, C>(
    n: NetworkView<I, H, B, C>,
    hs: Vec<BlockHeader>,
    peer_id: PeerId,
    r: Notified<I, H, B, C>,
    i: int,
    j: PeerHash,
)
    requires
        n.response(NetworkClientMessages::BlockHeaders(hs, peer_id), r),
        0 <= i < hs@.len(),
        forall|l: int| 0 <= l < hs@.len() && l != i ==> hs@[i].height < (#[trigger] hs@[l]).height,
        j != (PeerHash { peer_id, hash: hs@[i].prev_hash }),
    ensures
        ({
            let k = PeerHash { peer_id, hash: hs@[i].prev_hash };
            let after = n.notified(NetworkClientMessages::BlockHeaders(hs, peer_id));
            let line = list_of(n.block_headers_futures, k);
            &&& if line.len() > 0 {
                &&& r == Notified::<I, H, B, C>::Headers(line.last(), hs)
                &&& list_of(after.block_headers_futures, k) == line.drop_last()
            } else {
                &&& r is Nobody
                &&& list_of(after.block_headers_futures, k).len() == 0
            }
            &&& list_of(after.block_headers_futures, j) == list_of(n.block_headers_futures, j)
            &&& after.block_futures == n.block_futures
            &&& after.chunk_futures == n.chunk_futures
            &&& after.info_futures == n.info_futures
            &&& after.info == n.info
        }),
{
    lowest_is_lowest(hs@);
    assert(lowest(hs@).height <= hs@[i].height);
    assert(lowest(hs@) == hs@[i]);
}

/// A chunk goes to the last who waits for it, who waits no more; if nobody does,
/// nobody hears of it. All others wait on.
pub proof fn a_chunk_is_for_the_last_in_line<I, H, B, C>(
    n: NetworkView<I, H, B, C>,
    resp: PartialEncodedChunkResponseMsg,
    r: Notified<I, H, B, C>,
    j: ChunkHash,
)
    requires
        n.response(NetworkClientMessages::PartialEncodedChunkResponse(resp), r),
        j != resp.chunk_hash,
    ensures
        ({
            let k = resp.chunk_hash;
            let after = n.notified(NetworkClientMessages::PartialEncodedChunkResponse(resp));
            let line = list_of(n.chunk_futures, k);
            &&& if line.len() > 0 {
                &&& r == Notified::<I, H, B, C>::Chunk(line.last(), resp)
                &&& list_of(after.chunk_futures, k) == line.drop_last()
            } else {
                &&& r is Nobody
                &&& list_of(after.chunk_futures, k).len() == 0
            }
            &&& list_of(after.chunk_futures, j) == list_of(n.chunk_futures, j)
            &&& after.block_headers_futures == n.block_headers_futures
            &&& after.block_futures == n.block_futures
            &&& after.info_futures == n.info_futures
            &&& after.info == n.info
        }),
{
}

/// No headers, and what is of no interest, change nothing and are for nobody.
pub proof fn nothing_new_changes_nothing<I, H, B, C>(
    n: NetworkView<I, H, B, C>,
    hs: Vec<BlockHeader>,
    peer_id: PeerId,
    r: Notified<I, H, B, C>,
)
    requires
        hs@.len() == 0,
    ensures
        n.notified(NetworkClientMessages::BlockHeaders(hs, peer_id)) == n,
        n.notified(NetworkClientMessages::Other) == n,
        n.response(NetworkClientMessages::BlockHeaders(hs, peer_id), r) ==> r is Nobody,
        n.response(NetworkClientMessages::Other, r) ==> r is Nobody,
{
}

} // verus!
