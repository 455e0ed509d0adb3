//! The network as the sync sees it: who asked for what, whom to ask, and what
//! becomes of what comes in.
use crate::concurrency::dispatcher::{
    all_who_wait_are_woken, slot_wakers, subscriber_waits, Dispatcher, DispatcherView, Receiver,
};
use crate::concurrency::eventual::Poll;
use crate::headers::{lowest, lowest_header, lowest_is_lowest};
use crate::keyed::list_of;
use crate::types::{
    block_request, chunk_request, chunk_request_view, headers_request, lemma_hashes_are_keys, Block,
    BlockHeader, ChunkHash, CryptoHash, FullPeerInfo, NetworkClientMessages, NetworkInfo,
    NetworkRequests, PartialEncodedChunkResponseMsg, PeerId, RequestView, ShardChunkHeader,
};
use std::sync::Arc;
use vstd::prelude::*;

verus! {

/// How long a peer is given to answer before the next one is asked, in
/// nanoseconds.
pub const REQUEST_TIMEOUT: u128 = 2_000_000_000;

/// How many requests a second are let through.
pub const REQUESTS_PER_SECOND: u32 = 10;

/// A rate: so many at once, and one more each time the interval has passed.
#[derive(Debug, Clone, Copy, PartialEq, Eq, Structural)]
pub struct Rate {
    pub burst: u32,
    /// In nanoseconds.
    pub interval: u128,
}

/// Calls `governor::Quota::per_second` and reads the quota: its burst is the
/// number of cells per second, and its interval a second divided by that,
/// rounded down to nanoseconds.
#[verifier::external_body]
fn rate_per_second(cells: u32) -> (r: Rate)
    requires
        cells > 0,
    ensures
        r.burst == cells,
        r.interval == 1_000_000_000int / (cells as int),
{
    let q = governor::Quota::per_second(std::num::NonZeroU32::new(cells).unwrap());
    Rate { burst: q.burst_size().get(), interval: q.replenish_interval().as_nanos() }
}

/// What a task wants of the peers.
#[derive(Debug, Clone, Copy)]
pub enum Wanted {
    /// The headers that follow the one with this hash.
    Headers(CryptoHash),
    /// The block with this hash.
    Block(CryptoHash),
    /// All parts of a chunk, of which there are so many.
    Chunk(ShardChunkHeader, u64),
}

/// The request that asks `peer` for `wanted`.
pub open spec fn request_view(wanted: Wanted, peer: FullPeerInfo) -> RequestView {
    match wanted {
        Wanted::Headers(hash) => RequestView::Headers {
            hashes: seq![hash],
            peer_id: peer.peer_id,
        },
        Wanted::Block(hash) => RequestView::Block { hash, peer_id: peer.peer_id },
        Wanted::Chunk(ch, parts) => chunk_request_view(
            ch,
            Seq::new(parts as nat, |i: int| i as u64),
        ),
    }
}

/// The numbers below `n`, in order.
fn ords(n: u64) -> (v: Vec<u64>)
    ensures
        v@ == Seq::new(n as nat, |i: int| i as u64),
{
    let mut v: Vec<u64> = Vec::new();
    let mut i: u64 = 0;
    while i < n
        invariant
            i <= n,
            v@ == Seq::new(i as nat, |i: int| i as u64),
        decreases n - i,
    {
        v.push(i);
        i = i + 1;
        assert(v@ =~= Seq::new(i as nat, |i: int| i as u64));
    }
    v
}

/// The request that asks `peer` for `wanted`.
pub fn new_request(wanted: &Wanted, peer: &FullPeerInfo) -> (r: NetworkRequests)
    ensures
        r@ == request_view(*wanted, *peer),
{
    match wanted {
        Wanted::Headers(hash) => headers_request(*hash, peer.peer_id),
        Wanted::Block(hash) => block_request(*hash, peer.peer_id),
        Wanted::Chunk(ch, parts) => chunk_request(ch, ords(*parts)),
    }
}

/// What one who keeps sending does next.
pub enum SendStep {
    /// Finds out which peers there are.
    AwaitInfo,
    /// Sends this.
    Send(NetworkRequests),
    /// Waits this long, in nanoseconds.
    Wait(u128),
}

/// What a `SendStep` says.
pub enum SendStepView {
    AwaitInfo,
    Send(RequestView),
    Wait(u128),
}

impl View for SendStep {
    type V = SendStepView;

    open spec fn view(&self) -> SendStepView {
        match self {
            SendStep::AwaitInfo => SendStepView::AwaitInfo,
            SendStep::Send(r) => SendStepView::Send(r@),
            SendStep::Wait(d) => SendStepView::Wait(*d),
        }
    }
}

/// Where one who keeps sending stands.
#[verifier::ext_equal]
pub struct SendingView {
    pub wanted: Wanted,
    /// The peers that are asked in this round, if there is one.
    pub peers: Option<Seq<FullPeerInfo>>,
    /// How many of them were asked.
    pub asked: nat,
    /// A request was sent and is given time.
    pub waiting: bool,
    pub timeout: u128,
}

impl SendingView {
    pub open spec fn wf(self) -> bool {
        self.peers is Some ==> self.asked <= self.peers->0.len()
    }

    /// What is done next.
    pub open spec fn action(self) -> SendStepView {
        if self.waiting {
            SendStepView::Wait(self.timeout)
        } else if self.peers is Some && self.asked < self.peers->0.len() {
            SendStepView::Send(request_view(self.wanted, self.peers->0[self.asked as int]))
        } else {
            SendStepView::AwaitInfo
        }
    }

    /// What it is like after that.
    pub open spec fn step(self) -> Self {
        if self.waiting {
            SendingView { waiting: false, ..self }
        } else if self.peers is Some && self.asked < self.peers->0.len() {
            SendingView { asked: self.asked + 1, waiting: true, ..self }
        } else {
            SendingView { peers: None, asked: 0, ..self }
        }
    }

    /// A round over the given peers begins.
    pub open spec fn begin(self, peers: Seq<FullPeerInfo>) -> Self {
        SendingView { peers: Some(peers), asked: 0, waiting: false, ..self }
    }

    /// What it is like `n` steps on.
    pub open spec fn steps(self, n: nat) -> Self
        decreases n,
    {
        if n == 0 {
            self
        } else {
            self.steps((n - 1) as nat).step()
        }
    }
}

/// Sends a request to one connected peer after another, and begins anew with
/// the peers that are then connected, for as long as it is asked to.
pub struct KeepSending {
    wanted: Wanted,
    info: Option<Arc<NetworkInfo>>,
    asked: usize,
    waiting: bool,
    timeout: u128,
}

impl View for KeepSending {
    type V = SendingView;

    closed spec fn view(&self) -> SendingView {
        SendingView {
            wanted: self.wanted,
            peers: match self.info {
                Some(i) => Some(i.connected_peers@),
                None => None,
            },
            asked: self.asked as nat,
            waiting: self.waiting,
            timeout: self.timeout,
        }
    }
}

impl KeepSending {
    /// The peers to be asked in the round that begins.
    pub fn on_info(&mut self, info: Arc<NetworkInfo>)
        ensures
            final(self)@ == old(self)@.begin(info.connected_peers@),
            final(self)@.wf(),
    {
        self.info = Some(info);
        self.asked = 0;
        self.waiting = false;
        assert(self@ =~= old(self)@.begin(info.connected_peers@));
    }

    /// What to do next.
    pub fn next(&mut self) -> (r: SendStep)
        requires
            old(self)@.wf(),
        ensures
            r@ == old(self)@.action(),
            final(self)@ == old(self)@.step(),
            final(self)@.wf(),
    {
        if self.waiting {
            self.waiting = false;
            assert(self@ =~= old(self)@.step());
            return SendStep::Wait(self.timeout);
        }
        if let Some(info) = &self.info {
            if self.asked < info.connected_peers.len() {
                let r = new_request(&self.wanted, &info.connected_peers[self.asked]);
                self.asked = self.asked + 1;
                self.waiting = true;
                assert(self@ =~= old(self)@.step());
                return SendStep::Send(r);
            }
        }
        self.info = None;
        self.asked = 0;
        assert(self@ =~= old(self)@.step());
        SendStep::AwaitInfo
    }
}

/// A round asks each peer once, in order, and gives each the same time; then
/// the peers are looked up anew.
pub proof fn each_round_asks_every_peer(s: SendingView, peers: Seq<FullPeerInfo>, i: nat)
    requires
        i <= peers.len(),
    ensures
        ({
            let b = s.begin(peers);
            &&& b.steps(2 * i) == (SendingView { asked: i, ..b })
            &&& i < peers.len() ==> {
                &&& b.steps(2 * i).action() == SendStepView::Send(
                    request_view(s.wanted, peers[i as int]),
                )
                &&& b.steps(2 * i + 1).action() == SendStepView::Wait(s.timeout)
            }
            &&& i == peers.len() ==> b.steps(2 * i).action() == SendStepView::AwaitInfo
        }),
    decreases i,
{
    let b = s.begin(peers);
    if i > 0 {
        let j = (i - 1) as nat;
        each_round_asks_every_peer(s, peers, j);
        assert(b.steps(2 * j + 1) == b.steps(2 * j).step());
        assert(b.steps(2 * j + 2) == b.steps(2 * j + 1).step());
        assert(2 * j + 2 == 2 * i);
    }
    assert(b.steps(2 * i) =~= (SendingView { asked: i, ..b }));
    assert(b.steps(2 * i + 1) == b.steps(2 * i).step());
}

/// One who waits for what was asked for.
pub struct Fetch {
    /// Gets the answer.
    pub receiver: Receiver,
    /// Asks for it meanwhile.
    pub sending: KeepSending,
}

/// What a `Network` holds.
#[verifier::ext_equal]
#[verifier::reject_recursive_types(S)]
#[verifier::reject_recursive_types(W)]
pub struct NetworkView<S, W> {
    /// Who waits for headers, by the hash that they follow.
    pub headers: DispatcherView<CryptoHash, Vec<BlockHeader>, W>,
    /// Who waits for a block, by its hash.
    pub blocks: DispatcherView<CryptoHash, Block, W>,
    /// Who waits for a chunk, by its hash.
    pub chunks: DispatcherView<ChunkHash, PartialEncodedChunkResponseMsg, W>,
    /// Who waits for enough peers.
    pub info_futures: Seq<S>,
    /// What was last heard of the network.
    pub info: NetworkInfo,
    pub min_peers: usize,
    pub parts_per_chunk: u64,
    pub request_timeout: u128,
    pub rate: Rate,
}

impl<S, W> NetworkView<S, W> {
    /// Enough peers are connected.
    pub open spec fn ready(self) -> bool {
        self.info.num_connected_peers >= self.min_peers
    }

    /// `after` is what becomes of it when `msg` comes in.
    pub open spec fn notified(self, msg: NetworkClientMessages, after: Self) -> bool {
        match msg {
            NetworkClientMessages::NetworkInfo(info) => {
                let heard = NetworkView { info, ..self };
                after == if heard.ready() {
                    NetworkView { info_futures: Seq::empty(), ..heard }
                } else {
                    heard
                }
            },
            NetworkClientMessages::Block(block, _, _) => {
                &&& self.blocks.sent(block.hash, block, after.blocks)
                &&& after == (NetworkView { blocks: after.blocks, ..self })
            },
            NetworkClientMessages::BlockHeaders(hs, _) => if hs@.len() > 0 {
                &&& self.headers.sent(lowest(hs@).prev_hash, hs, after.headers)
                &&& after == (NetworkView { headers: after.headers, ..self })
            } else {
                after == self
            },
            NetworkClientMessages::PartialEncodedChunkResponse(resp) => {
                &&& self.chunks.sent(resp.chunk_hash, resp, after.chunks)
                &&& after == (NetworkView { chunks: after.chunks, ..self })
            },
            NetworkClientMessages::Other => after == self,
        }
    }

    /// Who is told about the network, and what, when `msg` comes in: all who
    /// wait for that, once there are enough peers.
    pub open spec fn replies_to(self, msg: NetworkClientMessages) -> Seq<(S, NetworkInfo)> {
        match msg {
            NetworkClientMessages::NetworkInfo(info) => if info.num_connected_peers
                >= self.min_peers {
                self.info_futures.map_values(|s: S| (s, info))
            } else {
                Seq::empty()
            },
            _ => Seq::empty(),
        }
    }

    /// Who is woken when `msg` comes in: those who wait for what it brings.
    pub open spec fn woken_by(self, msg: NetworkClientMessages) -> Seq<W> {
        match msg {
            NetworkClientMessages::Block(block, _, _) => slot_wakers(
                self.blocks.slots,
                list_of(self.blocks.queues, block.hash),
            ),
            NetworkClientMessages::BlockHeaders(hs, _) => if hs@.len() > 0 {
                slot_wakers(
                    self.headers.slots,
                    list_of(self.headers.queues, lowest(hs@).prev_hash),
                )
            } else {
                Seq::empty()
            },
            NetworkClientMessages::PartialEncodedChunkResponse(resp) => slot_wakers(
                self.chunks.slots,
                list_of(self.chunks.queues, resp.chunk_hash),
            ),
            _ => Seq::empty(),
        }
    }

    /// Headers held for one who asked are some, and follow the hash asked for.
    pub open spec fn headers_fit(self) -> bool {
        forall|id: u64| #[trigger]
            self.headers.slots.contains_key(id) ==> (self.headers.slots[id].value matches Some(hs)
                ==> hs@.len() > 0 && lowest(hs@).prev_hash == self.headers.slots[id].key)
    }

    /// A block held for one who asked has the hash asked for.
    pub open spec fn blocks_fit(self) -> bool {
        forall|id: u64| #[trigger]
            self.blocks.slots.contains_key(id) ==> (self.blocks.slots[id].value matches Some(b)
                ==> b.hash == self.blocks.slots[id].key)
    }

    /// A chunk held for one who asked has the hash asked for.
    pub open spec fn chunks_fit(self) -> bool {
        forall|id: u64| #[trigger]
            self.chunks.slots.contains_key(id) ==> (self.chunks.slots[id].value matches Some(c)
                ==> c.chunk_hash == self.chunks.slots[id].key)
    }

    /// Those who wait for enough peers wait because there are not enough, and
    /// what is held for one who asked is what was asked for.
    pub open spec fn wf(self) -> bool {
        &&& self.info_futures.len() > 0 ==> !self.ready()
        &&& self.headers_fit()
        &&& self.blocks_fit()
        &&& self.chunks_fit()
    }
}

/// What is to be done about a message that came in.
pub struct Notified<S, W> {
    /// Whom to tell about the network.
    pub replies: Vec<(S, Arc<NetworkInfo>)>,
    /// Whom to wake.
    pub woken: Vec<W>,
}

/// The network. `S` replies to one who asked about the network, `W` wakes one
/// who waits for an answer.
pub struct Network<S, W> {
    block_headers_disp: Dispatcher<CryptoHash, Vec<BlockHeader>, W>,
    block_disp: Dispatcher<CryptoHash, Block, W>,
    chunk_disp: Dispatcher<ChunkHash, PartialEncodedChunkResponseMsg, W>,
    info_futures: Vec<S>,
    info: Arc<NetworkInfo>,
    min_peers: usize,
    pub parts_per_chunk: u64,
    request_timeout: u128,
    rate: Rate,
}

impl<S, W> View for Network<S, W> {
    type V = NetworkView<S, W>;

    closed spec fn view(&self) -> NetworkView<S, W> {
        NetworkView {
            headers: self.block_headers_disp@,
            blocks: self.block_disp@,
            chunks: self.chunk_disp@,
            info_futures: self.info_futures@,
            info: *self.info,
            min_peers: self.min_peers,
            parts_per_chunk: self.parts_per_chunk,
            request_timeout: self.request_timeout,
            rate: self.rate,
        }
    }
}

impl<S, W> Network<S, W> {
    pub closed spec fn wf(self) -> bool {
        &&& self.block_headers_disp.wf()
        &&& self.block_disp.wf()
        &&& self.chunk_disp.wf()
        &&& self@.wf()
    }

    /// What well-formedness says of the view.
    pub proof fn lemma_wf(self)
        requires
            self.wf(),
        ensures
            self@.wf(),
            self@.headers.wf(),
            self@.blocks.wf(),
            self@.chunks.wf(),
    {
        self.block_headers_disp.lemma_wf();
        self.block_disp.lemma_wf();
        self.chunk_disp.lemma_wf();
    }

    /// A network that nothing was heard of, in which `min_peers` peers are
    /// enough and a chunk has `parts_per_chunk` parts.
    pub fn new(min_peers: usize, parts_per_chunk: u64) -> (n: Self)
        ensures
            n.wf(),
            ({
                let v = n@;
                &&& v.headers == (DispatcherView::<CryptoHash, Vec<BlockHeader>, W> {
                    queues: Map::empty(),
                    slots: Map::empty(),
                    next_id: 0,
                })
                &&& v.blocks == (DispatcherView::<CryptoHash, Block, W> {
                    queues: Map::empty(),
                    slots: Map::empty(),
                    next_id: 0,
                })
                &&& v.chunks == (DispatcherView::<ChunkHash, PartialEncodedChunkResponseMsg, W> {
                    queues: Map::empty(),
                    slots: Map::empty(),
                    next_id: 0,
                })
                &&& v.info_futures.len() == 0
                &&& v.info.is_empty()
                &&& v.min_peers == min_peers
                &&& v.parts_per_chunk == parts_per_chunk
                &&& v.request_timeout == REQUEST_TIMEOUT
                &&& v.rate.burst == REQUESTS_PER_SECOND
                &&& v.rate.interval == 1_000_000_000int / (REQUESTS_PER_SECOND as int)
            }),
    {
        Network {
            block_headers_disp: Dispatcher::default(),
            block_disp: Dispatcher::default(),
            chunk_disp: Dispatcher::default(),
            info_futures: Vec::new(),
            info: Arc::new(NetworkInfo::empty()),
            min_peers,
            parts_per_chunk,
            request_timeout: REQUEST_TIMEOUT,
            rate: rate_per_second(REQUESTS_PER_SECOND),
        }
    }

    /// How many requests are let through.
    pub fn rate(&self) -> (r: Rate)
        ensures
            r == self@.rate,
    {
        self.rate
    }

    /// Asks about the network. If enough peers are connected, `send` is handed
    /// back with what is known; otherwise it is kept until there are enough.
    pub fn info(&mut self, send: S) -> (r: Option<(S, Arc<NetworkInfo>)>)
        requires
            old(self).wf(),
        ensures
            final(self).wf(),
            ({
                let o = old(self)@;
                if o.info.num_connected_peers >= o.min_peers {
                    &&& r matches Some(p) && p.0 == send && *p.1 == o.info
                    &&& final(self)@ == o
                } else {
                    &&& r is None
                    &&& final(self)@ == (NetworkView {
                        info_futures: o.info_futures.push(send),
                        ..o
                    })
                }
            }),
    {
        if self.info.num_connected_peers >= self.min_peers {
            Some((send, self.info.clone()))
        } else {
            self.info_futures.push(send);
            assert(self@ =~= (NetworkView {
                info_futures: old(self)@.info_futures.push(send),
                ..old(self)@
            }));
            None
        }
    }

    /// Sends requests for `wanted` to one peer after another.
    pub fn keep_sending(&self, wanted: Wanted) -> (k: KeepSending)
        ensures
            k@ == (SendingView {
                wanted,
                peers: None,
                asked: 0,
                waiting: false,
                timeout: self@.request_timeout,
            }),
            k@.wf(),
    {
        KeepSending {
            wanted,
            info: None,
            asked: 0,
            waiting: false,
            timeout: self.request_timeout,
        }
    }

    /// Whether one more can ask for each of headers, blocks and chunks.
    pub fn has_room(&self) -> (b: bool)
        ensures
            b <==> self@.headers.next_id < u64::MAX && self@.blocks.next_id < u64::MAX
                && self@.chunks.next_id < u64::MAX,
    {
        self.block_headers_disp.has_room() && self.block_disp.has_room()
            && self.chunk_disp.has_room()
    }

    /// Asks for the headers that follow the one with the given hash.
    pub fn fetch_block_headers(&mut self, hash: &CryptoHash) -> (f: Fetch)
        requires
            old(self).wf(),
            old(self)@.headers.next_id < u64::MAX,
        ensures
            final(self).wf(),
            f.receiver.id() == old(self)@.headers.next_id,
            final(self)@ == (NetworkView {
                headers: old(self)@.headers.subscribe(*hash),
                ..old(self)@
            }),
            f.sending@ == (SendingView {
                wanted: Wanted::Headers(*hash),
                peers: None,
                asked: 0,
                waiting: false,
                timeout: old(self)@.request_timeout,
            }),
    {
        proof {
            lemma_hashes_are_keys();
        }
        let receiver = self.block_headers_disp.subscribe(hash);
        Fetch { receiver, sending: self.keep_sending(Wanted::Headers(*hash)) }
    }

    /// Asks for the block with the given hash.
    pub fn fetch_block(&mut self, hash: &CryptoHash) -> (f: Fetch)
        requires
            old(self).wf(),
            old(self)@.blocks.next_id < u64::MAX,
        ensures
            final(self).wf(),
            f.receiver.id() == old(self)@.blocks.next_id,
            final(self)@ == (NetworkView {
                blocks: old(self)@.blocks.subscribe(*hash),
                ..old(self)@
            }),
            f.sending@ == (SendingView {
                wanted: Wanted::Block(*hash),
                peers: None,
                asked: 0,
                waiting: false,
                timeout: old(self)@.request_timeout,
            }),
    {
        proof {
            lemma_hashes_are_keys();
        }
        let receiver = self.block_disp.subscribe(hash);
        Fetch { receiver, sending: self.keep_sending(Wanted::Block(*hash)) }
    }

    /// Asks for all parts of a chunk.
    pub fn fetch_chunk(&mut self, ch: &ShardChunkHeader) -> (f: Fetch)
        requires
            old(self).wf(),
            old(self)@.chunks.next_id < u64::MAX,
        ensures
            final(self).wf(),
            f.receiver.id() == old(self)@.chunks.next_id,
            final(self)@ == (NetworkView {
                chunks: old(self)@.chunks.subscribe(ch.chunk_hash),
                ..old(self)@
            }),
            f.sending@ == (SendingView {
                wanted: Wanted::Chunk(*ch, old(self)@.parts_per_chunk),
                peers: None,
                asked: 0,
                waiting: false,
                timeout: old(self)@.request_timeout,
            }),
    {
        proof {
            lemma_hashes_are_keys();
        }
        let receiver = self.chunk_disp.subscribe(&ch.chunk_hash);
        Fetch { receiver, sending: self.keep_sending(Wanted::Chunk(*ch, self.parts_per_chunk)) }
    }

    /// The headers that `r` waits for, once; until there, `waker` is kept for it.
    pub fn poll_headers(&mut self, r: &Receiver, waker: W) -> (p: Poll<Vec<BlockHeader>>)
        requires
            old(self).wf(),
        ensures
            final(self).wf(),
            ({
                let o = old(self)@;
                let id = r.id();
                if !o.headers.slots.contains_key(id) {
                    p is Pending && final(self)@ == o
                } else {
                    match o.headers.slots[id].value {
                        Some(v) => p == Poll::<Vec<BlockHeader>>::Ready(v) && final(self)@ == (NetworkView {
                            headers: o.headers.taken(id),
                            ..o
                        }),
                        None => p is Pending && final(self)@ == (NetworkView {
                            headers: o.headers.park(id, waker),
                            ..o
                        }),
                    }
                }
            }),
    {
        r.poll(&mut self.block_headers_disp, waker)
    }

    /// `r` no longer waits.
    pub fn release_headers(&mut self, r: Receiver)
        requires
            old(self).wf(),
        ensures
            final(self).wf(),
            final(self)@ == (NetworkView {
                headers: old(self)@.headers.release(r.id()),
                ..old(self)@
            }),
    {
        proof {
            lemma_hashes_are_keys();
        }
        self.block_headers_disp.release(r);
    }

    /// The block that `r` waits for, once; until there, `waker` is kept for it.
    pub fn poll_blocks(&mut self, r: &Receiver, waker: W) -> (p: Poll<Block>)
        requires
            old(self).wf(),
        ensures
            final(self).wf(),
            ({
                let o = old(self)@;
                let id = r.id();
                if !o.blocks.slots.contains_key(id) {
                    p is Pending && final(self)@ == o
                } else {
                    match o.blocks.slots[id].value {
                        Some(v) => p == Poll::<Block>::Ready(v) && final(self)@ == (NetworkView {
                            blocks: o.blocks.taken(id),
                            ..o
                        }),
                        None => p is Pending && final(self)@ == (NetworkView {
                            blocks: o.blocks.park(id, waker),
                            ..o
                        }),
                    }
                }
            }),
    {
        r.poll(&mut self.block_disp, waker)
    }

    /// `r` no longer waits.
    pub fn release_blocks(&mut self, r: Receiver)
        requires
            old(self).wf(),
        ensures
            final(self).wf(),
            final(self)@ == (NetworkView {
                blocks: old(self)@.blocks.release(r.id()),
                ..old(self)@
            }),
    {
        proof {
            lemma_hashes_are_keys();
        }
        self.block_disp.release(r);
    }

    /// The chunk that `r` waits for, once; until there, `waker` is kept for it.
    pub fn poll_chunks(&mut self, r: &Receiver, waker: W) -> (p: Poll<PartialEncodedChunkResponseMsg>)
        requires
            old(self).wf(),
        ensures
            final(self).wf(),
            ({
                let o = old(self)@;
                let id = r.id();
                if !o.chunks.slots.contains_key(id) {
                    p is Pending && final(self)@ == o
                } else {
                    match o.chunks.slots[id].value {
                        Some(v) => p == Poll::<PartialEncodedChunkResponseMsg>::Ready(v) && final(self)@ == (NetworkView {
                            chunks: o.chunks.taken(id),
                            ..o
                        }),
                        None => p is Pending && final(self)@ == (NetworkView {
                            chunks: o.chunks.park(id, waker),
                            ..o
                        }),
                    }
                }
            }),
    {
        r.poll(&mut self.chunk_disp, waker)
    }

    /// `r` no longer waits.
    pub fn release_chunks(&mut self, r: Receiver)
        requires
            old(self).wf(),
        ensures
            final(self).wf(),
            final(self)@ == (NetworkView {
                chunks: old(self)@.chunks.release(r.id()),
                ..old(self)@
            }),
    {
        proof {
            lemma_hashes_are_keys();
        }
        self.chunk_disp.release(r);
    }

    /// Takes in a message. What is known of the network goes to those who wait
    /// for enough peers, if there are enough; an answer goes to those who wait
    /// for it, headers to those who wait for what follows the parent of the
    /// lowest.
    pub fn notify(&mut self, msg: NetworkClientMessages) -> (r: Notified<S, W>)
        requires
            old(self).wf(),
        ensures
            final(self).wf(),
            old(self)@.notified(msg, final(self)@),
            r.replies@.map_values(|p: (S, Arc<NetworkInfo>)| (p.0, *p.1)) == old(self)@.replies_to(
                msg,
            ),
            r.woken@ == old(self)@.woken_by(msg),
    {
        let ghost o = self@;
        let mut replies: Vec<(S, Arc<NetworkInfo>)> = Vec::new();
        let mut woken: Vec<W> = Vec::new();
        proof {
            lemma_hashes_are_keys();
        }
        match msg {
            NetworkClientMessages::NetworkInfo(info) => {
                self.info = Arc::new(info);
                if self.info.num_connected_peers >= self.min_peers {
                    let mut waiting: Vec<S> = Vec::new();
                    core::mem::swap(&mut waiting, &mut self.info_futures);
                    let ghost all = waiting@;
                    for s in it: waiting
                        invariant
                            it.seq() == all,
                            *self.info == info,
                            replies.len() == it.index(),
                            forall|i: int|
                                0 <= i < replies.len() ==> (#[trigger] replies[i]).0 == all[i]
                                    && *replies[i].1 == info,
                    {
                        replies.push((s, self.info.clone()));
                    }
                    assert(self@.info_futures =~= Seq::empty());
                }
            },
            NetworkClientMessages::Block(block, _, _) => {
                let hash = block.hash;
                woken = self.block_disp.send(&hash, block);
            },
            NetworkClientMessages::BlockHeaders(headers, _) => {
                if let Some(h) = lowest_header(&headers) {
                    woken = self.block_headers_disp.send(&h.prev_hash, headers);
                }
            },
            NetworkClientMessages::PartialEncodedChunkResponse(resp) => {
                woken = self.chunk_disp.send(&resp.chunk_hash, resp);
            },
            NetworkClientMessages::Other => {},
        }
        assert(replies@.map_values(|p: (S, Arc<NetworkInfo>)| (p.0, *p.1)) =~= o.replies_to(msg));
        proof {
            old(self).lemma_wf();
            answers_fit_what_was_asked(o, msg, self@);
        }
        Notified { replies, woken }
    }
}

/// What is held for one who asked is what was asked for, whatever comes in.
pub proof fn answers_fit_what_was_asked<S, W>(
    n: NetworkView<S, W>,
    msg: NetworkClientMessages,
    after: NetworkView<S, W>,
)
    requires
        n.wf(),
        n.headers.wf(),
        n.blocks.wf(),
        n.chunks.wf(),
        n.notified(msg, after),
    ensures
        after.headers_fit(),
        after.blocks_fit(),
        after.chunks_fit(),
{
    match msg {
        NetworkClientMessages::Block(block, _, _) => {
            let l = list_of(n.blocks.queues, block.hash);
            assert forall|id: u64| #[trigger] after.blocks.slots.contains_key(id) implies (
            after.blocks.slots[id].value matches Some(b) ==> b.hash == after.blocks.slots[id].key) by {
                assert(n.blocks.slots.contains_key(id));
                if l.contains(id) {
                    assert(n.blocks.queues[block.hash][l.index_of(id)] == id);
                    assert(cloned(block, after.blocks.slots[id].value->0));
                }
            }
        },
        NetworkClientMessages::BlockHeaders(hs, _) => {
            if hs@.len() > 0 {
                let k = lowest(hs@).prev_hash;
                let l = list_of(n.headers.queues, k);
                assert forall|id: u64| #[trigger] after.headers.slots.contains_key(id) implies (
                after.headers.slots[id].value matches Some(got) ==> got@.len() > 0 && lowest(
                    got@,
                ).prev_hash == after.headers.slots[id].key) by {
                    assert(n.headers.slots.contains_key(id));
                    if l.contains(id) {
                        assert(n.headers.queues[k][l.index_of(id)] == id);
                        let got = after.headers.slots[id].value->0;
                        assert(cloned(hs, got));
                        assert(got@ =~= hs@);
                    }
                }
            }
        },
        NetworkClientMessages::PartialEncodedChunkResponse(resp) => {
            let l = list_of(n.chunks.queues, resp.chunk_hash);
            assert forall|id: u64| #[trigger] after.chunks.slots.contains_key(id) implies (
            after.chunks.slots[id].value matches Some(c) ==> c.chunk_hash
                == after.chunks.slots[id].key) by {
                assert(n.chunks.slots.contains_key(id));
                if l.contains(id) {
                    assert(n.chunks.queues[resp.chunk_hash][l.index_of(id)] == id);
                    assert(cloned(resp, after.chunks.slots[id].value->0));
                }
            }
        },
        _ => {},
    }
}

/// Whoever asked for the headers after a hash gets the next headers whose
/// lowest follows it, as they came in.
pub proof fn headers_reach_who_asked<S, W>(
    n: NetworkView<S, W>,
    hash: CryptoHash,
    hs: Vec<BlockHeader>,
    peer_id: PeerId,
    after: NetworkView<S, W>,
)
    requires
        n.headers.wf(),
        n.headers.next_id < u64::MAX,
        hs@.len() > 0,
        lowest(hs@).prev_hash == hash,
        (NetworkView { headers: n.headers.subscribe(hash), ..n }).notified(
            NetworkClientMessages::BlockHeaders(hs, peer_id),
            after,
        ),
    ensures
        after.headers.slots[n.headers.next_id].value matches Some(got) && got@ == hs@,
{
    subscriber_waits(n.headers, hash, hs, after.headers);
    let got = after.headers.slots[n.headers.next_id].value->0;
    assert(cloned(hs, got));
    assert(got@ =~= hs@);
}

/// Whoever asked for a block gets it when it comes in.
pub proof fn block_reaches_who_asked<S, W>(
    n: NetworkView<S, W>,
    block: Block,
    peer_id: PeerId,
    requested: bool,
    after: NetworkView<S, W>,
)
    requires
        n.blocks.wf(),
        n.blocks.next_id < u64::MAX,
        (NetworkView { blocks: n.blocks.subscribe(block.hash), ..n }).notified(
            NetworkClientMessages::Block(block, peer_id, requested),
            after,
        ),
    ensures
        after.blocks.slots[n.blocks.next_id].value matches Some(got) && got.hash == block.hash
            && got.chunks@ == block.chunks@,
{
    subscriber_waits(n.blocks, block.hash, block, after.blocks);
    assert(cloned(block, after.blocks.slots[n.blocks.next_id].value->0));
}

/// Whoever asked for a chunk gets the reply when it comes in.
pub proof fn chunk_reaches_who_asked<S, W>(
    n: NetworkView<S, W>,
    resp: PartialEncodedChunkResponseMsg,
    after: NetworkView<S, W>,
)
    requires
        n.chunks.wf(),
        n.chunks.next_id < u64::MAX,
        (NetworkView { chunks: n.chunks.subscribe(resp.chunk_hash), ..n }).notified(
            NetworkClientMessages::PartialEncodedChunkResponse(resp),
            after,
        ),
    ensures
        after.chunks.slots[n.chunks.next_id].value == Some(resp),
{
    subscriber_waits(n.chunks, resp.chunk_hash, resp, after.chunks);
    assert(cloned(resp, after.chunks.slots[n.chunks.next_id].value->0));
}

/// Whoever asked about the network before there were enough peers is told when
/// there are: all of them, in the order in which they asked, and only then.
pub proof fn told_once_enough_peers<S, W>(n: NetworkView<S, W>, send: S, info: NetworkInfo)
    requires
        n.wf(),
        !n.ready(),
    ensures
        ({
            let waiting = NetworkView { info_futures: n.info_futures.push(send), ..n };
            let replies = waiting.replies_to(NetworkClientMessages::NetworkInfo(info));
            if info.num_connected_peers >= n.min_peers {
                &&& replies.len() == n.info_futures.len() + 1
                &&& replies.last() == (send, info)
                &&& forall|i: int|
                    0 <= i < n.info_futures.len() ==> replies[i] == (n.info_futures[i], info)
            } else {
                replies.len() == 0
            }
        }),
{
}

/// What is heard of the network is what is known of it from then on, whatever was
/// known before. Those who wait for enough peers wait on if there are not enough,
/// and nobody waits if there are. Nothing else changes.
pub proof fn the_latest_news_counts<S, W>(
    n: NetworkView<S, W>,
    info: NetworkInfo,
    after: NetworkView<S, W>,
)
    requires
        n.notified(NetworkClientMessages::NetworkInfo(info), after),
    ensures
        after.info == info,
        after.info_futures == if info.num_connected_peers >= n.min_peers {
            Seq::<S>::empty()
        } else {
            n.info_futures
        },
        n.replies_to(NetworkClientMessages::NetworkInfo(info)) == if info.num_connected_peers
            >= n.min_peers {
            n.info_futures.map_values(|s: S| (s, info))
        } else {
            Seq::<(S, NetworkInfo)>::empty()
        },
        n.woken_by(NetworkClientMessages::NetworkInfo(info)).len() == 0,
        after.headers == n.headers,
        after.blocks == n.blocks,
        after.chunks == n.chunks,
        after.min_peers == n.min_peers,
        after.parts_per_chunk == n.parts_per_chunk,
        after.request_timeout == n.request_timeout,
        after.rate == n.rate,
{
}

/// There are enough peers if as many are connected as are wanted at least.
pub proof fn enough_peers_are_enough<S, W>(n: NetworkView<S, W>)
    ensures
        n.ready() <==> n.info.num_connected_peers >= n.min_peers,
{
}

/// Nobody is told about the network by anything but news of it.
pub proof fn only_news_are_told<S, W>(n: NetworkView<S, W>, msg: NetworkClientMessages)
    requires
        !(msg is NetworkInfo),
    ensures
        n.replies_to(msg).len() == 0,
{
}

/// A block goes to all who wait for it, under its hash, and nothing changes for
/// anyone else: not for those who wait for another block, for headers, for chunks
/// or for peers. Those who were polled are woken.
pub proof fn a_block_reaches_all_who_wait<S, W>(
    n: NetworkView<S, W>,
    block: Block,
    peer_id: PeerId,
    requested: bool,
    after: NetworkView<S, W>,
    id: u64,
)
    requires
        n.blocks.wf(),
        n.blocks.slots.contains_key(id),
        n.notified(NetworkClientMessages::Block(block, peer_id, requested), after),
    ensures
        ({
            let waits = list_of(n.blocks.queues, block.hash);
            &&& waits.contains(id) ==> (after.blocks.slots[id].value matches Some(got) && got.hash
                == block.hash && got.chunks@ == block.chunks@)
            &&& !waits.contains(id) ==> after.blocks.slots[id] == n.blocks.slots[id]
            &&& list_of(after.blocks.queues, block.hash).len() == 0
            &&& waits.contains(id) && n.blocks.slots[id].waker is Some ==> n.woken_by(
                NetworkClientMessages::Block(block, peer_id, requested),
            ).contains(n.blocks.slots[id].waker->0)
            &&& n.woken_by(NetworkClientMessages::Block(block, peer_id, requested))
                == waits.filter(|i: u64| n.blocks.slots[i].waker is Some).map_values(
                |i: u64| n.blocks.slots[i].waker->0,
            )
        }),
        after.headers == n.headers,
        after.chunks == n.chunks,
        after.info == n.info,
        after.info_futures == n.info_futures,
        after.min_peers == n.min_peers,
        after.parts_per_chunk == n.parts_per_chunk,
        after.request_timeout == n.request_timeout,
        after.rate == n.rate,
{
    let waits = list_of(n.blocks.queues, block.hash);
    all_who_wait_are_woken(n.blocks.slots, waits);
    assert(after.blocks.slots.dom().contains(id));
    if waits.contains(id) {
        assert(cloned(block, after.blocks.slots[id].value->0));
        assert(waits[waits.index_of(id)] == id);
    }
}

/// Headers go to all who wait for what follows the parent of the lowest of them,
/// and nothing changes for anyone else. Those who were polled are woken.
pub proof fn headers_reach_all_who_wait<S, W>(
    n: NetworkView<S, W>,
    hs: Vec<BlockHeader>,
    peer_id: PeerId,
    after: NetworkView<S, W>,
    id: u64,
    i: int,
)
    requires
        n.headers.wf(),
        n.headers.slots.contains_key(id),
        0 <= i < hs@.len(),
        forall|j: int| 0 <= j < hs@.len() && j != i ==> hs@[i].height < (#[trigger] hs@[j]).height,
        n.notified(NetworkClientMessages::BlockHeaders(hs, peer_id), after),
    ensures
        ({
            let waits = list_of(n.headers.queues, hs@[i].prev_hash);
            &&& waits.contains(id) ==> (after.headers.slots[id].value matches Some(got) && got@
                == hs@)
            &&& !waits.contains(id) ==> after.headers.slots[id] == n.headers.slots[id]
            &&& list_of(after.headers.queues, hs@[i].prev_hash).len() == 0
            &&& waits.contains(id) && n.headers.slots[id].waker is Some ==> n.woken_by(
                NetworkClientMessages::BlockHeaders(hs, peer_id),
            ).contains(n.headers.slots[id].waker->0)
            &&& n.woken_by(NetworkClientMessages::BlockHeaders(hs, peer_id)) == waits.filter(
                |i: u64| n.headers.slots[i].waker is Some,
            ).map_values(|i: u64| n.headers.slots[i].waker->0)
        }),
        after.blocks == n.blocks,
        after.chunks == n.chunks,
        after.info == n.info,
        after.info_futures == n.info_futures,
        after.min_peers == n.min_peers,
        after.parts_per_chunk == n.parts_per_chunk,
        after.request_timeout == n.request_timeout,
        after.rate == n.rate,
{
    lowest_is_lowest(hs@);
    assert(lowest(hs@).height <= hs@[i].height);
    assert(lowest(hs@) == hs@[i]);
    let waits = list_of(n.headers.queues, hs@[i].prev_hash);
    all_who_wait_are_woken(n.headers.slots, waits);
    assert(after.headers.slots.dom().contains(id));
    if waits.contains(id) {
        let got = after.headers.slots[id].value->0;
        assert(cloned(hs, got));
        assert(got@ =~= hs@);
        assert(waits[waits.index_of(id)] == id);
    }
}

/// A chunk goes to all who wait for it, under its hash, and nothing changes for
/// anyone else. Those who were polled are woken.
pub proof fn a_chunk_reaches_all_who_wait<S, W>(
    n: NetworkView<S, W>,
    resp: PartialEncodedChunkResponseMsg,
    after: NetworkView<S, W>,
    id: u64,
)
    requires
        n.chunks.wf(),
        n.chunks.slots.contains_key(id),
        n.notified(NetworkClientMessages::PartialEncodedChunkResponse(resp), after),
    ensures
        ({
            let waits = list_of(n.chunks.queues, resp.chunk_hash);
            &&& waits.contains(id) ==> after.chunks.slots[id].value == Some(resp)
            &&& !waits.contains(id) ==> after.chunks.slots[id] == n.chunks.slots[id]
            &&& list_of(after.chunks.queues, resp.chunk_hash).len() == 0
            &&& waits.contains(id) && n.chunks.slots[id].waker is Some ==> n.woken_by(
                NetworkClientMessages::PartialEncodedChunkResponse(resp),
            ).contains(n.chunks.slots[id].waker->0)
            &&& n.woken_by(NetworkClientMessages::PartialEncodedChunkResponse(resp))
                == waits.filter(|i: u64| n.chunks.slots[i].waker is Some).map_values(
                |i: u64| n.chunks.slots[i].waker->0,
            )
        }),
        after.headers == n.headers,
        after.blocks == n.blocks,
        after.info == n.info,
        after.info_futures == n.info_futures,
        after.min_peers == n.min_peers,
        after.parts_per_chunk == n.parts_per_chunk,
        after.request_timeout == n.request_timeout,
        after.rate == n.rate,
{
    let waits = list_of(n.chunks.queues, resp.chunk_hash);
    all_who_wait_are_woken(n.chunks.slots, waits);
    assert(after.chunks.slots.dom().contains(id));
    if waits.contains(id) {
        assert(cloned(resp, after.chunks.slots[id].value->0));
        assert(waits[waits.index_of(id)] == id);
    }
}

/// No headers, and what is of no interest, change nothing and wake nobody.
pub proof fn nothing_new_changes_nothing<S, W>(
    n: NetworkView<S, W>,
    hs: Vec<BlockHeader>,
    peer_id: PeerId,
    after: NetworkView<S, W>,
)
    requires
        hs@.len() == 0,
    ensures
        n.notified(NetworkClientMessages::BlockHeaders(hs, peer_id), after) ==> after == n,
        n.notified(NetworkClientMessages::Other, after) ==> after == n,
        n.woken_by(NetworkClientMessages::BlockHeaders(hs, peer_id)).len() == 0,
        n.woken_by(NetworkClientMessages::Other).len() == 0,
{
}

/// A request names what is wanted, and goes to the peer that is asked: headers by
/// the hash they follow, a block by its hash. A chunk is asked for by its hash,
/// with all of its parts, of any peer that tracks its shard and is as far as it.
pub proof fn a_request_names_what_is_wanted(
    peer: FullPeerInfo,
    hash: CryptoHash,
    ch: ShardChunkHeader,
    parts: u64,
)
    ensures
        request_view(Wanted::Headers(hash), peer) == (RequestView::Headers {
            hashes: seq![hash],
            peer_id: peer.peer_id,
        }),
        request_view(Wanted::Block(hash), peer) == (RequestView::Block {
            hash,
            peer_id: peer.peer_id,
        }),
        request_view(Wanted::Chunk(ch, parts), peer) matches RequestView::Chunk {
            account_id,
            prefer_peer,
            shard_id,
            only_archival,
            min_height,
            chunk_hash,
            part_ords,
            tracking_shards,
        } && account_id is None && prefer_peer && shard_id == ch.shard_id && !only_archival
            && min_height == ch.height_included && chunk_hash == ch.chunk_hash
            && tracking_shards.len() == 0 && part_ords.len() == parts && forall|i: int|
            0 <= i < parts ==> #[trigger] part_ords[i] == i,
{
}

/// A round is over the peers that are given, in their order, from the first; what
/// is wanted and how long each is given stay the same.
pub proof fn a_round_is_over_all_peers(s: SendingView, peers: Seq<FullPeerInfo>)
    ensures
        s.begin(peers).peers == Some(peers),
        s.begin(peers).asked == 0,
        !s.begin(peers).waiting,
        s.begin(peers).wanted == s.wanted,
        s.begin(peers).timeout == s.timeout,
        s.step().wanted == s.wanted,
        s.step().timeout == s.timeout,
        s.action() is AwaitInfo ==> s.step().action() is AwaitInfo,
{
}

} // verus!
