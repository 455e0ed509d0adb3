//! Plain values that the rest of the library works on: what it reads of
//! blocks, headers, chunks and peers, and the messages it exchanges with them.
use vstd::prelude::*;
use vstd::std_specs::cmp::PartialEqSpec;

verus! {

/// Whether two arrays hold the same bytes.
fn same_bytes<const N: usize>(a: &[u8; N], b: &[u8; N]) -> (r: bool)
    ensures
        r == (*a == *b),
{
    let mut i: usize = 0;
    while i < N
        invariant
            i <= N,
            forall|j: int| 0 <= j < i ==> a[j] == b[j],
        decreases N - i,
    {
        if a[i] != b[i] {
            return false;
        }
        i = i + 1;
    }
    assert(*a =~= *b);
    true
}

/// Equality on `K` decides equality, and a clone of a `K` is that `K`.
pub open spec fn faithful_key<K: PartialEq + Clone>() -> bool {
    &&& K::obeys_eq_spec()
    &&& forall|a: K, b: K| #[trigger] a.eq_spec(&b) <==> a == b
    &&& forall|a: K, b: K| #[trigger] cloned(a, b) ==> a == b
}

/// The hash of a block or of a header.
#[derive(Debug, Clone, Copy, Eq)]
pub struct CryptoHash(pub [u8; 32]);

impl PartialEq for CryptoHash {
    fn eq(&self, other: &CryptoHash) -> (r: bool) {
        same_bytes(&self.0, &other.0)
    }
}

impl vstd::std_specs::cmp::PartialEqSpecImpl for CryptoHash {
    open spec fn obeys_eq_spec() -> bool {
        true
    }

    open spec fn eq_spec(&self, other: &CryptoHash) -> bool {
        *self == *other
    }
}

/// The hash of a chunk.
#[derive(Debug, Clone, Copy, Eq)]
pub struct ChunkHash(pub CryptoHash);

impl PartialEq for ChunkHash {
    fn eq(&self, other: &ChunkHash) -> (r: bool) {
        self.0 == other.0
    }
}

impl vstd::std_specs::cmp::PartialEqSpecImpl for ChunkHash {
    open spec fn obeys_eq_spec() -> bool {
        true
    }

    open spec fn eq_spec(&self, other: &ChunkHash) -> bool {
        *self == *other
    }
}

/// The public key by which a peer is known: its curve and the key's bytes,
/// zero-padded.
#[derive(Debug, Clone, Copy, Eq)]
pub struct PeerId {
    pub key_type: u8,
    pub key: [u8; 64],
}

impl PartialEq for PeerId {
    fn eq(&self, other: &PeerId) -> (r: bool) {
        self.key_type == other.key_type && same_bytes(&self.key, &other.key)
    }
}

impl vstd::std_specs::cmp::PartialEqSpecImpl for PeerId {
    open spec fn obeys_eq_spec() -> bool {
        true
    }

    open spec fn eq_spec(&self, other: &PeerId) -> bool {
        *self == *other
    }
}

/// A hash as asked of one peer.
#[derive(Debug, Clone, Copy, Eq)]
pub struct PeerHash {
    pub peer_id: PeerId,
    pub hash: CryptoHash,
}

impl PartialEq for PeerHash {
    fn eq(&self, other: &PeerHash) -> (r: bool) {
        self.peer_id == other.peer_id && self.hash == other.hash
    }
}

impl vstd::std_specs::cmp::PartialEqSpecImpl for PeerHash {
    open spec fn obeys_eq_spec() -> bool {
        true
    }

    open spec fn eq_spec(&self, other: &PeerHash) -> bool {
        *self == *other
    }
}

/// `CryptoHash`, `ChunkHash` and `PeerHash` can be looked up by.
pub proof fn lemma_hashes_are_keys()
    ensures
        faithful_key::<CryptoHash>(),
        faithful_key::<ChunkHash>(),
        faithful_key::<PeerHash>(),
{
}

/// What is read of a block header.
#[derive(Debug, Clone, Copy)]
pub struct BlockHeader {
    pub height: u64,
    pub hash: CryptoHash,
    pub prev_hash: CryptoHash,
}

/// What is read of the header of a chunk.
#[derive(Debug, Clone, Copy)]
pub struct ShardChunkHeader {
    pub chunk_hash: ChunkHash,
    pub shard_id: u64,
    pub height_included: u64,
}

/// What is read of a block.
#[derive(Debug)]
pub struct Block {
    pub hash: CryptoHash,
    pub chunks: Vec<ShardChunkHeader>,
}

impl Clone for Block {
    fn clone(&self) -> (b: Self)
        ensures
            b.hash == self.hash,
            b.chunks@ == self.chunks@,
    {
        let chunks = self.chunks.clone();
        assert(chunks@ =~= self.chunks@);
        Block { hash: self.hash, chunks }
    }
}

/// What is read of the reply to a request for a chunk.
#[derive(Debug, Clone, Copy)]
pub struct PartialEncodedChunkResponseMsg {
    pub chunk_hash: ChunkHash,
}

/// The end of a chain.
#[derive(Debug, Clone, Copy)]
pub struct Tip {
    pub height: u64,
    pub last_block_hash: CryptoHash,
}

/// What is known of a peer: who it is, how far its chain goes, and whether it
/// keeps old blocks.
#[derive(Debug, Clone, Copy)]
pub struct FullPeerInfo {
    pub peer_id: PeerId,
    pub height: u64,
    pub archival: bool,
}

/// What is known of the network.
#[derive(Debug)]
pub struct NetworkInfo {
    pub connected_peers: Vec<FullPeerInfo>,
    pub num_connected_peers: usize,
    pub peer_max_count: u32,
    pub highest_height_peers: Vec<FullPeerInfo>,
    pub sent_bytes_per_sec: u64,
    pub received_bytes_per_sec: u64,
    pub known_producers: Vec<String>,
    pub peer_counter: usize,
}

impl NetworkInfo {
    /// What is known of a network that nothing was heard of.
    pub open spec fn is_empty(self) -> bool {
        &&& self.connected_peers@.len() == 0
        &&& self.num_connected_peers == 0
        &&& self.peer_max_count == 0
        &&& self.highest_height_peers@.len() == 0
        &&& self.sent_bytes_per_sec == 0
        &&& self.received_bytes_per_sec == 0
        &&& self.known_producers@.len() == 0
        &&& self.peer_counter == 0
    }

    /// Nothing known.
    pub fn empty() -> (info: NetworkInfo)
        ensures
            info.is_empty(),
            info.connected_peers@.len() == 0,
            info.num_connected_peers == 0,
            info.highest_height_peers@.len() == 0,
            info.known_producers@.len() == 0,
    {
        NetworkInfo {
            connected_peers: Vec::new(),
            num_connected_peers: 0,
            peer_max_count: 0,
            highest_height_peers: Vec::new(),
            sent_bytes_per_sec: 0,
            received_bytes_per_sec: 0,
            known_producers: Vec::new(),
            peer_counter: 0,
        }
    }
}

/// What comes in from the network.
pub enum NetworkClientMessages {
    NetworkInfo(NetworkInfo),
    /// A block, from whom, and whether it was asked for.
    Block(Block, PeerId, bool),
    BlockHeaders(Vec<BlockHeader>, PeerId),
    PartialEncodedChunkResponse(PartialEncodedChunkResponseMsg),
    /// Whatever else there is.
    Other,
}

/// Whom a request for a chunk goes to.
pub struct AccountIdOrPeerTrackingShard {
    pub account_id: Option<String>,
    pub prefer_peer: bool,
    pub shard_id: u64,
    pub only_archival: bool,
    pub min_height: u64,
}

/// Which parts of a chunk are asked for.
pub struct PartialEncodedChunkRequestMsg {
    pub chunk_hash: ChunkHash,
    pub part_ords: Vec<u64>,
    pub tracking_shards: Vec<u64>,
}

/// What is asked of the network.
pub enum NetworkRequests {
    BlockHeadersRequest { hashes: Vec<CryptoHash>, peer_id: PeerId },
    BlockRequest { hash: CryptoHash, peer_id: PeerId },
    PartialEncodedChunkRequest {
        target: AccountIdOrPeerTrackingShard,
        request: PartialEncodedChunkRequestMsg,
    },
}

/// What a `NetworkRequests` says.
#[verifier::ext_equal]
pub enum RequestView {
    Headers { hashes: Seq<CryptoHash>, peer_id: PeerId },
    Block { hash: CryptoHash, peer_id: PeerId },
    Chunk {
        account_id: Option<Seq<char>>,
        prefer_peer: bool,
        shard_id: u64,
        only_archival: bool,
        min_height: u64,
        chunk_hash: ChunkHash,
        part_ords: Seq<u64>,
        tracking_shards: Seq<u64>,
    },
}

impl View for NetworkRequests {
    type V = RequestView;

    open spec fn view(&self) -> RequestView {
        match self {
            NetworkRequests::BlockHeadersRequest { hashes, peer_id } => RequestView::Headers {
                hashes: hashes@,
                peer_id: *peer_id,
            },
            NetworkRequests::BlockRequest { hash, peer_id } => RequestView::Block {
                hash: *hash,
                peer_id: *peer_id,
            },
            NetworkRequests::PartialEncodedChunkRequest { target, request } => RequestView::Chunk {
                account_id: match target.account_id {
                    Some(a) => Some(a@),
                    None => None,
                },
                prefer_peer: target.prefer_peer,
                shard_id: target.shard_id,
                only_archival: target.only_archival,
                min_height: target.min_height,
                chunk_hash: request.chunk_hash,
                part_ords: request.part_ords@,
                tracking_shards: request.tracking_shards@,
            },
        }
    }
}

/// The request for headers after `hash`, to `peer_id`.
pub fn headers_request(hash: CryptoHash, peer_id: PeerId) -> (r: NetworkRequests)
    ensures
        r@ == (RequestView::Headers { hashes: seq![hash], peer_id }),
        r matches NetworkRequests::BlockHeadersRequest { hashes: hs, peer_id: p } && hs@ == seq![hash]
            && p == peer_id,
{
    let mut hashes: Vec<CryptoHash> = Vec::new();
    hashes.push(hash);
    assert(hashes@ =~= seq![hash]);
    NetworkRequests::BlockHeadersRequest { hashes, peer_id }
}

/// The request for the block `hash`, to `peer_id`.
pub fn block_request(hash: CryptoHash, peer_id: PeerId) -> (r: NetworkRequests)
    ensures
        r@ == (RequestView::Block { hash, peer_id }),
        r == (NetworkRequests::BlockRequest { hash, peer_id }),
{
    NetworkRequests::BlockRequest { hash, peer_id }
}

/// A request for the given parts of a chunk: to any peer that tracks its shard
/// and is at least as far as the chunk.
pub open spec fn chunk_request_view(ch: ShardChunkHeader, part_ords: Seq<u64>) -> RequestView {
    RequestView::Chunk {
        account_id: None,
        prefer_peer: true,
        shard_id: ch.shard_id,
        only_archival: false,
        min_height: ch.height_included,
        chunk_hash: ch.chunk_hash,
        part_ords,
        tracking_shards: Seq::empty(),
    }
}

/// The request for the given parts of a chunk.
pub fn chunk_request(ch: &ShardChunkHeader, part_ords: Vec<u64>) -> (r: NetworkRequests)
    ensures
        r@ == chunk_request_view(*ch, part_ords@),
        r matches NetworkRequests::PartialEncodedChunkRequest { target: t, request: q }
            && t.account_id is None && t.prefer_peer && t.shard_id == ch.shard_id
            && !t.only_archival && t.min_height == ch.height_included && q.chunk_hash
            == ch.chunk_hash && q.part_ords@ == part_ords@ && q.tracking_shards@.len() == 0,
{
    let r = NetworkRequests::PartialEncodedChunkRequest {
        target: AccountIdOrPeerTrackingShard {
            account_id: None,
            prefer_peer: true,
            shard_id: ch.shard_id,
            only_archival: false,
            min_height: ch.height_included,
        },
        request: PartialEncodedChunkRequestMsg {
            chunk_hash: ch.chunk_hash,
            part_ords,
            tracking_shards: Vec::new(),
        },
    };
    assert(r@ =~= chunk_request_view(*ch, part_ords@));
    r
}

/// What a request says is what it holds.
pub proof fn a_request_says_what_it_holds(
    hashes: Vec<CryptoHash>,
    hash: CryptoHash,
    peer_id: PeerId,
    t: AccountIdOrPeerTrackingShard,
    q: PartialEncodedChunkRequestMsg,
)
    ensures
        (NetworkRequests::BlockHeadersRequest { hashes, peer_id })@ == (RequestView::Headers {
            hashes: hashes@,
            peer_id,
        }),
        (NetworkRequests::BlockRequest { hash, peer_id })@ == (RequestView::Block {
            hash,
            peer_id,
        }),
        (NetworkRequests::PartialEncodedChunkRequest { target: t, request: q })@
            matches RequestView::Chunk {
            account_id,
            prefer_peer,
            shard_id,
            only_archival,
            min_height,
            chunk_hash,
            part_ords,
            tracking_shards,
        } && (account_id is None <==> t.account_id is None) && prefer_peer == t.prefer_peer
            && shard_id == t.shard_id && only_archival == t.only_archival && min_height
            == t.min_height && chunk_hash == q.chunk_hash && part_ords == q.part_ords@
            && tracking_shards == q.tracking_shards@,
{
}

} // verus!
