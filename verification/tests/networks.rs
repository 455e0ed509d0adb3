use chainsync_loadtest::concurrency::dispatcher::Dispatcher;
use chainsync_loadtest::concurrency::eventual::Poll;
use chainsync_loadtest::near_client::client_actor;
use chainsync_loadtest::network::{Network, SendStep, Wanted, REQUEST_TIMEOUT};
use chainsync_loadtest::types::{
    Block, BlockHeader, ChunkHash, CryptoHash, FullPeerInfo, NetworkClientMessages, NetworkInfo,
    NetworkRequests, PartialEncodedChunkResponseMsg, PeerId, ShardChunkHeader,
};
use std::sync::Arc;

fn hash(n: u8) -> CryptoHash {
    CryptoHash([n; 32])
}

fn peer(n: u8) -> PeerId {
    PeerId { key_type: 0, key: [n; 64] }
}

fn full_peer(n: u8, height: u64) -> FullPeerInfo {
    FullPeerInfo { peer_id: peer(n), height, archival: false }
}

fn header(height: u64, h: u8, prev: u8) -> BlockHeader {
    BlockHeader { height, hash: hash(h), prev_hash: hash(prev) }
}

fn chunk(n: u8) -> ShardChunkHeader {
    ShardChunkHeader { chunk_hash: ChunkHash(hash(n)), shard_id: 2, height_included: 77 }
}

fn info(peers: Vec<FullPeerInfo>) -> NetworkInfo {
    let mut i = NetworkInfo::empty();
    i.num_connected_peers = peers.len();
    i.connected_peers = peers;
    i
}

fn ready<T>(p: Poll<T>) -> Option<T> {
    match p {
        Poll::Ready(v) => Some(v),
        Poll::Pending => None,
    }
}

#[test]
fn all_subscribers_of_a_key_get_what_is_sent() {
    let mut d: Dispatcher<CryptoHash, u32, &str> = Dispatcher::default();
    let a = d.subscribe(&hash(1));
    let b = d.subscribe(&hash(1));
    let c = d.subscribe(&hash(2));
    assert!(ready(a.poll(&mut d, "a")).is_none());
    assert!(ready(c.poll(&mut d, "c")).is_none());
    assert_eq!(d.send(&hash(1), 7), vec!["a"]);
    assert_eq!(ready(a.poll(&mut d, "a")), Some(7));
    assert_eq!(ready(b.poll(&mut d, "b")), Some(7));
    assert!(ready(c.poll(&mut d, "c")).is_none());
    // What was sent is not sent again.
    let late = d.subscribe(&hash(1));
    assert!(ready(late.poll(&mut d, "late")).is_none());
}

#[test]
fn a_released_subscriber_is_forgotten() {
    let mut d: Dispatcher<CryptoHash, u32, &str> = Dispatcher::default();
    let a = d.subscribe(&hash(1));
    let b = d.subscribe(&hash(1));
    assert!(ready(a.poll(&mut d, "a")).is_none());
    assert!(ready(b.poll(&mut d, "b")).is_none());
    d.release(a);
    assert_eq!(d.send(&hash(1), 3), vec!["b"]);
    assert_eq!(ready(b.poll(&mut d, "b")), Some(3));
}

#[test]
fn a_request_goes_from_peer_to_peer() {
    let n: Network<(), ()> = Network::new(1, 1);
    let mut k = n.keep_sending(Wanted::Block(hash(9)));
    assert!(matches!(k.next(), SendStep::AwaitInfo));
    k.on_info(Arc::new(info(vec![full_peer(1, 5), full_peer(2, 6)])));
    for p in [1u8, 2] {
        match k.next() {
            SendStep::Send(NetworkRequests::BlockRequest { hash: h, peer_id }) => {
                assert!(h == hash(9));
                assert!(peer_id == peer(p));
            }
            _ => panic!("a request to each peer"),
        }
        match k.next() {
            SendStep::Wait(t) => assert_eq!(t, REQUEST_TIMEOUT),
            _ => panic!("a pause after each peer"),
        }
    }
    assert!(matches!(k.next(), SendStep::AwaitInfo));
    assert_eq!(REQUEST_TIMEOUT, 2_000_000_000);
}

#[test]
fn headers_are_asked_for_by_what_they_follow() {
    let n: Network<(), ()> = Network::new(1, 1);
    let mut k = n.keep_sending(Wanted::Headers(hash(3)));
    k.on_info(Arc::new(info(vec![full_peer(1, 5)])));
    match k.next() {
        SendStep::Send(NetworkRequests::BlockHeadersRequest { hashes, peer_id }) => {
            assert_eq!(hashes.len(), 1);
            assert!(hashes[0] == hash(3));
            assert!(peer_id == peer(1));
        }
        _ => panic!("a request for headers"),
    }
}

#[test]
fn all_parts_of_a_chunk_are_asked_for() {
    let mut n: Network<(), ()> = Network::new(1, 3);
    let mut f = n.fetch_chunk(&chunk(4));
    f.sending.on_info(Arc::new(info(vec![full_peer(1, 5)])));
    match f.sending.next() {
        SendStep::Send(NetworkRequests::PartialEncodedChunkRequest { target, request }) => {
            assert!(target.account_id.is_none());
            assert!(target.prefer_peer);
            assert_eq!(target.shard_id, 2);
            assert!(!target.only_archival);
            assert_eq!(target.min_height, 77);
            assert!(request.chunk_hash == ChunkHash(hash(4)));
            assert_eq!(request.part_ords, vec![0, 1, 2]);
            assert!(request.tracking_shards.is_empty());
        }
        _ => panic!("a request for parts"),
    }
}

#[test]
fn answers_reach_who_asked() {
    let mut n: Network<(), &str> = Network::new(0, 1);
    let f = n.fetch_block_headers(&hash(1));
    let g = n.fetch_block(&hash(2));
    let c = n.fetch_chunk(&chunk(4));
    assert!(ready(n.poll_headers(&f.receiver, "f")).is_none());
    assert!(ready(n.poll_blocks(&g.receiver, "g")).is_none());
    assert!(ready(n.poll_chunks(&c.receiver, "c")).is_none());

    // The lowest header tells what the headers follow.
    let hs = vec![header(12, 5, 4), header(11, 4, 1)];
    let r = n.notify(NetworkClientMessages::BlockHeaders(hs, peer(1)));
    assert_eq!(r.woken, vec!["f"]);
    let got = ready(n.poll_headers(&f.receiver, "f")).unwrap();
    assert_eq!(got.iter().map(|h| h.height).collect::<Vec<_>>(), vec![12, 11]);

    let block = Block { hash: hash(2), chunks: vec![chunk(4)] };
    let r = n.notify(NetworkClientMessages::Block(block, peer(1), true));
    assert_eq!(r.woken, vec!["g"]);
    assert!(ready(n.poll_blocks(&g.receiver, "g")).unwrap().hash == hash(2));

    let resp = PartialEncodedChunkResponseMsg { chunk_hash: ChunkHash(hash(4)) };
    let r = n.notify(NetworkClientMessages::PartialEncodedChunkResponse(resp));
    assert_eq!(r.woken, vec!["c"]);
    assert!(ready(n.poll_chunks(&c.receiver, "c")).is_some());

    // Nobody waits any more.
    let block = Block { hash: hash(2), chunks: vec![] };
    assert!(n.notify(NetworkClientMessages::Block(block, peer(1), true)).woken.is_empty());
    assert!(n.notify(NetworkClientMessages::BlockHeaders(vec![], peer(1))).woken.is_empty());
    assert!(n.notify(NetworkClientMessages::Other).woken.is_empty());
}

#[test]
fn a_released_request_is_not_answered() {
    let mut n: Network<(), &str> = Network::new(0, 1);
    let f = n.fetch_block_headers(&hash(1));
    let g = n.fetch_block(&hash(2));
    let c = n.fetch_chunk(&chunk(4));
    assert!(ready(n.poll_headers(&f.receiver, "f")).is_none());
    assert!(ready(n.poll_blocks(&g.receiver, "g")).is_none());
    assert!(ready(n.poll_chunks(&c.receiver, "c")).is_none());
    n.release_headers(f.receiver);
    n.release_blocks(g.receiver);
    n.release_chunks(c.receiver);
    let hs = vec![header(11, 4, 1)];
    assert!(n.notify(NetworkClientMessages::BlockHeaders(hs, peer(1))).woken.is_empty());
    let block = Block { hash: hash(2), chunks: vec![] };
    assert!(n.notify(NetworkClientMessages::Block(block, peer(1), true)).woken.is_empty());
    let resp = PartialEncodedChunkResponseMsg { chunk_hash: ChunkHash(hash(4)) };
    let r = n.notify(NetworkClientMessages::PartialEncodedChunkResponse(resp));
    assert!(r.woken.is_empty());
}

#[test]
fn the_network_is_told_of_once_there_are_enough_peers() {
    let mut n: Network<&str, ()> = Network::new(2, 1);
    assert!(n.info("a").is_none());
    assert!(n.info("b").is_none());
    let one = info(vec![full_peer(1, 5)]);
    assert!(n.notify(NetworkClientMessages::NetworkInfo(one)).replies.is_empty());
    let two = info(vec![full_peer(1, 5), full_peer(2, 5)]);
    let r = n.notify(NetworkClientMessages::NetworkInfo(two));
    let told: Vec<&str> = r.replies.iter().map(|x| x.0).collect();
    assert_eq!(told, vec!["a", "b"]);
    assert_eq!(r.replies[0].1.num_connected_peers, 2);
    let (s, i) = n.info("c").unwrap();
    assert_eq!(s, "c");
    assert_eq!(i.num_connected_peers, 2);
}

type Single = client_actor::Network<&'static str, &'static str, &'static str, &'static str>;

#[test]
fn single_peers_answer_the_last_who_asked() {
    let mut n: Single = client_actor::Network::new();
    n.fetch_block(peer(1), hash(2), "first");
    match n.fetch_block(peer(1), hash(2), "second") {
        NetworkRequests::BlockRequest { hash: h, peer_id } => {
            assert!(h == hash(2) && peer_id == peer(1));
        }
        _ => panic!("a request for a block"),
    }
    n.fetch_block(peer(3), hash(2), "elsewhere");
    for who in ["second", "first"] {
        let block = Block { hash: hash(2), chunks: vec![] };
        match n.notify(NetworkClientMessages::Block(block, peer(1), false)) {
            client_actor::Notified::Block(s, b) => {
                assert_eq!(s, who);
                assert!(b.hash == hash(2));
            }
            _ => panic!("a block for the one who asked"),
        }
    }
    let block = Block { hash: hash(2), chunks: vec![] };
    let r = n.notify(NetworkClientMessages::Block(block, peer(1), false));
    assert!(matches!(r, client_actor::Notified::Nobody));
}

#[test]
fn single_peers_send_headers_and_chunks() {
    let mut n: Single = client_actor::Network::new();
    n.fetch_block_headers(peer(1), hash(1), "h");
    let hs = vec![header(12, 5, 4), header(11, 4, 1)];
    match n.notify(NetworkClientMessages::BlockHeaders(hs, peer(1))) {
        client_actor::Notified::Headers(s, hs) => {
            assert_eq!(s, "h");
            assert_eq!(hs.len(), 2);
        }
        _ => panic!("headers for the one who asked"),
    }
    match n.fetch_chunk(&chunk(4), vec![5, 6], "c") {
        NetworkRequests::PartialEncodedChunkRequest { request, .. } => {
            assert_eq!(request.part_ords, vec![5, 6]);
        }
        _ => panic!("a request for parts"),
    }
    let resp = PartialEncodedChunkResponseMsg { chunk_hash: ChunkHash(hash(4)) };
    match n.notify(NetworkClientMessages::PartialEncodedChunkResponse(resp)) {
        client_actor::Notified::Chunk(s, r) => {
            assert_eq!(s, "c");
            assert!(r.chunk_hash == ChunkHash(hash(4)));
        }
        _ => panic!("a chunk for the one who asked"),
    }
    assert!(matches!(
        n.notify(NetworkClientMessages::BlockHeaders(vec![], peer(1))),
        client_actor::Notified::Nobody
    ));
}

#[test]
fn each_waits_for_as_many_peers_as_it_needs() {
    let mut n: Single = client_actor::Network::new();
    assert_eq!(n.info("none", 0).map(|x| x.0), Some("none"));
    assert!(n.info("two", 2).is_none());
    assert!(n.info("one", 1).is_none());
    let m = NetworkClientMessages::NetworkInfo(info(vec![full_peer(1, 5)]));
    match n.notify(m) {
        client_actor::Notified::Info(told) => {
            assert_eq!(told.iter().map(|x| x.0).collect::<Vec<_>>(), vec!["one"]);
        }
        _ => panic!("news of the network"),
    }
    let m = NetworkClientMessages::NetworkInfo(info(vec![full_peer(1, 5), full_peer(2, 5)]));
    match n.notify(m) {
        client_actor::Notified::Info(told) => {
            assert_eq!(told.iter().map(|x| x.0).collect::<Vec<_>>(), vec!["two"]);
        }
        _ => panic!("news of the network"),
    }
}
