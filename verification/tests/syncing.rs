use chainsync_loadtest::fetch_chain::{run, Done, FetchError, Task, STATS_INTERVAL};
use chainsync_loadtest::headers::{lowest_header, sort_by_height};
use chainsync_loadtest::near_client::client::{
    random_seed_from_thread, BlockMissingChunks, ChunksRequest, Client, EpochId,
    OrphanMissingChunks,
};
use chainsync_loadtest::near_client::locator::Locator;
use chainsync_loadtest::near_client::sync::{
    BlockSync, BlockSyncRequest, ChainError, ChainQuery, ChainReply, HeaderSync, MissingBlock, Search,
    MAX_BLOCK_HEADERS, MAX_BLOCK_HEADER_HASHES, MAX_PENDING_PART, MAX_STATE_PART_REQUEST, NS_PER_SECOND,
};
use chainsync_loadtest::types::{
    Block, BlockHeader, ChunkHash, CryptoHash, FullPeerInfo, NetworkInfo, NetworkRequests, PeerId,
    ShardChunkHeader, Tip,
};

fn hash(n: u8) -> CryptoHash {
    CryptoHash([n; 32])
}

fn peer(n: u8, height: u64, archival: bool) -> FullPeerInfo {
    FullPeerInfo { peer_id: PeerId { key_type: 0, key: [n; 64] }, height, archival }
}

fn header(height: u64, h: u8, prev: u8) -> BlockHeader {
    BlockHeader { height, hash: hash(h), prev_hash: hash(prev) }
}

fn chunk(n: u8) -> ShardChunkHeader {
    ShardChunkHeader { chunk_hash: ChunkHash(hash(n)), shard_id: 0, height_included: 1 }
}

fn tip(height: u64, h: u8) -> Tip {
    Tip { height, last_block_hash: hash(h) }
}

#[test]
fn headers_are_sorted_by_height() {
    let hs = vec![header(3, 1, 0), header(1, 2, 0), header(3, 3, 0), header(2, 4, 0)];
    let first: Vec<u8> = sort_by_height(hs).iter().map(|h| h.hash.0[0]).collect();
    assert_eq!(first, vec![2, 4, 1, 3]);
}

#[test]
fn the_first_of_the_lowest_headers_is_found() {
    let hs = vec![header(3, 1, 0), header(1, 2, 0), header(1, 3, 0)];
    assert!(lowest_header(&hs).unwrap().hash == hash(2));
    assert!(lowest_header(&vec![]).is_none());
}

#[test]
fn a_chain_is_fetched_up_to_the_target() {
    let mut info = NetworkInfo::empty();
    info.highest_height_peers = vec![peer(1, 12, false), peer(2, 40, false)];
    let mut f = run(&info, hash(1));
    assert_eq!(f.target_height, 12);
    assert_eq!(f.headers_left(), 12);

    let tasks = f.start();
    assert_eq!(tasks.len(), 2);
    assert!(matches!(tasks[0], Task::Stats));
    assert!(matches!(tasks[1], Task::Headers(h) if h == hash(1)));

    let tasks = f.on_done(Done::Headers(vec![header(11, 3, 2), header(10, 2, 1)])).unwrap();
    assert_eq!(tasks.len(), 3);
    assert!(matches!(tasks[0], Task::Block(h) if h == hash(2)));
    assert!(matches!(tasks[1], Task::Block(h) if h == hash(3)));
    assert!(matches!(tasks[2], Task::Headers(h) if h == hash(3)));
    assert_eq!(f.headers_left(), 1);

    let block = Block { hash: hash(2), chunks: vec![chunk(7), chunk(8)] };
    let tasks = f.on_done(Done::Block(block)).unwrap();
    assert_eq!(tasks.len(), 2);
    assert!(matches!(tasks[0], Task::Chunk(c) if c.chunk_hash == ChunkHash(hash(7))));
    assert!(matches!(tasks[1], Task::Chunk(c) if c.chunk_hash == ChunkHash(hash(8))));
    assert!(f.on_done(Done::Chunk).unwrap().is_empty());
    let tasks = f.on_done(Done::Waited).unwrap();
    assert_eq!(tasks.len(), 1);
    assert!(matches!(tasks[0], Task::Stats));

    let tasks = f.on_done(Done::Headers(vec![header(13, 5, 3)])).unwrap();
    assert_eq!(tasks.len(), 1);
    assert!(matches!(tasks[0], Task::Block(h) if h == hash(5)));
    assert_eq!(f.headers_left(), 0);
    assert_eq!(STATS_INTERVAL, 10_000_000_000);
}

#[test]
fn no_headers_are_a_failure() {
    let mut info = NetworkInfo::empty();
    info.highest_height_peers = vec![peer(1, 12, false)];
    let mut f = run(&info, hash(1));
    let e = f.on_done(Done::Headers(vec![])).unwrap_err();
    assert_eq!(e, FetchError::NoHeaders);
    assert_eq!(e.to_string(), "no headers");
    assert!(f.last_hash == hash(1));
    assert_eq!(f.last_height, 0);
}

#[test]
fn a_chain_of_no_height_needs_no_headers() {
    let mut info = NetworkInfo::empty();
    info.highest_height_peers = vec![peer(1, 0, false)];
    let tasks = run(&info, hash(1)).start();
    assert_eq!(tasks.len(), 1);
    assert!(matches!(tasks[0], Task::Stats));
}

#[test]
fn limits_are_what_they_are() {
    assert_eq!(MAX_BLOCK_HEADERS, 512);
    assert_eq!(MAX_BLOCK_HEADER_HASHES, 20);
    assert_eq!(MAX_STATE_PART_REQUEST, 16);
    assert_eq!(MAX_PENDING_PART, 160_000);
    assert_eq!(NS_PER_SECOND, 1_000_000_000);
}

#[test]
fn headers_are_asked_of_a_peer_that_is_ahead() {
    let mut s = HeaderSync::new();
    let peers = vec![peer(1, 20, false), peer(2, 30, false)];
    for _ in 0..20 {
        let p = s.run::<()>(Ok(tip(10, 1)), &peers).unwrap().unwrap();
        assert!(p.peer_id == peers[0].peer_id || p.peer_id == peers[1].peer_id);
        assert!(s.run::<()>(Ok(tip(30, 1)), &peers).unwrap().is_none());
        assert!(s.run::<()>(Ok(tip(10, 1)), &vec![]).unwrap().is_none());
    }
    assert_eq!(s.run::<u8>(Err(4), &peers).unwrap_err(), 4);
    assert!(s.run_with::<()>(Ok(tip(20, 1)), Some(peers[0])).unwrap().is_none());
    assert!(s.run_with::<()>(Ok(tip(19, 1)), Some(peers[0])).unwrap().is_some());
    match s.request_headers(locate(answer), peers[1]) {
        Some(NetworkRequests::BlockHeadersRequest { hashes, peer_id }) => {
            // From the end of the headers back to the first one.
            assert_eq!(hashes.iter().map(|h| h.0[0]).collect::<Vec<_>>(), vec![3, 2, 1]);
            assert!(peer_id == peers[1].peer_id);
        }
        _ => panic!("a request for headers"),
    }
    let lost = |q: ChainQuery| match q {
        ChainQuery::HeaderHead => ChainReply::Tip(Err(ChainError::Other("lost"))),
        q => answer(q),
    };
    assert!(s.request_headers(locate(lost), peers[1]).is_none());
}

fn locate(f: impl Fn(ChainQuery) -> ChainReply<&'static str>) -> Locator {
    let mut l = Locator::new();
    while let Some(q) = l.query() {
        l.reply(f(q));
    }
    l
}

fn numbered(n: u64) -> CryptoHash {
    let mut bytes = [0; 32];
    bytes[..8].copy_from_slice(&n.to_le_bytes());
    CryptoHash(bytes)
}

fn number(h: &CryptoHash) -> u64 {
    let mut bytes = [0; 8];
    bytes.copy_from_slice(&h.0[..8]);
    u64::from_le_bytes(bytes)
}

/// A header at each height from 5 to `head`.
fn long_chain(head: u64, q: ChainQuery) -> ChainReply<&'static str> {
    let at = |n: u64| {
        if 5 <= n && n <= head {
            Ok(BlockHeader { height: n, hash: numbered(n), prev_hash: numbered(n - 1) })
        } else {
            Err(ChainError::NotFound("header"))
        }
    };
    match q {
        ChainQuery::HeaderHead => {
            ChainReply::Tip(Ok(Tip { height: head, last_block_hash: numbered(head) }))
        }
        ChainQuery::BlockHeader(h) => ChainReply::Header(at(number(&h))),
        ChainQuery::HeaderByHeight(n) => ChainReply::Header(at(n)),
        ChainQuery::Genesis => ChainReply::Header(at(5)),
        _ => panic!("not asked for a locator"),
    }
}

#[test]
fn a_locator_reaches_back_to_the_beginning() {
    let hashes = locate(|q| long_chain(1_000_000, q)).hashes().unwrap();
    let depths: Vec<u64> = hashes.iter().map(|h| 1_000_000 - number(h)).collect();
    let expected = vec![
        0, 1, 2, 3, 4, 5, 6, 7, 8, 9, 10, 14, 26, 74, 266, 1034, 4106, 16394, 65546, 999_995,
    ];
    assert_eq!(depths, expected);
    assert_eq!(hashes.len(), MAX_BLOCK_HEADER_HASHES);
    // A peer that left thirty headers ago has the one after that.
    let theirs = hashes.iter().find(|h| number(h) <= 1_000_000 - 30).unwrap();
    assert_eq!(number(theirs), 1_000_000 - 74);
}

#[test]
fn a_locator_of_a_short_chain_holds_it_all() {
    let l = locate(|q| long_chain(8, q));
    let hashes = l.hashes().unwrap();
    assert_eq!(hashes.iter().map(number).collect::<Vec<_>>(), vec![8, 7, 6, 5]);
    let hashes = locate(|q| long_chain(5, q)).hashes().unwrap();
    assert_eq!(hashes.iter().map(number).collect::<Vec<_>>(), vec![5]);
}

#[test]
fn a_locator_skips_what_is_not_there() {
    let gaps = |q: ChainQuery| match q {
        ChainQuery::HeaderByHeight(n) if n != 1000 - 10 - 16 => {
            ChainReply::Header(Err(ChainError::NotFound("gap")))
        }
        q => long_chain(1000, q),
    };
    let hashes = locate(gaps).hashes().unwrap();
    assert_eq!(hashes.len(), 13);
    assert_eq!(number(&hashes[11]), 974);
    assert_eq!(number(&hashes[12]), 5);
}

#[test]
fn a_locator_goes_by_what_answers() {
    let mut l = Locator::new();
    l.reply::<()>(ChainReply::Height(3));
    assert!(matches!(l.query(), Some(ChainQuery::HeaderHead)));
}

/// Blocks 1, 2 and 3 in a row, of which 3 is not there yet; 9 is on a fork that
/// leaves at 1.
fn answer(q: ChainQuery) -> ChainReply<&'static str> {
    let headers = [header(1, 1, 0), header(2, 2, 1), header(3, 3, 2), header(2, 9, 1)];
    match q {
        ChainQuery::IsChunkOrphan(h) => ChainReply::Orphan(h == hash(9)),
        ChainQuery::Head => ChainReply::Tip(Ok(tip(2, 2))),
        ChainQuery::HeaderHead => ChainReply::Tip(Ok(tip(3, 3))),
        ChainQuery::BlockHeader(h) => ChainReply::Header(
            headers.iter().find(|x| x.hash == h).cloned().ok_or(ChainError::NotFound("header")),
        ),
        ChainQuery::HeaderByHeight(n) => ChainReply::Header(
            headers.iter().find(|x| x.height == n).cloned().ok_or(ChainError::NotFound("height")),
        ),
        ChainQuery::NextBlockHash(h) => ChainReply::Hash(if h == hash(1) {
            Ok(hash(2))
        } else if h == hash(2) {
            Ok(hash(3))
        } else {
            Err(ChainError::NotFound("next"))
        }),
        ChainQuery::BlockExists(h) => ChainReply::Exists(Ok(h != hash(3))),
        ChainQuery::GcStopHeight(h) => ChainReply::Height(if h == hash(3) { 5 } else { 0 }),
        ChainQuery::Genesis => ChainReply::Header(Ok(headers[0])),
    }
}

fn search(s: &BlockSync, f: fn(ChainQuery) -> ChainReply<&'static str>) -> Search<&'static str> {
    let mut search = s.block_sync();
    while let Some(q) = search.query() {
        search = search.reply(f(q));
    }
    search
}

fn block_asked_for(r: NetworkRequests) -> (CryptoHash, PeerId) {
    match r {
        NetworkRequests::BlockRequest { hash, peer_id } => (hash, peer_id),
        _ => panic!("a request for a block"),
    }
}

#[test]
fn the_first_missing_block_is_asked_for_round_robin() {
    let mut s = BlockSync::new(false, 50);
    let peers = vec![peer(1, 20, false), peer(2, 30, true), peer(3, 30, false)];
    // The same block again, as long as it is not there; each time of the next peer.
    for k in [0, 1, 2, 0, 1] {
        let found = search(&s, answer);
        match &found {
            Search::Missing(b) => {
                assert!(b.request.hash == hash(3));
                assert_eq!(b.request.height, 3);
                assert_eq!(b.head.height, 2);
                assert_eq!(b.header_head.height, 3);
                assert_eq!(b.gc_stop_height, 5);
            }
            _ => panic!("a missing block"),
        }
        let (state_needed, message) = s.run(found, &peers).ok().unwrap();
        assert!(!state_needed);
        let (h, p) = block_asked_for(message.unwrap());
        assert!(h == hash(3) && p == peers[k].peer_id);
    }
    // Fewer peers: it begins anew.
    let found = search(&s, answer);
    let (_, message) = s.run(found, &vec![peers[2]]).ok().unwrap();
    assert!(block_asked_for(message.unwrap()).1 == peers[2].peer_id);
}

#[test]
fn old_blocks_are_asked_of_archives() {
    let mut s = BlockSync::new(true, 50);
    let peers = vec![peer(1, 20, false), peer(2, 30, true), peer(3, 30, false), peer(4, 9, true)];
    for k in [1, 3, 1] {
        let found = search(&s, answer);
        let (_, message) = s.run(found, &peers).ok().unwrap();
        assert!(block_asked_for(message.unwrap()).1 == peers[k].peer_id);
    }
    let found = search(&s, answer);
    let (state_needed, message) = s.run(found, &vec![peers[0]]).ok().unwrap();
    assert!(!state_needed && message.is_none());
}

fn missing(head: u64, header_head: u64) -> Search<&'static str> {
    Search::Missing(MissingBlock {
        request: BlockSyncRequest { height: head + 1, hash: hash(7) },
        head: tip(head, 6),
        header_head: tip(header_head, 8),
        gc_stop_height: 0,
    })
}

#[test]
fn a_state_is_needed_when_the_blocks_are_too_far_behind() {
    let peers = vec![peer(1, 200, false)];
    let mut s = BlockSync::new(false, 50);
    let (state_needed, message) = s.run(missing(100, 151), &peers).ok().unwrap();
    assert!(state_needed && message.is_none());
    // Nothing was asked for.
    assert!(matches!(s.block_sync::<()>(), Search::Head));
    let (state_needed, message) = s.run(missing(100, 150), &peers).ok().unwrap();
    assert!(!state_needed && message.is_some());
    assert!(matches!(s.block_sync::<()>(), Search::Orphan(h) if h == hash(7)));
    let (state_needed, _) = s.run(missing(100, 90), &peers).ok().unwrap();
    assert!(!state_needed);
    // Block sync can be enforced.
    let mut s = BlockSync::new(true, 50);
    let (state_needed, message) = s.run(missing(100, 151), &peers).ok().unwrap();
    assert!(!state_needed && message.is_some());
}

#[test]
fn a_search_goes_back_from_a_fork() {
    let mut s = BlockSync::new(false, 50);
    let fork = |q: ChainQuery| match q {
        ChainQuery::Head => ChainReply::Tip(Ok(tip(2, 9))),
        q => answer(q),
    };
    assert!(matches!(search(&s, fork), Search::Missing(b) if b.request.hash == hash(3)));
    // A block that waits for chunks is where the next search starts.
    let orphan = match search(&s, answer) {
        Search::Missing(b) => Search::Missing(MissingBlock {
            request: BlockSyncRequest { hash: hash(9), ..b.request },
            ..b
        }),
        _ => panic!("a missing block"),
    };
    assert!(s.run::<&str>(orphan, &vec![]).ok().unwrap().1.is_none());
    assert!(matches!(s.block_sync::<()>(), Search::Orphan(h) if h == hash(9)));
    let headless = |q: ChainQuery| match q {
        ChainQuery::HeaderByHeight(2) => ChainReply::Header(Err(ChainError::NotFound("height"))),
        q => answer(q),
    };
    assert!(matches!(search(&s, headless), Search::Missing(b) if b.request.hash == hash(3)));
}

#[test]
fn nothing_is_asked_for_at_the_end_of_the_chain() {
    let mut s = BlockSync::new(false, 50);
    let complete = |q: ChainQuery| match q {
        ChainQuery::BlockExists(_) => ChainReply::Exists(Ok(true)),
        q => answer(q),
    };
    let found = search(&s, complete);
    assert!(matches!(found, Search::UpToDate));
    let (state_needed, message) = s.run(found, &vec![peer(1, 20, false)]).ok().unwrap();
    assert!(!state_needed && message.is_none());
}

#[test]
fn a_chain_that_fails_fails_the_search() {
    let mut s = BlockSync::new(false, 50);
    let broken = |q: ChainQuery| match q {
        ChainQuery::BlockExists(_) => ChainReply::Exists(Err(ChainError::Other("broken"))),
        q => answer(q),
    };
    let found = search(&s, broken);
    assert!(matches!(s.run(found, &vec![]), Err(ChainError::Other("broken"))));
    let lost = |q: ChainQuery| match q {
        ChainQuery::Head => ChainReply::Tip(Err(ChainError::NotFound("head"))),
        q => answer(q),
    };
    let found = search(&s, lost);
    assert!(matches!(s.run(found, &vec![]), Err(ChainError::NotFound("head"))));
}

#[test]
fn a_client_knows_its_parts() {
    let c = Client::new("config", "chain", "runtime", "shards", 4, 7);
    assert_eq!(c.config, "config");
    assert_eq!(c.chain, "chain");
    assert_eq!(c.runtime_adapter, "runtime");
    assert_eq!(c.shards_mgr, "shards");
    assert_eq!(c.rs.data_parts, 4);
    assert_eq!(c.rs.total_parts, 7);
    assert_eq!(c.rs.rs.data_shard_count(), 4);
    assert_eq!(c.rs.rs.total_shard_count(), 7);
}

#[test]
fn missing_chunks_are_asked_for_in_order() {
    let c = Client::new((), (), (), (), 1, 2);
    let blocks = vec![
        BlockMissingChunks { prev_hash: hash(1), missing_chunks: vec![chunk(5)] },
        BlockMissingChunks { prev_hash: hash(2), missing_chunks: vec![] },
    ];
    let orphans = vec![OrphanMissingChunks {
        missing_chunks: vec![chunk(6), chunk(7)],
        epoch_id: EpochId(hash(8)),
        ancestor_hash: hash(3),
    }];
    let r = c.request_missing_chunks(blocks, orphans, tip(10, 4));
    assert_eq!(r.len(), 3);
    match &r[0] {
        ChunksRequest::OfBlock { missing_chunks, prev_hash, header_head } => {
            assert_eq!(missing_chunks.len(), 1);
            assert!(*prev_hash == hash(1));
            assert_eq!(header_head.height, 10);
        }
        _ => panic!("blocks come first"),
    }
    assert!(matches!(&r[1], ChunksRequest::OfBlock { prev_hash, .. } if *prev_hash == hash(2)));
    match &r[2] {
        ChunksRequest::OfOrphan { missing_chunks, epoch_id, ancestor_hash, header_head } => {
            assert_eq!(missing_chunks.len(), 2);
            assert!(epoch_id.0 == hash(8));
            assert!(*ancestor_hash == hash(3));
            assert!(header_head.last_block_hash == hash(4));
        }
        _ => panic!("orphans come last"),
    }
}

#[test]
fn seeds_differ() {
    assert_ne!(random_seed_from_thread(), random_seed_from_thread());
}
