//! A client that tracks the chain: what it repairs chunks with, and which chunks
//! it asks for.
pub use crate::random::random_seed_from_thread;
use crate::types::{CryptoHash, ShardChunkHeader, Tip};
use near_primitives::sharding::ReedSolomonWrapper;
use vstd::prelude::*;

verus! {

/// How many parts of a chunk there can be at most.
pub const MAX_PARTS: usize = 256;

/// `near_primitives::sharding::ReedSolomonWrapper`, carried as it is.
#[verifier::external_type_specification]
#[verifier::external_body]
pub struct ExReedSolomonWrapper(ReedSolomonWrapper);

/// What a chunk is repaired with.
pub struct Erasure {
    pub rs: ReedSolomonWrapper,
    /// How many parts are enough.
    pub data_parts: usize,
    /// How many parts there are.
    pub total_parts: usize,
}

/// Calls `near_primitives::sharding::ReedSolomonWrapper::new` and reads back how
/// many parts the code is for: those given, and their sum. A code needs both
/// data and parity, and has no more parts than its field has elements. How it
/// repairs a chunk is left unsaid.
#[verifier::external_body]
fn reed_solomon(data_parts: usize, parity_parts: usize) -> (e: Erasure)
    requires
        data_parts > 0,
        parity_parts > 0,
        data_parts + parity_parts <= MAX_PARTS,
    ensures
        e.data_parts == data_parts,
        e.total_parts == data_parts + parity_parts,
{
    let rs = ReedSolomonWrapper::new(data_parts, parity_parts);
    let (data_parts, total_parts) = (rs.data_shard_count(), rs.total_shard_count());
    Erasure { rs, data_parts, total_parts }
}

/// A code for so many data and parity parts can be `e`.
pub closed spec fn is_code(data_parts: usize, parity_parts: usize, e: Erasure) -> bool {
    call_ensures(reed_solomon, (data_parts, parity_parts), e)
}

/// A client, with its configuration `G`, its chain `C`, its runtime `R` and what
/// keeps its shards, `M`.
pub struct Client<G, C, R, M> {
    pub config: G,
    pub chain: C,
    pub runtime_adapter: R,
    pub shards_mgr: M,
    /// What a shard is repaired with.
    pub rs: Erasure,
}

/// An epoch, by the hash that stands for it.
#[derive(Debug, Clone, Copy)]
pub struct EpochId(pub CryptoHash);

/// A block that lacks chunks.
pub struct BlockMissingChunks {
    pub prev_hash: CryptoHash,
    pub missing_chunks: Vec<ShardChunkHeader>,
}

/// A block without a parent that lacks chunks.
pub struct OrphanMissingChunks {
    pub missing_chunks: Vec<ShardChunkHeader>,
    pub epoch_id: EpochId,
    pub ancestor_hash: CryptoHash,
}

/// Chunks to be asked for.
pub enum ChunksRequest {
    /// Those that a block lacks.
    OfBlock {
        missing_chunks: Vec<ShardChunkHeader>,
        prev_hash: CryptoHash,
        header_head: Tip,
    },
    /// Those that a block without a parent lacks.
    OfOrphan {
        missing_chunks: Vec<ShardChunkHeader>,
        epoch_id: EpochId,
        ancestor_hash: CryptoHash,
        header_head: Tip,
    },
}

/// What is asked for on account of a block.
pub open spec fn of_block(header_head: Tip) -> spec_fn(BlockMissingChunks) -> ChunksRequest {
    |b: BlockMissingChunks|
        ChunksRequest::OfBlock {
            missing_chunks: b.missing_chunks,
            prev_hash: b.prev_hash,
            header_head,
        }
}

/// What is asked for on account of a block without a parent.
pub open spec fn of_orphan(header_head: Tip) -> spec_fn(OrphanMissingChunks) -> ChunksRequest {
    |o: OrphanMissingChunks|
        ChunksRequest::OfOrphan {
            missing_chunks: o.missing_chunks,
            epoch_id: o.epoch_id,
            ancestor_hash: o.ancestor_hash,
            header_head,
        }
}

impl<G, C, R, M> Client<G, C, R, M> {
    /// A client for chunks of `num_total_parts` parts, of which `num_data_parts`
    /// are enough.
    pub fn new(
        config: G,
        chain: C,
        runtime_adapter: R,
        shards_mgr: M,
        num_data_parts: usize,
        num_total_parts: usize,
    ) -> (c: Self)
        requires
            0 < num_data_parts < num_total_parts <= MAX_PARTS,
        ensures
            c.config == config,
            c.chain == chain,
            c.runtime_adapter == runtime_adapter,
            c.shards_mgr == shards_mgr,
            is_code(num_data_parts, (num_total_parts - num_data_parts) as usize, c.rs),
            c.rs.data_parts == num_data_parts,
            c.rs.total_parts == num_total_parts,
    {
        let parity_parts: usize = num_total_parts - num_data_parts;
        Client {
            config,
            chain,
            runtime_adapter,
            shards_mgr,
            rs: reed_solomon(num_data_parts, parity_parts),
        }
    }

    /// What is to be asked for, in this order, for blocks that lack chunks:
    /// first for those with a parent, then for the others.
    pub fn request_missing_chunks(
        &self,
        blocks_missing_chunks: Vec<BlockMissingChunks>,
        orphans_missing_chunks: Vec<OrphanMissingChunks>,
        header_head: Tip,
    ) -> (r: Vec<ChunksRequest>)
        ensures
            r@ == blocks_missing_chunks@.map_values(of_block(header_head))
                + orphans_missing_chunks@.map_values(of_orphan(header_head)),
            r@.len() == blocks_missing_chunks@.len() + orphans_missing_chunks@.len(),
            forall|i: int|
                0 <= i < blocks_missing_chunks@.len() ==> #[trigger] r@[i] == (
                ChunksRequest::OfBlock {
                    missing_chunks: blocks_missing_chunks@[i].missing_chunks,
                    prev_hash: blocks_missing_chunks@[i].prev_hash,
                    header_head,
                }),
            forall|i: int|
                0 <= i < orphans_missing_chunks@.len() ==> #[trigger] r@[blocks_missing_chunks@.len()
                    + i] == (ChunksRequest::OfOrphan {
                    missing_chunks: orphans_missing_chunks@[i].missing_chunks,
                    epoch_id: orphans_missing_chunks@[i].epoch_id,
                    ancestor_hash: orphans_missing_chunks@[i].ancestor_hash,
                    header_head,
                }),
    {
        let mut requests: Vec<ChunksRequest> = Vec::new();
        for b in it: blocks_missing_chunks
            invariant
                it.seq() == blocks_missing_chunks@,
                requests@ == blocks_missing_chunks@.take(it.index()).map_values(
                    of_block(header_head),
                ),
        {
            requests.push(
                ChunksRequest::OfBlock {
                    missing_chunks: b.missing_chunks,
                    prev_hash: b.prev_hash,
                    header_head,
                },
            );
            assert(requests@ =~= blocks_missing_chunks@.take(it.index() + 1).map_values(
                of_block(header_head),
            ));
        }
        assert(blocks_missing_chunks@.take(blocks_missing_chunks@.len() as int)
            =~= blocks_missing_chunks@);
        let ghost first = requests@;
        for o in it: orphans_missing_chunks
            invariant
                it.seq() == orphans_missing_chunks@,
                requests@ == first + orphans_missing_chunks@.take(it.index()).map_values(
                    of_orphan(header_head),
                ),
        {
            requests.push(
                ChunksRequest::OfOrphan {
                    missing_chunks: o.missing_chunks,
                    epoch_id: o.epoch_id,
                    ancestor_hash: o.ancestor_hash,
                    header_head,
                },
            );
            assert(requests@ =~= first + orphans_missing_chunks@.take(it.index() + 1).map_values(
                of_orphan(header_head),
            ));
        }
        assert(orphans_missing_chunks@.take(orphans_missing_chunks@.len() as int)
            =~= orphans_missing_chunks@);
        requests
    }
}

/// What can be the code for so many parts is what making one gives.
proof fn codes_come_from_making(data_parts: usize, parity_parts: usize, e: Erasure)
    ensures
        is_code(data_parts, parity_parts, e) <==> call_ensures(
            reed_solomon,
            (data_parts, parity_parts),
            e,
        ),
{
}

} // verus!
