//! Choices left to chance.
use crate::types::FullPeerInfo;
use rand::seq::SliceRandom;
use rand::Rng;
use vstd::prelude::*;

verus! {

/// 32 bytes that a random generator starts from.
pub type RngSeed = [u8; 32];

/// Calls `rand::seq::SliceRandom::choose` with the generator of the thread:
/// one of the elements, none if there is none. Which one is left to chance.
#[verifier::external_body]
fn choose_peer(peers: &Vec<FullPeerInfo>) -> (r: Option<FullPeerInfo>)
    ensures
        r is None <==> peers@.len() == 0,
        r is Some ==> peers@.contains(r->0),
{
    peers.choose(&mut rand::thread_rng()).cloned()
}

/// Picking one of `peers` at random can give `r`.
pub closed spec fn is_picked(peers: &Vec<FullPeerInfo>, r: Option<FullPeerInfo>) -> bool {
    call_ensures(choose_peer, (peers,), r)
}

/// One of the peers, picked at random; none if there is none.
pub(crate) fn pick_peer(peers: &Vec<FullPeerInfo>) -> (r: Option<FullPeerInfo>)
    ensures
        is_picked(peers, r),
        r is None <==> peers@.len() == 0,
        r is Some ==> peers@.contains(r->0),
{
    choose_peer(peers)
}

/// Calls `rand::Rng::fill` with the generator of the thread. Any seed can come
/// out, so nothing is claimed of it.
#[verifier::external_body]
pub fn random_seed_from_thread() -> RngSeed {
    let mut rng_seed: RngSeed = [0; 32];
    rand::thread_rng().fill(&mut rng_seed);
    rng_seed
}

/// What can be picked is what choosing among these peers gives.
proof fn picks_come_from_choosing(peers: &Vec<FullPeerInfo>, r: Option<FullPeerInfo>)
    ensures
        is_picked(peers, r) <==> call_ensures(choose_peer, (peers,), r),
{
}

} // verus!
