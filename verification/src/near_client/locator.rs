//! A locator: hashes of headers ever further back, by which a peer finds out up to
//! where it has the same headers.
use crate::near_client::sync::{ChainQuery, ChainReply, MAX_BLOCK_HEADER_HASHES};
use crate::types::CryptoHash;
use vstd::prelude::*;

verus! {

/// How many headers a locator holds without a gap, counted from the end of the
/// chain of headers.
pub const RECENT: usize = 11;

/// How many headers further back a locator jumps to.
pub const JUMPS: usize = 8;

/// How far back the first jump goes. Each further one goes this many times as
/// far.
pub const JUMP: u64 = 4;

/// How far back a jump goes.
pub open spec fn jump_by(k: nat) -> nat
    decreases k,
{
    if k == 0 {
        JUMP as nat
    } else {
        JUMP as nat * jump_by((k - 1) as nat)
    }
}

proof fn lemma_jump_by(k: nat)
    requires
        k < JUMPS,
    ensures
        jump_by(k) <= 65_536,
        jump_by(k + 1) == JUMP as nat * jump_by(k),
{
    reveal_with_fuel(jump_by, 10);
}

/// What has to be known next to complete a locator.
#[derive(Debug, Clone, Copy)]
pub enum LocatorStage {
    /// Where the headers end,
    Head,
    /// the header there,
    HeadHeader(CryptoHash),
    /// the header before the last one,
    Parent(CryptoHash),
    /// a header further back: jump number `number`, which goes back from `base` by
    /// `by`,
    Jump { base: u64, number: usize, by: u64 },
    /// and the first one.
    Genesis,
    /// It is complete.
    Complete,
    /// It is not known where the headers end.
    Failed,
}

/// What a `Locator` holds.
pub struct LocatorView {
    pub hashes: Seq<CryptoHash>,
    /// The height of the last one.
    pub height: u64,
    pub stage: LocatorStage,
}

impl LocatorView {
    /// As it begins.
    pub open spec fn start() -> Self {
        LocatorView { hashes: Seq::empty(), height: 0, stage: LocatorStage::Head }
    }

    /// What is asked of the chain next; nothing once it is over.
    pub open spec fn query_spec(self) -> Option<ChainQuery> {
        match self.stage {
            LocatorStage::Head => Some(ChainQuery::HeaderHead),
            LocatorStage::HeadHeader(hash) => Some(ChainQuery::BlockHeader(hash)),
            LocatorStage::Parent(hash) => Some(ChainQuery::BlockHeader(hash)),
            LocatorStage::Jump { base, number, by } => Some(
                ChainQuery::HeaderByHeight((base - by) as u64),
            ),
            LocatorStage::Genesis => Some(ChainQuery::Genesis),
            LocatorStage::Complete | LocatorStage::Failed => None,
        }
    }

    /// With one more header, if it is lower than the last.
    pub open spec fn with(self, height: u64, hash: CryptoHash) -> Self {
        if height < self.height {
            LocatorView { hashes: self.hashes.push(hash), height, ..self }
        } else {
            self
        }
    }

    pub open spec fn at(self, stage: LocatorStage) -> Self {
        LocatorView { stage, ..self }
    }

    /// The stage of a jump; past the last one, and past the beginning of the
    /// chain, the first header is next.
    pub open spec fn jump_stage(base: u64, number: nat) -> LocatorStage {
        if number < JUMPS && jump_by(number) <= base {
            LocatorStage::Jump { base, number: number as usize, by: jump_by(number) as u64 }
        } else {
            LocatorStage::Genesis
        }
    }

    /// What becomes of it with an answer. One that does not answer the question
    /// leaves it as it is.
    pub open spec fn next<E>(self, reply: ChainReply<E>) -> Self {
        match (self.stage, reply) {
            (LocatorStage::Head, ChainReply::Tip(Ok(t))) => LocatorView {
                hashes: seq![t.last_block_hash],
                height: t.height,
                stage: LocatorStage::HeadHeader(t.last_block_hash),
            },
            (LocatorStage::Head, ChainReply::Tip(Err(_))) => self.at(LocatorStage::Failed),
            (LocatorStage::HeadHeader(_), ChainReply::Header(Ok(h))) => self.at(
                LocatorStage::Parent(h.prev_hash),
            ),
            (LocatorStage::HeadHeader(_), ChainReply::Header(Err(_))) => self.at(
                LocatorStage::Genesis,
            ),
            (LocatorStage::Parent(_), ChainReply::Header(Ok(p))) => if p.height >= self.height {
                self.at(LocatorStage::Genesis)
            } else if self.hashes.len() + 1 < RECENT {
                self.with(p.height, p.hash).at(LocatorStage::Parent(p.prev_hash))
            } else {
                self.with(p.height, p.hash).at(Self::jump_stage(p.height, 0))
            },
            (LocatorStage::Parent(_), ChainReply::Header(Err(_))) => self.at(LocatorStage::Genesis),
            (LocatorStage::Jump { base, number, by }, ChainReply::Header(Ok(h))) => self.with(
                h.height,
                h.hash,
            ).at(Self::jump_stage(base, (number + 1) as nat)),
            (LocatorStage::Jump { base, number, by }, ChainReply::Header(Err(_))) => self.at(
                Self::jump_stage(base, (number + 1) as nat),
            ),
            (LocatorStage::Genesis, ChainReply::Header(Ok(g))) => self.with(g.height, g.hash).at(
                LocatorStage::Complete,
            ),
            (LocatorStage::Genesis, ChainReply::Header(Err(_))) => self.at(LocatorStage::Complete),
            _ => self,
        }
    }

    /// It holds as many hashes as there can be at its stage, the end of the
    /// headers included once that is known.
    pub open spec fn wf(self) -> bool {
        match self.stage {
            LocatorStage::Head | LocatorStage::Failed => self.hashes.len() == 0,
            LocatorStage::HeadHeader(_) => self.hashes.len() == 1,
            LocatorStage::Parent(_) => 1 <= self.hashes.len() < RECENT,
            LocatorStage::Jump { base, number, by } => {
                &&& 1 <= self.hashes.len() <= RECENT + number
                &&& number < JUMPS
                &&& by == jump_by(number as nat)
                &&& by <= base
            },
            LocatorStage::Genesis => 1 <= self.hashes.len() < MAX_BLOCK_HEADER_HASHES,
            LocatorStage::Complete => 1 <= self.hashes.len() <= MAX_BLOCK_HEADER_HASHES,
        }
    }
}

/// A locator that is put together step by step.
pub struct Locator {
    hashes: Vec<CryptoHash>,
    height: u64,
    stage: LocatorStage,
}

impl View for Locator {
    type V = LocatorView;

    closed spec fn view(&self) -> LocatorView {
        LocatorView { hashes: self.hashes@, height: self.height, stage: self.stage }
    }
}

impl Locator {
    pub closed spec fn wf(self) -> bool {
        self@.wf()
    }

    /// What well-formedness says of the view.
    pub proof fn lemma_wf(self)
        requires
            self.wf(),
        ensures
            self@.wf(),
    {
    }

    /// Nothing is known yet.
    pub fn new() -> (l: Self)
        ensures
            l@ == LocatorView::start(),
            l.wf(),
    {
        let l = Locator { hashes: Vec::new(), height: 0, stage: LocatorStage::Head };
        assert(l@.hashes =~= Seq::empty());
        l
    }

    /// What is asked of the chain next; nothing once it is over.
    pub fn query(&self) -> (q: Option<ChainQuery>)
        requires
            self.wf(),
        ensures
            q == self@.query_spec(),
    {
        match self.stage {
            LocatorStage::Head => Some(ChainQuery::HeaderHead),
            LocatorStage::HeadHeader(hash) => Some(ChainQuery::BlockHeader(hash)),
            LocatorStage::Parent(hash) => Some(ChainQuery::BlockHeader(hash)),
            LocatorStage::Jump { base, number: _, by } => Some(
                ChainQuery::HeaderByHeight(base - by),
            ),
            LocatorStage::Genesis => Some(ChainQuery::Genesis),
            LocatorStage::Complete | LocatorStage::Failed => None,
        }
    }

    fn push(&mut self, height: u64, hash: CryptoHash)
        ensures
            final(self)@ == old(self)@.with(height, hash),
    {
        if height < self.height {
            self.hashes.push(hash);
            self.height = height;
        }
    }

    fn jump_stage(base: u64, number: usize, by: u64) -> (s: LocatorStage)
        requires
            by == jump_by(number as nat),
        ensures
            s == LocatorView::jump_stage(base, number as nat),
    {
        if number < JUMPS && by <= base {
            LocatorStage::Jump { base, number, by }
        } else {
            LocatorStage::Genesis
        }
    }

    /// Goes on with an answer.
    pub fn reply<E>(&mut self, reply: ChainReply<E>)
        requires
            old(self).wf(),
        ensures
            final(self)@ == old(self)@.next(reply),
            final(self).wf(),
    {
        match (self.stage, reply) {
            (LocatorStage::Head, ChainReply::Tip(r)) => match r {
                Ok(t) => {
                    self.hashes.push(t.last_block_hash);
                    assert(self.hashes@ =~= seq![t.last_block_hash]);
                    self.height = t.height;
                    self.stage = LocatorStage::HeadHeader(t.last_block_hash);
                },
                Err(_) => {
                    self.stage = LocatorStage::Failed;
                },
            },
            (LocatorStage::HeadHeader(_), ChainReply::Header(r)) => match r {
                Ok(h) => {
                    self.stage = LocatorStage::Parent(h.prev_hash);
                },
                Err(_) => {
                    self.stage = LocatorStage::Genesis;
                },
            },
            (LocatorStage::Parent(_), ChainReply::Header(r)) => match r {
                Ok(p) => {
                    if p.height >= self.height {
                        self.stage = LocatorStage::Genesis;
                    } else {
                        self.push(p.height, p.hash);
                        if self.hashes.len() < RECENT {
                            self.stage = LocatorStage::Parent(p.prev_hash);
                        } else {
                            self.stage = Self::jump_stage(p.height, 0, JUMP);
                        }
                    }
                },
                Err(_) => {
                    self.stage = LocatorStage::Genesis;
                },
            },
            (LocatorStage::Jump { base, number, by }, ChainReply::Header(r)) => {
                proof {
                    lemma_jump_by(number as nat);
                }
                if let Ok(h) = r {
                    self.push(h.height, h.hash);
                }
                self.stage = Self::jump_stage(base, number + 1, by * JUMP);
            },
            (LocatorStage::Genesis, ChainReply::Header(r)) => {
                if let Ok(g) = r {
                    self.push(g.height, g.hash);
                }
                self.stage = LocatorStage::Complete;
            },
            _ => {},
        }
    }

    /// The hashes, the end of the headers first; none if that is not known.
    pub fn hashes(self) -> (r: Option<Vec<CryptoHash>>)
        requires
            self.wf(),
        ensures
            match self@.stage {
                LocatorStage::Head | LocatorStage::Failed => r is None,
                _ => r is Some && r->0@ == self@.hashes,
            },
    {
        match self.stage {
            LocatorStage::Head | LocatorStage::Failed => None,
            _ => Some(self.hashes),
        }
    }
}

} // verus!
