//! Fetching a chain: headers from a given block on, the block of each header,
//! and the chunks of each block.
use crate::headers::{is_sorted_from, lemma_sorted_is_reordered, sort_by_height};
use crate::types::{Block, BlockHeader, CryptoHash, NetworkInfo, ShardChunkHeader};
use vstd::multiset::Multiset;
use vstd::prelude::*;

verus! {

/// How often the statistics are shown, in nanoseconds.
pub const STATS_INTERVAL: u128 = 10_000_000_000;

/// Something to be done while a chain is fetched. Tasks run side by side.
#[derive(Debug, Clone, Copy)]
pub enum Task {
    /// Show the statistics, and wait.
    Stats,
    /// Fetch the headers that follow the one with this hash.
    Headers(CryptoHash),
    /// Fetch the block with this hash.
    Block(CryptoHash),
    /// Fetch a chunk.
    Chunk(ShardChunkHeader),
}

/// How a task went.
pub enum Done {
    Waited,
    Headers(Vec<BlockHeader>),
    Block(Block),
    Chunk,
}

/// Why fetching a chain fails, other than by a task that fails.
#[derive(Debug, Clone, Copy, PartialEq, Eq, Structural)]
pub enum FetchError {
    /// The headers that came are none.
    NoHeaders,
}

impl FetchError {
    pub fn to_string(&self) -> (s: String)
        ensures
            s@ == "no headers"@,
    {
        "no headers".to_owned()
    }
}

/// How far the headers are fetched, and how far they are wanted.
#[derive(Debug, Clone, Copy)]
pub struct FetchChain {
    pub target_height: u64,
    pub last_hash: CryptoHash,
    pub last_height: u64,
}

/// The tasks that fetch the blocks of these headers.
pub open spec fn block_tasks(hs: Seq<BlockHeader>) -> Seq<Task> {
    hs.map_values(|h: BlockHeader| Task::Block(h.hash))
}

/// The tasks that fetch these chunks.
pub open spec fn chunk_tasks(chs: Seq<ShardChunkHeader>) -> Seq<Task> {
    chs.map_values(|ch: ShardChunkHeader| Task::Chunk(ch))
}

/// Starts to fetch the chain that follows the block with hash
/// `start_block_hash`, as far as the first of the highest peers has it.
pub fn run(peers: &NetworkInfo, start_block_hash: CryptoHash) -> (f: FetchChain)
    requires
        peers.highest_height_peers@.len() > 0,
    ensures
        f.target_height == peers.highest_height_peers@[0].height,
        f.last_hash == start_block_hash,
        f.last_height == 0,
{
    FetchChain {
        target_height: peers.highest_height_peers[0].height,
        last_hash: start_block_hash,
        last_height: 0,
    }
}

impl FetchChain {
    /// The task that fetches the next headers, while some are wanted.
    pub open spec fn wanted(self) -> Seq<Task> {
        if self.last_height < self.target_height {
            seq![Task::Headers(self.last_hash)]
        } else {
            Seq::empty()
        }
    }

    /// What is known once the headers `hs` came, in order of height.
    pub open spec fn after(self, hs: Seq<BlockHeader>) -> Self {
        FetchChain {
            target_height: self.target_height,
            last_hash: hs.last().hash,
            last_height: hs.last().height,
        }
    }

    /// What follows from how a task went: what is known then, and the tasks to
    /// start.
    pub open spec fn follows(self, done: Done, after: Self, tasks: Seq<Task>) -> bool {
        match done {
            Done::Waited => after == self && tasks == seq![Task::Stats],
            Done::Headers(headers) => exists|hs: Seq<BlockHeader>|
                {
                    &&& #[trigger] is_sorted_from(headers@, hs)
                    &&& after == self.after(hs)
                    &&& tasks == block_tasks(hs) + after.wanted()
                },
            Done::Block(block) => after == self && tasks == chunk_tasks(block.chunks@),
            Done::Chunk => after == self && tasks == Seq::<Task>::empty(),
        }
    }

    /// How many headers there are still to come, by height.
    pub fn headers_left(&self) -> (n: u64)
        ensures
            n == if self.last_height < self.target_height {
                self.target_height - self.last_height
            } else {
                0
            },
    {
        if self.last_height < self.target_height {
            self.target_height - self.last_height
        } else {
            0
        }
    }

    fn push_wanted(&self, tasks: &mut Vec<Task>)
        ensures
            final(tasks)@ == old(tasks)@ + self.wanted(),
    {
        if self.last_height < self.target_height {
            tasks.push(Task::Headers(self.last_hash));
        }
    }

    /// The tasks to begin with.
    pub fn start(&self) -> (tasks: Vec<Task>)
        ensures
            tasks@ == seq![Task::Stats] + self.wanted(),
    {
        let mut tasks: Vec<Task> = Vec::new();
        tasks.push(Task::Stats);
        self.push_wanted(&mut tasks);
        assert(tasks@ =~= seq![Task::Stats] + self.wanted());
        tasks
    }

    /// Takes in how a task went. Gives the tasks to start.
    pub fn on_done(&mut self, done: Done) -> (r: Result<Vec<Task>, FetchError>)
        ensures
            match r {
                Ok(tasks) => !(done matches Done::Headers(hs) && hs@.len() == 0)
                    && old(self).follows(done, *final(self), tasks@),
                Err(e) => e == FetchError::NoHeaders && *final(self) == *old(self)
                    && (done matches Done::Headers(hs) && hs@.len() == 0),
            },
    {
        let mut tasks: Vec<Task> = Vec::new();
        match done {
            Done::Waited => {
                tasks.push(Task::Stats);
            },
            Done::Headers(headers) => {
                let hs = sort_by_height(headers);
                let n: usize = hs.len();
                if n == 0 {
                    return Err(FetchError::NoHeaders);
                }
                self.last_hash = hs[n - 1].hash;
                self.last_height = hs[n - 1].height;
                for i in 0..n
                    invariant
                        n == hs.len(),
                        tasks@ == block_tasks(hs@.take(i as int)),
                {
                    tasks.push(Task::Block(hs[i].hash));
                    assert(tasks@ =~= block_tasks(hs@.take(i + 1)));
                }
                assert(hs@.take(n as int) =~= hs@);
                self.push_wanted(&mut tasks);
                assert(is_sorted_from(headers@, hs@));
            },
            Done::Block(block) => {
                let n: usize = block.chunks.len();
                for i in 0..n
                    invariant
                        n == block.chunks.len(),
                        tasks@ == chunk_tasks(block.chunks@.take(i as int)),
                {
                    tasks.push(Task::Chunk(block.chunks[i]));
                    assert(tasks@ =~= chunk_tasks(block.chunks@.take(i + 1)));
                }
                assert(block.chunks@.take(n as int) =~= block.chunks@);
            },
            Done::Chunk => {},
        }
        Ok(tasks)
    }
}

/// Every header that comes is followed up: the blocks of the headers that came,
/// and of no others, are fetched, each as often as its header came.
pub proof fn each_header_is_followed_up(
    f: FetchChain,
    headers: Vec<BlockHeader>,
    after: FetchChain,
    tasks: Seq<Task>,
)
    requires
        f.follows(Done::Headers(headers), after, tasks),
    ensures
        exists|hs: Seq<BlockHeader>|
            #[trigger] hs.to_multiset() == headers@.to_multiset() && tasks == block_tasks(hs)
                + after.wanted(),
{
    let hs = choose|hs: Seq<BlockHeader>|
        {
            &&& #[trigger] is_sorted_from(headers@, hs)
            &&& after == f.after(hs)
            &&& tasks == block_tasks(hs) + after.wanted()
        };
    lemma_sorted_is_reordered(headers@, hs);
    assert(hs.to_multiset() == headers@.to_multiset());
}

/// What is asked for next follows one of the highest headers that came.
pub proof fn the_highest_header_is_gone_on_from(
    f: FetchChain,
    headers: Vec<BlockHeader>,
    after: FetchChain,
    tasks: Seq<Task>,
)
    requires
        f.follows(Done::Headers(headers), after, tasks),
        headers@.len() > 0,
    ensures
        forall|i: int|
            0 <= i < headers@.len() ==> (#[trigger] headers@[i]).height <= after.last_height,
        exists|i: int|
            0 <= i < headers@.len() && (#[trigger] headers@[i]).height == after.last_height
                && headers@[i].hash == after.last_hash,
        after.target_height == f.target_height,
{
    broadcast use vstd::seq_lib::group_to_multiset_ensures;

    let hs = choose|hs: Seq<BlockHeader>|
        {
            &&& #[trigger] is_sorted_from(headers@, hs)
            &&& after == f.after(hs)
            &&& tasks == block_tasks(hs) + after.wanted()
        };
    lemma_sorted_is_reordered(headers@, hs);
    assert forall|i: int| 0 <= i < headers@.len() implies (#[trigger] headers@[i]).height
        <= after.last_height by {
        assert(headers@.contains(headers@[i]));
        assert(headers@.to_multiset().count(headers@[i]) > 0);
        assert(hs.contains(headers@[i]));
        let j = hs.index_of(headers@[i]);
        assert(hs[j].height <= hs[hs.len() - 1].height);
    }
    assert(hs.contains(hs.last()));
    assert(hs.to_multiset().count(hs.last()) > 0);
    assert(headers@.contains(hs.last()));
    let i = headers@.index_of(hs.last());
    assert(headers@[i] == hs.last());
}

/// A chain being fetched, with the tasks that run.
pub struct Fetching {
    pub chain: FetchChain,
    pub tasks: Multiset<Task>,
}

/// `done` is how a task like `t` can go.
pub open spec fn answers(done: Done, t: Task) -> bool {
    match t {
        Task::Stats => done is Waited,
        Task::Headers(_) => done matches Done::Headers(hs) && hs@.len() > 0,
        Task::Block(_) => done is Block,
        Task::Chunk(_) => done is Chunk,
    }
}

impl Fetching {
    /// As it begins.
    pub open spec fn starts(self) -> bool {
        self.tasks == (seq![Task::Stats] + self.chain.wanted()).to_multiset()
    }

    /// The task `t` goes as `done` says, and the tasks that follow are started.
    pub open spec fn step(self, t: Task, done: Done, after: Self) -> bool {
        &&& self.tasks.count(t) > 0
        &&& answers(done, t)
        &&& exists|tasks: Seq<Task>|
            #[trigger] self.chain.follows(done, after.chain, tasks) && after.tasks
                == self.tasks.remove(t).add(tasks.to_multiset())
    }

    /// Headers are fetched if and only if the chain is not fetched as far as
    /// wanted, and then only those that follow the last one.
    pub open spec fn headers_in_turn(self) -> bool {
        forall|h: CryptoHash| #[trigger]
            self.tasks.count(Task::Headers(h)) == if self.chain.last_height
                < self.chain.target_height && h == self.chain.last_hash {
                1nat
            } else {
                0nat
            }
    }
}

/// How often the tasks that may be followed by one for headers hold one.
proof fn lemma_headers_among(first: Seq<Task>, f: FetchChain, h: CryptoHash)
    requires
        forall|i: int| 0 <= i < first.len() ==> !((#[trigger] first[i]) is Headers),
    ensures
        (first + f.wanted()).to_multiset().count(Task::Headers(h)) == if f.last_height
            < f.target_height && h == f.last_hash {
            1nat
        } else {
            0nat
        },
{
    broadcast use vstd::seq_lib::group_to_multiset_ensures;

    let t = Task::Headers(h);
    assert(!first.contains(t));
    assert(first.to_multiset().count(t) == 0);
    if f.last_height < f.target_height {
        let w = Task::Headers(f.last_hash);
        assert(first + f.wanted() =~= first.push(w));
        assert(first.push(w).to_multiset() =~= first.to_multiset().insert(w));
    } else {
        assert(first + f.wanted() =~= first);
    }
}

/// The headers of a chain are fetched in turn from the beginning.
pub proof fn headers_in_turn_at_first(s: Fetching)
    requires
        s.starts(),
    ensures
        s.headers_in_turn(),
{
    assert forall|h: CryptoHash| #[trigger]
        s.tasks.count(Task::Headers(h)) == if s.chain.last_height < s.chain.target_height && h
            == s.chain.last_hash {
            1nat
        } else {
            0nat
        } by {
        lemma_headers_among(seq![Task::Stats], s.chain, h);
    }
}

/// However the tasks go, and in whatever order they end: the headers of a chain
/// are fetched in turn, until the chain is fetched as far as wanted.
pub proof fn headers_stay_in_turn(s: Fetching, t: Task, done: Done, after: Fetching)
    requires
        s.headers_in_turn(),
        s.step(t, done, after),
    ensures
        after.headers_in_turn(),
{
    broadcast use vstd::seq_lib::group_to_multiset_ensures;

    let tasks = choose|tasks: Seq<Task>|
        #[trigger] s.chain.follows(done, after.chain, tasks) && after.tasks == s.tasks.remove(
            t,
        ).add(tasks.to_multiset());
    assert forall|h: CryptoHash| #[trigger]
        after.tasks.count(Task::Headers(h)) == if after.chain.last_height
            < after.chain.target_height && h == after.chain.last_hash {
            1nat
        } else {
            0nat
        } by {
        let th = Task::Headers(h);
        assert(s.tasks.count(th) <= 1);
        if let Done::Headers(headers) = done {
            let hs = choose|hs: Seq<BlockHeader>|
                {
                    &&& #[trigger] is_sorted_from(headers@, hs)
                    &&& after.chain == s.chain.after(hs)
                    &&& tasks == block_tasks(hs) + after.chain.wanted()
                };
            lemma_headers_among(block_tasks(hs), after.chain, h);
            assert(t is Headers);
            assert(s.tasks.count(Task::Headers(t->Headers_0)) == 1);
            assert(s.tasks.remove(t).count(th) == 0);
        } else {
            assert(!tasks.contains(th));
            assert(tasks.to_multiset().count(th) == 0);
            assert(s.tasks.remove(t).count(th) == s.tasks.count(th));
        }
    }
}

/// Where each reply holds a header above those before it, the headers are all
/// fetched after no more replies than there are heights to go.
pub proof fn growing_replies_reach_the_target(chains: Seq<FetchChain>, headers: Seq<Vec<BlockHeader>>, tasks: Seq<Seq<Task>>)
    requires
        chains.len() == headers.len() + 1,
        tasks.len() == headers.len(),
        forall|i: int|
            0 <= i < headers.len() ==> chains[i].follows(
                Done::Headers(#[trigger] headers[i]),
                chains[i + 1],
                tasks[i],
            ) && exists|j: int|
                0 <= j < headers[i]@.len() && (#[trigger] headers[i]@[j]).height
                    > chains[i].last_height,
    ensures
        chains.last().last_height >= chains[0].last_height + headers.len(),
        headers.len() >= chains[0].target_height - chains[0].last_height
            ==> chains.last().wanted() == Seq::<Task>::empty(),
    decreases headers.len(),
{
    if headers.len() > 0 {
        let n = headers.len() - 1;
        growing_replies_reach_the_target(
            chains.drop_last(),
            headers.drop_last(),
            tasks.drop_last(),
        );
        the_highest_header_is_gone_on_from(chains[n], headers[n], chains[n + 1], tasks[n]);
        lemma_target_stays(chains, headers, tasks);
    }
}

proof fn lemma_target_stays(chains: Seq<FetchChain>, headers: Seq<Vec<BlockHeader>>, tasks: Seq<Seq<Task>>)
    requires
        chains.len() == headers.len() + 1,
        tasks.len() == headers.len(),
        forall|i: int|
            0 <= i < headers.len() ==> chains[i].follows(
                Done::Headers(#[trigger] headers[i]),
                chains[i + 1],
                tasks[i],
            ),
    ensures
        chains.last().target_height == chains[0].target_height,
    decreases headers.len(),
{
    if headers.len() > 0 {
        let n = headers.len() - 1;
        lemma_target_stays(chains.drop_last(), headers.drop_last(), tasks.drop_last());
        assert(chains[n].follows(Done::Headers(headers[n]), chains[n + 1], tasks[n]));
    }
}

/// How often a hash occurs among headers, counted either way.
proof fn lemma_count_blocks(hs: Seq<BlockHeader>, x: CryptoHash)
    ensures
        block_tasks(hs).to_multiset().count(Task::Block(x)) == hs.filter(
            |h: BlockHeader| h.hash == x,
        ).len(),
        block_tasks(hs).len() == hs.len(),
    decreases hs.len(),
{
    broadcast use vstd::seq_lib::group_to_multiset_ensures;

    reveal(Seq::filter);
    if hs.len() > 0 {
        lemma_count_blocks(hs.drop_last(), x);
        let t = Task::Block(hs.last().hash);
        assert(block_tasks(hs) =~= block_tasks(hs.drop_last()).push(t));
        assert(block_tasks(hs).to_multiset() == block_tasks(hs.drop_last()).to_multiset().insert(t));
    } else {
        assert(block_tasks(hs) =~= Seq::empty());
    }
}

/// Reordering headers does not change how many there are of a kind.
proof fn lemma_count_reordered(
    a: Seq<BlockHeader>,
    b: Seq<BlockHeader>,
    p: spec_fn(BlockHeader) -> bool,
)
    requires
        a.to_multiset() == b.to_multiset(),
    ensures
        a.filter(p).len() == b.filter(p).len(),
    decreases a.len(),
{
    broadcast use vstd::seq_lib::group_to_multiset_ensures;

    vstd::seq_lib::to_multiset_len(a);
    vstd::seq_lib::to_multiset_len(b);
    if a.len() > 0 {
        let l = a.last();
        assert(a.to_multiset().count(l) > 0) by {
            assert(a[a.len() - 1] == l);
            assert(a.contains(l));
        }
        assert(b.to_multiset().count(l) > 0);
        assert(b.contains(l));
        let i = b.index_of(l);
        let rest = b.remove(i);
        assert(a =~= a.drop_last().push(l));
        assert(a.to_multiset() =~= a.drop_last().to_multiset().insert(l));
        assert(rest.to_multiset() =~= b.to_multiset().remove(l));
        assert(a.drop_last().to_multiset() =~= rest.to_multiset());
        lemma_count_reordered(a.drop_last(), rest, p);
        a.drop_last().lemma_filter_push(l, p);
        let left = b.take(i);
        let right = b.skip(i + 1);
        assert(b =~= (left + seq![l]) + right);
        assert(rest =~= left + right);
        Seq::filter_distributes_over_add(left + seq![l], right, p);
        Seq::filter_distributes_over_add(left, seq![l], p);
        Seq::filter_distributes_over_add(left, right, p);
        assert(seq![l] =~= Seq::<BlockHeader>::empty().push(l));
        Seq::<BlockHeader>::empty().lemma_filter_len(p);
        Seq::<BlockHeader>::empty().lemma_filter_push(l, p);
        assert(b.filter(p).len() == left.filter(p).len() + seq![l].filter(p).len() + right.filter(
            p,
        ).len());
    } else {
        assert(a =~= b);
    }
}

/// When headers come in, the block of each is fetched, as often as its header
/// came, and no other block; no chunk is fetched and nothing is shown on their
/// account.
pub proof fn each_header_has_its_block_fetched(
    f: FetchChain,
    headers: Vec<BlockHeader>,
    after: FetchChain,
    tasks: Seq<Task>,
)
    requires
        f.follows(Done::Headers(headers), after, tasks),
    ensures
        forall|x: CryptoHash| #[trigger]
            tasks.to_multiset().count(Task::Block(x)) == headers@.filter(
                |h: BlockHeader| h.hash == x,
            ).len(),
        forall|i: int|
            0 <= i < tasks.len() ==> ((#[trigger] tasks[i]) is Block || tasks[i] is Headers),
        tasks.len() == headers@.len() + if after.last_height < after.target_height {
            1nat
        } else {
            0nat
        },
{
    broadcast use vstd::seq_lib::group_to_multiset_ensures;

    let hs = choose|hs: Seq<BlockHeader>|
        {
            &&& #[trigger] is_sorted_from(headers@, hs)
            &&& after == f.after(hs)
            &&& tasks == block_tasks(hs) + after.wanted()
        };
    lemma_sorted_is_reordered(headers@, hs);
    assert forall|x: CryptoHash| #[trigger]
        tasks.to_multiset().count(Task::Block(x)) == headers@.filter(
            |h: BlockHeader| h.hash == x,
        ).len() by {
        lemma_count_blocks(hs, x);
        lemma_count_reordered(headers@, hs, |h: BlockHeader| h.hash == x);
        if after.last_height < after.target_height {
            let w = Task::Headers(after.last_hash);
            assert(tasks =~= block_tasks(hs).push(w));
            assert(tasks.to_multiset() =~= block_tasks(hs).to_multiset().insert(w));
        } else {
            assert(tasks =~= block_tasks(hs));
        }
    }
}

/// The next headers are asked for last, after those that came, if and only if the
/// chain is wanted further.
pub proof fn the_next_headers_are_asked_for(
    f: FetchChain,
    headers: Vec<BlockHeader>,
    after: FetchChain,
    tasks: Seq<Task>,
    h: CryptoHash,
)
    requires
        f.follows(Done::Headers(headers), after, tasks),
    ensures
        tasks.to_multiset().count(Task::Headers(h)) == if after.last_height < f.target_height && h
            == after.last_hash {
            1nat
        } else {
            0nat
        },
        after.last_height < f.target_height ==> tasks.last() == Task::Headers(after.last_hash),
{
    let hs = choose|hs: Seq<BlockHeader>|
        {
            &&& #[trigger] is_sorted_from(headers@, hs)
            &&& after == f.after(hs)
            &&& tasks == block_tasks(hs) + after.wanted()
        };
    lemma_headers_among(block_tasks(hs), after, h);
}

/// The blocks of the headers that came are fetched from the lowest up.
pub proof fn lower_blocks_are_fetched_first(
    f: FetchChain,
    headers: Vec<BlockHeader>,
    after: FetchChain,
    tasks: Seq<Task>,
)
    requires
        f.follows(Done::Headers(headers), after, tasks),
    ensures
        exists|hs: Seq<BlockHeader>|
            {
                &&& #[trigger] hs.to_multiset() == headers@.to_multiset()
                &&& hs.len() <= tasks.len()
                &&& forall|i: int, j: int|
                    0 <= i <= j < hs.len() ==> (#[trigger] hs[i]).height <= (
                    #[trigger] hs[j]).height
                &&& forall|i: int|
                    0 <= i < hs.len() ==> #[trigger] tasks[i] == Task::Block(hs[i].hash)
            },
{
    let hs = choose|hs: Seq<BlockHeader>|
        {
            &&& #[trigger] is_sorted_from(headers@, hs)
            &&& after == f.after(hs)
            &&& tasks == block_tasks(hs) + after.wanted()
        };
    lemma_sorted_is_reordered(headers@, hs);
    assert(hs.to_multiset() == headers@.to_multiset());
}

/// When a block comes in, each of its chunks is fetched, as often as the block
/// names it, and nothing else; how far the headers are stays as it is.
pub proof fn each_chunk_of_a_block_is_fetched(
    f: FetchChain,
    block: Block,
    after: FetchChain,
    tasks: Seq<Task>,
)
    requires
        f.follows(Done::Block(block), after, tasks),
    ensures
        after == f,
        tasks.len() == block.chunks@.len(),
        forall|i: int| 0 <= i < tasks.len() ==> #[trigger] tasks[i] == Task::Chunk(block.chunks@[i]),
{
}

/// A chunk that came in, and a pause that is over, change nothing; after a pause
/// the statistics are shown again.
pub proof fn the_rest_changes_nothing(f: FetchChain, after: FetchChain, tasks: Seq<Task>)
    ensures
        f.follows(Done::Chunk, after, tasks) ==> after == f && tasks.len() == 0,
        f.follows(Done::Waited, after, tasks) ==> after == f && tasks == seq![Task::Stats],
{
}

/// What is wanted at first: the headers that follow the last one, if there are
/// heights to go, and nothing otherwise.
pub proof fn headers_are_wanted_up_to_the_target(f: FetchChain)
    ensures
        f.last_height < f.target_height ==> f.wanted() == seq![Task::Headers(f.last_hash)],
        f.last_height >= f.target_height ==> f.wanted().len() == 0,
{
}

} // verus!
