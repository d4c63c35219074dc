use vstd::prelude::*;

use super::provider::{BlockTx, Header};
use super::{
    block_holds, block_matches, flush_due, lemma_block_matches_exact, rows_of, Flush, Match,
    SyncError, Worker,
};
use crate::address_set::lemma_take_next;
use crate::config::SyncConfig;
use crate::db::models::{BackfillJob, Chain};
use crate::db::types::Address;

verus! {

/// A block as the forward worker saw it: its transactions, and the
/// addresses that were watched when it was searched.
pub ghost struct ScannedBlock {
    pub watched: Set<Address>,
    pub txs: Seq<BlockTx>,
}

/// Main sync job
/// Walks the blockchain forward, from a pre-configured starting block.
/// Once it reaches the tip, waits continuously for new blocks to process
///
/// Receives newly registered addresses, at which point they are added to the
/// search set and a backfill job is scheduled
pub struct Forward {
    /// The first block that has not been searched
    pub next_block: u64,
    /// The block at which this worker began
    pub first_block: Ghost<int>,
    /// The blocks that this worker has searched, in their order
    pub scanned: Ghost<Seq<ScannedBlock>>,
}

/// What the forward worker learns in one round of its loop.
pub enum ForwardEvent {
    /// Shutdown was asked for
    Cancelled,
    /// Accounts were registered
    NewAccounts(Vec<Address>),
    /// The node holds the next block: what it holds under the block's
    /// transaction ids, in their order
    Block(Vec<BlockTx>),
    /// The node does not hold the next block yet
    NoBlock,
}

/// What the forward worker asks for after one round of its loop.
#[derive(Debug, PartialEq, Eq)]
pub enum ForwardAction {
    /// Write the flush and end
    Stop(Flush),
    /// Create the backfill jobs of the new accounts
    CreateJobs(Vec<BackfillJob>),
    /// Write the flush, if there is one, and go on with the next block
    Continue(Option<Flush>),
    /// Write the flush, then wait until the node holds `block`
    Wait { flush: Flush, block: u64 },
}

/// The matches of the blocks that a forward worker has searched from block
/// `first` on, each with the addresses that were watched at the time.
pub open spec fn forward_matches(first: int, scanned: Seq<ScannedBlock>) -> Seq<Match>
    decreases scanned.len(),
{
    if scanned.len() == 0 {
        Seq::empty()
    } else {
        forward_matches(first, scanned.drop_last()) + block_matches(
            scanned.last().watched,
            (first + scanned.len() - 1) as u64,
            scanned.last().txs,
        )
    }
}

/// Match `m` stands for a candidate of a transaction of one of the blocks
/// that were searched from block `first` on, one that was watched when the
/// block was searched.
pub open spec fn forward_holds(first: int, scanned: Seq<ScannedBlock>, m: Match) -> bool {
    exists|i: int|
        0 <= i < scanned.len() && block_holds(
            (#[trigger] scanned[i]).watched,
            (first + i) as u64,
            scanned[i].txs,
            m,
        )
}

/// The matches of the searched blocks are one for each address among the
/// candidates of each of their transactions that was watched at the time,
/// and no others.
pub proof fn lemma_forward_matches_exact(first: int, scanned: Seq<ScannedBlock>, m: Match)
    ensures
        forward_matches(first, scanned).contains(m) <==> forward_holds(first, scanned, m),
    decreases scanned.len(),
{
    if scanned.len() > 0 {
        let rest = scanned.drop_last();
        let last = scanned.last();
        let number = (first + scanned.len() - 1) as u64;
        let head = forward_matches(first, rest);
        let tail = block_matches(last.watched, number, last.txs);
        lemma_forward_matches_exact(first, rest, m);
        lemma_block_matches_exact(last.watched, number, last.txs, m);
        let all = head + tail;
        if all.contains(m) {
            let i = choose|i: int| 0 <= i < all.len() && all[i] == m;
            if i < head.len() {
                assert(head[i] == m);
            } else {
                assert(tail[i - head.len()] == m);
            }
        }
        if head.contains(m) {
            let i = choose|i: int| 0 <= i < head.len() && head[i] == m;
            assert(all[i] == m);
        }
        if tail.contains(m) {
            let i = choose|i: int| 0 <= i < tail.len() && tail[i] == m;
            assert(all[head.len() + i] == m);
        }
        if forward_holds(first, rest, m) {
            let i = choose|i: int|
                0 <= i < rest.len() && block_holds(
                    (#[trigger] rest[i]).watched,
                    (first + i) as u64,
                    rest[i].txs,
                    m,
                );
            assert(block_holds(scanned[i].watched, (first + i) as u64, scanned[i].txs, m));
        }
        if forward_holds(first, scanned, m) {
            let i = choose|i: int|
                0 <= i < scanned.len() && block_holds(
                    (#[trigger] scanned[i]).watched,
                    (first + i) as u64,
                    scanned[i].txs,
                    m,
                );
            if i < rest.len() {
                assert(block_holds(rest[i].watched, (first + i) as u64, rest[i].txs, m));
            }
        }
        if block_holds(last.watched, number, last.txs, m) {
            let k = scanned.len() - 1;
            assert(block_holds(scanned[k].watched, (first + k) as u64, scanned[k].txs, m));
        }
    }
}

/// A worker whose buffer is empty has handed over, in its flushes, a match
/// for every candidate of every transaction of every block from its first
/// to the one before its next that was watched when the block was searched,
/// and nothing else.
pub proof fn lemma_flushed_is_complete(w: Worker<Forward>, m: Match)
    requires
        w.wf(),
        w.buffer() == Seq::<Match>::empty(),
    ensures
        w.inner().scanned@.len() == w.inner().next_block - w.inner().first_block@,
        w.flushed().contains(m) <==> forward_holds(
            w.inner().first_block@,
            w.inner().scanned@,
            m,
        ),
{
    lemma_forward_matches_exact(w.inner().first_block@, w.inner().scanned@, m);
    assert(w.found() =~= w.flushed());
}

/// The flush of an action, if it has one.
pub open spec fn flush_of(action: ForwardAction) -> Option<Flush> {
    match action {
        ForwardAction::Stop(flush) => Some(flush),
        ForwardAction::CreateJobs(_) => None,
        ForwardAction::Continue(flush) => flush,
        ForwardAction::Wait { flush, .. } => Some(flush),
    }
}

/// What one round of the loop makes of the worker, and what it asks for.
pub open spec fn stepped(
    before: Worker<Forward>,
    event: ForwardEvent,
    after: Worker<Forward>,
    action: ForwardAction,
) -> bool {
    &&& after.inner().next_block >= before.inner().next_block
    &&& after.chain().last_known_block >= before.chain().last_known_block
    &&& flush_of(action) matches Some(f) ==> f.cursor == after.chain().last_known_block
    &&& flush_of(action) is None ==> after.chain() == before.chain()
    &&& match event {
        ForwardEvent::Cancelled => {
            &&& action matches ForwardAction::Stop(f)
            &&& f.cursor == before.inner().next_block
            &&& f.rows@ == rows_of(before.buffer(), before.chain().chain_id)
            &&& after.inner() == before.inner()
            &&& after.watched() == before.watched()
            &&& after.buffer() == Seq::<Match>::empty()
            &&& after.found() == before.found()
        },
        ForwardEvent::NewAccounts(addresses) => {
            &&& action matches ForwardAction::CreateJobs(jobs)
            &&& after.watched() == before.watched().union(addresses@.to_set())
            &&& after.inner() == before.inner()
            &&& after.buffer() == before.buffer()
            &&& after.flushed() == before.flushed()
            &&& jobs@.len() == addresses@.len()
            &&& forall|i: int|
                0 <= i < jobs@.len() ==> is_backfill_of(
                    #[trigger] jobs@[i],
                    addresses@[i],
                    before.chain(),
                    before.inner().next_block,
                )
        },
        ForwardEvent::NoBlock => {
            &&& action matches ForwardAction::Wait { flush: f, block }
            &&& block == before.inner().next_block
            &&& f.cursor == before.inner().next_block
            &&& f.rows@ == rows_of(before.buffer(), before.chain().chain_id)
            &&& after.inner() == before.inner()
            &&& after.watched() == before.watched()
            &&& after.buffer() == Seq::<Match>::empty()
            &&& after.found() == before.found()
        },
        ForwardEvent::Block(txs) => {
            let matches = block_matches(before.watched(), before.inner().next_block, txs@);
            &&& action matches ForwardAction::Continue(flush)
            &&& after.inner().next_block == before.inner().next_block + 1
            &&& after.inner().first_block == before.inner().first_block
            &&& after.inner().scanned@ == before.inner().scanned@.push(
                ScannedBlock { watched: before.watched(), txs: txs@ },
            )
            &&& after.watched() == before.watched()
            &&& after.found() == before.found() + matches
            &&& flush is Some <==> flush_due(
                before.buffer().len() + matches.len(),
                before.buffer_capacity(),
                before.current_buffer_tries() + 1,
                before.max_buffer_tries(),
            )
            &&& flush matches Some(f) ==> {
                &&& f.cursor == before.inner().next_block
                &&& f.rows@ == rows_of(before.buffer() + matches, before.chain().chain_id)
                &&& after.buffer() == Seq::<Match>::empty()
            }
            &&& flush is None ==> after.buffer() == before.buffer() + matches
        },
    }
}

/// The states through which a worker goes in a run of its loop, with the
/// event and the action of each round.
pub open spec fn is_run(
    states: Seq<Worker<Forward>>,
    events: Seq<ForwardEvent>,
    actions: Seq<ForwardAction>,
) -> bool {
    &&& states.len() == events.len() + 1
    &&& actions.len() == events.len()
    &&& forall|i: int|
        0 <= i < events.len() ==> stepped(
            #[trigger] states[i],
            events[i],
            states[i + 1],
            actions[i],
        )
}

/// The chain's tip, as the worker knows it, never moves back in a run.
pub proof fn lemma_tip_never_moves_back(
    states: Seq<Worker<Forward>>,
    events: Seq<ForwardEvent>,
    actions: Seq<ForwardAction>,
    i: int,
    j: int,
)
    requires
        is_run(states, events, actions),
        0 <= i <= j < states.len(),
    ensures
        states[i].chain().last_known_block <= states[j].chain().last_known_block,
    decreases j - i,
{
    if i < j {
        lemma_tip_never_moves_back(states, events, actions, i, j - 1);
        assert(stepped(states[j - 1], events[j - 1], states[j], actions[j - 1]));
    }
}

/// The cursors that the flushes of a run store never move back: a later
/// flush stores a cursor that is no lower, and none is below the last known
/// block with which the run began.
pub proof fn lemma_cursors_never_move_back(
    states: Seq<Worker<Forward>>,
    events: Seq<ForwardEvent>,
    actions: Seq<ForwardAction>,
    i: int,
    j: int,
)
    requires
        is_run(states, events, actions),
        0 <= i <= j < actions.len(),
        flush_of(actions[i]) is Some,
        flush_of(actions[j]) is Some,
    ensures
        states[0].chain().last_known_block <= flush_of(actions[i])->0.cursor,
        flush_of(actions[i])->0.cursor <= flush_of(actions[j])->0.cursor,
{
    assert(stepped(states[i], events[i], states[i + 1], actions[i]));
    assert(stepped(states[j], events[j], states[j + 1], actions[j]));
    lemma_tip_never_moves_back(states, events, actions, 0, i + 1);
    lemma_tip_never_moves_back(states, events, actions, i + 1, j + 1);
}

/// The job that searches the blocks before `next_block` for an address that
/// was registered when the forward worker stood at `next_block`.
pub open spec fn is_backfill_of(job: BackfillJob, a: Address, chain: Chain, next_block: u64) -> bool {
    job.addresses@ == seq![a] && job.low == chain.start_block && job.high == next_block
}

impl Worker<Forward> {
    /// The worker has searched the blocks from its first to the one before
    /// its next, and has found in them what it holds and has flushed.
    pub open spec fn wf(&self) -> bool {
        &&& self.tries_wf()
        &&& self.chain().start_block <= self.inner().next_block
        &&& self.chain().last_known_block <= self.inner().next_block
        &&& self.inner().first_block@ + self.inner().scanned@.len() == self.inner().next_block
        &&& self.found() == forward_matches(self.inner().first_block@, self.inner().scanned@)
    }

    /// The first block that has not been searched.
    pub fn next_block(&self) -> (block: u64)
        ensures
            block == self.inner().next_block,
    {
        self.inner.next_block
    }

    /// Takes newly registered addresses into the search set, and makes for
    /// each of them the job that searches the blocks before the next one.
    pub fn process_new_accounts(&mut self, addresses: &Vec<Address>) -> (jobs: Vec<BackfillJob>)
        requires
            old(self).wf(),
        ensures
            final(self).wf(),
            final(self).watched() == old(self).watched().union(addresses@.to_set()),
            final(self).inner() == old(self).inner(),
            final(self).chain() == old(self).chain(),
            final(self).buffer() == old(self).buffer(),
            final(self).flushed() == old(self).flushed(),
            jobs@.len() == addresses@.len(),
            forall|i: int|
                0 <= i < jobs@.len() ==> is_backfill_of(
                    #[trigger] jobs@[i],
                    addresses@[i],
                    old(self).chain(),
                    old(self).inner().next_block,
                ),
    {
        let mut jobs: Vec<BackfillJob> = Vec::new();
        let mut i: usize = 0;
        while i < addresses.len()
            invariant
                0 <= i <= addresses@.len(),
                self.wf(),
                self.watched() == old(self).watched().union(addresses@.take(i as int).to_set()),
                self.inner() == old(self).inner(),
                self.chain() == old(self).chain(),
                self.buffer() == old(self).buffer(),
                self.flushed() == old(self).flushed(),
                jobs@.len() == i,
                forall|k: int|
                    0 <= k < jobs@.len() ==> is_backfill_of(
                        #[trigger] jobs@[k],
                        addresses@[k],
                        old(self).chain(),
                        old(self).inner().next_block,
                    ),
            decreases addresses@.len() - i,
        {
            let address = addresses[i];
            self.watch(address);
            let job = self.setup_backfill(address);
            jobs.push(job);
            proof {
                lemma_take_next(addresses@, i as int);
                assert(self.watched() =~= old(self).watched().union(
                    addresses@.take(i + 1).to_set(),
                ));
            }
            i += 1;
        }
        assert(addresses@.take(i as int) =~= addresses@);
        jobs
    }

    /// Create a new job for backfilling history for a new account
    /// before the current sync point
    pub fn setup_backfill(&self, address: Address) -> (job: BackfillJob)
        ensures
            is_backfill_of(job, address, self.chain(), self.inner().next_block),
    {
        let mut addresses: Vec<Address> = Vec::new();
        addresses.push(address);
        let chain = self.chain_row();
        BackfillJob { addresses, low: chain.start_block, high: self.inner.next_block }
    }

    /// if the buffer is sufficiently large, or was looked at often enough,
    /// flush it and update chain tip
    pub fn maybe_flush(&mut self) -> (flush: Option<Flush>)
        requires
            old(self).wf(),
        ensures
            final(self).wf(),
            final(self).inner() == old(self).inner(),
            final(self).watched() == old(self).watched(),
            final(self).found() == old(self).found(),
            final(self).chain().last_known_block >= old(self).chain().last_known_block,
            flush is Some <==> flush_due(
                old(self).buffer().len(),
                old(self).buffer_capacity(),
                old(self).current_buffer_tries() + 1,
                old(self).max_buffer_tries(),
            ),
            flush matches Some(f) ==> {
                &&& f.cursor == old(self).inner().next_block
                &&& f.rows@ == rows_of(old(self).buffer(), old(self).chain().chain_id)
                &&& final(self).buffer() == Seq::<Match>::empty()
                &&& final(self).chain().last_known_block == f.cursor
            },
            flush is None ==> {
                &&& final(self).buffer() == old(self).buffer()
                &&& final(self).chain() == old(self).chain()
            },
    {
        let cursor = self.inner.next_block;
        let flush = self.maybe_flush_at(cursor);
        if flush.is_some() {
            self.advance_tip(cursor);
        }
        flush
    }

    /// empties the buffer and updates chain tip
    pub fn flush(&mut self) -> (flush: Flush)
        requires
            old(self).wf(),
        ensures
            final(self).wf(),
            final(self).inner() == old(self).inner(),
            final(self).watched() == old(self).watched(),
            final(self).found() == old(self).found(),
            final(self).buffer() == Seq::<Match>::empty(),
            flush.cursor == old(self).inner().next_block,
            flush.cursor >= old(self).chain().last_known_block,
            flush.rows@ == rows_of(old(self).buffer(), old(self).chain().chain_id),
            final(self).chain().last_known_block == flush.cursor,
    {
        let cursor = self.inner.next_block;
        let flush = self.flush_at(cursor);
        self.advance_tip(cursor);
        assert(self.found() =~= old(self).found());
        flush
    }

    /// Searches the next block and moves on to the one after it.
    pub fn scan(&mut self, txs: &Vec<BlockTx>) -> (flush: Option<Flush>)
        requires
            old(self).wf(),
            old(self).inner().next_block < u64::MAX,
        ensures
            final(self).wf(),
            final(self).inner().next_block == old(self).inner().next_block + 1,
            final(self).inner().first_block == old(self).inner().first_block,
            final(self).inner().scanned@ == old(self).inner().scanned@.push(
                ScannedBlock { watched: old(self).watched(), txs: txs@ },
            ),
            final(self).watched() == old(self).watched(),
            final(self).found() == old(self).found() + block_matches(
                old(self).watched(),
                old(self).inner().next_block,
                txs@,
            ),
            final(self).chain().last_known_block >= old(self).chain().last_known_block,
            flush matches Some(f) ==> {
                &&& f.cursor == old(self).inner().next_block
                &&& f.rows@ == rows_of(
                    old(self).buffer() + block_matches(
                        old(self).watched(),
                        old(self).inner().next_block,
                        txs@,
                    ),
                    old(self).chain().chain_id,
                )
                &&& final(self).buffer() == Seq::<Match>::empty()
                &&& final(self).chain().last_known_block == f.cursor
            },
            flush is Some <==> flush_due(
                old(self).buffer().len() + block_matches(
                    old(self).watched(),
                    old(self).inner().next_block,
                    txs@,
                ).len(),
                old(self).buffer_capacity(),
                old(self).current_buffer_tries() + 1,
                old(self).max_buffer_tries(),
            ),
            flush is None ==> {
                &&& final(self).chain() == old(self).chain()
                &&& final(self).buffer() == old(self).buffer() + block_matches(
                    old(self).watched(),
                    old(self).inner().next_block,
                    txs@,
                )
            },
    {
        let number = self.inner.next_block;
        let header = Header { number };
        let ghost block = ScannedBlock { watched: self.watched(), txs: txs@ };
        let ghost before = self.inner.scanned@;
        self.process_block(&header, txs);
        self.inner.scanned = Ghost(before.push(block));
        proof {
            let now = self.inner.scanned@;
            assert(now.drop_last() =~= before);
            assert(now.last() == block);
            assert(self.found() =~= old(self).found() + block_matches(
                block.watched,
                number,
                block.txs,
            ));
        }
        let flush = {
            let cursor = number;
            let flush = self.maybe_flush_at(cursor);
            if flush.is_some() {
                self.advance_tip(cursor);
            }
            flush
        };
        self.inner.next_block = number + 1;
        flush
    }

    /// One round of the worker's loop. On shutdown the worker flushes and
    /// ends. New accounts are taken into the search set, each with the job
    /// that searches the blocks before the next one. Where the node holds
    /// the next block, the worker searches it, flushes if that is due, and
    /// goes on to the block after it. Where the node does not hold it yet,
    /// the worker flushes and waits for it.
    pub fn step(&mut self, event: ForwardEvent) -> (action: ForwardAction)
        requires
            old(self).wf(),
            event is Block ==> old(self).inner().next_block < u64::MAX,
        ensures
            final(self).wf(),
            stepped(*old(self), event, *final(self), action),
    {
        match event {
            ForwardEvent::Cancelled => ForwardAction::Stop(self.flush()),
            ForwardEvent::NewAccounts(addresses) => ForwardAction::CreateJobs(
                self.process_new_accounts(&addresses),
            ),
            ForwardEvent::NoBlock => {
                let flush = self.flush();
                ForwardAction::Wait { flush, block: self.inner.next_block }
            },
            ForwardEvent::Block(txs) => ForwardAction::Continue(self.scan(&txs)),
        }
    }
}

impl Forward {
    /// The forward worker of a chain: it begins at the block after the last
    /// known one, with the registered addresses as its search set.
    pub fn new(chain: Chain, addresses: &Vec<Address>, config: &SyncConfig) -> (worker: Result<
        Worker<Forward>,
        SyncError,
    >)
        ensures
            chain.wf() <==> worker is Ok,
            worker matches Err(e) ==> e == SyncError::InvalidChain,
            worker matches Ok(w) ==> {
                &&& w.wf()
                &&& w.inner().next_block == chain.last_known_block + 1
                &&& w.inner().scanned@ == Seq::<ScannedBlock>::empty()
                &&& w.chain() == chain
                &&& w.watched() == addresses@.to_set()
                &&& w.buffer() == Seq::<Match>::empty()
                &&& w.flushed() == Seq::<Match>::empty()
                &&& w.buffer_capacity() == config.buffer_size
                &&& w.max_buffer_tries() == config.buffer_tries
            },
    {
        if !chain.is_valid() {
            return Err(SyncError::InvalidChain);
        }
        let next_block = chain.last_known_block + 1;
        let inner = Forward {
            next_block,
            first_block: Ghost(next_block as int),
            scanned: Ghost(Seq::empty()),
        };
        let worker = Worker::new(inner, chain, addresses, config);
        assert(worker.found() =~= Seq::<Match>::empty());
        Ok(worker)
    }
}

/// How long the forward worker sleeps between two looks at the node's tip,
/// in seconds.
pub const POLL_INTERVAL_SECS: u64 = 2;

/// Whether the worker that waits for `block` can go on, now that the node's
/// last block is `latest`.
pub fn has_new_block(latest: u64, block: u64) -> (r: bool)
    ensures
        r == (latest >= block),
{
    latest >= block
}

} // verus!
