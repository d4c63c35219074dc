use vstd::prelude::*;

use super::provider::{BlockTx, Header};
use super::{
    block_holds, block_matches, flush_due, lemma_block_matches_exact, rows_of, Flush, Match,
    SyncError, Worker,
};
use crate::config::SyncConfig;
use crate::db::models::{BackfillJobWithId, Chain};

verus! {

/// When the backfill manager ends.
#[derive(Clone, Copy, Debug, PartialEq, Eq, Structural)]
pub enum StopStrategy {
    /// This mode is used in production: the manager ends when shutdown is
    /// asked for
    Token,
    /// This mode is used where only a fixed set of blocks is to be synced:
    /// the manager ends when no job is left
    OnFinish,
}

impl StopStrategy {
    /// Whether the manager ends once no job is left.
    pub fn is_on_finish(&self) -> (r: bool)
        ensures
            r == (*self == StopStrategy::OnFinish),
    {
        match self {
            StopStrategy::OnFinish => true,
            StopStrategy::Token => false,
        }
    }
}

/// Backfill job
/// Walks the blockchain backwards, within a fixed range
/// Processes the addresses of one job of the rearranged set
pub struct Backfill {
    pub job_id: i32,
    /// The bound above the blocks that are still to be searched: all the
    /// blocks from here up to the job's first high bound are done
    pub high: u64,
    pub low: u64,
    /// The high bound with which the job began
    pub origin: Ghost<int>,
    /// The blocks that this worker has searched, in their order: the
    /// highest first
    pub scanned: Ghost<Seq<Seq<BlockTx>>>,
}

/// What the backfill worker learns in one round of its loop.
pub enum BackfillEvent {
    /// Shutdown was asked for
    Cancelled,
    /// What the node holds under the transaction ids of the block below
    /// `high`, in their order
    Block(Vec<BlockTx>),
    /// The node does not hold the block below `high`
    MissingBlock,
}

/// What the backfill worker asks for after one round of its loop.
#[derive(Debug, PartialEq, Eq)]
pub enum BackfillAction {
    /// Write the flush and end: shutdown was asked for
    Stop(Flush),
    /// Write the flush, if there is one, and go on with the block below;
    /// let other tasks run first where `yield_now` is set
    Continue { flush: Option<Flush>, yield_now: bool },
    /// Write the flush and end: the range is done
    Done(Flush),
    /// End with an error
    Fail(SyncError),
}

/// After how many blocks a backfill worker lets other tasks run.
pub const YIELD_EVERY: u64 = 10;

/// The matches of the blocks that a backfill worker has searched from the
/// block below `origin` downwards.
pub open spec fn backfill_matches(
    watched: Set<crate::db::types::Address>,
    origin: int,
    scanned: Seq<Seq<BlockTx>>,
) -> Seq<Match>
    decreases scanned.len(),
{
    if scanned.len() == 0 {
        Seq::empty()
    } else {
        backfill_matches(watched, origin, scanned.drop_last()) + block_matches(
            watched,
            (origin - scanned.len()) as u64,
            scanned.last(),
        )
    }
}

/// Match `m` stands for a watched candidate of a transaction of one of the
/// blocks that were searched from the block below `origin` downwards.
pub open spec fn backfill_holds(
    watched: Set<crate::db::types::Address>,
    origin: int,
    scanned: Seq<Seq<BlockTx>>,
    m: Match,
) -> bool {
    exists|i: int|
        0 <= i < scanned.len() && block_holds(
            watched,
            (origin - 1 - i) as u64,
            #[trigger] scanned[i],
            m,
        )
}

/// The matches of the searched blocks are one for each watched address
/// among the candidates of each of their transactions, and no others.
pub proof fn lemma_backfill_matches_exact(
    watched: Set<crate::db::types::Address>,
    origin: int,
    scanned: Seq<Seq<BlockTx>>,
    m: Match,
)
    ensures
        backfill_matches(watched, origin, scanned).contains(m) <==> backfill_holds(
            watched,
            origin,
            scanned,
            m,
        ),
    decreases scanned.len(),
{
    if scanned.len() > 0 {
        let rest = scanned.drop_last();
        let last = scanned.last();
        let number = (origin - scanned.len()) as u64;
        let head = backfill_matches(watched, origin, rest);
        let tail = block_matches(watched, number, last);
        lemma_backfill_matches_exact(watched, origin, rest, m);
        lemma_block_matches_exact(watched, number, last, m);
        let all = head + tail;
        if all.contains(m) {
            let i = choose|i: int| 0 <= i < all.len() && all[i] == m;
            if i < head.len() {
                assert(head[i] == m);
            } else {
                assert(tail[i - head.len()] == m);
            }
        }
        if head.contains(m) {
            let i = choose|i: int| 0 <= i < head.len() && head[i] == m;
            assert(all[i] == m);
        }
        if tail.contains(m) {
            let i = choose|i: int| 0 <= i < tail.len() && tail[i] == m;
            assert(all[head.len() + i] == m);
        }
        if backfill_holds(watched, origin, rest, m) {
            let i = choose|i: int|
                0 <= i < rest.len() && block_holds(
                    watched,
                    (origin - 1 - i) as u64,
                    #[trigger] rest[i],
                    m,
                );
            assert(block_holds(watched, (origin - 1 - i) as u64, scanned[i], m));
        }
        if backfill_holds(watched, origin, scanned, m) {
            let i = choose|i: int|
                0 <= i < scanned.len() && block_holds(
                    watched,
                    (origin - 1 - i) as u64,
                    #[trigger] scanned[i],
                    m,
                );
            if i < rest.len() {
                assert(block_holds(watched, (origin - 1 - i) as u64, rest[i], m));
            }
        }
        if block_holds(watched, number, last, m) {
            assert(block_holds(
                watched,
                (origin - 1 - (scanned.len() - 1)) as u64,
                scanned[scanned.len() - 1],
                m,
            ));
        }
    }
}

/// A worker whose buffer is empty has handed over, in its flushes, a match
/// for every watched address among the candidates of every transaction of
/// every block from `high` up to the job's first high bound, and nothing
/// else. This holds after every flush: when the range is done, and when the
/// worker was stopped.
pub proof fn lemma_flushed_is_complete(w: Worker<Backfill>, m: Match)
    requires
        w.wf(),
        w.buffer() == Seq::<Match>::empty(),
    ensures
        w.inner().scanned@.len() == w.inner().origin@ - w.inner().high,
        w.flushed().contains(m) <==> backfill_holds(
            w.watched(),
            w.inner().origin@,
            w.inner().scanned@,
            m,
        ),
{
    lemma_backfill_matches_exact(w.watched(), w.inner().origin@, w.inner().scanned@, m);
    assert(w.found() =~= w.flushed());
}

/// The flush of an action, if it has one.
pub open spec fn flush_of(action: BackfillAction) -> Option<Flush> {
    match action {
        BackfillAction::Stop(flush) => Some(flush),
        BackfillAction::Continue { flush, .. } => flush,
        BackfillAction::Done(flush) => Some(flush),
        BackfillAction::Fail(_) => None,
    }
}

/// What one round of the loop makes of the worker, and what it asks for.
pub open spec fn stepped(
    before: Worker<Backfill>,
    event: BackfillEvent,
    after: Worker<Backfill>,
    action: BackfillAction,
) -> bool {
    &&& after.inner().high <= before.inner().high
    &&& after.inner().low == before.inner().low
    &&& after.inner().job_id == before.inner().job_id
    &&& after.inner().origin == before.inner().origin
    &&& after.watched() == before.watched()
    &&& after.chain() == before.chain()
    &&& flush_of(action) matches Some(f) ==> f.cursor == after.inner().high
    &&& if before.inner().high == before.inner().low {
        &&& action matches BackfillAction::Done(f)
        &&& f.rows@ == rows_of(before.buffer(), before.chain().chain_id)
        &&& after.inner() == before.inner()
        &&& after.buffer() == Seq::<Match>::empty()
        &&& after.flushed() == before.found()
    } else {
        match event {
            BackfillEvent::Cancelled => {
                &&& action matches BackfillAction::Stop(f)
                &&& f.rows@ == rows_of(before.buffer(), before.chain().chain_id)
                &&& after.inner() == before.inner()
                &&& after.buffer() == Seq::<Match>::empty()
                &&& after.flushed() == before.found()
            },
            BackfillEvent::MissingBlock => {
                &&& action == BackfillAction::Fail(
                    SyncError::MissingBlock((before.inner().high - 1) as u64),
                )
                &&& after.inner() == before.inner()
                &&& after.buffer() == before.buffer()
                &&& after.flushed() == before.flushed()
            },
            BackfillEvent::Block(txs) => {
                let block = (before.inner().high - 1) as u64;
                let matches = block_matches(before.watched(), block, txs@);
                &&& action matches BackfillAction::Continue { flush, yield_now }
                &&& after.inner().high == block
                &&& after.inner().scanned@ == before.inner().scanned@.push(txs@)
                &&& after.found() == before.found() + matches
                &&& yield_now == (block % YIELD_EVERY == 0)
                &&& flush is Some <==> flush_due(
                    before.buffer().len() + matches.len(),
                    before.buffer_capacity(),
                    before.current_buffer_tries() + 1,
                    before.max_buffer_tries(),
                )
                &&& flush matches Some(f) ==> {
                    &&& f.rows@ == rows_of(before.buffer() + matches, before.chain().chain_id)
                    &&& after.buffer() == Seq::<Match>::empty()
                }
                &&& flush is None ==> after.buffer() == before.buffer() + matches
            },
        }
    }
}

/// The states through which a worker goes in a run of its loop, with the
/// event and the action of each round.
pub open spec fn is_run(
    states: Seq<Worker<Backfill>>,
    events: Seq<BackfillEvent>,
    actions: Seq<BackfillAction>,
) -> bool {
    &&& states.len() == events.len() + 1
    &&& actions.len() == events.len()
    &&& forall|i: int|
        0 <= i < events.len() ==> stepped(
            #[trigger] states[i],
            events[i],
            states[i + 1],
            actions[i],
        )
}

/// The high bound of the worker never rises in a run.
pub proof fn lemma_high_never_rises(
    states: Seq<Worker<Backfill>>,
    events: Seq<BackfillEvent>,
    actions: Seq<BackfillAction>,
    i: int,
    j: int,
)
    requires
        is_run(states, events, actions),
        0 <= i <= j < states.len(),
    ensures
        states[j].inner().high <= states[i].inner().high,
    decreases j - i,
{
    if i < j {
        lemma_high_never_rises(states, events, actions, i, j - 1);
        assert(stepped(states[j - 1], events[j - 1], states[j], actions[j - 1]));
    }
}

/// The high bounds that the flushes of a run store never rise: a later
/// flush stores a bound that is no higher, and none is above the high bound
/// with which the run began.
pub proof fn lemma_cursors_never_rise(
    states: Seq<Worker<Backfill>>,
    events: Seq<BackfillEvent>,
    actions: Seq<BackfillAction>,
    i: int,
    j: int,
)
    requires
        is_run(states, events, actions),
        0 <= i <= j < actions.len(),
        flush_of(actions[i]) is Some,
        flush_of(actions[j]) is Some,
    ensures
        flush_of(actions[i])->0.cursor <= states[0].inner().high,
        flush_of(actions[j])->0.cursor <= flush_of(actions[i])->0.cursor,
{
    assert(stepped(states[i], events[i], states[i + 1], actions[i]));
    assert(stepped(states[j], events[j], states[j + 1], actions[j]));
    lemma_high_never_rises(states, events, actions, 0, i + 1);
    lemma_high_never_rises(states, events, actions, i + 1, j + 1);
}

/// A worker that is stopped has handed over all that it has found: the
/// high bound that its last flush stores lies above no block that was not
/// searched, and the flushes hold a match for every watched address among
/// the candidates of every transaction of every block from that bound up to
/// the job's first high bound, and nothing else.
pub proof fn lemma_stopped_is_complete(
    before: Worker<Backfill>,
    after: Worker<Backfill>,
    action: BackfillAction,
    m: Match,
)
    requires
        before.wf(),
        after.wf(),
        stepped(before, BackfillEvent::Cancelled, after, action),
    ensures
        flush_of(action) matches Some(f) && f.cursor == after.inner().high,
        after.inner().high == before.inner().high,
        after.inner().scanned@.len() == after.inner().origin@ - after.inner().high,
        after.flushed().contains(m) <==> backfill_holds(
            after.watched(),
            after.inner().origin@,
            after.inner().scanned@,
            m,
        ),
{
    lemma_flushed_is_complete(after, m);
}

impl Worker<Backfill> {
    /// The worker has searched the blocks from the job's first high bound
    /// down to `high`, and has found in them what it holds and has flushed.
    pub open spec fn wf(&self) -> bool {
        &&& self.tries_wf()
        &&& self.inner().low <= self.inner().high
        &&& self.inner().high + self.inner().scanned@.len() == self.inner().origin@
        &&& self.found() == backfill_matches(
            self.watched(),
            self.inner().origin@,
            self.inner().scanned@,
        )
    }

    /// The id of the worker's job.
    pub fn job_id(&self) -> (id: i32)
        ensures
            id == self.inner().job_id,
    {
        self.inner.job_id
    }

    /// The low bound of the job.
    pub fn low(&self) -> (low: u64)
        ensures
            low == self.inner().low,
    {
        self.inner.low
    }

    /// The bound above the blocks that are still to be searched.
    pub fn high(&self) -> (high: u64)
        ensures
            high == self.inner().high,
    {
        self.inner.high
    }

    /// The block that the worker searches next: the one below `high`, unless
    /// the range is done.
    pub fn next_block(&self) -> (block: Option<u64>)
        ensures
            self.inner().high <= self.inner().low <==> block is None,
            block matches Some(b) ==> b + 1 == self.inner().high,
    {
        if self.inner.high > self.inner.low {
            Some(self.inner.high - 1)
        } else {
            None
        }
    }

    /// if the buffer is sufficiently large, or was looked at often enough,
    /// flush it with the job's high bound at `last_block`
    pub fn maybe_flush(&mut self, last_block: u64) -> (flush: Option<Flush>)
        requires
            old(self).tries_wf(),
        ensures
            final(self).tries_wf(),
            final(self).inner() == old(self).inner(),
            final(self).chain() == old(self).chain(),
            final(self).watched() == old(self).watched(),
            final(self).found() == old(self).found(),
            flush is Some <==> flush_due(
                old(self).buffer().len(),
                old(self).buffer_capacity(),
                old(self).current_buffer_tries() + 1,
                old(self).max_buffer_tries(),
            ),
            flush matches Some(f) ==> {
                &&& f.cursor == last_block
                &&& f.rows@ == rows_of(old(self).buffer(), old(self).chain().chain_id)
                &&& final(self).buffer() == Seq::<Match>::empty()
            },
            flush is None ==> final(self).buffer() == old(self).buffer(),
    {
        self.maybe_flush_at(last_block)
    }

    /// empties the buffer, with the job's high bound at `last_block`
    pub fn flush(&mut self, last_block: u64) -> (flush: Flush)
        ensures
            final(self).tries_wf(),
            final(self).inner() == old(self).inner(),
            final(self).chain() == old(self).chain(),
            final(self).watched() == old(self).watched(),
            final(self).found() == old(self).found(),
            final(self).buffer() == Seq::<Match>::empty(),
            final(self).flushed() == old(self).found(),
            flush.cursor == last_block,
            flush.rows@ == rows_of(old(self).buffer(), old(self).chain().chain_id),
    {
        let flush = self.flush_at(last_block);
        assert(self.found() =~= old(self).found());
        flush
    }

    /// One round of the worker's loop.
    ///
    /// Where the range is done, the worker flushes with the high bound at
    /// `low` and ends, whatever the event. On shutdown it flushes with the
    /// high bound above the block that it would have searched next, and
    /// ends. A block of the range that the node does not hold is an error.
    /// Else the worker searches the block below `high`, lowers `high` to it,
    /// and flushes if that is due.
    pub fn step(&mut self, event: BackfillEvent) -> (action: BackfillAction)
        requires
            old(self).wf(),
        ensures
            final(self).wf(),
            stepped(*old(self), event, *final(self), action),
    {
        if self.inner.high <= self.inner.low {
            let low = self.inner.low;
            return BackfillAction::Done(self.flush(low));
        }
        match event {
            BackfillEvent::Cancelled => {
                let high = self.inner.high;
                BackfillAction::Stop(self.flush(high))
            },
            BackfillEvent::MissingBlock => BackfillAction::Fail(
                SyncError::MissingBlock(self.inner.high - 1),
            ),
            BackfillEvent::Block(txs) => {
                let block = self.inner.high - 1;
                let header = Header { number: block };
                let ghost before = self.inner.scanned@;
                self.process_block(&header, &txs);
                self.inner.scanned = Ghost(before.push(txs@));
                self.inner.high = block;
                proof {
                    let now = self.inner.scanned@;
                    assert(now.drop_last() =~= before);
                    assert(now.last() == txs@);
                    assert(self.found() =~= old(self).found() + block_matches(
                        self.watched(),
                        block,
                        txs@,
                    ));
                }
                let flush = self.maybe_flush(block);
                BackfillAction::Continue { flush, yield_now: block % YIELD_EVERY == 0 }
            },
        }
    }
}

impl Backfill {
    /// The worker of one job: it searches the job's range, the highest block
    /// first, for the job's addresses.
    pub fn new_worker(chain: Chain, config: &SyncConfig, job: &BackfillJobWithId) -> (worker:
        Result<Worker<Backfill>, SyncError>)
        ensures
            job.low <= job.high <==> worker is Ok,
            worker matches Err(e) ==> e == (SyncError::InvalidRange {
                low: job.low,
                high: job.high,
            }),
            worker matches Ok(w) ==> {
                &&& w.wf()
                &&& w.inner().job_id == job.id
                &&& w.inner().low == job.low
                &&& w.inner().high == job.high
                &&& w.inner().origin@ == job.high
                &&& w.inner().scanned@ == Seq::<Seq<BlockTx>>::empty()
                &&& w.chain() == chain
                &&& w.watched() == job.addresses@.to_set()
                &&& w.buffer() == Seq::<Match>::empty()
                &&& w.flushed() == Seq::<Match>::empty()
                &&& w.buffer_capacity() == config.buffer_size
                &&& w.max_buffer_tries() == config.buffer_tries
            },
    {
        if job.low > job.high {
            return Err(SyncError::InvalidRange { low: job.low, high: job.high });
        }
        let inner = Backfill {
            job_id: job.id,
            high: job.high,
            low: job.low,
            origin: Ghost(job.high as int),
            scanned: Ghost(Seq::empty()),
        };
        let worker = Worker::new(inner, chain, &job.addresses, config);
        assert(worker.found() =~= Seq::<Match>::empty());
        Ok(worker)
    }
}

/// Where the backfill manager stands in its loop.
#[derive(Clone, Copy, Debug, PartialEq, Eq, Structural)]
pub enum ManagerPhase {
    /// The jobs are to be rearranged and loaded
    Arranging,
    /// A generation of workers runs
    Running,
    /// The workers of a generation were told to end; `last` says that no
    /// generation follows
    Draining { last: bool },
    /// The manager has ended
    Stopped,
}

/// Why the backfill manager woke up while a generation ran.
#[derive(Clone, Copy, Debug, PartialEq, Eq, Structural)]
pub enum Wake {
    /// Shutdown was asked for
    Cancelled,
    /// A new job was created
    NewJob,
    /// The timer ran out
    Timer,
}

/// What the backfill manager learns.
#[derive(Clone, Copy, Debug, PartialEq, Eq, Structural)]
pub enum ManagerEvent {
    /// The jobs were rearranged, and this many are there now
    Arranged { jobs: usize },
    /// The manager woke up while a generation ran
    Woken(Wake),
    /// All the workers of the generation have ended
    Joined,
}

/// What the backfill manager asks for.
#[derive(Clone, Copy, Debug, PartialEq, Eq, Structural)]
pub enum ManagerAction {
    /// Rearrange the jobs in one transaction and load them
    Arrange,
    /// Start a worker for each job, of which at most `permits` run at once,
    /// then wait for shutdown, a new job or the timer
    Spawn { permits: usize },
    /// Tell the workers of the generation to end, and wait until they have
    Cancel,
    /// End
    Stop,
    /// Nothing: the event does not belong to this phase
    Ignore,
}

/// For how long the backfill manager lets a generation run before it
/// rearranges the jobs again, in seconds.
pub const WAKE_INTERVAL_SECS: u64 = 1;

/// Backfill manager
/// Rearranges the jobs and runs a generation of workers for them, again and
/// again
#[derive(Clone, Copy, Debug, PartialEq, Eq)]
pub struct BackfillManager {
    pub concurrency: usize,
    pub stop: StopStrategy,
    pub phase: ManagerPhase,
}

/// The phase that follows `phase` on `event`, and what the manager asks for.
pub open spec fn manager_step(
    stop: StopStrategy,
    concurrency: usize,
    phase: ManagerPhase,
    event: ManagerEvent,
) -> (ManagerPhase, ManagerAction) {
    match (phase, event) {
        (ManagerPhase::Arranging, ManagerEvent::Arranged { jobs }) => {
            if stop == StopStrategy::OnFinish && jobs == 0 {
                (ManagerPhase::Stopped, ManagerAction::Stop)
            } else {
                (ManagerPhase::Running, ManagerAction::Spawn { permits: concurrency })
            }
        },
        (ManagerPhase::Running, ManagerEvent::Woken(wake)) => (
            ManagerPhase::Draining { last: wake == Wake::Cancelled },
            ManagerAction::Cancel,
        ),
        (ManagerPhase::Draining { last }, ManagerEvent::Joined) => {
            if last {
                (ManagerPhase::Stopped, ManagerAction::Stop)
            } else {
                (ManagerPhase::Arranging, ManagerAction::Arrange)
            }
        },
        (ManagerPhase::Stopped, _) => (ManagerPhase::Stopped, ManagerAction::Stop),
        _ => (phase, ManagerAction::Ignore),
    }
}

impl BackfillManager {
    /// A manager that is about to rearrange the jobs for the first time.
    pub fn new(config: &SyncConfig, stop: StopStrategy) -> (manager: BackfillManager)
        ensures
            manager == (BackfillManager {
                concurrency: config.backfill_concurrency,
                stop,
                phase: ManagerPhase::Arranging,
            }),
    {
        BackfillManager {
            concurrency: config.backfill_concurrency,
            stop,
            phase: ManagerPhase::Arranging,
        }
    }

    /// One step of the manager's loop: a generation begins with the jobs
    /// rearranged and loaded, runs until the manager wakes, and ends when
    /// all its workers have ended. The manager ends after the generation in
    /// which shutdown was asked for, or, where it ends on finish, when no
    /// job is left.
    pub fn run(&mut self, event: ManagerEvent) -> (action: ManagerAction)
        ensures
            final(self).concurrency == old(self).concurrency,
            final(self).stop == old(self).stop,
            (final(self).phase, action) == manager_step(
                old(self).stop,
                old(self).concurrency,
                old(self).phase,
                event,
            ),
    {
        match (self.phase, event) {
            (ManagerPhase::Arranging, ManagerEvent::Arranged { jobs }) => {
                if self.stop.is_on_finish() && jobs == 0 {
                    self.phase = ManagerPhase::Stopped;
                    ManagerAction::Stop
                } else {
                    self.phase = ManagerPhase::Running;
                    ManagerAction::Spawn { permits: self.concurrency }
                }
            },
            (ManagerPhase::Running, ManagerEvent::Woken(wake)) => {
                let last = match wake {
                    Wake::Cancelled => true,
                    _ => false,
                };
                self.phase = ManagerPhase::Draining { last };
                ManagerAction::Cancel
            },
            (ManagerPhase::Draining { last }, ManagerEvent::Joined) => {
                if last {
                    self.phase = ManagerPhase::Stopped;
                    ManagerAction::Stop
                } else {
                    self.phase = ManagerPhase::Arranging;
                    ManagerAction::Arrange
                }
            },
            (ManagerPhase::Stopped, _) => ManagerAction::Stop,
            _ => ManagerAction::Ignore,
        }
    }

    /// Whether a task that has got its permit starts its worker: not where
    /// the generation was told to end in the meantime.
    pub fn admits(generation_cancelled: bool) -> (r: bool)
        ensures
            r == !generation_cancelled,
    {
        !generation_cancelled
    }
}

} // verus!
