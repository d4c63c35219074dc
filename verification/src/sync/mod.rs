pub mod backfill;
pub mod filter;
pub mod forward;
pub mod provider;
pub mod utils;

use vstd::prelude::*;

use crate::address_set::{
    lemma_sorted_no_duplicates, lemma_sorted_seq_exists, sorted_seq, AddressSet,
};
use crate::config::SyncConfig;
use crate::db::models::{Chain, CreateTx};
use crate::db::types::{Address, B256};
use self::filter::AddressFilter;
use self::provider::{BlockTx, Header, Log, Receipt, Transaction};
use self::utils::{lemma_topic_names_one, topic_as_address, topic_names};

verus! {

/// A match between an address and a transaction
#[derive(Clone, Copy, Debug, PartialEq, Eq)]
pub struct Match {
    pub address: Address,
    pub block_number: u64,
    pub hash: B256,
}

/// What a worker hands over to be written in one step: the match rows, and
/// the cursor to store once they are written.
#[derive(Debug, PartialEq, Eq)]
pub struct Flush {
    pub rows: Vec<CreateTx>,
    pub cursor: u64,
}

/// Why a worker cannot start or go on.
#[derive(Clone, Copy, Debug, PartialEq, Eq, Structural)]
pub enum SyncError {
    /// The row of the chain is not one that the store can hold
    InvalidChain,
    /// The job's low bound lies above its high bound
    InvalidRange { low: u64, high: u64 },
    /// The node does not hold a block of the job's range
    MissingBlock(u64),
}

/// One of the topics is `a`, padded.
pub open spec fn topics_name(topics: Seq<B256>, a: Address) -> bool {
    exists|t: int| 0 <= t < topics.len() && topic_names(#[trigger] topics[t], a)
}

/// A topic of one of the logs is `a`, padded.
pub open spec fn logs_name(logs: Seq<Log>, a: Address) -> bool {
    exists|l: int| 0 <= l < logs.len() && topics_name((#[trigger] logs[l]).topics@, a)
}

/// `a` is a candidate address of the transaction: its signer, its recipient,
/// or an address that a topic of one of its logs holds.
pub open spec fn is_candidate(tx: Transaction, receipt: Receipt, a: Address) -> bool {
    tx.signer == Some(a) || tx.to == Some(a) || logs_name(receipt.logs@, a)
}

/// The watched addresses among the candidates of the transaction.
pub open spec fn tx_match_set(watched: Set<Address>, tx: Transaction, receipt: Receipt) -> Set<
    Address,
> {
    Set::new(|a: Address| watched.contains(a) && is_candidate(tx, receipt, a))
}

/// One match of block `number` and transaction `hash` for each address.
pub open spec fn matches_of(addresses: Seq<Address>, number: u64, hash: B256) -> Seq<Match> {
    Seq::new(
        addresses.len(),
        |i: int| Match { address: addresses[i], block_number: number, hash },
    )
}

/// The matches of one transaction: one for each watched candidate, in
/// ascending order of the addresses.
pub open spec fn tx_matches(
    watched: Set<Address>,
    number: u64,
    tx: Transaction,
    receipt: Receipt,
) -> Seq<Match> {
    matches_of(sorted_seq(tx_match_set(watched, tx, receipt)), number, tx.hash)
}

/// The matches under one transaction id: none where the transaction or its
/// receipt is absent.
pub open spec fn slot_matches(watched: Set<Address>, number: u64, slot: BlockTx) -> Seq<Match> {
    match (slot.tx, slot.receipt) {
        (Some(tx), Some(receipt)) => tx_matches(watched, number, tx, receipt),
        _ => Seq::empty(),
    }
}

/// The matches of a block: those of its transactions, in their order.
pub open spec fn block_matches(watched: Set<Address>, number: u64, txs: Seq<BlockTx>) -> Seq<
    Match,
>
    decreases txs.len(),
{
    if txs.len() == 0 {
        Seq::empty()
    } else {
        block_matches(watched, number, txs.drop_last()) + slot_matches(watched, number, txs.last())
    }
}

/// The rows that a flush writes for the buffered matches.
pub open spec fn rows_of(buffer: Seq<Match>, chain_id: i32) -> Seq<CreateTx> {
    Seq::new(
        buffer.len(),
        |i: int|
            CreateTx {
                address: buffer[i].address,
                chain_id,
                hash: buffer[i].hash,
                block_number: buffer[i].block_number,
            },
    )
}

/// Whether a worker flushes: its buffer has reached its capacity, or it has
/// looked at the buffer `max_tries` times since the last flush.
pub open spec fn flush_due(buffered: nat, capacity: nat, tries: nat, max_tries: nat) -> bool {
    buffered >= capacity || tries >= max_tries
}

/// Match `m` stands for a watched candidate of the transaction under this
/// transaction id of block `number`.
pub open spec fn slot_holds(watched: Set<Address>, number: u64, slot: BlockTx, m: Match) -> bool {
    &&& slot.tx matches Some(tx)
    &&& slot.receipt matches Some(receipt)
    &&& m.block_number == number
    &&& m.hash == tx.hash
    &&& watched.contains(m.address)
    &&& is_candidate(tx, receipt, m.address)
}

/// Match `m` stands for a watched candidate of a transaction of block
/// `number`.
pub open spec fn block_holds(watched: Set<Address>, number: u64, txs: Seq<BlockTx>, m: Match) -> bool {
    exists|i: int| 0 <= i < txs.len() && slot_holds(watched, number, #[trigger] txs[i], m)
}

/// At most one address is what a topic names.
proof fn lemma_topic_set_finite(topic: B256)
    ensures
        Set::new(|a: Address| topic_names(topic, a)).finite(),
{
    let s = Set::new(|a: Address| topic_names(topic, a));
    if exists|a: Address| topic_names(topic, a) {
        let x = choose|a: Address| topic_names(topic, a);
        assert(s =~= set![x]) by {
            assert forall|a: Address| s.contains(a) implies a == x by {
                lemma_topic_names_one(topic, a, x);
            }
        }
    } else {
        assert(s =~= Set::<Address>::empty());
    }
}

proof fn lemma_topics_set_finite(topics: Seq<B256>)
    ensures
        Set::new(|a: Address| topics_name(topics, a)).finite(),
    decreases topics.len(),
{
    let s = Set::new(|a: Address| topics_name(topics, a));
    if topics.len() == 0 {
        assert(s =~= Set::<Address>::empty());
    } else {
        let rest = topics.drop_last();
        let r = Set::new(|a: Address| topics_name(rest, a));
        let n = Set::new(|a: Address| topic_names(topics.last(), a));
        lemma_topics_set_finite(rest);
        lemma_topic_set_finite(topics.last());
        assert(s =~= r.union(n)) by {
            assert forall|a: Address| s.contains(a) <==> r.union(n).contains(a) by {
                assert(topics.take(topics.len() - 1) =~= rest);
                assert(topics.take(topics.len() as int) =~= topics);
                lemma_topics_name_step(topics, topics.len() - 1, a);
            }
        }
    }
}

proof fn lemma_logs_set_finite(logs: Seq<Log>)
    ensures
        Set::new(|a: Address| logs_name(logs, a)).finite(),
    decreases logs.len(),
{
    let s = Set::new(|a: Address| logs_name(logs, a));
    if logs.len() == 0 {
        assert(s =~= Set::<Address>::empty());
    } else {
        let rest = logs.drop_last();
        let r = Set::new(|a: Address| logs_name(rest, a));
        let n = Set::new(|a: Address| topics_name(logs.last().topics@, a));
        lemma_logs_set_finite(rest);
        lemma_topics_set_finite(logs.last().topics@);
        assert(s =~= r.union(n)) by {
            assert forall|a: Address| s.contains(a) <==> r.union(n).contains(a) by {
                assert(logs.take(logs.len() - 1) =~= rest);
                assert(logs.take(logs.len() as int) =~= logs);
                lemma_logs_name_step(logs, logs.len() - 1, a);
            }
        }
    }
}

/// A transaction has finitely many candidate addresses.
pub proof fn lemma_candidates_finite(tx: Transaction, receipt: Receipt)
    ensures
        Set::new(|a: Address| is_candidate(tx, receipt, a)).finite(),
{
    let s = Set::new(|a: Address| is_candidate(tx, receipt, a));
    let l = Set::new(|a: Address| logs_name(receipt.logs@, a));
    let from = Set::new(|a: Address| tx.signer == Some(a));
    let to = Set::new(|a: Address| tx.to == Some(a));
    lemma_logs_set_finite(receipt.logs@);
    match tx.signer {
        Some(x) => {
            assert(from =~= set![x]);
        },
        None => {
            assert(from =~= Set::<Address>::empty());
        },
    }
    match tx.to {
        Some(x) => {
            assert(to =~= set![x]);
        },
        None => {
            assert(to =~= Set::<Address>::empty());
        },
    }
    assert(s =~= from.union(to).union(l));
}

/// The matches of a transaction are one for each watched address among its
/// candidates, and no others.
pub proof fn lemma_tx_matches_exact(
    watched: Set<Address>,
    number: u64,
    tx: Transaction,
    receipt: Receipt,
    m: Match,
)
    ensures
        tx_matches(watched, number, tx, receipt).contains(m) <==> (m.block_number == number
            && m.hash == tx.hash && watched.contains(m.address) && is_candidate(
            tx,
            receipt,
            m.address,
        )),
{
    let set = tx_match_set(watched, tx, receipt);
    let all = Set::new(|a: Address| is_candidate(tx, receipt, a));
    lemma_candidates_finite(tx, receipt);
    assert(set.subset_of(all));
    vstd::set_lib::lemma_set_subset_finite(all, set);
    lemma_sorted_seq_exists(set);
    let q = sorted_seq(set);
    let ms = tx_matches(watched, number, tx, receipt);
    if ms.contains(m) {
        let i = choose|i: int| 0 <= i < ms.len() && ms[i] == m;
        assert(q.to_set().contains(q[i]));
    }
    if m.block_number == number && m.hash == tx.hash && set.contains(m.address) {
        assert(q.to_set().contains(m.address));
        let i = choose|i: int| 0 <= i < q.len() && q[i] == m.address;
        assert(ms[i] == m);
    }
}

/// One transaction gives an address one match at most.
pub proof fn lemma_tx_matches_distinct(
    watched: Set<Address>,
    number: u64,
    tx: Transaction,
    receipt: Receipt,
)
    ensures
        tx_matches(watched, number, tx, receipt).no_duplicates(),
{
    let set = tx_match_set(watched, tx, receipt);
    let all = Set::new(|a: Address| is_candidate(tx, receipt, a));
    lemma_candidates_finite(tx, receipt);
    assert(set.subset_of(all));
    vstd::set_lib::lemma_set_subset_finite(all, set);
    lemma_sorted_seq_exists(set);
    let q = sorted_seq(set);
    lemma_sorted_no_duplicates(q);
    let ms = tx_matches(watched, number, tx, receipt);
    assert forall|i: int, j: int| 0 <= i < ms.len() && 0 <= j < ms.len() && i != j implies ms[i]
        != ms[j] by {
        assert(q[i] != q[j]);
    }
}

/// The matches of a block are one for each watched address among the
/// candidates of each of its transactions that has a receipt, and no others.
pub proof fn lemma_block_matches_exact(
    watched: Set<Address>,
    number: u64,
    txs: Seq<BlockTx>,
    m: Match,
)
    ensures
        block_matches(watched, number, txs).contains(m) <==> block_holds(watched, number, txs, m),
    decreases txs.len(),
{
    if txs.len() > 0 {
        let rest = txs.drop_last();
        let last = txs.last();
        let head = block_matches(watched, number, rest);
        let tail = slot_matches(watched, number, last);
        lemma_block_matches_exact(watched, number, rest, m);
        match (last.tx, last.receipt) {
            (Some(tx), Some(receipt)) => {
                lemma_tx_matches_exact(watched, number, tx, receipt, m);
            },
            _ => {},
        }
        assert(tail.contains(m) <==> slot_holds(watched, number, last, m));
        let all = head + tail;
        if all.contains(m) {
            let i = choose|i: int| 0 <= i < all.len() && all[i] == m;
            if i < head.len() {
                assert(head[i] == m);
            } else {
                assert(tail[i - head.len()] == m);
            }
        }
        if head.contains(m) {
            let i = choose|i: int| 0 <= i < head.len() && head[i] == m;
            assert(all[i] == m);
        }
        if tail.contains(m) {
            let i = choose|i: int| 0 <= i < tail.len() && tail[i] == m;
            assert(all[head.len() + i] == m);
        }
        if block_holds(watched, number, rest, m) {
            let i = choose|i: int|
                0 <= i < rest.len() && slot_holds(watched, number, #[trigger] rest[i], m);
            assert(slot_holds(watched, number, txs[i], m));
        }
        if block_holds(watched, number, txs, m) {
            let i = choose|i: int|
                0 <= i < txs.len() && slot_holds(watched, number, #[trigger] txs[i], m);
            if i < rest.len() {
                assert(slot_holds(watched, number, rest[i], m));
            }
        }
        if slot_holds(watched, number, last, m) {
            assert(slot_holds(watched, number, txs[txs.len() - 1], m));
        }
    }
}

proof fn lemma_topics_name_step(topics: Seq<B256>, n: int, a: Address)
    requires
        0 <= n < topics.len(),
    ensures
        topics_name(topics.take(n + 1), a) <==> (topics_name(topics.take(n), a) || topic_names(
            topics[n],
            a,
        )),
{
    let t0 = topics.take(n);
    let t1 = topics.take(n + 1);
    if topics_name(t1, a) {
        let t = choose|t: int| 0 <= t < t1.len() && topic_names(#[trigger] t1[t], a);
        if t < n {
            assert(topic_names(t0[t], a));
        }
    }
    if topics_name(t0, a) {
        let t = choose|t: int| 0 <= t < t0.len() && topic_names(#[trigger] t0[t], a);
        assert(topic_names(t1[t], a));
    }
    if topic_names(topics[n], a) {
        assert(topic_names(t1[n], a));
    }
}

proof fn lemma_logs_name_step(logs: Seq<Log>, n: int, a: Address)
    requires
        0 <= n < logs.len(),
    ensures
        logs_name(logs.take(n + 1), a) <==> (logs_name(logs.take(n), a) || topics_name(
            logs[n].topics@,
            a,
        )),
{
    let t0 = logs.take(n);
    let t1 = logs.take(n + 1);
    if logs_name(t1, a) {
        let t = choose|t: int| 0 <= t < t1.len() && topics_name((#[trigger] t1[t]).topics@, a);
        if t < n {
            assert(topics_name(t0[t].topics@, a));
        }
    }
    if logs_name(t0, a) {
        let t = choose|t: int| 0 <= t < t0.len() && topics_name((#[trigger] t0[t]).topics@, a);
        assert(topics_name(t1[t].topics@, a));
    }
    if topics_name(logs[n].topics@, a) {
        assert(topics_name(t1[n].topics@, a));
    }
}

/// Puts `a` into `set` where it is watched.
fn keep_if_watched(filter: &AddressFilter, set: &mut AddressSet, a: Address)
    ensures
        forall|b: Address|
            #[trigger] final(set)@.contains(b) <==> (old(set)@.contains(b) || (b == a
                && filter@.contains(a))),
{
    if filter.contains(&a) {
        set.insert(a);
    }
}

/// The watched addresses among the candidates of a transaction.
pub fn matched_addresses(filter: &AddressFilter, tx: &Transaction, receipt: &Receipt) -> (set:
    AddressSet)
    ensures
        set@ == tx_match_set(filter@, *tx, *receipt),
{
    let mut set = AddressSet::new();
    let ghost watched = filter@;
    let ghost logs = receipt.logs@;
    let mut l: usize = 0;
    while l < receipt.logs.len()
        invariant
            logs == receipt.logs@,
            watched == filter@,
            0 <= l <= logs.len(),
            forall|a: Address|
                #[trigger] set@.contains(a) <==> (watched.contains(a) && logs_name(
                    logs.take(l as int),
                    a,
                )),
        decreases logs.len() - l,
    {
        let ghost topics = logs[l as int].topics@;
        let ghost before = set@;
        let mut t: usize = 0;
        while t < receipt.logs[l].topics.len()
            invariant
                logs == receipt.logs@,
                watched == filter@,
                0 <= l < logs.len(),
                topics == logs[l as int].topics@,
                0 <= t <= topics.len(),
                forall|a: Address|
                    #[trigger] set@.contains(a) <==> (before.contains(a) || (watched.contains(a)
                        && topics_name(topics.take(t as int), a))),
            decreases topics.len() - t,
        {
            let ghost prior = set@;
            let topic = receipt.logs[l].topics[t];
            match topic_as_address(&topic) {
                Some(a) => {
                    keep_if_watched(filter, &mut set, a);
                    proof {
                        assert forall|b: Address|
                            #[trigger] set@.contains(b) <==> (before.contains(b) || (
                            watched.contains(b) && topics_name(topics.take(t + 1), b))) by {
                            lemma_topics_name_step(topics, t as int, b);
                            assert(prior.contains(b) <==> (before.contains(b) || (watched.contains(
                                b,
                            ) && topics_name(topics.take(t as int), b))));
                            if topic_names(topic, b) {
                                lemma_topic_names_one(topic, a, b);
                            }
                        }
                    }
                },
                None => {
                    proof {
                        assert forall|b: Address|
                            #[trigger] set@.contains(b) <==> (before.contains(b) || (
                            watched.contains(b) && topics_name(topics.take(t + 1), b))) by {
                            lemma_topics_name_step(topics, t as int, b);
                        }
                    }
                },
            }
            t += 1;
        }
        proof {
            assert(topics.take(t as int) =~= topics);
            assert forall|a: Address|
                #[trigger] set@.contains(a) <==> (watched.contains(a) && logs_name(
                    logs.take(l + 1),
                    a,
                )) by {
                lemma_logs_name_step(logs, l as int, a);
                assert(before.contains(a) <==> (watched.contains(a) && logs_name(
                    logs.take(l as int),
                    a,
                )));
            }
        }
        l += 1;
    }
    assert(logs.take(l as int) =~= logs);
    let ghost from_logs = set@;
    match tx.signer {
        Some(a) => {
            keep_if_watched(filter, &mut set, a);
        },
        None => {},
    }
    let ghost with_signer = set@;
    match tx.to {
        Some(a) => {
            keep_if_watched(filter, &mut set, a);
        },
        None => {},
    }
    proof {
        assert forall|a: Address|
            set@.contains(a) <==> #[trigger] tx_match_set(watched, *tx, *receipt).contains(a) by {
            assert(from_logs.contains(a) <==> (watched.contains(a) && logs_name(logs, a)));
            assert(with_signer.contains(a) <==> (from_logs.contains(a) || (tx.signer == Some(a)
                && watched.contains(a))));
            assert(set@.contains(a) <==> (with_signer.contains(a) || (tx.to == Some(a)
                && watched.contains(a))));
        }
        assert(set@ =~= tx_match_set(watched, *tx, *receipt));
    }
    set
}

/// The state that a forward and a backfill worker share: the chain, the
/// filter of watched addresses, and the buffer of matches with its flush
/// policy.
pub struct Worker<T> {
    /// What the kind of worker adds to the shared state
    inner: T,
    /// Chain configuration
    chain: Chain,
    /// The addresses to search for
    filter: AddressFilter,
    /// Buffer holding matches to be written to the database
    buffer: Vec<Match>,
    /// Desired buffer capacity, and threshold at which to flush it
    buffer_capacity: usize,
    /// How many times to check buffer capacity before forcing a flush
    max_buffer_tries: usize,
    /// How many tries since last flush
    current_buffer_tries: usize,
    /// All the matches that were handed over in flushes so far
    flushed: Ghost<Seq<Match>>,
}

impl<T> Worker<T> {
    /// What the kind of worker adds to the shared state.
    pub closed spec fn inner(&self) -> T {
        self.inner
    }

    /// The row of the chain, as the worker knows it.
    pub closed spec fn chain(&self) -> Chain {
        self.chain
    }

    /// The addresses that the worker searches for.
    pub closed spec fn watched(&self) -> Set<Address> {
        self.filter@
    }

    /// The matches that wait to be flushed.
    pub closed spec fn buffer(&self) -> Seq<Match> {
        self.buffer@
    }

    pub closed spec fn buffer_capacity(&self) -> nat {
        self.buffer_capacity as nat
    }

    pub closed spec fn max_buffer_tries(&self) -> nat {
        self.max_buffer_tries as nat
    }

    /// How often the worker has looked at its buffer since the last flush.
    pub closed spec fn current_buffer_tries(&self) -> nat {
        self.current_buffer_tries as nat
    }

    /// The matches that the worker has handed over in flushes, in the order
    /// in which it found them.
    pub closed spec fn flushed(&self) -> Seq<Match> {
        self.flushed@
    }

    /// All the matches that the worker has found.
    pub open spec fn found(&self) -> Seq<Match> {
        self.flushed() + self.buffer()
    }

    /// The count of tries has stayed below its limit since the last flush.
    pub open spec fn tries_wf(&self) -> bool {
        self.current_buffer_tries() == 0 || self.current_buffer_tries() < self.max_buffer_tries()
    }

    /// A worker with an empty buffer that searches for `addresses`.
    fn new(inner: T, chain: Chain, addresses: &Vec<Address>, config: &SyncConfig) -> (worker:
        Self)
        ensures
            worker.inner() == inner,
            worker.chain() == chain,
            worker.watched() == addresses@.to_set(),
            worker.buffer() == Seq::<Match>::empty(),
            worker.flushed() == Seq::<Match>::empty(),
            worker.buffer_capacity() == config.buffer_size,
            worker.max_buffer_tries() == config.buffer_tries,
            worker.current_buffer_tries() == 0,
    {
        Worker {
            inner,
            chain,
            filter: AddressFilter::new(addresses),
            buffer: Vec::new(),
            buffer_capacity: config.buffer_size,
            max_buffer_tries: config.buffer_tries,
            current_buffer_tries: 0,
            flushed: Ghost(Seq::empty()),
        }
    }

    /// The row of the chain, as the worker knows it.
    pub fn chain_row(&self) -> (chain: Chain)
        ensures
            chain == self.chain(),
    {
        self.chain
    }

    /// The number of matches that wait to be flushed.
    pub fn buffered(&self) -> (n: usize)
        ensures
            n == self.buffer().len(),
    {
        self.buffer.len()
    }

    /// The number of addresses that the worker searches for.
    pub fn watched_count(&self) -> (n: usize)
        ensures
            n == self.watched().len(),
    {
        self.filter.len()
    }

    /// Whether the worker searches for `a`.
    pub fn is_watched(&self, a: &Address) -> (r: bool)
        ensures
            r == self.watched().contains(*a),
    {
        self.filter.contains(a)
    }

    /// Searches for `a` too from now on.
    fn watch(&mut self, a: Address)
        ensures
            final(self).watched() == old(self).watched().insert(a),
            final(self).inner() == old(self).inner(),
            final(self).chain() == old(self).chain(),
            final(self).buffer() == old(self).buffer(),
            final(self).flushed() == old(self).flushed(),
            final(self).buffer_capacity() == old(self).buffer_capacity(),
            final(self).max_buffer_tries() == old(self).max_buffer_tries(),
            final(self).current_buffer_tries() == old(self).current_buffer_tries(),
    {
        self.filter.insert(a);
    }

    /// Records that the chain's last known block was stored as `last_known`.
    fn advance_tip(&mut self, last_known: u64)
        ensures
            final(self).chain().chain_id == old(self).chain().chain_id,
            final(self).chain().start_block == old(self).chain().start_block,
            final(self).chain().last_known_block == if last_known >= old(
                self,
            ).chain().last_known_block {
                last_known
            } else {
                old(self).chain().last_known_block
            },
            final(self).inner() == old(self).inner(),
            final(self).watched() == old(self).watched(),
            final(self).buffer() == old(self).buffer(),
            final(self).flushed() == old(self).flushed(),
            final(self).buffer_capacity() == old(self).buffer_capacity(),
            final(self).max_buffer_tries() == old(self).max_buffer_tries(),
            final(self).current_buffer_tries() == old(self).current_buffer_tries(),
    {
        self.chain.advance(last_known);
    }

    /// Empties the buffer into the rows that a flush writes.
    pub fn drain_buffer(&mut self) -> (rows: Vec<CreateTx>)
        ensures
            rows@ == rows_of(old(self).buffer(), old(self).chain().chain_id),
            final(self).buffer() == Seq::<Match>::empty(),
            final(self).flushed() == old(self).flushed() + old(self).buffer(),
            final(self).inner() == old(self).inner(),
            final(self).chain() == old(self).chain(),
            final(self).watched() == old(self).watched(),
            final(self).buffer_capacity() == old(self).buffer_capacity(),
            final(self).max_buffer_tries() == old(self).max_buffer_tries(),
            final(self).current_buffer_tries() == old(self).current_buffer_tries(),
    {
        let mut rows: Vec<CreateTx> = Vec::new();
        let mut i: usize = 0;
        while i < self.buffer.len()
            invariant
                self.buffer@ == old(self).buffer@,
                0 <= i <= self.buffer@.len(),
                rows@ == rows_of(self.buffer@.take(i as int), self.chain.chain_id),
                *self == *old(self),
            decreases self.buffer@.len() - i,
        {
            let m = self.buffer[i];
            rows.push(
                CreateTx {
                    address: m.address,
                    chain_id: self.chain.chain_id,
                    hash: m.hash,
                    block_number: m.block_number,
                },
            );
            assert(rows@ =~= rows_of(self.buffer@.take(i + 1), self.chain.chain_id));
            i += 1;
        }
        assert(self.buffer@.take(i as int) =~= self.buffer@);
        self.flushed = Ghost(self.flushed@ + self.buffer@);
        self.buffer.clear();
        rows
    }

    /// Empties the buffer into a flush that stores `cursor`, and starts to
    /// count the tries anew.
    fn flush_at(&mut self, cursor: u64) -> (flush: Flush)
        ensures
            flush.cursor == cursor,
            flush.rows@ == rows_of(old(self).buffer(), old(self).chain().chain_id),
            final(self).buffer() == Seq::<Match>::empty(),
            final(self).flushed() == old(self).flushed() + old(self).buffer(),
            final(self).current_buffer_tries() == 0,
            final(self).inner() == old(self).inner(),
            final(self).chain() == old(self).chain(),
            final(self).watched() == old(self).watched(),
            final(self).buffer_capacity() == old(self).buffer_capacity(),
            final(self).max_buffer_tries() == old(self).max_buffer_tries(),
    {
        let rows = self.drain_buffer();
        self.current_buffer_tries = 0;
        Flush { rows, cursor }
    }

    /// Counts one try, and flushes with `cursor` where a flush is due.
    fn maybe_flush_at(&mut self, cursor: u64) -> (flush: Option<Flush>)
        requires
            old(self).tries_wf(),
        ensures
            final(self).tries_wf(),
            final(self).inner() == old(self).inner(),
            final(self).chain() == old(self).chain(),
            final(self).watched() == old(self).watched(),
            final(self).buffer_capacity() == old(self).buffer_capacity(),
            final(self).max_buffer_tries() == old(self).max_buffer_tries(),
            final(self).found() == old(self).found(),
            flush_due(
                old(self).buffer().len(),
                old(self).buffer_capacity(),
                old(self).current_buffer_tries() + 1,
                old(self).max_buffer_tries(),
            ) ==> {
                &&& flush matches Some(f)
                &&& f.cursor == cursor
                &&& f.rows@ == rows_of(old(self).buffer(), old(self).chain().chain_id)
                &&& final(self).buffer() == Seq::<Match>::empty()
                &&& final(self).current_buffer_tries() == 0
            },
            !flush_due(
                old(self).buffer().len(),
                old(self).buffer_capacity(),
                old(self).current_buffer_tries() + 1,
                old(self).max_buffer_tries(),
            ) ==> {
                &&& flush is None
                &&& final(self).buffer() == old(self).buffer()
                &&& final(self).flushed() == old(self).flushed()
                &&& final(self).current_buffer_tries() == old(self).current_buffer_tries() + 1
            },
    {
        self.current_buffer_tries += 1;
        if self.buffer.len() >= self.buffer_capacity || self.current_buffer_tries
            >= self.max_buffer_tries {
            let flush = self.flush_at(cursor);
            assert(self.flushed@ + self.buffer@ =~= old(self).flushed@ + old(self).buffer@);
            Some(flush)
        } else {
            None
        }
    }

    /// Searches the transactions of the block for the watched addresses and
    /// puts a match into the buffer for each one found. The transactions are
    /// what the node holds under the ids of the block, in their order.
    fn process_block(&mut self, header: &Header, txs: &Vec<BlockTx>)
        ensures
            final(self).buffer() == old(self).buffer() + block_matches(
                old(self).watched(),
                header.number,
                txs@,
            ),
            final(self).inner() == old(self).inner(),
            final(self).chain() == old(self).chain(),
            final(self).watched() == old(self).watched(),
            final(self).flushed() == old(self).flushed(),
            final(self).buffer_capacity() == old(self).buffer_capacity(),
            final(self).max_buffer_tries() == old(self).max_buffer_tries(),
            final(self).current_buffer_tries() == old(self).current_buffer_tries(),
    {
        let ghost watched = self.filter@;
        let number = header.number;
        let mut i: usize = 0;
        while i < txs.len()
            invariant
                0 <= i <= txs@.len(),
                watched == self.filter@,
                number == header.number,
                self.buffer@ == old(self).buffer@ + block_matches(
                    watched,
                    number,
                    txs@.take(i as int),
                ),
                self.inner == old(self).inner,
                self.chain == old(self).chain,
                self.filter@ == old(self).filter@,
                self.flushed == old(self).flushed,
                self.buffer_capacity == old(self).buffer_capacity,
                self.max_buffer_tries == old(self).max_buffer_tries,
                self.current_buffer_tries == old(self).current_buffer_tries,
            decreases txs@.len() - i,
        {
            let ghost start = self.buffer@;
            match (&txs[i].tx, &txs[i].receipt) {
                (Some(tx), Some(receipt)) => {
                    let set = matched_addresses(&self.filter, tx, receipt);
                    let n = set.len();
                    let mut k: usize = 0;
                    while k < n
                        invariant
                            n == set.seq().len(),
                            set.seq() == sorted_seq(set@),
                            0 <= k <= n,
                            self.buffer@ == start + matches_of(
                                set.seq().take(k as int),
                                number,
                                tx.hash,
                            ),
                            self.inner == old(self).inner,
                            self.chain == old(self).chain,
                            self.filter@ == old(self).filter@,
                            self.flushed == old(self).flushed,
                            self.buffer_capacity == old(self).buffer_capacity,
                            self.max_buffer_tries == old(self).max_buffer_tries,
                            self.current_buffer_tries == old(self).current_buffer_tries,
                        decreases n - k,
                    {
                        let address = set.get(k);
                        self.buffer.push(Match { address, block_number: number, hash: tx.hash });
                        assert(self.buffer@ =~= start + matches_of(
                            set.seq().take(k + 1),
                            number,
                            tx.hash,
                        ));
                        k += 1;
                    }
                    assert(set.seq().take(k as int) =~= set.seq());
                },
                _ => {
                    assert(self.buffer@ =~= start + Seq::<Match>::empty());
                },
            }
            proof {
                let t1 = txs@.take(i + 1);
                assert(t1.drop_last() =~= txs@.take(i as int));
                assert(t1.last() == txs@[i as int]);
                assert(self.buffer@ == start + slot_matches(watched, number, txs@[i as int]));
                assert(self.buffer@ =~= old(self).buffer@ + block_matches(watched, number, t1));
            }
            i += 1;
        }
        assert(txs@.take(i as int) =~= txs@);
    }
}

} // verus!
