use iron_indexer::config::SyncConfig;
use iron_indexer::db::models::{Chain, CreateTx};
use iron_indexer::db::types::{Address, B256, U256};
use iron_indexer::sync::filter::AddressFilter;
use iron_indexer::sync::forward::Forward;
use iron_indexer::sync::provider::{BlockTx, Log, Receipt, Transaction};
use iron_indexer::sync::utils::topic_as_address;
use iron_indexer::sync::{matched_addresses, Worker};

fn addr(id: u8) -> Address {
    Address::repeat_byte(id)
}

fn topic_of(a: Address) -> B256 {
    let mut bytes = [0u8; 32];
    bytes[12..].copy_from_slice(&a.0);
    B256(bytes)
}

fn tx(hash: u8, signer: Option<Address>, to: Option<Address>) -> Transaction {
    Transaction { hash: B256::repeat_byte(hash), signer, to, value: U256([0; 32]) }
}

fn receipt(topics: Vec<Vec<B256>>) -> Receipt {
    Receipt { logs: topics.into_iter().map(|topics| Log { topics }).collect() }
}

fn slot(t: Transaction, r: Receipt) -> BlockTx {
    BlockTx { tx: Some(t), receipt: Some(r) }
}

fn config(buffer_size: usize, buffer_tries: usize) -> SyncConfig {
    SyncConfig { buffer_size, buffer_tries, backfill_concurrency: 10 }
}

fn chain(last_known_block: u64) -> Chain {
    Chain { chain_id: 31337, start_block: 1, last_known_block }
}

#[test]
fn topic_with_zero_padding_is_an_address() {
    let x = Address([
        0xde, 0xad, 0xbe, 0xef, 1, 2, 3, 4, 5, 6, 7, 8, 9, 10, 11, 12, 13, 14, 15, 16,
    ]);
    assert_eq!(topic_as_address(&topic_of(x)), Some(x));
}

#[test]
fn topic_with_nonzero_padding_is_no_address() {
    for i in 0..12 {
        let mut t = topic_of(addr(0x11));
        t.0[i] = 1;
        assert_eq!(topic_as_address(&t), None);
    }
    assert_eq!(topic_as_address(&B256::repeat_byte(0xff)), None);
}

#[test]
fn zero_topic_is_the_zero_address() {
    assert_eq!(topic_as_address(&B256([0; 32])), Some(Address([0; 20])));
}

#[test]
fn candidates_are_signer_recipient_and_topics() {
    let filter = AddressFilter::new(&vec![addr(1), addr(2), addr(3), addr(4)]);
    let t = tx(9, Some(addr(3)), Some(addr(1)));
    let r = receipt(vec![
        vec![B256::repeat_byte(0xaa), topic_of(addr(2))],
        vec![],
        vec![topic_of(addr(7)), topic_of(addr(1))],
    ]);
    let set = matched_addresses(&filter, &t, &r);
    assert_eq!(set.to_vec(), vec![addr(1), addr(2), addr(3)]);
}

#[test]
fn unwatched_candidates_are_dropped() {
    let filter = AddressFilter::new(&vec![addr(5)]);
    let t = tx(9, Some(addr(3)), None);
    let r = receipt(vec![vec![topic_of(addr(2))]]);
    assert!(matched_addresses(&filter, &t, &r).is_empty());
}

fn worker_at(block: u64, ids: &[u8], config: &SyncConfig) -> Worker<Forward> {
    let addresses: Vec<Address> = ids.iter().map(|i| addr(*i)).collect();
    Forward::new(chain(block - 1), &addresses, config).unwrap()
}

#[test]
fn process_block_pushes_one_match_per_address_and_transaction() {
    let mut worker = worker_at(42, &[1, 2], &config(1000, 1000));
    let txs = vec![
        slot(tx(0x10, Some(addr(2)), Some(addr(1))), receipt(vec![vec![topic_of(addr(1))]])),
        BlockTx { tx: None, receipt: Some(receipt(vec![vec![topic_of(addr(1))]])) },
        BlockTx { tx: Some(tx(0x11, Some(addr(1)), None)), receipt: None },
        slot(tx(0x12, Some(addr(9)), None), receipt(vec![])),
        slot(tx(0x13, None, Some(addr(2))), receipt(vec![])),
    ];
    assert_eq!(worker.scan(&txs), None);
    assert_eq!(worker.buffered(), 3);
    let rows = worker.drain_buffer();
    assert_eq!(
        rows,
        vec![
            CreateTx {
                address: addr(1),
                chain_id: 31337,
                hash: B256::repeat_byte(0x10),
                block_number: 42
            },
            CreateTx {
                address: addr(2),
                chain_id: 31337,
                hash: B256::repeat_byte(0x10),
                block_number: 42
            },
            CreateTx {
                address: addr(2),
                chain_id: 31337,
                hash: B256::repeat_byte(0x13),
                block_number: 42
            },
        ]
    );
    assert_eq!(worker.buffered(), 0);
    assert!(worker.drain_buffer().is_empty());
}

#[test]
fn empty_block_pushes_nothing() {
    let mut worker = worker_at(1, &[1], &config(1000, 1000));
    assert_eq!(worker.scan(&Vec::new()), None);
    assert_eq!(worker.buffered(), 0);
    assert_eq!(worker.next_block(), 2);
}

#[test]
fn flush_is_due_at_capacity() {
    let mut worker = worker_at(5, &[1], &config(2, 1000));
    let one = vec![slot(tx(1, Some(addr(1)), None), receipt(vec![]))];
    assert_eq!(worker.scan(&one), None);
    let flush = worker.scan(&one).unwrap();
    assert_eq!(flush.cursor, 6);
    assert_eq!(flush.rows.len(), 2);
    assert_eq!(flush.rows[0].block_number, 5);
    assert_eq!(flush.rows[1].block_number, 6);
    assert_eq!(worker.buffered(), 0);
}

#[test]
fn flush_is_due_after_max_tries() {
    let mut worker = worker_at(1, &[1], &config(1000, 3));
    assert_eq!(worker.maybe_flush(), None);
    assert_eq!(worker.scan(&Vec::new()), None);
    let flush = worker.scan(&Vec::new()).unwrap();
    assert_eq!(flush.cursor, 2);
    assert!(flush.rows.is_empty());
    assert_eq!(worker.maybe_flush(), None);
    assert_eq!(worker.maybe_flush(), None);
    assert_eq!(worker.maybe_flush().unwrap().cursor, 3);
}

#[test]
fn a_capacity_of_zero_flushes_every_time() {
    let mut worker = worker_at(1, &[1], &config(0, 1000));
    assert_eq!(worker.maybe_flush().map(|f| f.cursor), Some(1));
    assert_eq!(worker.scan(&Vec::new()).map(|f| f.cursor), Some(1));
    assert_eq!(worker.scan(&Vec::new()).map(|f| f.cursor), Some(2));
}

#[test]
fn flush_empties_the_buffer_and_restarts_the_count() {
    let mut worker = worker_at(5, &[1], &config(1000, 2));
    let one = vec![slot(tx(1, Some(addr(1)), None), receipt(vec![]))];
    assert_eq!(worker.scan(&one), None);
    let flush = worker.flush();
    assert_eq!(flush.cursor, 6);
    assert_eq!(flush.rows.len(), 1);
    assert_eq!(worker.buffered(), 0);
    assert_eq!(worker.maybe_flush(), None);
    assert!(worker.maybe_flush().is_some());
}

#[test]
fn new_accounts_are_searched_for_from_the_next_block_on() {
    let mut worker = worker_at(9, &[], &config(1000, 1000));
    assert!(!worker.is_watched(&addr(4)));
    let txs = vec![slot(tx(1, None, Some(addr(4))), receipt(vec![]))];
    assert_eq!(worker.scan(&txs), None);
    assert_eq!(worker.buffered(), 0);
    worker.process_new_accounts(&vec![addr(4)]);
    assert!(worker.is_watched(&addr(4)));
    assert_eq!(worker.watched_count(), 1);
    let txs = vec![slot(tx(2, None, Some(addr(4))), receipt(vec![]))];
    assert_eq!(worker.scan(&txs), None);
    assert_eq!(worker.buffered(), 1);
}
