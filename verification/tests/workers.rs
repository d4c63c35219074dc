use iron_indexer::config::SyncConfig;
use iron_indexer::db::models::{BackfillJob, BackfillJobWithId, Chain, CreateTx};
use iron_indexer::db::types::{Address, B256, U256};
use iron_indexer::rearrange::rearrange;
use iron_indexer::sync::backfill::{
    Backfill, BackfillAction, BackfillEvent, BackfillManager, ManagerAction, ManagerEvent,
    ManagerPhase, StopStrategy, Wake,
};
use iron_indexer::sync::forward::{has_new_block, Forward, ForwardAction, ForwardEvent};
use iron_indexer::sync::provider::{BlockTx, Receipt, Transaction};
use iron_indexer::sync::SyncError;

fn addr(id: u8) -> Address {
    Address::repeat_byte(id)
}

fn config(buffer_size: usize, buffer_tries: usize) -> SyncConfig {
    SyncConfig { buffer_size, buffer_tries, backfill_concurrency: 10 }
}

fn payment_to(a: Address, hash: u8) -> Vec<BlockTx> {
    vec![BlockTx {
        tx: Some(Transaction {
            hash: B256::repeat_byte(hash),
            signer: Some(addr(0xee)),
            to: Some(a),
            value: U256([0; 32]),
        }),
        receipt: Some(Receipt { logs: Vec::new() }),
    }]
}

fn row(a: Address, hash: u8, block_number: u64) -> CreateTx {
    CreateTx { address: a, chain_id: 1, hash: B256::repeat_byte(hash), block_number }
}

#[test]
fn forward_starts_after_the_last_known_block() {
    let chain = Chain { chain_id: 1, start_block: 1, last_known_block: 50 };
    let worker = Forward::new(chain, &vec![addr(1)], &config(1000, 1000)).unwrap();
    assert_eq!(worker.next_block(), 51);
    assert_eq!(worker.chain_row(), chain);
}

#[test]
fn forward_refuses_an_invalid_chain() {
    let behind = Chain { chain_id: 1, start_block: 10, last_known_block: 5 };
    assert_eq!(
        Forward::new(behind, &Vec::new(), &config(1, 1)).err(),
        Some(SyncError::InvalidChain)
    );
    let full = Chain { chain_id: 1, start_block: 1, last_known_block: u64::MAX };
    assert_eq!(
        Forward::new(full, &Vec::new(), &config(1, 1)).err(),
        Some(SyncError::InvalidChain)
    );
}

#[test]
fn forward_catch_up() {
    let a = addr(0xa);
    let chain = Chain { chain_id: 1, start_block: 1, last_known_block: 50 };
    let mut worker = Forward::new(chain, &vec![a], &config(1000, 50)).unwrap();
    let mut rows: Vec<CreateTx> = Vec::new();
    let mut cursors: Vec<u64> = Vec::new();
    for block in 51..=100u64 {
        assert_eq!(worker.next_block(), block);
        let txs = if block == 73 { payment_to(a, 0x73) } else { Vec::new() };
        match worker.step(ForwardEvent::Block(txs)) {
            ForwardAction::Continue(Some(flush)) => {
                rows.extend(flush.rows);
                cursors.push(flush.cursor);
            }
            ForwardAction::Continue(None) => {}
            other => panic!("unexpected action {:?}", other),
        }
    }
    assert_eq!(rows, vec![row(a, 0x73, 73)]);
    assert_eq!(cursors, vec![100]);
    assert_eq!(worker.chain_row().last_known_block, 100);
    assert_eq!(worker.next_block(), 101);

    match worker.step(ForwardEvent::NoBlock) {
        ForwardAction::Wait { flush, block } => {
            assert_eq!(block, 101);
            assert_eq!(flush.cursor, 101);
            assert!(flush.rows.is_empty());
        }
        other => panic!("unexpected action {:?}", other),
    }
    assert_eq!(worker.next_block(), 101);
}

#[test]
fn forward_flushes_what_it_holds_before_it_waits() {
    let a = addr(0xa);
    let chain = Chain { chain_id: 1, start_block: 1, last_known_block: 0 };
    let mut worker = Forward::new(chain, &vec![a], &config(1000, 1000)).unwrap();
    assert_eq!(
        worker.step(ForwardEvent::Block(payment_to(a, 0x01))),
        ForwardAction::Continue(None)
    );
    assert_eq!(worker.step(ForwardEvent::Block(Vec::new())), ForwardAction::Continue(None));
    match worker.step(ForwardEvent::NoBlock) {
        ForwardAction::Wait { flush, block } => {
            assert_eq!(block, 3);
            assert_eq!(flush.cursor, 3);
            assert_eq!(flush.rows, vec![row(a, 0x01, 1)]);
        }
        other => panic!("unexpected action {:?}", other),
    }
    assert_eq!(worker.buffered(), 0);
}

#[test]
fn forward_flushes_and_ends_on_shutdown() {
    let a = addr(0xa);
    let chain = Chain { chain_id: 1, start_block: 1, last_known_block: 9 };
    let mut worker = Forward::new(chain, &vec![a], &config(1000, 1000)).unwrap();
    worker.step(ForwardEvent::Block(payment_to(a, 0x10)));
    match worker.step(ForwardEvent::Cancelled) {
        ForwardAction::Stop(flush) => {
            assert_eq!(flush.cursor, 11);
            assert_eq!(flush.rows, vec![row(a, 0x10, 10)]);
        }
        other => panic!("unexpected action {:?}", other),
    }
}

#[test]
fn forward_cursor_never_moves_back() {
    let a = addr(0xa);
    let chain = Chain { chain_id: 1, start_block: 1, last_known_block: 0 };
    let mut worker = Forward::new(chain, &vec![a], &config(1, 3)).unwrap();
    let mut last = worker.chain_row().last_known_block;
    let events = [true, false, true, true, false, false, true, true, true, false];
    for (i, has_block) in events.iter().enumerate() {
        let event = if *has_block {
            ForwardEvent::Block(if i % 2 == 0 { payment_to(a, i as u8) } else { Vec::new() })
        } else {
            ForwardEvent::NoBlock
        };
        let cursor = match worker.step(event) {
            ForwardAction::Continue(flush) => flush.map(|f| f.cursor),
            ForwardAction::Wait { flush, .. } => Some(flush.cursor),
            ForwardAction::Stop(flush) => Some(flush.cursor),
            ForwardAction::CreateJobs(_) => None,
        };
        if let Some(cursor) = cursor {
            assert!(cursor >= last);
            last = cursor;
        }
        assert_eq!(worker.chain_row().last_known_block, last);
    }
}

#[test]
fn registration_during_forward() {
    let b = addr(0xb);
    let chain = Chain { chain_id: 1, start_block: 7, last_known_block: 199 };
    let mut worker = Forward::new(chain, &vec![addr(0xa)], &config(1000, 1000)).unwrap();
    assert_eq!(worker.next_block(), 200);
    let jobs = worker.process_new_accounts(&vec![b]);
    assert_eq!(jobs, vec![BackfillJob { addresses: vec![b], low: 7, high: 200 }]);
    assert!(worker.is_watched(&b));
    assert_eq!(worker.setup_backfill(b), BackfillJob { addresses: vec![b], low: 7, high: 200 });

    let mut all = vec![
        BackfillJob { addresses: vec![addr(0xa)], low: 50, high: 120 },
        BackfillJob { addresses: vec![addr(0xc)], low: 100, high: 300 },
    ];
    all.extend(jobs);
    let arranged = rearrange(&all);
    for block in 0..320u64 {
        let covered = arranged
            .iter()
            .any(|j| j.low <= block && block < j.high && j.addresses.contains(&b));
        assert_eq!(covered, 7 <= block && block < 200);
    }

    let txs = payment_to(b, 0x20);
    assert_eq!(worker.step(ForwardEvent::Block(txs)), ForwardAction::Continue(None));
    assert_eq!(worker.buffered(), 1);
}

#[test]
fn new_accounts_arrive_as_an_event() {
    let chain = Chain { chain_id: 1, start_block: 3, last_known_block: 9 };
    let mut worker = Forward::new(chain, &Vec::new(), &config(1000, 1000)).unwrap();
    assert_eq!(
        worker.step(ForwardEvent::NewAccounts(vec![addr(5)])),
        ForwardAction::CreateJobs(vec![BackfillJob { addresses: vec![addr(5)], low: 3, high: 10 }])
    );
    assert!(worker.is_watched(&addr(5)));
    assert_eq!(worker.next_block(), 10);
    assert_eq!(
        worker.step(ForwardEvent::NewAccounts(Vec::new())),
        ForwardAction::CreateJobs(Vec::new())
    );
}

#[test]
fn several_new_accounts_get_a_job_each() {
    let chain = Chain { chain_id: 1, start_block: 1, last_known_block: 9 };
    let mut worker = Forward::new(chain, &Vec::new(), &config(1000, 1000)).unwrap();
    let jobs = worker.process_new_accounts(&vec![addr(1), addr(2), addr(1)]);
    assert_eq!(jobs.len(), 3);
    for (job, id) in jobs.iter().zip([1u8, 2, 1]) {
        assert_eq!(job, &BackfillJob { addresses: vec![addr(id)], low: 1, high: 10 });
    }
    assert_eq!(worker.watched_count(), 2);
    assert!(worker.process_new_accounts(&Vec::new()).is_empty());
}

#[test]
fn waiting_ends_when_the_node_holds_the_block() {
    assert!(has_new_block(10, 10));
    assert!(has_new_block(11, 10));
    assert!(!has_new_block(9, 10));
}

fn backfill_job(low: u64, high: u64, ids: &[u8]) -> BackfillJobWithId {
    BackfillJobWithId { id: 4, addresses: ids.iter().map(|i| addr(*i)).collect(), low, high }
}

fn chain() -> Chain {
    Chain { chain_id: 1, start_block: 1, last_known_block: 500 }
}

#[test]
fn backfill_walks_down_from_high_to_low() {
    let a = addr(0xa);
    let mut worker =
        Backfill::new_worker(chain(), &config(1000, 1000), &backfill_job(10, 15, &[0xa])).unwrap();
    let mut seen = Vec::new();
    while let Some(block) = worker.next_block() {
        seen.push(block);
        let txs = payment_to(a, block as u8);
        match worker.step(BackfillEvent::Block(txs)) {
            BackfillAction::Continue { flush, yield_now } => {
                assert_eq!(flush, None);
                assert_eq!(yield_now, block % 10 == 0);
            }
            other => panic!("unexpected action {:?}", other),
        }
    }
    assert_eq!(seen, vec![14, 13, 12, 11, 10]);
    match worker.step(BackfillEvent::Block(Vec::new())) {
        BackfillAction::Done(flush) => {
            assert_eq!(flush.cursor, 10);
            assert_eq!(
                flush.rows,
                vec![
                    row(a, 14, 14),
                    row(a, 13, 13),
                    row(a, 12, 12),
                    row(a, 11, 11),
                    row(a, 10, 10)
                ]
            );
        }
        other => panic!("unexpected action {:?}", other),
    }
}

#[test]
fn backfill_searches_for_the_addresses_of_its_job_only() {
    let mut worker =
        Backfill::new_worker(chain(), &config(1000, 1000), &backfill_job(0, 2, &[0xa])).unwrap();
    worker.step(BackfillEvent::Block(payment_to(addr(0xb), 1)));
    worker.step(BackfillEvent::Block(payment_to(addr(0xa), 2)));
    match worker.step(BackfillEvent::Cancelled) {
        BackfillAction::Done(flush) => {
            assert_eq!(flush.rows, vec![row(addr(0xa), 2, 0)]);
            assert_eq!(flush.cursor, 0);
        }
        other => panic!("unexpected action {:?}", other),
    }
}

#[test]
fn cancellation_mid_backfill() {
    let a = addr(0xa);
    let mut worker =
        Backfill::new_worker(chain(), &config(10, 1000), &backfill_job(0, 100, &[0xa])).unwrap();
    let mut rows: Vec<CreateTx> = Vec::new();
    let mut highs: Vec<u64> = vec![100];
    for block in (73..100u64).rev() {
        assert_eq!(worker.next_block(), Some(block));
        match worker.step(BackfillEvent::Block(payment_to(a, block as u8))) {
            BackfillAction::Continue { flush: Some(flush), .. } => {
                rows.extend(flush.rows);
                highs.push(flush.cursor);
            }
            BackfillAction::Continue { flush: None, .. } => {}
            other => panic!("unexpected action {:?}", other),
        }
    }
    assert_eq!(highs, vec![100, 90, 80]);
    match worker.step(BackfillEvent::Cancelled) {
        BackfillAction::Stop(flush) => {
            rows.extend(flush.rows);
            highs.push(flush.cursor);
        }
        other => panic!("unexpected action {:?}", other),
    }
    let high = *highs.last().unwrap();
    assert_eq!(high, 73);
    assert!((73..=100).contains(&high));
    assert!(highs.windows(2).all(|w| w[1] <= w[0]));
    assert!(rows.iter().all(|r| r.block_number >= high));
    let expected: Vec<CreateTx> = (high..100).rev().map(|b| row(a, b as u8, b)).collect();
    assert_eq!(rows, expected);
    assert_eq!(worker.next_block(), Some(72));
}

#[test]
fn backfill_fails_on_a_missing_block() {
    let mut worker =
        Backfill::new_worker(chain(), &config(10, 10), &backfill_job(5, 9, &[0xa])).unwrap();
    assert_eq!(
        worker.step(BackfillEvent::MissingBlock),
        BackfillAction::Fail(SyncError::MissingBlock(8))
    );
    assert_eq!(worker.next_block(), Some(8));
}

#[test]
fn backfill_of_an_empty_range_is_done_at_once() {
    let mut worker =
        Backfill::new_worker(chain(), &config(10, 10), &backfill_job(5, 5, &[0xa])).unwrap();
    assert_eq!(worker.next_block(), None);
    match worker.step(BackfillEvent::MissingBlock) {
        BackfillAction::Done(flush) => {
            assert_eq!(flush.cursor, 5);
            assert!(flush.rows.is_empty());
        }
        other => panic!("unexpected action {:?}", other),
    }
}

#[test]
fn backfill_refuses_a_range_that_runs_backwards() {
    assert_eq!(
        Backfill::new_worker(chain(), &config(10, 10), &backfill_job(9, 5, &[0xa])).err(),
        Some(SyncError::InvalidRange { low: 9, high: 5 })
    );
}

#[test]
fn backfill_flushes_after_max_tries_in_a_sparse_range() {
    let mut worker =
        Backfill::new_worker(chain(), &config(1000, 4), &backfill_job(0, 10, &[0xa])).unwrap();
    let mut cursors = Vec::new();
    while worker.next_block().is_some() {
        if let BackfillAction::Continue { flush: Some(flush), .. } =
            worker.step(BackfillEvent::Block(Vec::new()))
        {
            assert!(flush.rows.is_empty());
            cursors.push(flush.cursor);
        }
    }
    assert_eq!(cursors, vec![6, 2]);
    assert_eq!(worker.flush(0).cursor, 0);
    assert_eq!(worker.maybe_flush(0), None);
}

#[test]
fn stop_strategy_on_finish() {
    assert!(StopStrategy::OnFinish.is_on_finish());
    assert!(!StopStrategy::Token.is_on_finish());
}

#[test]
fn manager_runs_generations_until_shutdown() {
    let mut manager = BackfillManager::new(&config(10, 10), StopStrategy::Token);
    assert_eq!(manager.phase, ManagerPhase::Arranging);
    assert_eq!(manager.concurrency, 10);
    assert_eq!(
        manager.run(ManagerEvent::Arranged { jobs: 0 }),
        ManagerAction::Spawn { permits: 10 }
    );
    assert_eq!(manager.run(ManagerEvent::Woken(Wake::Timer)), ManagerAction::Cancel);
    assert_eq!(manager.run(ManagerEvent::Joined), ManagerAction::Arrange);
    assert_eq!(
        manager.run(ManagerEvent::Arranged { jobs: 3 }),
        ManagerAction::Spawn { permits: 10 }
    );
    assert_eq!(manager.run(ManagerEvent::Woken(Wake::NewJob)), ManagerAction::Cancel);
    assert_eq!(manager.run(ManagerEvent::Joined), ManagerAction::Arrange);
    assert_eq!(
        manager.run(ManagerEvent::Arranged { jobs: 4 }),
        ManagerAction::Spawn { permits: 10 }
    );
    assert_eq!(manager.run(ManagerEvent::Woken(Wake::Cancelled)), ManagerAction::Cancel);
    assert_eq!(manager.phase, ManagerPhase::Draining { last: true });
    assert_eq!(manager.run(ManagerEvent::Joined), ManagerAction::Stop);
    assert_eq!(manager.phase, ManagerPhase::Stopped);
    assert_eq!(manager.run(ManagerEvent::Arranged { jobs: 1 }), ManagerAction::Stop);
}

#[test]
fn manager_on_finish_ends_when_no_job_is_left() {
    let mut manager = BackfillManager::new(&config(10, 10), StopStrategy::OnFinish);
    assert_eq!(
        manager.run(ManagerEvent::Arranged { jobs: 2 }),
        ManagerAction::Spawn { permits: 10 }
    );
    assert_eq!(manager.run(ManagerEvent::Woken(Wake::Timer)), ManagerAction::Cancel);
    assert_eq!(manager.run(ManagerEvent::Joined), ManagerAction::Arrange);
    assert_eq!(manager.run(ManagerEvent::Arranged { jobs: 0 }), ManagerAction::Stop);
    assert_eq!(manager.phase, ManagerPhase::Stopped);
}

#[test]
fn manager_ignores_events_of_another_phase() {
    let mut manager = BackfillManager::new(&config(10, 10), StopStrategy::Token);
    assert_eq!(manager.run(ManagerEvent::Joined), ManagerAction::Ignore);
    assert_eq!(manager.run(ManagerEvent::Woken(Wake::Timer)), ManagerAction::Ignore);
    assert_eq!(manager.phase, ManagerPhase::Arranging);
    manager.run(ManagerEvent::Arranged { jobs: 1 });
    assert_eq!(manager.run(ManagerEvent::Arranged { jobs: 1 }), ManagerAction::Ignore);
    assert_eq!(manager.run(ManagerEvent::Joined), ManagerAction::Ignore);
    assert_eq!(manager.phase, ManagerPhase::Running);
}

#[test]
fn a_task_starts_its_worker_unless_the_generation_was_cancelled() {
    assert!(BackfillManager::admits(false));
    assert!(!BackfillManager::admits(true));
}
