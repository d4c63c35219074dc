use iron_indexer::api::auth::jwt::Claims;
use iron_indexer::api::auth::signature::IndexerAuth;
use iron_indexer::api::error::ApiError;
use iron_indexer::api::registration::{RegistrationError, RegistrationProof};
use iron_indexer::config::whitelist::WhitelistConfig;
use iron_indexer::config::{
    default_backfill_concurrency, default_buffer_size, default_buffer_tries, default_from_block,
    default_http_port, ChainConfig, Config, DbConfig, HttpConfig, PaymentConfig, RethConfig,
    SyncConfig,
};
use iron_indexer::db::models::{BackfillJob, BackfillJobWithChainId, Chain};
use iron_indexer::db::types::{Address, B256, U256};
use iron_indexer::db::{handle_error, notifies, reorg_backfill_jobs, StoreError};
use iron_indexer::sync::provider::{network_of, Network, Transaction};

fn addr(id: u8) -> Address {
    Address::repeat_byte(id)
}

fn amount(n: u64) -> U256 {
    let mut bytes = [0u8; 32];
    bytes[24..].copy_from_slice(&n.to_be_bytes());
    U256(bytes)
}

#[test]
fn defaults() {
    assert_eq!(default_from_block(), 1);
    assert_eq!(default_http_port(), 9500);
    assert_eq!(default_buffer_size(), 1000);
    assert_eq!(default_buffer_tries(), 1000);
    assert_eq!(default_backfill_concurrency(), 10);
    assert_eq!(
        SyncConfig::default(),
        SyncConfig { buffer_size: 1000, buffer_tries: 1000, backfill_concurrency: 10 }
    );
    assert_eq!(
        HttpConfig::default(),
        HttpConfig { port: 9500, jwt_secret_env: "ETHUI_JWT_SECRET".to_owned() }
    );
    assert_eq!(ChainConfig::new(5), ChainConfig { chain_id: 5, start_block: 1 });
}

#[test]
fn configuration_for_tests() {
    let config = Config::for_test();
    assert_eq!(config.reth, RethConfig { db: "test-db".to_owned(), static_files: "static".to_owned() });
    assert_eq!(config.chain, ChainConfig { chain_id: 31337, start_block: 1 });
    assert_eq!(config.sync, SyncConfig::default());
    assert_eq!(config.http, None);
    assert_eq!(config.db, DbConfig { url: "none".to_owned() });
    assert_eq!(config.payment, None);
    let account: alloy_primitives::Address =
        "0xf39fd6e51aad88f6f4ce6ab8827279cfffb92266".parse().unwrap();
    assert!(config.whitelist.is_whitelisted(&Address(account.0 .0)));
    assert_eq!(config.whitelist.whitelist.as_ref().map(|w| w.len()), Some(1));
}

#[test]
fn a_chain_begins_one_block_before_its_start() {
    assert_eq!(
        Chain::initial(1, 1),
        Some(Chain { chain_id: 1, start_block: 1, last_known_block: 0 })
    );
    assert_eq!(
        Chain::initial(7, 1000),
        Some(Chain { chain_id: 7, start_block: 1000, last_known_block: 999 })
    );
    assert_eq!(Chain::initial(1, 0), None);
}

#[test]
fn chain_validity() {
    assert!(Chain { chain_id: 1, start_block: 10, last_known_block: 9 }.is_valid());
    assert!(Chain { chain_id: 1, start_block: 10, last_known_block: 50 }.is_valid());
    assert!(!Chain { chain_id: 1, start_block: 10, last_known_block: 8 }.is_valid());
    assert!(!Chain { chain_id: 1, start_block: 0, last_known_block: u64::MAX }.is_valid());
}

#[test]
fn chain_tip_never_moves_back() {
    let mut chain = Chain { chain_id: 1, start_block: 1, last_known_block: 20 };
    chain.advance(25);
    assert_eq!(chain.last_known_block, 25);
    chain.advance(24);
    assert_eq!(chain.last_known_block, 25);
    chain.advance(25);
    assert_eq!(chain.last_known_block, 25);
}

#[test]
fn foreign_key_violations_are_absorbed() {
    assert_eq!(handle_error(Ok(3)), Ok(()));
    assert_eq!(handle_error(Ok(0)), Ok(()));
    assert_eq!(handle_error(Err(StoreError::ForeignKeyViolation)), Ok(()));
    assert_eq!(handle_error(Err(StoreError::Other)), Err(StoreError::Other));
}

#[test]
fn events_are_sent_for_writes_that_succeeded() {
    assert!(notifies(&Ok(1)));
    assert!(!notifies(&Err(StoreError::ForeignKeyViolation)));
    assert!(!notifies(&Err(StoreError::Other)));
}

#[test]
fn reorg_rows_carry_the_chain_id() {
    let jobs = vec![
        BackfillJob { addresses: vec![addr(1)], low: 1, high: 10 },
        BackfillJob { addresses: vec![addr(2)], low: 5, high: 15 },
        BackfillJob { addresses: vec![addr(3)], low: 4, high: 4 },
    ];
    assert_eq!(
        reorg_backfill_jobs(&jobs, 31337),
        vec![
            BackfillJobWithChainId { addresses: vec![addr(1)], chain_id: 31337, low: 1, high: 5 },
            BackfillJobWithChainId {
                addresses: vec![addr(1), addr(2)],
                chain_id: 31337,
                low: 5,
                high: 10
            },
            BackfillJobWithChainId {
                addresses: vec![addr(2)],
                chain_id: 31337,
                low: 10,
                high: 15
            },
        ]
    );
    assert!(reorg_backfill_jobs(&Vec::new(), 1).is_empty());
}

#[test]
fn supported_networks() {
    assert_eq!(network_of(1), Some(Network::Mainnet));
    assert_eq!(network_of(11155111), Some(Network::Sepolia));
    assert_eq!(network_of(31337), None);
    assert_eq!(network_of(0), None);
}

#[test]
fn api_errors_have_their_status() {
    assert_eq!(ApiError::InvalidCredentials.status_code(), 401);
    assert_eq!(ApiError::NotRegistered.status_code(), 401);
    assert_eq!(ApiError::Jsonwebtoken.status_code(), 401);
    assert_eq!(ApiError::Unknown.status_code(), 500);
}

#[test]
fn check_fails_with_expired_timestamp() {
    let now = 1_700_000_000u64;
    let data = IndexerAuth::new(addr(1), now - 20);
    assert!(data.check_expiration(now).is_err());
    assert!(IndexerAuth::new(addr(1), now).check_expiration(now).is_err());
    assert!(IndexerAuth::new(addr(1), now + 20).check_expiration(now).is_ok());
}

#[test]
fn the_signer_must_be_the_address_of_the_data() {
    let now = 1_700_000_000u64;
    let data = IndexerAuth::new(addr(1), now + 20);
    assert_eq!(data.check_signer(now, Some(addr(1))), Ok(()));
    assert_eq!(data.check_signer(now, Some(addr(2))), Err(ApiError::InvalidCredentials));
    assert_eq!(data.check_signer(now, None), Err(ApiError::InvalidCredentials));
    assert_eq!(data.check_signer(now + 20, Some(addr(1))), Err(ApiError::InvalidCredentials));
    assert_eq!(Claims::of(&data), Claims::new(addr(1), now + 20));
}

fn tx(signer: u8, to: Option<u8>, value: u64) -> Transaction {
    Transaction {
        hash: B256::repeat_byte(1),
        signer: Some(addr(signer)),
        to: to.map(addr),
        value: amount(value),
    }
}

#[test]
fn whitelist_proof() {
    let whitelist = WhitelistConfig::for_test(vec![addr(1), addr(2)]);
    assert!(whitelist.is_whitelisted(&addr(2)));
    assert!(!whitelist.is_whitelisted(&addr(3)));
    let proof = RegistrationProof::Whitelist;
    assert_eq!(proof.validate(addr(1), &whitelist, None, None), Ok(()));
    assert_eq!(
        proof.validate(addr(3), &whitelist, None, None),
        Err(RegistrationError::NotWhitelisted)
    );
    let unloaded = WhitelistConfig { file: None, whitelist: None };
    assert!(!unloaded.is_whitelisted(&addr(1)));
}

#[test]
fn payment_proof() {
    let whitelist = WhitelistConfig::for_test(Vec::new());
    let proof = RegistrationProof::TxHash(B256::repeat_byte(1));
    let payment = Some(PaymentConfig { address: addr(9), min_amount: amount(100) });
    let check = |t: Option<Transaction>, p: Option<PaymentConfig>| {
        proof.validate(addr(1), &whitelist, p, t)
    };
    assert_eq!(check(None, payment), Err(RegistrationError::TransactionNotFound));
    assert_eq!(check(Some(tx(2, Some(9), 100)), payment), Err(RegistrationError::OriginMismatch));
    assert_eq!(check(Some(tx(2, Some(9), 100)), None), Err(RegistrationError::OriginMismatch));
    assert_eq!(check(Some(tx(1, None, 0)), None), Ok(()));
    assert_eq!(check(Some(tx(1, Some(8), 100)), payment), Err(RegistrationError::WrongRecipient));
    assert_eq!(check(Some(tx(1, None, 100)), payment), Err(RegistrationError::WrongRecipient));
    assert_eq!(check(Some(tx(1, Some(9), 99)), payment), Err(RegistrationError::ValueTooLow));
    assert_eq!(check(Some(tx(1, Some(9), 100)), payment), Ok(()));
    assert_eq!(check(Some(tx(1, Some(9), 101)), payment), Ok(()));
    assert_eq!(
        RegistrationProof::validate_tx(addr(1), payment, &tx(1, Some(9), 5)),
        Err(RegistrationError::ValueTooLow)
    );
}
