pub mod whitelist;

use vstd::prelude::*;

use self::whitelist::WhitelistConfig;
use crate::db::types::{Address, U256};

verus! {

/// Where the node's database lies.
#[derive(Clone, Debug, PartialEq, Eq)]
pub struct RethConfig {
    pub db: String,
    pub static_files: String,
}

/// The chain that this indexer follows.
#[derive(Clone, Copy, Debug, PartialEq, Eq)]
pub struct ChainConfig {
    pub chain_id: i32,
    pub start_block: u64,
}

/// How the workers buffer their matches and how many of them run at once.
#[derive(Clone, Copy, Debug, PartialEq, Eq)]
pub struct SyncConfig {
    /// The number of buffered matches from which a worker flushes
    pub buffer_size: usize,
    /// The number of blocks after which a worker flushes whatever it holds
    pub buffer_tries: usize,
    /// The number of backfill workers that may run at once
    pub backfill_concurrency: usize,
}

#[derive(Clone, Debug, PartialEq, Eq)]
pub struct HttpConfig {
    pub port: u16,
    /// The name of the environment variable that holds the secret
    pub jwt_secret_env: String,
}

#[derive(Clone, Debug, PartialEq, Eq)]
pub struct DbConfig {
    pub url: String,
}

/// What a registration by payment has to show.
#[derive(Clone, Copy, Debug, PartialEq, Eq)]
pub struct PaymentConfig {
    pub address: Address,
    pub min_amount: U256,
}

/// The whole configuration of the indexer.
#[derive(Debug, PartialEq, Eq)]
pub struct Config {
    pub reth: RethConfig,
    pub chain: ChainConfig,
    pub sync: SyncConfig,
    pub http: Option<HttpConfig>,
    pub db: DbConfig,
    pub whitelist: WhitelistConfig,
    pub payment: Option<PaymentConfig>,
}

/// The account that the configuration for tests puts on the whitelist.
pub const TEST_ACCOUNT: [u8; 20] = [
    0xf3, 0x9f, 0xd6, 0xe5, 0x1a, 0xad, 0x88, 0xf6, 0xf4, 0xce, 0x6a, 0xb8, 0x82, 0x72, 0x79, 0xcf,
    0xff, 0xb9, 0x22, 0x66,
];

impl Config {
    /// A configuration for tests: a local chain with the default sync
    /// settings, no HTTP server, and one account on the whitelist.
    pub fn for_test() -> (config: Config)
        ensures
            config.reth.db@ == "test-db"@,
            config.reth.static_files@ == "static"@,
            config.chain == (ChainConfig { chain_id: 31337, start_block: 1 }),
            config.sync == (SyncConfig {
                buffer_size: 1000,
                buffer_tries: 1000,
                backfill_concurrency: 10,
            }),
            config.http is None,
            config.db.url@ == "none"@,
            config.whitelist.file is None,
            config.whitelist.whitelist matches Some(w) && w@ == seq![Address(TEST_ACCOUNT)],
            config.payment is None,
    {
        let mut accounts: Vec<Address> = Vec::new();
        accounts.push(Address(TEST_ACCOUNT));
        Config {
            reth: RethConfig { db: "test-db".to_owned(), static_files: "static".to_owned() },
            chain: ChainConfig { chain_id: 31337, start_block: 1 },
            sync: SyncConfig { buffer_size: 1000, buffer_tries: 1000, backfill_concurrency: 10 },
            http: None,
            db: DbConfig { url: "none".to_owned() },
            whitelist: WhitelistConfig::for_test(accounts),
            payment: None,
        }
    }
}

pub fn default_from_block() -> (block: u64)
    ensures
        block == 1,
{
    1
}

pub fn default_http_port() -> (port: u16)
    ensures
        port == 9500,
{
    9500
}

pub fn default_buffer_size() -> (size: usize)
    ensures
        size == 1000,
{
    1000
}

pub fn default_buffer_tries() -> (tries: usize)
    ensures
        tries == 1000,
{
    1000
}

pub fn default_backfill_concurrency() -> (workers: usize)
    ensures
        workers == 10,
{
    10
}

impl ChainConfig {
    /// The configuration of chain `chain_id` with the default start block.
    pub fn new(chain_id: i32) -> (config: ChainConfig)
        ensures
            config == (ChainConfig { chain_id, start_block: 1 }),
    {
        ChainConfig { chain_id, start_block: default_from_block() }
    }
}

impl Default for SyncConfig {
    fn default() -> (config: SyncConfig)
        ensures
            config == (SyncConfig {
                buffer_size: 1000,
                buffer_tries: 1000,
                backfill_concurrency: 10,
            }),
    {
        SyncConfig {
            buffer_size: default_buffer_size(),
            buffer_tries: default_buffer_tries(),
            backfill_concurrency: default_backfill_concurrency(),
        }
    }
}

impl Default for HttpConfig {
    fn default() -> (config: HttpConfig)
        ensures
            config.port == 9500,
            config.jwt_secret_env@ == "ETHUI_JWT_SECRET"@,
    {
        HttpConfig { port: default_http_port(), jwt_secret_env: "ETHUI_JWT_SECRET".to_owned() }
    }
}

} // verus!
