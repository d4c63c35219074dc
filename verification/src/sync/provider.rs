use vstd::prelude::*;

use crate::db::types::{Address, B256, U256};

verus! {

/// The header of a block, as far as the indexer reads it.
#[derive(Clone, Copy, Debug, PartialEq, Eq)]
pub struct Header {
    pub number: u64,
}

/// A log of a receipt: its topics.
#[derive(Debug, PartialEq, Eq)]
pub struct Log {
    pub topics: Vec<B256>,
}

/// The receipt of a transaction: its logs.
#[derive(Debug, PartialEq, Eq)]
pub struct Receipt {
    pub logs: Vec<Log>,
}

/// A transaction, with the signer that was recovered from its signature.
#[derive(Clone, Copy, Debug, PartialEq, Eq)]
pub struct Transaction {
    pub hash: B256,
    pub signer: Option<Address>,
    pub to: Option<Address>,
    pub value: U256,
}

/// What the node holds under one transaction id of a block: the
/// transaction and its receipt, each of which may be absent.
#[derive(Debug, PartialEq, Eq)]
pub struct BlockTx {
    pub tx: Option<Transaction>,
    pub receipt: Option<Receipt>,
}

/// A network whose node database the indexer can read.
#[derive(Clone, Copy, Debug, PartialEq, Eq, Structural)]
pub enum Network {
    Mainnet,
    Sepolia,
}

/// The chain id of mainnet.
pub const MAINNET_CHAIN_ID: u64 = 1;

/// The chain id of the Sepolia test network.
pub const SEPOLIA_CHAIN_ID: u64 = 11155111;

/// The network with the given chain id, where the indexer supports it.
pub fn network_of(chain_id: u64) -> (network: Option<Network>)
    ensures
        network == if chain_id == MAINNET_CHAIN_ID {
            Some(Network::Mainnet)
        } else if chain_id == SEPOLIA_CHAIN_ID {
            Some(Network::Sepolia)
        } else {
            None
        },
{
    if chain_id == MAINNET_CHAIN_ID {
        Some(Network::Mainnet)
    } else if chain_id == SEPOLIA_CHAIN_ID {
        Some(Network::Sepolia)
    } else {
        None
    }
}

} // verus!
