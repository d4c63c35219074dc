use vstd::prelude::*;

use super::types::{Address, B256};

verus! {

/// A match row as it is written to the store.
#[derive(Clone, Copy, Debug, PartialEq, Eq)]
pub struct CreateTx {
    pub address: Address,
    pub chain_id: i32,
    pub hash: B256,
    pub block_number: u64,
}

/// The row of a chain: where indexing starts and how far it has come.
#[derive(Clone, Copy, Debug, PartialEq, Eq)]
pub struct Chain {
    pub chain_id: i32,
    pub start_block: u64,
    pub last_known_block: u64,
}

impl Chain {
    /// The row is one that the store can hold: indexing has come no
    /// further back than one block before its start, and a next block
    /// exists.
    pub open spec fn wf(&self) -> bool {
        self.start_block <= self.last_known_block + 1 && self.last_known_block < u64::MAX
    }

    /// The row with which a chain begins: nothing is indexed yet, so the
    /// last known block is the one before the start. A chain cannot start at
    /// block 0, which has no block before it.
    pub fn initial(chain_id: i32, start_block: u64) -> (chain: Option<Chain>)
        ensures
            start_block == 0 <==> chain is None,
            chain matches Some(c) ==> c.wf() && c == (Chain {
                chain_id,
                start_block,
                last_known_block: (start_block - 1) as u64,
            }),
    {
        if start_block == 0 {
            None
        } else {
            Some(Chain { chain_id, start_block, last_known_block: start_block - 1 })
        }
    }

    /// Whether the row is one that the store can hold.
    pub fn is_valid(&self) -> (r: bool)
        ensures
            r == self.wf(),
    {
        self.last_known_block < u64::MAX && self.start_block <= self.last_known_block + 1
    }

    /// Moves the last known block to `last_known`, unless that lies behind
    /// it: the tip never moves back.
    pub fn advance(&mut self, last_known: u64)
        ensures
            final(self).chain_id == old(self).chain_id,
            final(self).start_block == old(self).start_block,
            final(self).last_known_block == if last_known >= old(self).last_known_block {
                last_known
            } else {
                old(self).last_known_block
            },
    {
        if last_known >= self.last_known_block {
            self.last_known_block = last_known;
        }
    }
}

/// A range of blocks `[low, high)` that is still to be searched for a set of
/// addresses.
#[derive(Debug, PartialEq, Eq)]
pub struct BackfillJob {
    pub addresses: Vec<Address>,
    /// The low (oldest) block number, inclusive
    pub low: u64,
    /// The high (newest) block number, exclusive
    pub high: u64,
}

/// A backfill job as it is read from the store.
#[derive(Debug, PartialEq, Eq)]
pub struct BackfillJobWithId {
    pub id: i32,
    pub addresses: Vec<Address>,
    /// The low (oldest) block number, inclusive
    pub low: u64,
    /// The high (newest) block number, exclusive
    pub high: u64,
}

/// A backfill job as it is written to the store.
#[derive(Debug, PartialEq, Eq)]
pub struct BackfillJobWithChainId {
    pub addresses: Vec<Address>,
    pub chain_id: i32,
    /// The low (oldest) block number, inclusive
    pub low: u64,
    /// The high (newest) block number, exclusive
    pub high: u64,
}

} // verus!
