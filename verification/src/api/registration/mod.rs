use vstd::prelude::*;

use crate::config::whitelist::WhitelistConfig;
use crate::config::PaymentConfig;
use crate::db::types::{u256_lt, Address, Order, B256};
use crate::sync::provider::Transaction;

verus! {

/// What an account shows to be registered.
#[derive(Clone, Copy, Debug, PartialEq, Eq)]
pub enum RegistrationProof {
    /// The address is on the whitelist
    Whitelist,
    /// The address has sent the transaction with this hash
    TxHash(B256),
}

/// Why a registration was turned down.
#[derive(Clone, Copy, Debug, PartialEq, Eq, Structural)]
pub enum RegistrationError {
    /// The address is not on the whitelist
    NotWhitelisted,
    /// The node does not hold the transaction
    TransactionNotFound,
    /// The transaction was not sent by the address
    OriginMismatch,
    /// The transaction was not sent to the payment address
    WrongRecipient,
    /// The transaction's value is below the minimum
    ValueTooLow,
}

/// What the check of a payment by `address` answers for a transaction.
pub open spec fn tx_verdict(
    address: Address,
    payment: Option<PaymentConfig>,
    tx: Transaction,
) -> Result<(), RegistrationError> {
    if tx.signer != Some(address) {
        Err(RegistrationError::OriginMismatch)
    } else {
        match payment {
            None => Ok(()),
            Some(p) => {
                if tx.to != Some(p.address) {
                    Err(RegistrationError::WrongRecipient)
                } else if u256_lt(tx.value, p.min_amount) {
                    Err(RegistrationError::ValueTooLow)
                } else {
                    Ok(())
                }
            },
        }
    }
}

impl RegistrationProof {
    /// Checks the proof of `address`. A whitelist proof asks that the
    /// address is on the whitelist. A transaction proof asks that the node
    /// holds the transaction, `tx`, and that it is a payment by the address.
    pub fn validate(
        &self,
        address: Address,
        whitelist: &WhitelistConfig,
        payment: Option<PaymentConfig>,
        tx: Option<Transaction>,
    ) -> (r: Result<(), RegistrationError>)
        ensures
            r == match *self {
                RegistrationProof::Whitelist => if whitelist.lists(address) {
                    Ok::<(), RegistrationError>(())
                } else {
                    Err::<(), RegistrationError>(RegistrationError::NotWhitelisted)
                },
                RegistrationProof::TxHash(_) => match tx {
                    Some(tx) => tx_verdict(address, payment, tx),
                    None => Err::<(), RegistrationError>(RegistrationError::TransactionNotFound),
                },
            },
    {
        match self {
            RegistrationProof::Whitelist => {
                if whitelist.is_whitelisted(&address) {
                    Ok(())
                } else {
                    Err(RegistrationError::NotWhitelisted)
                }
            },
            RegistrationProof::TxHash(_) => match tx {
                Some(tx) => Self::validate_tx(address, payment, &tx),
                None => Err(RegistrationError::TransactionNotFound),
            },
        }
    }

    /// Checks that the transaction is a payment by `address`: sent by it,
    /// and, where a payment is asked for, sent to the payment address with
    /// the minimum value at least.
    pub fn validate_tx(address: Address, payment: Option<PaymentConfig>, tx: &Transaction) -> (r:
        Result<(), RegistrationError>)
        ensures
            r == tx_verdict(address, payment, *tx),
    {
        let from_address = match tx.signer {
            Some(a) => a.same(&address),
            None => false,
        };
        if !from_address {
            return Err(RegistrationError::OriginMismatch);
        }
        let p = match payment {
            Some(p) => p,
            None => {
                return Ok(());
            },
        };
        let to_payment = match tx.to {
            Some(a) => a.same(&p.address),
            None => false,
        };
        if !to_payment {
            return Err(RegistrationError::WrongRecipient);
        }
        match tx.value.order(&p.min_amount) {
            Order::Less => Err(RegistrationError::ValueTooLow),
            _ => Ok(()),
        }
    }
}

} // verus!
