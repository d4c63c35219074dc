use vstd::prelude::*;

use super::signature::IndexerAuth;
use crate::db::types::Address;

verus! {

/// What a token says: for which address it stands, and until when.
#[derive(Clone, Copy, Debug, PartialEq, Eq)]
pub struct Claims {
    pub address: Address,
    pub exp: u64,
}

/// The answer to a successful authentication.
#[derive(Clone, Debug, PartialEq, Eq)]
pub struct AuthResponse {
    pub access_token: String,
}

impl Claims {
    pub fn new(address: Address, exp: u64) -> (claims: Claims)
        ensures
            claims == (Claims { address, exp }),
    {
        Claims { address, exp }
    }

    /// The claims of the token that is given for signed data: the same
    /// address, valid for as long as the data.
    pub fn of(data: &IndexerAuth) -> (claims: Claims)
        ensures
            claims == (Claims { address: data.address, exp: data.valid_until }),
    {
        Claims { address: data.address, exp: data.valid_until }
    }
}

} // verus!
