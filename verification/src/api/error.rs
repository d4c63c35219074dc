use vstd::prelude::*;

verus! {

/// Why a request was turned down.
#[derive(Clone, Copy, Debug, PartialEq, Eq, Structural)]
pub enum ApiError {
    /// The signature does not belong to the address, or it has expired
    InvalidCredentials,
    /// The address was never registered
    NotRegistered,
    /// The token could not be made or read
    Jsonwebtoken,
    /// Anything else
    Unknown,
}

/// The HTTP status for requests that lack valid credentials.
pub const UNAUTHORIZED: u16 = 401;

/// The HTTP status for failures of the server itself.
pub const INTERNAL_SERVER_ERROR: u16 = 500;

impl ApiError {
    /// The HTTP status with which the error is answered.
    pub fn status_code(&self) -> (code: u16)
        ensures
            code == if *self == ApiError::Unknown {
                INTERNAL_SERVER_ERROR
            } else {
                UNAUTHORIZED
            },
    {
        match self {
            ApiError::NotRegistered | ApiError::InvalidCredentials | ApiError::Jsonwebtoken => {
                UNAUTHORIZED
            },
            ApiError::Unknown => INTERNAL_SERVER_ERROR,
        }
    }
}

} // verus!
