use std::str::FromStr;

use vstd::prelude::*;
use vstd::string::StringSliceAdditionalSpecFns;

use crate::api::error::ApiError;
use crate::db::types::{Address, B256};

verus! {

/// The data that an account signs to authenticate: its address, and the
/// time, in seconds since the epoch, until which the signature counts.
#[derive(Clone, Copy, Debug, PartialEq, Eq)]
pub struct IndexerAuth {
    pub address: Address,
    pub valid_until: u64,
}

/// The Keccak-256 hash of the bytes.
pub uninterp spec fn keccak(bytes: Seq<u8>) -> Seq<u8>;

/// The address whose key made the signature, written in hexadecimal, of the
/// 32-byte digest: `None` where the text is no signature, or no key can be
/// recovered from it.
pub uninterp spec fn recovered_signer(signature: Seq<char>, digest: Seq<u8>) -> Option<Seq<u8>>;

/// `alloy_primitives::keccak256`.
#[verifier::external_body]
fn keccak256(bytes: &[u8]) -> (hash: B256)
    ensures
        hash@ == keccak(bytes@),
{
    B256(alloy_primitives::keccak256(bytes).0)
}

/// `alloy_primitives::Signature::recover_address_from_prehash`, on the
/// signature that `Signature::from_str` reads from the text.
#[verifier::external_body]
fn recover_signer(signature: &str, digest: &B256) -> (signer: Option<Address>)
    ensures
        match signer {
            Some(a) => recovered_signer(signature@, digest@) == Some(a@),
            None => recovered_signer(signature@, digest@) is None,
        },
{
    let parsed = alloy_primitives::Signature::from_str(signature).ok()?;
    let prehash = alloy_primitives::B256::new(digest.0);
    parsed.recover_address_from_prehash(&prehash).ok().map(|a| Address(a.0.0))
}

/// The name of the signing domain.
pub open spec fn domain_name() -> Seq<u8> {
    "ethui".spec_bytes()
}

/// The version of the signing domain.
pub open spec fn domain_version() -> Seq<u8> {
    "1".spec_bytes()
}

/// The chain id of the signing domain.
pub const DOMAIN_CHAIN_ID: u64 = 1;

/// The type of the signing domain, as typed data spells it.
pub open spec fn domain_type() -> Seq<u8> {
    "EIP712Domain(string name,string version,uint256 chainId,address verifyingContract)".spec_bytes()
}

/// The type of the signed data, as typed data spells it.
pub open spec fn auth_type() -> Seq<u8> {
    "IndexerAuth(address address,uint64 validUntil)".spec_bytes()
}

/// Byte `i` of the number in big-endian order.
pub open spec fn be_byte(n: u64, i: int) -> u8 {
    ((n >> (((7 - i) * 8) as u64)) & 0xff) as u8
}

/// The number as a 32-byte word: big-endian, with zero bytes in front.
pub open spec fn u64_word(n: u64) -> Seq<u8> {
    Seq::new(24, |i: int| 0u8) + Seq::new(8, |i: int| be_byte(n, i))
}

/// An address as a 32-byte word: with 12 zero bytes in front.
pub open spec fn address_word(address: Seq<u8>) -> Seq<u8> {
    Seq::new(12, |i: int| 0u8) + address
}

/// The hash that stands for the signing domain: the domain named `ethui`,
/// version `1`, on chain 1, with the zero address as verifying contract.
pub open spec fn domain_separator() -> Seq<u8> {
    keccak(
        keccak(domain_type()) + keccak(domain_name()) + keccak(domain_version()) + u64_word(
            DOMAIN_CHAIN_ID,
        ) + address_word(Seq::new(20, |i: int| 0u8)),
    )
}

/// The hash that stands for the data.
pub open spec fn struct_hash(data: IndexerAuth) -> Seq<u8> {
    keccak(keccak(auth_type()) + address_word(data.address@) + u64_word(data.valid_until))
}

/// The digest that an account signs for the data: that of typed data in the
/// signing domain.
pub open spec fn eip712_digest(data: IndexerAuth) -> Seq<u8> {
    keccak(seq![0x19u8, 0x01u8] + domain_separator() + struct_hash(data))
}

/// Appends `count` zero bytes.
fn push_zeros(buffer: &mut Vec<u8>, count: usize)
    ensures
        final(buffer)@ == old(buffer)@ + Seq::new(count as nat, |i: int| 0u8),
{
    let mut i: usize = 0;
    while i < count
        invariant
            0 <= i <= count,
            buffer@ == old(buffer)@ + Seq::new(i as nat, |k: int| 0u8),
        decreases count - i,
    {
        buffer.push(0);
        assert(buffer@ =~= old(buffer)@ + Seq::new((i + 1) as nat, |k: int| 0u8));
        i += 1;
    }
}

/// Appends the number as a 32-byte word.
fn push_u64_word(buffer: &mut Vec<u8>, n: u64)
    ensures
        final(buffer)@ == old(buffer)@ + u64_word(n),
{
    push_zeros(buffer, 24);
    let ghost start = buffer@;
    let mut i: u8 = 0;
    while i < 8
        invariant
            0 <= i <= 8,
            buffer@ == start + Seq::new(i as nat, |k: int| be_byte(n, k)),
        decreases 8 - i,
    {
        let shift: u64 = ((7 - i) as u64) * 8;
        let masked: u64 = (n >> shift) & 0xff;
        assert(masked <= 0xff) by (bit_vector)
            requires
                masked == (n >> shift) & 0xff,
        ;
        buffer.push(masked as u8);
        assert(buffer@ =~= start + Seq::new((i + 1) as nat, |k: int| be_byte(n, k)));
        i += 1;
    }
    assert(buffer@ =~= old(buffer)@ + u64_word(n));
}

/// Appends an address as a 32-byte word.
fn push_address_word(buffer: &mut Vec<u8>, address: &Address)
    ensures
        final(buffer)@ == old(buffer)@ + address_word(address@),
{
    push_zeros(buffer, 12);
    buffer.extend_from_slice(address.0.as_slice());
    assert(buffer@ =~= old(buffer)@ + address_word(address@));
}

/// The hash that stands for the signing domain.
fn hash_domain() -> (hash: B256)
    ensures
        hash@ == domain_separator(),
{
    let mut buffer: Vec<u8> = Vec::new();
    let type_hash = keccak256(
        "EIP712Domain(string name,string version,uint256 chainId,address verifyingContract)".as_bytes(),
    );
    let name_hash = keccak256("ethui".as_bytes());
    let version_hash = keccak256("1".as_bytes());
    buffer.extend_from_slice(type_hash.0.as_slice());
    buffer.extend_from_slice(name_hash.0.as_slice());
    buffer.extend_from_slice(version_hash.0.as_slice());
    push_u64_word(&mut buffer, DOMAIN_CHAIN_ID);
    let zero = Address([0u8; 20]);
    assert(zero@ =~= Seq::new(20, |i: int| 0u8));
    push_address_word(&mut buffer, &zero);
    assert(buffer@ =~= keccak(domain_type()) + keccak(domain_name()) + keccak(domain_version())
        + u64_word(DOMAIN_CHAIN_ID) + address_word(Seq::new(20, |i: int| 0u8)));
    keccak256(buffer.as_slice())
}

impl IndexerAuth {
    pub fn new(address: Address, valid_until: u64) -> (data: IndexerAuth)
        ensures
            data == (IndexerAuth { address, valid_until }),
    {
        IndexerAuth { address, valid_until }
    }

    /// The digest that the account signs.
    pub fn encode_eip712(&self) -> (digest: B256)
        ensures
            digest@ == eip712_digest(*self),
    {
        let domain = hash_domain();
        let type_hash = keccak256("IndexerAuth(address address,uint64 validUntil)".as_bytes());
        let mut data: Vec<u8> = Vec::new();
        data.extend_from_slice(type_hash.0.as_slice());
        push_address_word(&mut data, &self.address);
        push_u64_word(&mut data, self.valid_until);
        assert(data@ =~= keccak(auth_type()) + address_word(self.address@) + u64_word(
            self.valid_until,
        ));
        let hash = keccak256(data.as_slice());
        let mut message: Vec<u8> = Vec::new();
        message.push(0x19);
        message.push(0x01);
        message.extend_from_slice(domain.0.as_slice());
        message.extend_from_slice(hash.0.as_slice());
        assert(message@ =~= seq![0x19u8, 0x01u8] + domain_separator() + struct_hash(*self));
        keccak256(message.as_slice())
    }

    /// Whether the signature still counts at time `now`: only before
    /// `valid_until`.
    pub fn check_expiration(&self, now: u64) -> (r: Result<(), ApiError>)
        ensures
            r == if self.valid_until <= now {
                Err::<(), ApiError>(ApiError::InvalidCredentials)
            } else {
                Ok::<(), ApiError>(())
            },
    {
        if self.valid_until <= now {
            Err(ApiError::InvalidCredentials)
        } else {
            Ok(())
        }
    }

    /// Checks the signer that was recovered from a signature of this data,
    /// at time `now`: the signature must not have expired, and the signer
    /// must be the address that the data names.
    pub fn check_signer(&self, now: u64, signer: Option<Address>) -> (r: Result<(), ApiError>)
        ensures
            r == if now < self.valid_until && signer == Some(self.address) {
                Ok::<(), ApiError>(())
            } else {
                Err::<(), ApiError>(ApiError::InvalidCredentials)
            },
    {
        match self.check_expiration(now) {
            Err(e) => Err(e),
            Ok(()) => match signer {
                Some(a) => {
                    if a.same(&self.address) {
                        Ok(())
                    } else {
                        Err(ApiError::InvalidCredentials)
                    }
                },
                None => Err(ApiError::InvalidCredentials),
            },
        }
    }

    /// Checks a signature of this data at time `now`: it must not have
    /// expired, and it must have been made over the data's digest with the
    /// key of the address that the data names.
    pub fn check(&self, now: u64, signature: &str) -> (r: Result<(), ApiError>)
        ensures
            r == if now < self.valid_until && recovered_signer(
                signature@,
                eip712_digest(*self),
            ) == Some(self.address@) {
                Ok::<(), ApiError>(())
            } else {
                Err::<(), ApiError>(ApiError::InvalidCredentials)
            },
    {
        match self.check_expiration(now) {
            Err(e) => Err(e),
            Ok(()) => {
                let digest = self.encode_eip712();
                let signer = recover_signer(signature, &digest);
                proof {
                    if let Some(a) = signer {
                        if a@ == self.address@ {
                            assert(a.0 =~= self.address.0);
                        }
                    }
                }
                self.check_signer(now, signer)
            },
        }
    }
}

} // verus!
