//! What the library takes from the `elements` crate: SHA-256 digests and the consensus
//! decoding of block headers and transactions. Each item here is trusted: its contract is
//! believed, not proved.
use vstd::prelude::*;

verus! {

/// An Elements block header, carried through without looking inside.
#[verifier::external_type_specification]
#[verifier::external_body]
pub struct ExBlockHeader(elements::BlockHeader);

/// An Elements transaction, carried through without looking inside.
#[verifier::external_type_specification]
#[verifier::external_body]
pub struct ExTransaction(elements::Transaction);

/// The error of a failed consensus decoding.
#[verifier::external_type_specification]
#[verifier::external_body]
pub struct ExEncodeError(elements::encode::Error);

/// The SHA-256 digest of `data`.
pub uninterp spec fn sha256_digest(data: Seq<u8>) -> Seq<u8>;

/// The Elements block header whose consensus encoding starts `bytes`, if there is one.
pub uninterp spec fn decoded_header(bytes: Seq<u8>) -> Option<elements::BlockHeader>;

/// The Elements transaction whose consensus encoding starts `bytes`, if there is one.
pub uninterp spec fn decoded_transaction(bytes: Seq<u8>) -> Option<elements::Transaction>;

/// The consensus encoding of the Elements transaction `tx`.
pub uninterp spec fn transaction_bytes(tx: elements::Transaction) -> Seq<u8>;

/// Calls `elements::bitcoin::hashes::sha256::Hash::hash` on `data` and returns the 32 bytes of
/// the digest. Claimed: the bytes are `sha256_digest(data)`, a function of `data` alone.
#[verifier::external_body]
pub(crate) fn sha256(data: &[u8]) -> (digest: [u8; 32])
    ensures
        digest@ == sha256_digest(data@),
{
    let hash = <elements::bitcoin::hashes::sha256::Hash as elements::bitcoin::hashes::Hash>::hash(
        data,
    );
    <elements::bitcoin::hashes::sha256::Hash as elements::bitcoin::hashes::Hash>::to_byte_array(
        hash,
    )
}

/// Calls `<elements::BlockHeader as elements::encode::Decodable>::consensus_decode` on `bytes`.
/// Claimed: the outcome is a function of `bytes` alone, named `decoded_header(bytes)`: it
/// succeeds exactly when that is `Some`, with that header. What the header holds is not
/// described: Verus sees the type as opaque.
#[verifier::external_body]
pub(crate) fn decode_block_header(bytes: &[u8]) -> (r: Result<
    elements::BlockHeader,
    elements::encode::Error,
>)
    ensures
        r is Ok <==> decoded_header(bytes@) is Some,
        r matches Ok(h) ==> decoded_header(bytes@) == Some(h),
{
    <elements::BlockHeader as elements::encode::Decodable>::consensus_decode(bytes)
}

/// Calls `<elements::Transaction as elements::encode::Decodable>::consensus_decode` on `bytes`.
/// Claimed: the outcome is a function of `bytes` alone, named `decoded_transaction(bytes)`:
/// it succeeds exactly when that is `Some`, with that transaction. What the transaction holds
/// is not described: Verus sees the type as opaque.
#[verifier::external_body]
pub(crate) fn decode_transaction(bytes: &[u8]) -> (r: Result<
    elements::Transaction,
    elements::encode::Error,
>)
    ensures
        r is Ok <==> decoded_transaction(bytes@) is Some,
        r matches Ok(t) ==> decoded_transaction(bytes@) == Some(t),
{
    <elements::Transaction as elements::encode::Decodable>::consensus_decode(bytes)
}


/// Calls `<elements::Transaction as elements::pset::serialize::Serialize>::serialize` on `tx`.
/// Claimed: the bytes are `transaction_bytes(tx)`, a function of the transaction alone (its
/// consensus encoding, written to a vector, which cannot fail).
#[verifier::external_body]
pub(crate) fn serialize_transaction(tx: &elements::Transaction) -> (bytes: Vec<u8>)
    ensures
        bytes@ == transaction_bytes(*tx),
{
    <elements::Transaction as elements::pset::serialize::Serialize>::serialize(tx)
}

} // verus!
