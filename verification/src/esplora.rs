//! The logic of a blockchain backend that talks to an Esplora HTTP server: which URLs it
//! requests and how it reads the replies. Sending the requests is left to the caller.
use vstd::prelude::*;
use vstd::string::StringSliceAdditionalSpecFns;
use vstd::utf8::encode_utf8;

use crate::consensus::{
    decode_block_header, decode_transaction, decoded_header, decoded_transaction, serialize_transaction,
    sha256, sha256_digest, transaction_bytes,
};
use crate::encoding::{
    append_decimal, append_hex, decimal, hash_from_hex, hash_hex, hash_to_hex, hex_decode,
    hex_lower, decode_hex_bytes, parse_hash,
};
use crate::error::WolletError;

verus! {

/// A blockchain backend implementation based on the
/// [esplora HTTP API](https://github.com/blockstream/esplora/blob/master/API.md)
pub struct EsploraClient {
    base_url: String,
    tip_hash_url: String,
    broadcast_url: String,
}

impl EsploraClient {
    /// The server's URL.
    pub closed spec fn base(&self) -> Seq<char> {
        self.base_url@
    }

    /// The fixed URLs are those of the server's URL.
    #[verifier::type_invariant]
    spec fn urls_of_base(self) -> bool {
        &&& self.tip_hash_url@ == self.base_url@ + "/blocks/tip/hash"@
        &&& self.broadcast_url@ == self.base_url@ + "/tx"@
    }

    pub fn new(url: &str) -> (client: Self)
        ensures
            client.base() == url@,
    {
        let base_url = url.to_owned();
        let mut tip_hash_url = url.to_owned();
        tip_hash_url.append("/blocks/tip/hash");
        let mut broadcast_url = url.to_owned();
        broadcast_url.append("/tx");
        Self { base_url, tip_hash_url, broadcast_url }
    }

    /// The server's URL.
    pub fn base_url(&self) -> (u: &str)
        ensures
            u@ == self.base(),
    {
        self.base_url.as_str()
    }

    /// The URL that answers the hash of the chain's tip (`last_block_hash` fetches it).
    pub fn tip_hash_url(&self) -> (u: &str)
        ensures
            u@ == self.base() + "/blocks/tip/hash"@,
    {
        proof {
            use_type_invariant(self);
        }
        self.tip_hash_url.as_str()
    }

    /// The URL that `broadcast` posts the serialized transaction to.
    pub fn broadcast_url(&self) -> (u: &str)
        ensures
            u@ == self.base() + "/tx"@,
    {
        proof {
            use_type_invariant(self);
        }
        self.broadcast_url.as_str()
    }

    /// What `broadcast` posts: the URL that transactions are posted to, and the consensus
    /// encoding of `tx` as the body.
    pub fn broadcast_request(&self, tx: &elements::Transaction) -> (r: (String, Vec<u8>))
        ensures
            r.0@ == self.base() + "/tx"@,
            r.1@ == transaction_bytes(*tx),
    {
        proof {
            use_type_invariant(self);
        }
        let body = serialize_transaction(tx);
        (self.broadcast_url.clone(), body)
    }

    /// The URL of the header of the block with hash `block_hash`.
    pub fn header_url(&self, block_hash: &[u8; 32]) -> (u: String)
        ensures
            u@ == self.base() + "/block/"@ + hash_hex(block_hash@) + "/header"@,
    {
        let mut u = self.base_url.clone();
        u.append("/block/");
        let hash = hash_to_hex(block_hash);
        u.append(hash.as_str());
        u.append("/header");
        u
    }

    /// The URL of the header of the block whose hash is the reply `hash_reply` (of the tip or
    /// of a block height); a reply that is not a block hash is refused.
    pub fn header_url_from_reply(&self, hash_reply: &str) -> (r: Result<String, WolletError>)
        ensures
            match hash_from_hex(hash_reply.spec_bytes()) {
                Ok(h) => r matches Ok(u) && u@ == self.base() + "/block/"@ + hash_hex(h)
                    + "/header"@,
                Err(k) => r == Err::<String, WolletError>(WolletError::Hex(k)),
            },
    {
        let hash = parse_block_hash(hash_reply)?;
        Ok(self.header_url(&hash))
    }

    /// The URL of the raw transaction with id `txid`.
    pub fn tx_raw_url(&self, txid: &[u8; 32]) -> (u: String)
        ensures
            u@ == self.base() + "/tx/"@ + hash_hex(txid@) + "/raw"@,
    {
        let mut u = self.base_url.clone();
        u.append("/tx/");
        let id = hash_to_hex(txid);
        u.append(id.as_str());
        u.append("/raw");
        u
    }

    /// The URL that answers the hash of the block at `height`.
    pub fn block_height_url(&self, height: u32) -> (u: String)
        ensures
            u@ == self.base() + "/block-height/"@ + decimal(height as nat),
    {
        let mut u = self.base_url.clone();
        u.append("/block-height/");
        append_decimal(&mut u, height as usize);
        u
    }

    /// The URL of the transactions that touch the output script `script`, found by the
    /// lowercase hexadecimal SHA-256 digest of the script.
    pub fn script_history_url(&self, script: &[u8]) -> (u: String)
        ensures
            u@ == self.base() + "/scripthash/"@ + hex_lower(sha256_digest(script@)) + "/txs"@,
    {
        let digest = sha256(script);
        let mut u = self.base_url.clone();
        u.append("/scripthash/");
        append_hex(&mut u, digest.as_slice());
        u.append("/txs");
        u
    }
}

/// Reads a block hash from the text of a reply.
pub fn parse_block_hash(text: &str) -> (r: Result<[u8; 32], WolletError>)
    ensures
        match hash_from_hex(text.spec_bytes()) {
            Ok(h) => r matches Ok(a) && a@ == h,
            Err(k) => r == Err::<[u8; 32], WolletError>(WolletError::Hex(k)),
        },
{
    match parse_hash(text.as_bytes()) {
        Ok(h) => Ok(h),
        Err(k) => Err(WolletError::Hex(k)),
    }
}

/// Reads a transaction id from the text of a reply (the reply to a broadcast).
pub fn parse_txid(text: &str) -> (r: Result<[u8; 32], WolletError>)
    ensures
        match hash_from_hex(text.spec_bytes()) {
            Ok(h) => r matches Ok(a) && a@ == h,
            Err(k) => r == Err::<[u8; 32], WolletError>(WolletError::Hex(k)),
        },
{
    parse_block_hash(text)
}

/// Reads a block header from the reply to a header request: hexadecimal text of its
/// consensus encoding.
pub fn decode_header_reply(text: &str) -> (r: Result<elements::BlockHeader, WolletError>)
    ensures
        match hex_decode(text.spec_bytes()) {
            Ok(bytes) => match decoded_header(bytes) {
                Some(h) => r == Ok::<elements::BlockHeader, WolletError>(h),
                None => r == Err::<elements::BlockHeader, WolletError>(WolletError::Decode),
            },
            Err(k) => r == Err::<elements::BlockHeader, WolletError>(WolletError::Hex(k)),
        },
{
    let bytes = match decode_hex_bytes(text.as_bytes()) {
        Ok(b) => b,
        Err(k) => {
            return Err(WolletError::Hex(k));
        },
    };
    match decode_block_header(bytes.as_slice()) {
        Ok(header) => Ok(header),
        Err(_) => Err(WolletError::Decode),
    }
}

/// Reads a transaction from the reply to a raw transaction request: its consensus encoding.
pub fn decode_transaction_reply(bytes: &[u8]) -> (r: Result<elements::Transaction, WolletError>)
    ensures
        match decoded_transaction(bytes@) {
            Some(t) => r == Ok::<elements::Transaction, WolletError>(t),
            None => r == Err::<elements::Transaction, WolletError>(WolletError::Decode),
        },
{
    match decode_transaction(bytes) {
        Ok(tx) => Ok(tx),
        Err(_) => Err(WolletError::Decode),
    }
}

/// Where a transaction stands in the chain, as the server reports it.
pub struct Status {
    pub block_height: i32,
}

/// A transaction as the server lists it in the history of a script.
pub struct EsploraTx {
    /// The transaction id, as text.
    pub txid: String,
    pub fee: u64,
    pub status: Status,
}

/// An entry of the history of a script.
pub struct HistoryEntry {
    pub height: i32,
    pub tx_hash: [u8; 32],
    pub fee: Option<u64>,
}

/// Whether the history entry `e` stands for the listed transaction `t`, whose id reads as `id`.
pub open spec fn entry_of(e: HistoryEntry, t: EsploraTx, id: Seq<u8>) -> bool {
    &&& e.height == t.status.block_height
    &&& e.tx_hash@ == id
    &&& e.fee == Some(t.fee)
}

/// The history of a script from the transactions the server lists, in the same order; the
/// first transaction whose id is not a transaction id gives the error.
pub fn history_from_txs(txs: &Vec<EsploraTx>) -> (r: Result<Vec<HistoryEntry>, WolletError>)
    ensures
        r is Ok <==> forall|i: int|
            0 <= i < txs@.len() ==> #[trigger] hash_from_hex(encode_utf8(txs@[i].txid@)) is Ok,
        r matches Ok(entries) ==> entries@.len() == txs@.len() && forall|i: int|
            0 <= i < txs@.len() ==> entry_of(
                #[trigger] entries@[i],
                txs@[i],
                hash_from_hex(encode_utf8(txs@[i].txid@))->Ok_0,
            ),
        r matches Ok(entries) ==> forall|i: int|
            0 <= i < txs@.len() ==> {
                &&& (#[trigger] entries@[i]).height == txs@[i].status.block_height
                &&& entries@[i].fee == Some(txs@[i].fee)
                &&& entries@[i].tx_hash@ == hash_from_hex(encode_utf8(txs@[i].txid@))->Ok_0
            },
        r matches Err(e) ==> exists|i: int|
            #![trigger txs@[i]]
            {
                &&& 0 <= i < txs@.len()
                &&& forall|j: int|
                    0 <= j < i ==> #[trigger] hash_from_hex(encode_utf8(txs@[j].txid@)) is Ok
                &&& hash_from_hex(encode_utf8(txs@[i].txid@)) matches Err(k)
                &&& e == WolletError::Hex(k)
            },
{
    let mut entries: Vec<HistoryEntry> = Vec::new();
    let mut i: usize = 0;
    while i < txs.len()
        invariant
            i <= txs@.len(),
            entries@.len() == i,
            forall|j: int|
                0 <= j < i ==> #[trigger] hash_from_hex(encode_utf8(txs@[j].txid@)) is Ok,
            forall|j: int|
                0 <= j < i ==> entry_of(
                    #[trigger] entries@[j],
                    txs@[j],
                    hash_from_hex(encode_utf8(txs@[j].txid@))->Ok_0,
                ),
        decreases txs@.len() - i,
    {
        let t = &txs[i];
        let tx_hash = match parse_hash(t.txid.as_str().as_bytes()) {
            Ok(h) => h,
            Err(k) => {
                return Err(WolletError::Hex(k));
            },
        };
        entries.push(HistoryEntry { height: t.status.block_height, tx_hash, fee: Some(t.fee) });
        i = i + 1;
    }
    Ok(entries)
}


/// A history entry that stands for a listed transaction carries the transaction's reported
/// block height and fee unchanged, and the id read from the transaction's text.
pub proof fn law_entry_keeps_listed_fields(e: HistoryEntry, t: EsploraTx, id: Seq<u8>)
    requires
        entry_of(e, t, id),
    ensures
        e.height == t.status.block_height,
        e.fee == Some(t.fee),
        e.tx_hash@ == id,
{
}

} // verus!
