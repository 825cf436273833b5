//! The JSON-RPC entities: blocks, transactions, receipts and logs, each a
//! plain aggregate of the value kinds, plus the codec of optional fields.
use crate::data::Data;
use crate::error::Error;
use crate::fixed_size_data::{Address, BloomFilter, FixedSizeData, LogArgument, Nonce};
use crate::hex::{data_hex, encode_hex_fixed_size_data, has_hex_prefix, padded_hex_value};
use crate::quantity::Quantity;
use crate::token::{status_of_token, status_token, Status, TransactionType};
use crate::uint::{BlockNumber, LogIndex, TransactionIndex};
use vstd::prelude::*;

verus! {

/// `arrayvec::ArrayVec`: a vector of at most `CAP` items held inline; here
/// it only carries a log's topics.
#[verifier::external_type_specification]
#[verifier::external_body]
#[verifier::reject_recursive_types(T)]
pub struct ExArrayVec<T, const CAP: usize>(arrayvec::ArrayVec<T, CAP>);

/// `ArrayVec::clone` copies the items into a new vector; nothing is
/// claimed of the copy.
pub assume_specification<T, const CAP: usize>[ <arrayvec::ArrayVec<T, CAP> as Clone>::clone ](
    v: &arrayvec::ArrayVec<T, CAP>,
) -> arrayvec::ArrayVec<T, CAP>
    where
        T: Clone,
;

/// The header fields of a block.
#[derive(Debug, Default, Clone, PartialEq, Eq)]
pub struct BlockHeader {
    pub number: BlockNumber,
    pub hash: crate::fixed_size_data::Hash,
    pub parent_hash: crate::fixed_size_data::Hash,
    pub nonce: Nonce,
    pub sha3_uncles: crate::fixed_size_data::Hash,
    pub logs_bloom: BloomFilter,
    pub transactions_root: crate::fixed_size_data::Hash,
    pub state_root: crate::fixed_size_data::Hash,
    pub receipts_root: crate::fixed_size_data::Hash,
    pub miner: Address,
    pub difficulty: Quantity,
    pub total_difficulty: Quantity,
    pub extra_data: Data,
    pub size: Quantity,
    pub gas_limit: Quantity,
    pub gas_used: Quantity,
    pub timestamp: Quantity,
    pub uncles: Vec<crate::fixed_size_data::Hash>,
}

/// A block: its header and the transactions it holds, by value.
#[derive(Debug, Default, Clone, PartialEq, Eq)]
pub struct Block {
    pub header: BlockHeader,
    pub transactions: Vec<Transaction>,
}

/// A transaction as a node reports it; `to` is absent for a contract
/// creation.
#[derive(Debug, Default, Clone, PartialEq, Eq)]
pub struct Transaction {
    pub block_hash: crate::fixed_size_data::Hash,
    pub block_number: BlockNumber,
    pub from: Address,
    pub gas: Quantity,
    pub gas_price: Quantity,
    pub hash: crate::fixed_size_data::Hash,
    pub input: Data,
    pub nonce: Quantity,
    pub to: Option<Address>,
    pub transaction_index: TransactionIndex,
    pub value: Quantity,
    pub v: Quantity,
    pub r: Quantity,
    pub s: Quantity,
}

/// The receipt of an executed transaction.
#[derive(Debug, Clone, PartialEq, Eq)]
pub struct TransactionReceipt {
    pub transaction_hash: crate::fixed_size_data::Hash,
    pub transaction_index: TransactionIndex,
    pub block_hash: crate::fixed_size_data::Hash,
    pub block_number: BlockNumber,
    pub from: Address,
    pub to: Option<Address>,
    pub cumulative_gas_used: Quantity,
    pub effective_gas_price: Quantity,
    pub gas_used: Quantity,
    pub contract_address: Option<Address>,
    pub logs: Vec<Log>,
    pub logs_bloom: BloomFilter,
    pub kind: TransactionType,
    pub root: Option<crate::fixed_size_data::Hash>,
    pub status: Option<Status>,
}

/// A log entry; `removed` is a plain boolean, and there are at most four
/// topics.
#[derive(Debug, Default, Clone, PartialEq, Eq)]
pub struct Log {
    pub removed: bool,
    pub log_index: LogIndex,
    pub transaction_index: TransactionIndex,
    pub transaction_hash: crate::fixed_size_data::Hash,
    pub block_hash: crate::fixed_size_data::Hash,
    pub block_number: BlockNumber,
    pub address: Address,
    pub data: Data,
    pub topics: arrayvec::ArrayVec<LogArgument, 4>,
}

// ---------------------------------------------------------------------
// Optional fields
// ---------------------------------------------------------------------

/// The text of an optional fixed-size field: absent stays absent.
pub open spec fn optional_fixed_text(v: Option<Seq<u8>>) -> Option<Seq<char>> {
    match v {
        Some(b) => Some(data_hex(b)),
        None => None,
    }
}

/// What an optional fixed-size field of `n` bytes reads as: `Some(None)` for
/// an absent field, `Some(Some(b))` for text of `n` bytes, `None` where the
/// text is refused.
pub open spec fn optional_fixed_value(t: Option<Seq<char>>, n: nat) -> Option<Option<Seq<u8>>> {
    match t {
        None => Some(None),
        Some(s) => match padded_hex_value(s) {
            Some(b) => if b.len() == n {
                Some(Some(b))
            } else {
                None
            },
            None => None,
        },
    }
}

/// The text of an optional status field: absent stays absent.
pub open spec fn optional_status_text(v: Option<Status>) -> Option<Seq<char>> {
    match v {
        Some(st) => Some(status_token(st)),
        None => None,
    }
}

/// Writes an optional fixed-size field; an absent value gives no text, not
/// the text of zero bytes.
pub fn encode_optional_fixed<const N: usize>(v: &Option<FixedSizeData<N>>) -> (r: Option<String>)
    ensures
        match v {
            Some(x) => r is Some && r->0@ == data_hex(x@),
            None => r is None,
        },
{
    match v {
        Some(x) => Some(encode_hex_fixed_size_data(x.as_bytes())),
        None => None,
    }
}

/// Reads an optional fixed-size field; an absent field reads as no value.
pub fn decode_optional_fixed<const N: usize>(t: Option<&str>) -> (r: Result<
    Option<FixedSizeData<N>>,
    Error,
>)
    ensures
        match t {
            None => r matches Ok(None),
            Some(s) => match r {
                Ok(Some(x)) => x.wf() && optional_fixed_value(Some(s@), N as nat) == Some(Some(x@)),
                Ok(None) => false,
                Err(_) => optional_fixed_value(Some(s@), N as nat) is None,
            },
        },
{
    match t {
        None => Ok(None),
        Some(s) => {
            let x = FixedSizeData::<N>::from_hex(s)?;
            Ok(Some(x))
        },
    }
}

/// Writes an optional status field; an absent status gives no text.
pub fn encode_optional_status(v: &Option<Status>) -> (r: Option<&'static str>)
    ensures
        match v {
            Some(st) => r is Some && r->0@ == status_token(*st),
            None => r is None,
        },
{
    match v {
        Some(st) => Some(st.as_str()),
        None => None,
    }
}

/// Reads an optional status field; an absent field reads as no status.
pub fn decode_optional_status(t: Option<&str>) -> (r: Result<Option<Status>, Error>)
    ensures
        match t {
            None => r matches Ok(None),
            Some(s) => match r {
                Ok(Some(st)) => status_of_token(s@) == Some(st),
                Ok(None) => false,
                Err(_) => status_of_token(s@) is None,
            },
        },
{
    match t {
        None => Ok(None),
        Some(s) => {
            let st = Status::from_hex(s)?;
            Ok(Some(st))
        },
    }
}

/// An optional fixed-size field survives writing and reading: an absent
/// value comes back absent, a present one with every byte.
pub proof fn lemma_optional_fixed_round_trip(v: Option<Seq<u8>>, n: nat)
    requires
        v is Some ==> v->0.len() == n,
    ensures
        optional_fixed_value(optional_fixed_text(v), n) == Some(v),
{
    if let Some(b) = v {
        crate::fixed_size_data::lemma_fixed_round_trip(b);
    }
}

} // verus!
