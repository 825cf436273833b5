//! Canonical hexadecimal wire encoding of blockchain JSON-RPC values.
//!
//! Every numeric and byte-string field travels as a `0x`-prefixed hex
//! string. The rules differ by value kind: quantities are minimal, byte
//! values keep every byte, and enumerations map to literal tokens.
use vstd::prelude::*;

pub mod data;
pub mod entity;
pub mod error;
pub mod fixed_size_data;
pub mod hex;
pub mod quantity;
pub mod token;
pub mod uint;

pub use data::{Bytes, Data};
pub use entity::{Block, BlockHeader, Log, Transaction, TransactionReceipt};
pub use error::{Error, HexError};
pub use fixed_size_data::{Address, BloomFilter, Bytes32, FixedSizeData, LogArgument, Nonce};
pub use hex::{decode_hex, encode_hex_data, encode_hex_fixed_size_data, encode_hex_quantity};
pub use quantity::{encode_hex, Quantity, Unsigned256};
pub use token::{Status, TransactionStatus, TransactionType};
pub use uint::{BlockNumber, Index, LogIndex, TransactionIndex, UInt};
