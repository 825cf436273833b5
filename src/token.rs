//! Closed-set enumerations: each variant has one literal hex token, given by
//! an explicit table in both directions.
use crate::error::Error;
use vstd::prelude::*;
use vstd::string::StrSliceExecFns;

verus! {

/// The three-character token `0x` followed by one digit.
pub open spec fn token(d: char) -> Seq<char> {
    seq!['0', 'x', d]
}

/// Whether `s` is the token `0x` followed by `d`.
fn is_token(s: &str, d: char) -> (r: bool)
    ensures
        r == (s@ == token(d)),
{
    let n = s.unicode_len();
    if n != 3 {
        proof {
            assert(s@.len() != token(d).len());
        }
        return false;
    }
    let r = s.get_char(0) == '0' && s.get_char(1) == 'x' && s.get_char(2) == d;
    proof {
        if r {
            assert(s@ =~= token(d));
        } else {
            assert(s@ != token(d)) by {
                if s@ == token(d) {
                    assert(s@[0] == '0' && s@[1] == 'x' && s@[2] == d);
                }
            }
        }
    }
    r
}

/// The outcome of a transaction as a receipt reports it.
#[derive(Debug, Clone, Copy, PartialEq, Eq, Structural, Hash)]
pub enum Status {
    Success,
    Failure,
}

/// Another name for a receipt's status.
pub type TransactionStatus = Status;

/// The token of a status: `0x1` for success, `0x0` for failure.
pub open spec fn status_token(s: Status) -> Seq<char> {
    match s {
        Status::Success => token('1'),
        Status::Failure => token('0'),
    }
}

/// The status a token stands for, if any.
pub open spec fn status_of_token(s: Seq<char>) -> Option<Status> {
    if s == token('1') {
        Some(Status::Success)
    } else if s == token('0') {
        Some(Status::Failure)
    } else {
        None
    }
}

impl Status {
    pub fn as_str(&self) -> (r: &'static str)
        ensures
            r@ == status_token(*self),
    {
        match self {
            Status::Success => {
                proof {
                    reveal_strlit("0x1");
                }
                "0x1"
            },
            Status::Failure => {
                proof {
                    reveal_strlit("0x0");
                }
                "0x0"
            },
        }
    }

    /// The status a token stands for; any other text fails with
    /// `UnknownTransactionStatus`.
    pub fn from_hex(s: &str) -> (r: Result<Status, Error>)
        ensures
            match r {
                Ok(st) => status_of_token(s@) == Some(st),
                Err(Error::UnknownTransactionStatus(t)) => status_of_token(s@) is None && t@ == s@,
                Err(_) => false,
            },
    {
        if is_token(s, '1') {
            Ok(Status::Success)
        } else if is_token(s, '0') {
            Ok(Status::Failure)
        } else {
            Err(Error::UnknownTransactionStatus(s.to_owned()))
        }
    }
}

/// The envelope kind of a transaction.
#[derive(Debug, Clone, Copy, PartialEq, Eq, Structural, Hash)]
pub enum TransactionType {
    Legacy,
    AccessListType,
    DynamicFee,
}

/// The token of a transaction type: `0x0`, `0x1`, `0x2` in declaration order.
pub open spec fn transaction_type_token(t: TransactionType) -> Seq<char> {
    match t {
        TransactionType::Legacy => token('0'),
        TransactionType::AccessListType => token('1'),
        TransactionType::DynamicFee => token('2'),
    }
}

/// The transaction type a token stands for, if any.
pub open spec fn transaction_type_of_token(s: Seq<char>) -> Option<TransactionType> {
    if s == token('0') {
        Some(TransactionType::Legacy)
    } else if s == token('1') {
        Some(TransactionType::AccessListType)
    } else if s == token('2') {
        Some(TransactionType::DynamicFee)
    } else {
        None
    }
}

impl TransactionType {
    pub fn as_str(&self) -> (r: &'static str)
        ensures
            r@ == transaction_type_token(*self),
    {
        match self {
            TransactionType::Legacy => {
                proof {
                    reveal_strlit("0x0");
                }
                "0x0"
            },
            TransactionType::AccessListType => {
                proof {
                    reveal_strlit("0x1");
                }
                "0x1"
            },
            TransactionType::DynamicFee => {
                proof {
                    reveal_strlit("0x2");
                }
                "0x2"
            },
        }
    }

    /// The transaction type a token stands for; any other text fails with
    /// `UnknownTransactionType`.
    pub fn from_hex(s: &str) -> (r: Result<TransactionType, Error>)
        ensures
            match r {
                Ok(t) => transaction_type_of_token(s@) == Some(t),
                Err(Error::UnknownTransactionType(x)) => {
                    transaction_type_of_token(s@) is None && x@ == s@
                },
                Err(_) => false,
            },
    {
        if is_token(s, '0') {
            Ok(TransactionType::Legacy)
        } else if is_token(s, '1') {
            Ok(TransactionType::AccessListType)
        } else if is_token(s, '2') {
            Ok(TransactionType::DynamicFee)
        } else {
            Err(Error::UnknownTransactionType(s.to_owned()))
        }
    }
}

impl core::str::FromStr for TransactionType {
    type Err = Error;

    fn from_str(s: &str) -> Result<TransactionType, Error> {
        TransactionType::from_hex(s)
    }
}

impl core::str::FromStr for Status {
    type Err = Error;

    fn from_str(s: &str) -> Result<Status, Error> {
        Status::from_hex(s)
    }
}

/// Reading a status's own token gives that status back.
pub proof fn lemma_status_round_trip(st: Status)
    ensures
        status_of_token(status_token(st)) == Some(st),
{
    assert(token('1')[2] != token('0')[2]);
}

/// Reading a transaction type's own token gives that type back.
pub proof fn lemma_transaction_type_round_trip(t: TransactionType)
    ensures
        transaction_type_of_token(transaction_type_token(t)) == Some(t),
{
    assert(token('0')[2] != token('1')[2]);
    assert(token('0')[2] != token('2')[2]);
    assert(token('1')[2] != token('2')[2]);
}

/// Every token that reads as a status is that status's own token.
pub proof fn lemma_status_token_round_trip(s: Seq<char>)
    requires
        status_of_token(s) is Some,
    ensures
        status_token(status_of_token(s)->0) == s,
{
}

/// Every token that reads as a transaction type is that type's own token.
pub proof fn lemma_transaction_type_token_round_trip(s: Seq<char>)
    requires
        transaction_type_of_token(s) is Some,
    ensures
        transaction_type_token(transaction_type_of_token(s)->0) == s,
{
}

} // verus!
