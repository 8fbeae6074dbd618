//! The errors the pool reports to those who submit transactions.
use vstd::prelude::*;
use vstd::string::StringExecFns;

use crate::text::{decimal, hex, push_decimal, push_hex};
use crate::tx::TxHash;

verus! {

/// Core mempool errors.
#[derive(Clone, Debug, PartialEq, Eq)]
pub enum MempoolError {
    /// The pool is full.
    MempoolFull { current_size: usize, max_size: usize },
    /// The transaction is not valid.
    InvalidTransaction { reason: String },
    /// The transaction is in the pool already.
    TxAlreadyExists { tx_hash: TxHash },
}

impl MempoolError {
    /// The error for a pool holding `current_size` transactions out of at
    /// most `max_size`.
    pub fn mempool_full(current_size: usize, max_size: usize) -> (r: Self)
        ensures
            r == (MempoolError::MempoolFull { current_size, max_size }),
    {
        MempoolError::MempoolFull { current_size, max_size }
    }

    /// The error for an invalid transaction, with the reason given, turned
    /// into a `String` by its `Into` conversion (for a `&str`, its characters).
    pub fn invalid_transaction<S: Into<String>>(reason: S) -> (r: Self)
        ensures
            r matches MempoolError::InvalidTransaction { reason: text } && call_ensures(
                <S as Into<String>>::into,
                (reason,),
                text,
            ),
    {
        MempoolError::InvalidTransaction { reason: reason.into() }
    }

    /// The error for a transaction already in the pool.
    pub fn tx_already_exists(tx_hash: TxHash) -> (r: Self)
        ensures
            r == (MempoolError::TxAlreadyExists { tx_hash }),
    {
        MempoolError::TxAlreadyExists { tx_hash }
    }

    /// The text the error displays as.
    pub open spec fn message(&self) -> Seq<char> {
        match self {
            MempoolError::MempoolFull { current_size, max_size } => "Mempool is full (current size: "@
                + decimal(*current_size as nat) + ", max: "@ + decimal(*max_size as nat) + ")"@,
            MempoolError::InvalidTransaction { reason } => "Invalid transaction data: "@ + reason@,
            MempoolError::TxAlreadyExists { tx_hash } => "Transaction already exists: "@ + hex(tx_hash@),
        }
    }

    /// The text the error displays as.
    pub fn to_string(&self) -> (r: String)
        ensures
            r@ == self.message(),
    {
        proof {
            broadcast use vstd::string::to_string_from_display_ensures_for_str;
        }
        match self {
            MempoolError::MempoolFull { current_size, max_size } => {
                let mut s = "Mempool is full (current size: ".to_string();
                push_decimal(&mut s, *current_size);
                s.append(", max: ");
                push_decimal(&mut s, *max_size);
                s.append(")");
                s
            },
            MempoolError::InvalidTransaction { reason } => {
                let mut s = "Invalid transaction data: ".to_string();
                s.append(reason.as_str());
                s
            },
            MempoolError::TxAlreadyExists { tx_hash } => {
                let mut s = "Transaction already exists: ".to_string();
                push_hex(&mut s, tx_hash.as_bytes());
                s
            },
        }
    }
}


/// `<String as From<&str>>::from`, which `"text".into()` calls: the `String`
/// holds the characters of the `&str`, as std documents ("Converts a `&str`
/// into a `String`", allocating a copy of it).
pub assume_specification<'a>[ <String as From<&'a str>>::from ](s: &str) -> (r: String)
    ensures
        r@ == s@,
;

} // verus!
