//! Errors of the host application.
use vstd::prelude::*;
use vstd::string::StringExecFns;

use crate::text::{decimal, push_decimal};

verus! {

/// Application-level errors for transaction validation.
#[derive(Clone, Debug, PartialEq, Eq)]
pub enum AppError {
    ValidationFailed { reason: String },
    DeserializationFailed { details: String },
    UnsupportedTransactionType { tx_type: String },
    TransactionTooLarge { size: usize, max_size: usize },
    InvalidFormat { details: String },
    Internal { details: String },
}

impl AppError {
    /// A validation failure, with its reason turned into a `String` by `Into`
    /// (for a `&str`, its characters).
    pub fn validation_failed<S: Into<String>>(reason: S) -> (r: Self)
        ensures
            r matches AppError::ValidationFailed { reason: text } && call_ensures(
                <S as Into<String>>::into,
                (reason,),
                text,
            ),
    {
        AppError::ValidationFailed { reason: reason.into() }
    }

    /// A deserialization failure, with its details turned into a `String` by
    /// `Into` (for a `&str`, its characters).
    pub fn deserialization_failed<S: Into<String>>(details: S) -> (r: Self)
        ensures
            r matches AppError::DeserializationFailed { details: text } && call_ensures(
                <S as Into<String>>::into,
                (details,),
                text,
            ),
    {
        AppError::DeserializationFailed { details: details.into() }
    }

    /// A malformed transaction, with the details turned into a `String` by
    /// `Into` (for a `&str`, its characters).
    pub fn invalid_format<S: Into<String>>(details: S) -> (r: Self)
        ensures
            r matches AppError::InvalidFormat { details: text } && call_ensures(
                <S as Into<String>>::into,
                (details,),
                text,
            ),
    {
        AppError::InvalidFormat { details: details.into() }
    }

    /// A transaction of `size` bytes where at most `max_size` are allowed.
    pub fn transaction_too_large(size: usize, max_size: usize) -> (r: Self)
        ensures
            r == (AppError::TransactionTooLarge { size, max_size }),
    {
        AppError::TransactionTooLarge { size, max_size }
    }

    /// The text the error displays as.
    pub open spec fn message(&self) -> Seq<char> {
        match self {
            AppError::ValidationFailed { reason } => "Transaction validation failed: "@ + reason@,
            AppError::DeserializationFailed { details } => "Transaction deserialization failed: "@ + details@,
            AppError::UnsupportedTransactionType { tx_type } => "Unsupported transaction type: "@ + tx_type@,
            AppError::TransactionTooLarge { size, max_size } => "Transaction size too large: "@ + decimal(
                *size as nat,
            ) + " bytes (max: "@ + decimal(*max_size as nat) + " bytes)"@,
            AppError::InvalidFormat { details } => "Invalid transaction format: "@ + details@,
            AppError::Internal { details } => "Internal application error: "@ + details@,
        }
    }

    /// The text the error displays as.
    pub fn to_string(&self) -> (r: String)
        ensures
            r@ == self.message(),
    {
        proof {
            broadcast use vstd::string::to_string_from_display_ensures_for_str;
        }
        match self {
            AppError::ValidationFailed { reason } => {
                let mut s = "Transaction validation failed: ".to_string();
                s.append(reason.as_str());
                s
            },
            AppError::DeserializationFailed { details } => {
                let mut s = "Transaction deserialization failed: ".to_string();
                s.append(details.as_str());
                s
            },
            AppError::UnsupportedTransactionType { tx_type } => {
                let mut s = "Unsupported transaction type: ".to_string();
                s.append(tx_type.as_str());
                s
            },
            AppError::TransactionTooLarge { size, max_size } => {
                let mut s = "Transaction size too large: ".to_string();
                push_decimal(&mut s, *size);
                s.append(" bytes (max: ");
                push_decimal(&mut s, *max_size);
                s.append(" bytes)");
                s
            },
            AppError::InvalidFormat { details } => {
                let mut s = "Invalid transaction format: ".to_string();
                s.append(details.as_str());
                s
            },
            AppError::Internal { details } => {
                let mut s = "Internal application error: ".to_string();
                s.append(details.as_str());
                s
            },
        }
    }
}

} // verus!
