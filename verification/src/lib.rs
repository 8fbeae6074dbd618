//! A first-in-first-out transaction pool for a BFT consensus engine.
//!
//! The pool keeps transactions in arrival order, refuses duplicates, asks the
//! application whether a transaction is valid before admitting it, hands out
//! the oldest transactions that fit a byte budget when a block is proposed,
//! and drops transactions once they have been decided.
use vstd::prelude::*;

pub mod error;
pub mod host;
pub mod mempool;
pub mod network;
pub mod text;
pub mod tx;

pub use tx::{RawTx, TxHash};

verus! {

/// The error an application reports when it cannot check a transaction.
#[derive(Clone, Copy, Debug, PartialEq, Eq)]
pub struct AppError;

impl AppError {
    /// The text the error displays as.
    pub fn to_string(&self) -> (r: String)
        ensures
            r@ == app_error_text(),
    {
        proof {
            broadcast use vstd::string::to_string_from_display_ensures_for_str;
            reveal_strlit("AppError");
        }
        let r = "AppError".to_string();
        r
    }
}

/// The text of [`AppError`].
pub open spec fn app_error_text() -> Seq<char> {
    seq!['A', 'p', 'p', 'E', 'r', 'r', 'o', 'r']
}

/// What an application answers.
pub type AppResult<T> = Result<T, AppError>;

/// A store the application persists to.
pub trait Db {
    type Error;
}

/// The application's state machine.
pub trait Vm: Clone {
    type Error;
}

/// What prepares block proposals.
pub trait ProposalPreparer {
    type Error;
}

/// What indexes committed blocks.
pub trait Indexer {
    type Error;
}

/// What the application answers about a transaction it could check: whether
/// the transaction is valid.
pub trait CheckTxOutcomeTrait {
    /// Whether the outcome says the transaction is valid.
    spec fn spec_is_valid(&self) -> bool;

    /// Whether the outcome says the transaction is valid.
    fn is_valid(&self) -> (r: bool)
        ensures
            r == self.spec_is_valid(),
    ;
}

/// The outcome of an application that accepts every transaction it checks.
#[derive(Debug, Clone, Copy, PartialEq, Eq)]
pub struct CheckTxOutcome;

impl CheckTxOutcomeTrait for CheckTxOutcome {
    open spec fn spec_is_valid(&self) -> bool {
        true
    }

    fn is_valid(&self) -> (r: bool) {
        true
    }
}

/// The application that decides whether a transaction is valid.
pub trait MempoolApp {
    /// What the application answers about a transaction it could check.
    type Outcome: CheckTxOutcomeTrait;

    /// Whether `r` is an answer the application gives about a transaction
    /// with the bytes `tx`.
    spec fn spec_check_tx(&self, tx: Seq<u8>, r: AppResult<Self::Outcome>) -> bool;

    /// Checks a transaction.
    fn check_tx(&self, tx: &RawTx) -> (r: AppResult<Self::Outcome>)
        ensures
            self.spec_check_tx(tx@, r),
    ;
}

} // verus!
