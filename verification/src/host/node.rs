//! The test node's transaction type and an application that accepts every
//! transaction.
use vstd::bytes::{spec_u64_from_le_bytes, spec_u64_to_le_bytes, u64_from_le_bytes, u64_to_le_bytes};
use vstd::prelude::*;

use crate::host::error::AppError;
use crate::tx::RawTx;
use crate::mempool::{add_tx_effect, has_hash, lemma_accepted_tx_appended, AddOutcome};
use crate::tx::tx_hash_of;
use crate::{AppResult, CheckTxOutcome, MempoolApp};

verus! {

/// A transaction that is unique by its id.
#[derive(Debug, Clone, Copy, PartialEq, Eq, Hash, Structural)]
pub struct TestTx(pub u64);

impl TestTx {
    /// The transaction as bytes: its id, little-endian.
    pub fn serialize(&self) -> (r: RawTx)
        ensures
            r@ == spec_u64_to_le_bytes(self.0),
    {
        RawTx(u64_to_le_bytes(self.0))
    }

    /// The transaction that eight little-endian bytes stand for.
    pub fn deserialize(bytes: &[u8]) -> (r: Result<TestTx, AppError>)
        requires
            bytes@.len() == 8,
        ensures
            r == Ok::<TestTx, AppError>(TestTx(spec_u64_from_le_bytes(bytes@))),
    {
        Ok(TestTx(u64_from_le_bytes(bytes)))
    }
}

/// An application that accepts every transaction.
#[derive(Debug, Clone, Copy)]
pub struct TestMempoolApp;

impl MempoolApp for TestMempoolApp {
    type Outcome = CheckTxOutcome;

    /// Every transaction is accepted.
    open spec fn spec_check_tx(&self, tx: Seq<u8>, r: AppResult<CheckTxOutcome>) -> bool {
        r == Ok::<CheckTxOutcome, crate::AppError>(CheckTxOutcome)
    }

    fn check_tx(&self, tx: &RawTx) -> (r: AppResult<CheckTxOutcome>) {
        Ok(CheckTxOutcome)
    }
}


/// The test node's application accepts every transaction: whatever the
/// bytes, its only answer is `Ok(CheckTxOutcome)`.
pub proof fn lemma_node_app_accepts_all(tx: Seq<u8>, r: AppResult<CheckTxOutcome>)
    requires
        TestMempoolApp.spec_check_tx(tx, r),
    ensures
        r == Ok::<CheckTxOutcome, crate::AppError>(CheckTxOutcome),
{
}

/// On the test node, adding a transaction the pool does not hold to a pool
/// that is not full always appends it and answers `Ok(CheckTxOutcome)`.
pub proof fn lemma_node_add_appends(
    max_pool_size: usize,
    before: Seq<Seq<u8>>,
    after: Seq<Seq<u8>>,
    tx: Seq<u8>,
    local: bool,
    out: AddOutcome<CheckTxOutcome>,
)
    requires
        add_tx_effect(TestMempoolApp, max_pool_size, before, after, tx, local, out),
        !has_hash(before, tx_hash_of(tx)),
        before.len() < max_pool_size,
    ensures
        after == before.push(tx),
        out.response == Ok::<CheckTxOutcome, crate::mempool::MempoolError>(CheckTxOutcome),
{
    lemma_accepted_tx_appended(TestMempoolApp, max_pool_size, before, after, tx, local, out);
    let result = choose|result: AppResult<CheckTxOutcome>|
        TestMempoolApp.spec_check_tx(tx, result) && #[trigger] crate::mempool::check_result_effect(
            before,
            after,
            tx,
            result,
            local,
            out,
        );
}

} // verus!
