//! A test application: transactions are unsigned 64-bit numbers, and the
//! number 9999 is refused.
use vstd::bytes::{spec_u64_from_le_bytes, spec_u64_to_le_bytes, u64_from_le_bytes, u64_to_le_bytes};
use vstd::prelude::*;

use crate::host::error::AppError;
use crate::tx::{tx_hash_of, RawTx, TxHash};
use crate::{AppResult, CheckTxOutcomeTrait, MempoolApp};

verus! {

/// A transaction that is unique by its id.
#[derive(Debug, Clone, Copy, PartialEq, Eq, Hash, Structural)]
pub struct TestTx(pub u64);

impl TestTx {
    /// The transaction as bytes: its id, little-endian.
    pub fn serialize(&self) -> (r: RawTx)
        ensures
            r@ == spec_u64_to_le_bytes(self.0),
    {
        RawTx(u64_to_le_bytes(self.0))
    }

    /// The transaction that eight little-endian bytes stand for.
    pub fn deserialize(bytes: &[u8]) -> (r: Result<TestTx, AppError>)
        requires
            bytes@.len() == 8,
        ensures
            r == Ok::<TestTx, AppError>(TestTx(spec_u64_from_le_bytes(bytes@))),
    {
        Ok(TestTx(u64_from_le_bytes(bytes)))
    }

    /// The hash of the transaction: that of its serialized form.
    pub fn hash(&self) -> (r: TxHash)
        ensures
            r@ == spec_u64_to_le_bytes(self.0),
    {
        TxHash(u64_to_le_bytes(self.0))
    }
}

/// Serializing and then deserializing a test transaction gives it back, and
/// deserializing and then serializing eight bytes gives them back; the hash
/// of a test transaction is the hash the pool files its serialized form under.
pub proof fn lemma_test_tx_round_trip(t: TestTx, bytes: Seq<u8>)
    ensures
        spec_u64_to_le_bytes(t.0).len() == 8,
        spec_u64_from_le_bytes(spec_u64_to_le_bytes(t.0)) == t.0,
        bytes.len() == 8 ==> spec_u64_to_le_bytes(spec_u64_from_le_bytes(bytes)) == bytes,
        tx_hash_of(spec_u64_to_le_bytes(t.0)) == spec_u64_to_le_bytes(t.0),
{
    vstd::bytes::lemma_auto_spec_u64_to_from_le_bytes();
}

/// The id of the one transaction the test application refuses.
pub open spec fn refused_id() -> u64 {
    9999
}

/// The reason the test application gives for refusing a transaction.
pub open spec fn refusal_reason() -> Seq<char> {
    seq![
        'T', 'r', 'a', 'n', 's', 'a', 'c', 't', 'i', 'o', 'n', ' ', '9', '9', '9', '9', ' ', 'i',
        's', ' ', 'n', 'o', 't', ' ', 'a', 'l', 'l', 'o', 'w', 'e', 'd',
    ]
}

/// What the test application answers about a transaction it could read.
#[derive(Debug, Clone, PartialEq, Eq)]
pub enum TestCheckTxOutcome {
    Success(TxHash),
    Error(TxHash, String),
}

impl TestCheckTxOutcome {
    /// Whether the transaction was found valid.
    pub fn is_valid(&self) -> (r: bool)
        ensures
            r == (self is Success),
    {
        match self {
            TestCheckTxOutcome::Success(_) => true,
            TestCheckTxOutcome::Error(..) => false,
        }
    }

    /// The hash of the transaction the outcome is about.
    pub fn hash(&self) -> (r: TxHash)
        ensures
            r@ == match self {
                TestCheckTxOutcome::Success(h) => h@,
                TestCheckTxOutcome::Error(h, _) => h@,
            },
    {
        match self {
            TestCheckTxOutcome::Success(hash) => hash.clone(),
            TestCheckTxOutcome::Error(hash, _) => hash.clone(),
        }
    }
}

impl CheckTxOutcomeTrait for TestCheckTxOutcome {
    open spec fn spec_is_valid(&self) -> bool {
        self is Success
    }

    fn is_valid(&self) -> (r: bool) {
        TestCheckTxOutcome::is_valid(self)
    }
}

/// The test application.
#[derive(Debug, Clone, Copy)]
pub struct TestMempoolApp;

impl MempoolApp for TestMempoolApp {
    type Outcome = TestCheckTxOutcome;

    /// Reads the transaction as a test transaction: refuses the one with id
    /// 9999, accepts every other, and reports an error for bytes that are no
    /// test transaction.
    open spec fn spec_check_tx(&self, tx: Seq<u8>, r: AppResult<TestCheckTxOutcome>) -> bool {
        if tx.len() != 8 {
            r == Err::<TestCheckTxOutcome, crate::AppError>(crate::AppError)
        } else if spec_u64_from_le_bytes(tx) == refused_id() {
            r matches Ok(TestCheckTxOutcome::Error(h, reason)) && h@ == tx_hash_of(tx) && reason@
                == refusal_reason()
        } else {
            r matches Ok(TestCheckTxOutcome::Success(h)) && h@ == tx_hash_of(tx)
        }
    }

    fn check_tx(&self, tx: &RawTx) -> (r: AppResult<TestCheckTxOutcome>)
    {
        if tx.0.len() != 8 {
            return Err(crate::AppError);
        }
        match TestTx::deserialize(tx.0.as_slice()) {
            Ok(test_tx) => {
                if test_tx.0 == 9999 {
                    proof {
                        broadcast use vstd::string::to_string_from_display_ensures_for_str;
                        reveal_strlit("Transaction 9999 is not allowed");
                    }
                    let reason = "Transaction 9999 is not allowed".to_string();
                    let r = Ok(TestCheckTxOutcome::Error(tx.hash(), reason));
                    assert(tx@.len() == 8);
                    assert(spec_u64_from_le_bytes(tx@) == refused_id());
                    assert(r matches Ok(TestCheckTxOutcome::Error(h, reason)) && h@ == tx_hash_of(tx@));
                    assert(r matches Ok(TestCheckTxOutcome::Error(h, reason)) && reason@ == refusal_reason());
                    assert(self.spec_check_tx(tx@, r));
                    r
                } else {
                    let r = Ok(TestCheckTxOutcome::Success(tx.hash()));
                    assert(self.spec_check_tx(tx@, r));
                    r
                }
            },
            Err(_) => Err(crate::AppError),
        }
    }
}


/// The test application refuses exactly the transaction with id 9999: for
/// any id, its answer about the serialized transaction is a refusal when the
/// id is 9999, with the refusal reason, and a success for every other id; an
/// answer is always about the transaction it was asked about.
pub proof fn lemma_test_app_refuses_only_9999(id: u64, r: AppResult<TestCheckTxOutcome>)
    requires
        TestMempoolApp.spec_check_tx(spec_u64_to_le_bytes(id), r),
    ensures
        id == 9999 ==> (r matches Ok(TestCheckTxOutcome::Error(h, reason)) && h@ == spec_u64_to_le_bytes(id)
            && reason@ == refusal_reason()),
        id != 9999 ==> (r matches Ok(TestCheckTxOutcome::Success(h)) && h@ == spec_u64_to_le_bytes(id)),
        r is Ok,
{
    vstd::bytes::lemma_auto_spec_u64_to_from_le_bytes();
    assert(spec_u64_to_le_bytes(id).len() == 8);
    assert(spec_u64_from_le_bytes(spec_u64_to_le_bytes(id)) == id);
}

/// Bytes that are no test transaction are answered with an error, and any
/// eight bytes with an outcome whose validity says whether their id is other
/// than 9999.
pub proof fn lemma_test_app_answers(tx: Seq<u8>, r: AppResult<TestCheckTxOutcome>)
    requires
        TestMempoolApp.spec_check_tx(tx, r),
    ensures
        tx.len() != 8 ==> r is Err,
        tx.len() == 8 ==> (r matches Ok(o) && (o.spec_is_valid() <==> spec_u64_from_le_bytes(tx) != 9999)),
{
}

} // verus!
