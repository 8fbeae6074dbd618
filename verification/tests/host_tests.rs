use fifo_mempool::error::MempoolError;
use fifo_mempool::host::app::{TestCheckTxOutcome, TestMempoolApp, TestTx};
use fifo_mempool::host::error::AppError;
use fifo_mempool::host::node;
use fifo_mempool::{CheckTxOutcome, CheckTxOutcomeTrait, MempoolApp, RawTx, TxHash};

#[test]
fn test_tx_round_trip() {
    let t = TestTx(0x0102030405060708);
    let raw = t.serialize();
    assert_eq!(raw.0, vec![8, 7, 6, 5, 4, 3, 2, 1]);
    assert_eq!(TestTx::deserialize(&raw.0), Ok(t));
    assert_eq!(t.hash(), raw.hash());
    let bytes = [255u8, 0, 0, 0, 0, 0, 0, 0];
    assert_eq!(TestTx::deserialize(&bytes), Ok(TestTx(255)));
    assert_eq!(TestTx::deserialize(&bytes).unwrap().serialize().0, bytes.to_vec());
}

#[test]
fn node_test_tx_round_trip() {
    let t = node::TestTx(u64::MAX);
    let raw = t.serialize();
    assert_eq!(raw.0, vec![255; 8]);
    assert_eq!(node::TestTx::deserialize(&raw.0), Ok(t));
}

#[test]
fn test_app_checks() {
    let app = TestMempoolApp;
    let ok = app.check_tx(&TestTx(1).serialize()).unwrap();
    assert_eq!(ok, TestCheckTxOutcome::Success(TestTx(1).hash()));
    assert!(ok.is_valid());
    assert_eq!(ok.hash(), TestTx(1).hash());
    let refused = app.check_tx(&TestTx(9999).serialize()).unwrap();
    assert!(!refused.is_valid());
    assert_eq!(refused.hash(), TestTx(9999).hash());
    assert_eq!(
        refused,
        TestCheckTxOutcome::Error(
            TestTx(9999).hash(),
            "Transaction 9999 is not allowed".to_string()
        )
    );
    assert_eq!(app.check_tx(&RawTx(vec![])), Err(fifo_mempool::AppError));
}

#[test]
fn node_app_accepts_all() {
    let app = node::TestMempoolApp;
    assert_eq!(app.check_tx(&RawTx(vec![1])), Ok(CheckTxOutcome));
    assert!(CheckTxOutcome.is_valid());
}

#[test]
fn mempool_error_constructors() {
    assert_eq!(
        MempoolError::mempool_full(3, 2),
        MempoolError::MempoolFull {
            current_size: 3,
            max_size: 2
        }
    );
    assert_eq!(
        MempoolError::invalid_transaction("bad"),
        MempoolError::InvalidTransaction {
            reason: "bad".to_string()
        }
    );
    assert_eq!(
        MempoolError::tx_already_exists(TxHash(vec![1])),
        MempoolError::TxAlreadyExists {
            tx_hash: TxHash(vec![1])
        }
    );
}

#[test]
fn host_error_constructors() {
    assert_eq!(
        AppError::validation_failed("v"),
        AppError::ValidationFailed {
            reason: "v".to_string()
        }
    );
    assert_eq!(
        AppError::deserialization_failed(String::from("d")),
        AppError::DeserializationFailed {
            details: "d".to_string()
        }
    );
    assert_eq!(
        AppError::invalid_format("f"),
        AppError::InvalidFormat {
            details: "f".to_string()
        }
    );
    assert_eq!(
        AppError::transaction_too_large(10, 5),
        AppError::TransactionTooLarge {
            size: 10,
            max_size: 5
        }
    );
}

#[test]
fn mempool_error_messages() {
    assert_eq!(
        MempoolError::mempool_full(3, 5).to_string(),
        "Mempool is full (current size: 3, max: 5)"
    );
    assert_eq!(
        MempoolError::mempool_full(0, 1234567890).to_string(),
        "Mempool is full (current size: 0, max: 1234567890)"
    );
    assert_eq!(
        MempoolError::invalid_transaction("bad signature").to_string(),
        "Invalid transaction data: bad signature"
    );
    assert_eq!(
        MempoolError::tx_already_exists(TxHash(vec![0x0a, 0xff, 0x10])).to_string(),
        "Transaction already exists: 0aff10"
    );
}

#[test]
fn host_error_messages() {
    assert_eq!(
        AppError::validation_failed("nonce too low").to_string(),
        "Transaction validation failed: nonce too low"
    );
    assert_eq!(
        AppError::deserialization_failed("unexpected EOF").to_string(),
        "Transaction deserialization failed: unexpected EOF"
    );
    assert_eq!(
        AppError::invalid_format("missing header").to_string(),
        "Invalid transaction format: missing header"
    );
    assert_eq!(
        AppError::transaction_too_large(2048, 1024).to_string(),
        "Transaction size too large: 2048 bytes (max: 1024 bytes)"
    );
    assert_eq!(
        AppError::UnsupportedTransactionType { tx_type: "x".to_string() }.to_string(),
        "Unsupported transaction type: x"
    );
    assert_eq!(
        AppError::Internal { details: "boom".to_string() }.to_string(),
        "Internal application error: boom"
    );
}
