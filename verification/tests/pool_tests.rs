use fifo_mempool::host::app::{TestCheckTxOutcome, TestMempoolApp, TestTx};
use fifo_mempool::mempool::{AddOutcome, Mempool, MempoolConfig, MempoolError, State};
use fifo_mempool::network::{MempoolTransactionBatch, NetworkMsg, ProtoAny};
use fifo_mempool::{AppError, RawTx, TxHash};

fn pool(max_txs_bytes: u64) -> Mempool<TestMempoolApp> {
    Mempool::new(
        TestMempoolApp,
        MempoolConfig {
            max_txs_bytes,
            max_txs_per_block: 10,
            max_pool_size: 100,
        },
    )
}

fn ids(txs: &[RawTx]) -> Vec<u64> {
    txs.iter()
        .map(|t| u64::from_le_bytes(t.0.as_slice().try_into().unwrap()))
        .collect()
}

fn held(state: &State) -> Vec<u64> {
    state
        .txs
        .iter()
        .map(|t| u64::from_le_bytes(t.0.as_slice().try_into().unwrap()))
        .collect()
}

#[test]
fn default_config_values() {
    let c = MempoolConfig::default();
    assert_eq!(c.max_txs_bytes, 4 * 1024 * 1024);
    assert_eq!(c.max_txs_per_block, 100);
    assert_eq!(c.max_pool_size, usize::MAX);
}

#[test]
fn new_pool_is_empty() {
    let s = State::default();
    assert!(s.txs.is_empty());
    assert!(s.tx_hashes.is_empty());
    let d = State::default();
    assert!(d.txs.is_empty());
    assert!(!s.tx_exists(&TestTx(1).hash()));
}

#[test]
fn local_valid_tx_is_added_and_gossiped() {
    let m = pool(1000);
    let mut s = State::default();
    let tx = TestTx(1001).serialize();
    let out = m.add_tx(tx.clone(), true, &mut s);
    assert_eq!(
        out.response,
        Ok(TestCheckTxOutcome::Success(TestTx(1001).hash()))
    );
    let batch = out.gossip.expect("a local transaction is gossiped");
    assert_eq!(batch.transaction_batch.type_url, "mempool.transaction");
    assert_eq!(batch.transaction_batch.value, 1001u64.to_le_bytes().to_vec());
    assert!(s.tx_exists(&tx.hash()));
    assert_eq!(held(&s), vec![1001]);
    assert_eq!(s.tx_hashes, vec![TestTx(1001).hash()]);
}

#[test]
fn network_tx_is_added_but_not_gossiped() {
    let m = pool(1000);
    let mut s = State::default();
    let msg = NetworkMsg::TransactionBatch(MempoolTransactionBatch::new(ProtoAny {
        type_url: "mempool.transaction".to_string(),
        value: 7u64.to_le_bytes().to_vec(),
    }));
    let out = m.handle_network_msg(&msg, &mut s);
    assert!(out.response.is_ok());
    assert!(out.gossip.is_none());
    assert_eq!(held(&s), vec![7]);
}

#[test]
fn duplicate_tx_is_refused() {
    let m = pool(1000);
    let mut s = State::default();
    let tx = TestTx(5).serialize();
    m.add_tx(tx.clone(), true, &mut s);
    let out = m.add_tx(tx.clone(), true, &mut s);
    assert_eq!(
        out.response,
        Err(MempoolError::TxAlreadyExists {
            tx_hash: TestTx(5).hash()
        })
    );
    assert!(out.gossip.is_none());
    assert_eq!(held(&s), vec![5]);
}

#[test]
fn refused_tx_is_answered_but_not_added() {
    let m = pool(1000);
    let mut s = State::default();
    let out = m.add_tx(TestTx(9999).serialize(), true, &mut s);
    assert_eq!(
        out.response,
        Ok(TestCheckTxOutcome::Error(
            TestTx(9999).hash(),
            "Transaction 9999 is not allowed".to_string()
        ))
    );
    assert!(out.gossip.is_none());
    assert!(s.txs.is_empty());
}

#[test]
fn unreadable_tx_reports_app_error() {
    let m = pool(1000);
    let mut s = State::default();
    let out = m.add_tx(RawTx(vec![1, 2, 3]), true, &mut s);
    assert_eq!(out.response, Err(MempoolError::InvalidTransaction {
            reason: "AppError".to_string()
        }));
    assert!(out.gossip.is_none());
    assert!(s.txs.is_empty());
}

#[test]
fn check_result_error_changes_nothing() {
    let m = pool(1000);
    let mut s = State::default();
    let out: AddOutcome<TestCheckTxOutcome> =
        m.handle_check_tx_result(TestTx(3).serialize(), Err(AppError), true, &mut s);
    assert_eq!(out.response, Err(MempoolError::InvalidTransaction {
            reason: "AppError".to_string()
        }));
    assert!(s.txs.is_empty());
}

#[test]
fn check_result_for_held_tx_is_refused() {
    let m = pool(1000);
    let mut s = State::default();
    m.add_tx(TestTx(3).serialize(), false, &mut s);
    let out = m.handle_check_tx_result(
        TestTx(3).serialize(),
        Ok(TestCheckTxOutcome::Success(TestTx(3).hash())),
        true,
        &mut s,
    );
    assert_eq!(
        out.response,
        Err(MempoolError::TxAlreadyExists {
            tx_hash: TestTx(3).hash()
        })
    );
    assert_eq!(held(&s), vec![3]);
}

#[test]
fn check_result_valid_from_peer_not_gossiped() {
    let m = pool(1000);
    let mut s = State::default();
    let out = m.handle_check_tx_result(
        TestTx(4).serialize(),
        Ok(TestCheckTxOutcome::Success(TestTx(4).hash())),
        false,
        &mut s,
    );
    assert!(out.response.is_ok());
    assert!(out.gossip.is_none());
    assert_eq!(held(&s), vec![4]);
}

#[test]
fn take_keeps_order_and_budget() {
    // Each test transaction is 8 bytes long.
    let m = pool(20);
    let mut s = State::default();
    for id in [1u64, 2, 3] {
        m.add_tx(TestTx(id).serialize(), true, &mut s);
    }
    // 20 - 8 = 12, 12 - 8 = 4, 4 - 8 saturates to 0: two fit.
    assert_eq!(ids(&m.take(&s)), vec![1, 2]);
    // Taking does not remove anything.
    assert_eq!(held(&s), vec![1, 2, 3]);
}

#[test]
fn take_stops_when_budget_is_exactly_used() {
    let m = pool(16);
    let mut s = State::default();
    for id in [1u64, 2, 3] {
        m.add_tx(TestTx(id).serialize(), true, &mut s);
    }
    assert_eq!(ids(&m.take(&s)), vec![1]);
    assert!(pool(0).take(&s).is_empty());
    assert!(pool(8).take(&s).is_empty());
    assert_eq!(ids(&pool(9).take(&s)), vec![1]);
    assert_eq!(ids(&pool(1000).take(&s)), vec![1, 2, 3]);
}

#[test]
fn remove_keeps_the_rest_in_order() {
    let m = pool(1000);
    let mut s = State::default();
    for id in [1u64, 2, 3, 4] {
        m.add_tx(TestTx(id).serialize(), true, &mut s);
    }
    m.remove(
        vec![TestTx(3).serialize(), TestTx(1).serialize(), TestTx(42).serialize()],
        &mut s,
    );
    assert_eq!(held(&s), vec![2, 4]);
    assert_eq!(s.tx_hashes, vec![TestTx(2).hash(), TestTx(4).hash()]);
    assert!(!s.tx_exists(&TestTx(1).hash()));
    assert!(s.tx_exists(&TestTx(4).hash()));
}

#[test]
fn remove_undoes_add() {
    let m = pool(1000);
    let mut s = State::default();
    m.add_tx(TestTx(1).serialize(), true, &mut s);
    m.add_tx(TestTx(2).serialize(), true, &mut s);
    m.remove(vec![TestTx(2).serialize()], &mut s);
    assert_eq!(held(&s), vec![1]);
    // Once removed, the same transaction can be added again.
    let out = m.add_tx(TestTx(2).serialize(), true, &mut s);
    assert!(out.response.is_ok());
    assert_eq!(held(&s), vec![1, 2]);
}

#[test]
fn remove_of_absent_changes_nothing() {
    let m = pool(1000);
    let mut s = State::default();
    m.add_tx(TestTx(1).serialize(), true, &mut s);
    m.remove(vec![TestTx(2).serialize(), TestTx(2).serialize()], &mut s);
    assert_eq!(held(&s), vec![1]);
    m.remove(vec![], &mut s);
    assert_eq!(held(&s), vec![1]);
}

#[test]
fn three_transactions_then_removal() {
    let m = pool(MempoolConfig::default().max_txs_bytes);
    let mut s = State::default();
    for id in [1001u64, 1002, 1003] {
        assert!(m.add_tx(TestTx(id).serialize(), true, &mut s).response.is_ok());
    }
    assert_eq!(m.take(&s).len(), 3);
    m.remove(vec![TestTx(1001).serialize()], &mut s);
    assert_eq!(m.take(&s).len(), 2);
}

#[test]
fn tx_hash_is_the_bytes() {
    let tx = RawTx(vec![9, 8, 7]);
    assert_eq!(tx.hash(), TxHash(vec![9, 8, 7]));
    assert_eq!(tx.len(), 3);
    assert_eq!(tx.to_vec(), vec![9, 8, 7]);
    assert!(tx.hash().same_as(&TxHash(vec![9, 8, 7])));
    assert!(!tx.hash().same_as(&TxHash(vec![9, 8])));
    assert_eq!(tx.hash().as_bytes(), &vec![9u8, 8, 7]);
}

#[test]
fn gossip_message_of_tx() {
    let m = pool(1000);
    let b = m.gossip_tx(RawTx(vec![1, 2]));
    assert_eq!(b.transaction_batch.type_url, "mempool.transaction");
    assert_eq!(b.transaction_batch.value, vec![1, 2]);
}

#[test]
fn app_error_text() {
    assert_eq!(AppError.to_string(), "AppError");
}

#[test]
fn full_pool_refuses_new_tx_without_asking() {
    let m = Mempool::new(
        TestMempoolApp,
        MempoolConfig {
            max_txs_bytes: 1000,
            max_txs_per_block: 10,
            max_pool_size: 2,
        },
    );
    let mut s = State::default();
    m.add_tx(TestTx(1).serialize(), true, &mut s);
    m.add_tx(TestTx(2).serialize(), true, &mut s);
    let out = m.add_tx(TestTx(3).serialize(), true, &mut s);
    assert_eq!(
        out.response,
        Err(MempoolError::MempoolFull {
            current_size: 2,
            max_size: 2
        })
    );
    assert!(out.gossip.is_none());
    assert_eq!(held(&s), vec![1, 2]);
    // Even malformed bytes get the full answer: the application is not asked.
    let out = m.add_tx(RawTx(vec![1]), true, &mut s);
    assert_eq!(
        out.response,
        Err(MempoolError::MempoolFull {
            current_size: 2,
            max_size: 2
        })
    );
    // A duplicate is still refused as such.
    let out = m.add_tx(TestTx(1).serialize(), true, &mut s);
    assert_eq!(
        out.response,
        Err(MempoolError::TxAlreadyExists {
            tx_hash: TestTx(1).hash()
        })
    );
}

#[test]
fn accepting_node_takes_every_add_in_order() {
    let m = Mempool::new(
        fifo_mempool::host::node::TestMempoolApp,
        MempoolConfig::default(),
    );
    let mut s = State::default();
    for id in 0u64..20 {
        let out = m.add_tx(fifo_mempool::host::node::TestTx(id).serialize(), id % 2 == 0, &mut s);
        assert!(out.response.is_ok());
        assert_eq!(out.gossip.is_some(), id % 2 == 0);
    }
    assert_eq!(ids(&m.take(&s)), (0u64..20).collect::<Vec<_>>());
}

#[test]
fn gossip_round_trip_reaches_a_peer() {
    let a = pool(1000);
    let b = pool(1000);
    let mut sa = State::default();
    let mut sb = State::default();
    let out = a.add_tx(TestTx(77).serialize(), true, &mut sa);
    let batch = out.gossip.unwrap();
    let msg = NetworkMsg::TransactionBatch(batch);
    let wire = msg.to_network_bytes().unwrap();
    let received = NetworkMsg::from_network_bytes(&wire).unwrap();
    let out_b = b.handle_network_msg(&received, &mut sb);
    assert!(out_b.response.is_ok());
    assert!(out_b.gossip.is_none());
    assert_eq!(held(&sb), vec![77]);
    assert!(sb.tx_exists(&TestTx(77).hash()));
}
