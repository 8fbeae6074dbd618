//! The pool itself: its state, and what each request does to it.
use vstd::prelude::*;

use std::collections::HashSet;
use std::collections::VecDeque;

pub use crate::error::MempoolError;
use crate::network::{gossip_type_url_string, is_gossip_of, MempoolTransactionBatch, NetworkMsg, ProtoAny};
use crate::tx::{copy_bytes, tx_hash_of, RawTx, TxHash};
use crate::{app_error_text, AppResult, CheckTxOutcomeTrait, MempoolApp};

verus! {

broadcast use vstd::std_specs::hash::group_hash_axioms;

/// How much the pool hands out for one block.
#[derive(Clone, Copy, Debug)]
pub struct MempoolConfig {
    /// The byte budget of the transactions handed out for one block.
    pub max_txs_bytes: u64,
    /// The number of transactions one block is expected to hold.
    pub max_txs_per_block: usize,
    /// The number of transactions the pool holds at most; a pool that holds
    /// this many refuses new ones.
    pub max_pool_size: usize,
}

impl Default for MempoolConfig {
    /// A 4 MiB block budget for about 100 transactions, and a pool bounded
    /// only by the address space.
    fn default() -> (r: Self)
        ensures
            r.max_txs_bytes == 4 * 1024 * 1024,
            r.max_txs_per_block == 100,
            r.max_pool_size == usize::MAX,
    {
        MempoolConfig { max_txs_bytes: 4 * 1024 * 1024, max_txs_per_block: 100, max_pool_size: usize::MAX }
    }
}

/// Whether some transaction of `pool` has the hash `h`.
pub open spec fn has_hash(pool: Seq<Seq<u8>>, h: Seq<u8>) -> bool {
    exists|i: int| 0 <= i < pool.len() && #[trigger] tx_hash_of(pool[i]) == h
}

/// A well-formed state holds no transaction twice.
pub proof fn lemma_wf_no_duplicates(state: &State)
    requires
        state.wf(),
    ensures
        state@.no_duplicates(),
{
    assert forall|i: int, j: int| 0 <= i < state@.len() && 0 <= j < state@.len() && i != j
        implies state@[i] != state@[j] by {
        assert(state.hashes()[i] == tx_hash_of(state@[i]));
        assert(state.hashes()[j] == tx_hash_of(state@[j]));
    }
}

/// The transactions of the pool, oldest first, and beside them their hashes:
/// the position of a hash in `tx_hashes` is that of its transaction in `txs`.
pub struct State {
    pub txs: VecDeque<RawTx>,
    pub tx_hashes: Vec<TxHash>,
}

impl View for State {
    type V = Seq<Seq<u8>>;

    open spec fn view(&self) -> Seq<Seq<u8>> {
        self.txs@.map_values(|t: RawTx| t@)
    }
}

impl State {
    /// The hashes the state files, in order.
    pub open spec fn hashes(&self) -> Seq<Seq<u8>> {
        self.tx_hashes@.map_values(|h: TxHash| h@)
    }

    /// `tx_hashes` holds the hash of each transaction at its position, and no
    /// hash occurs twice.
    pub open spec fn wf(&self) -> bool {
        &&& self.hashes().len() == self@.len()
        &&& forall|i: int| 0 <= i < self@.len() ==> #[trigger] self.hashes()[i] == tx_hash_of(self@[i])
        &&& self.hashes().no_duplicates()
    }

    /// The position of a hash, if the state files it.
    fn position(&self, h: &TxHash) -> (r: Option<usize>)
        ensures
            match r {
                Some(i) => i < self.hashes().len() && self.hashes()[i as int] == h@,
                None => !self.hashes().contains(h@),
            },
    {
        let n = self.tx_hashes.len();
        let mut i: usize = 0;
        while i < n
            invariant
                n == self.tx_hashes@.len(),
                i <= n,
                forall|j: int| 0 <= j < i ==> self.hashes()[j] != h@,
            decreases n - i,
        {
            if self.tx_hashes[i].same_as(h) {
                return Some(i);
            }
            i = i + 1;
        }
        None
    }

    /// Whether a transaction with the hash `tx` is in the pool.
    pub fn tx_exists(&self, tx: &TxHash) -> (r: bool)
        ensures
            r == self.hashes().contains(tx@),
            self.wf() ==> (r == has_hash(self@, tx@)),
    {
        let r = match self.position(tx) {
            Some(_) => true,
            None => false,
        };
        proof {
            if self.wf() {
                if r {
                    let i = choose|i: int| 0 <= i < self.hashes().len() && self.hashes()[i] == tx@;
                    assert(tx_hash_of(self@[i]) == tx@);
                } else {
                    assert forall|i: int| 0 <= i < self@.len() implies #[trigger] tx_hash_of(self@[i]) != tx@ by {
                        assert(self.hashes()[i] == tx_hash_of(self@[i]));
                    }
                }
            }
        }
        r
    }

    /// Appends a transaction whose hash the pool does not hold.
    fn push_new(&mut self, tx: RawTx)
        requires
            old(self).wf(),
            !has_hash(old(self)@, tx_hash_of(tx@)),
        ensures
            final(self).wf(),
            final(self)@ == old(self)@.push(tx@),
    {
        let ghost before = self@;
        let ghost old_hashes = self.hashes();
        let tx_hash = tx.hash();
        self.tx_hashes.push(tx_hash);
        self.txs.push_back(tx);
        assert(self@ =~= before.push(tx@));
        proof {
            let hs = self.hashes();
            assert(hs =~= old_hashes.push(tx_hash_of(tx@)));
            assert forall|i: int, j: int| 0 <= i < hs.len() && 0 <= j < hs.len() && i != j
                implies hs[i] != hs[j] by {
                if i == hs.len() - 1 {
                    assert(old_hashes[j] == tx_hash_of(before[j]));
                } else if j == hs.len() - 1 {
                    assert(old_hashes[i] == tx_hash_of(before[i]));
                }
            }
        }
    }
}

impl Default for State {
    /// The empty pool.
    fn default() -> (r: Self)
        ensures
            r.wf(),
            r@ == Seq::<Seq<u8>>::empty(),
    {
        let r = State { txs: VecDeque::new(), tx_hashes: Vec::new() };
        assert(r@ =~= Seq::<Seq<u8>>::empty());
        assert(r.hashes() =~= Seq::<Seq<u8>>::empty());
        r
    }
}


/// How many of the oldest transactions of `pool` the pool hands out for one
/// block with `budget` bytes: it takes transactions in order while each one
/// is smaller than what is left of the budget, and stops at the first that
/// is not.
pub open spec fn fit_count(pool: Seq<Seq<u8>>, budget: int) -> nat
    decreases pool.len(),
{
    if pool.len() == 0 {
        0
    } else if pool[0].len() >= budget {
        0
    } else {
        1 + fit_count(pool.drop_first(), budget - pool[0].len())
    }
}

/// The total size in bytes of a sequence of transactions.
pub open spec fn total_bytes(txs: Seq<Seq<u8>>) -> int
    decreases txs.len(),
{
    if txs.len() == 0 {
        0
    } else {
        txs[0].len() + total_bytes(txs.drop_first())
    }
}

/// Whether `tx` has the hash of one of the transactions in `removed`.
pub open spec fn is_removed(removed: Seq<Seq<u8>>, tx: Seq<u8>) -> bool {
    exists|j: int| 0 <= j < removed.len() && #[trigger] tx_hash_of(removed[j]) == tx_hash_of(tx)
}

/// `pool` without the transactions whose hash is that of one in `removed`,
/// the others in their order.
pub open spec fn without(pool: Seq<Seq<u8>>, removed: Seq<Seq<u8>>) -> Seq<Seq<u8>>
    decreases pool.len(),
{
    if pool.len() == 0 {
        pool
    } else {
        let rest = without(pool.drop_last(), removed);
        if is_removed(removed, pool.last()) {
            rest
        } else {
            rest.push(pool.last())
        }
    }
}

/// What `fit_count` counts is a part of the pool.
pub proof fn lemma_fit_count_bound(pool: Seq<Seq<u8>>, budget: int)
    ensures
        fit_count(pool, budget) <= pool.len(),
    decreases pool.len(),
{
    if pool.len() > 0 && pool[0].len() < budget {
        lemma_fit_count_bound(pool.drop_first(), budget - pool[0].len());
    }
}

/// What `without` keeps: exactly the transactions of the pool that were not
/// removed; and it keeps a pool free of duplicates free of them.
pub proof fn lemma_without_members(pool: Seq<Seq<u8>>, removed: Seq<Seq<u8>>)
    ensures
        forall|x: Seq<u8>| #[trigger] without(pool, removed).contains(x)
            <==> (pool.contains(x) && !is_removed(removed, x)),
        pool.no_duplicates() ==> without(pool, removed).no_duplicates(),
        without(pool, removed).len() <= pool.len(),
    decreases pool.len(),
{
    if pool.len() > 0 {
        let init = pool.drop_last();
        lemma_without_members(init, removed);
        let rest = without(init, removed);
        assert(pool =~= init.push(pool.last()));
        assert forall|x: Seq<u8>| #[trigger] without(pool, removed).contains(x)
            <==> (pool.contains(x) && !is_removed(removed, x)) by {
            if pool.contains(x) {
                let k = choose|k: int| 0 <= k < pool.len() && pool[k] == x;
                if k < pool.len() - 1 {
                    assert(init[k] == x);
                }
            }
            if init.contains(x) {
                let k = choose|k: int| 0 <= k < init.len() && init[k] == x;
                assert(pool[k] == x);
            }
            if !is_removed(removed, pool.last()) {
                assert(rest.push(pool.last())[rest.len() as int] == pool.last());
                if rest.push(pool.last()).contains(x) {
                    let k = choose|k: int| 0 <= k < rest.len() + 1 && rest.push(pool.last())[k] == x;
                    if k < rest.len() {
                        assert(rest[k] == x);
                    }
                }
                if rest.contains(x) {
                    let k = choose|k: int| 0 <= k < rest.len() && rest[k] == x;
                    assert(rest.push(pool.last())[k] == x);
                }
            }
        }
        if pool.no_duplicates() {
            assert(init.no_duplicates()) by {
                assert forall|i: int, j: int| 0 <= i < init.len() && 0 <= j < init.len() && i != j
                    implies init[i] != init[j] by {
                    assert(pool[i] == init[i] && pool[j] == init[j]);
                }
            }
            if !is_removed(removed, pool.last()) {
                let w = rest.push(pool.last());
                assert(!init.contains(pool.last())) by {
                    if init.contains(pool.last()) {
                        let k = choose|k: int| 0 <= k < init.len() && init[k] == pool.last();
                        assert(pool[k] == pool[pool.len() - 1]);
                    }
                }
                assert forall|i: int, j: int| 0 <= i < w.len() && 0 <= j < w.len() && i != j
                    implies w[i] != w[j] by {
                    if i == rest.len() {
                        assert(rest.contains(w[j]));
                    } else if j == rest.len() {
                        assert(rest.contains(w[i]));
                    }
                }
            }
        }
    }
}

/// What the pool answers a request to add a transaction, and the gossip
/// message it sends to its peers, if any.
pub struct AddOutcome<O> {
    /// The answer to the one who submitted the transaction.
    pub response: Result<O, MempoolError>,
    /// The message to broadcast to the other pools.
    pub gossip: Option<MempoolTransactionBatch>,
}

/// What the pool does with the application's answer `result` about `tx`:
/// an error of the application is answered as an invalid transaction, with
/// the error's text as the reason, and nothing changes; a
/// transaction found invalid is not added, and the outcome is answered; a
/// valid one already in the pool is refused; any other valid one is appended,
/// the outcome is answered, and, when it was submitted locally (not received
/// from a peer), it is gossiped.
pub open spec fn check_result_effect<O: CheckTxOutcomeTrait>(
    before: Seq<Seq<u8>>,
    after: Seq<Seq<u8>>,
    tx: Seq<u8>,
    result: AppResult<O>,
    local: bool,
    out: AddOutcome<O>,
) -> bool {
    match result {
        Err(_) => {
            &&& after == before
            &&& out.gossip is None
            &&& out.response matches Err(MempoolError::InvalidTransaction { reason }) && reason@
                == app_error_text()
        },
        Ok(o) => {
            if !o.spec_is_valid() {
                &&& after == before
                &&& out.gossip is None
                &&& out.response == Ok::<O, MempoolError>(o)
            } else if has_hash(before, tx_hash_of(tx)) {
                &&& after == before
                &&& out.gossip is None
                &&& out.response matches Err(MempoolError::TxAlreadyExists { tx_hash }) && tx_hash@ == tx_hash_of(tx)
            } else {
                &&& after == before.push(tx)
                &&& out.response == Ok::<O, MempoolError>(o)
                &&& if local {
                    out.gossip matches Some(b) && is_gossip_of(b, tx)
                } else {
                    out.gossip is None
                }
            }
        },
    }
}

/// What adding `tx` does: a transaction already in the pool is refused and
/// the application is not asked; when the pool holds `max_pool_size`
/// transactions or more, a new one is refused as the pool being full and the
/// application is not asked; any other is handed to the application, and the
/// effect is what the application's answer about it prescribes.
pub open spec fn add_tx_effect<A: MempoolApp>(
    app: A,
    max_pool_size: usize,
    before: Seq<Seq<u8>>,
    after: Seq<Seq<u8>>,
    tx: Seq<u8>,
    local: bool,
    out: AddOutcome<A::Outcome>,
) -> bool {
    if has_hash(before, tx_hash_of(tx)) {
        &&& after == before
        &&& out.gossip is None
        &&& out.response matches Err(MempoolError::TxAlreadyExists { tx_hash }) && tx_hash@ == tx_hash_of(tx)
    } else if before.len() >= max_pool_size {
        &&& after == before
        &&& out.gossip is None
        &&& out.response == Err::<A::Outcome, MempoolError>(
            MempoolError::MempoolFull { current_size: before.len() as usize, max_size: max_pool_size },
        )
    } else {
        exists|result: AppResult<A::Outcome>|
            app.spec_check_tx(tx, result) && #[trigger] check_result_effect(before, after, tx, result, local, out)
    }
}

/// The pool: the application that checks transactions, and how much is
/// handed out for one block.
pub struct Mempool<A> {
    pub app: A,
    pub config: MempoolConfig,
    /// The number of transactions one block is expected to hold.
    pub max_txs_per_block: usize,
}

impl<A: MempoolApp> Mempool<A> {
    /// A pool around `app` with the limits of `config`.
    pub fn new(app: A, config: MempoolConfig) -> (r: Self)
        ensures
            r.app == app,
            r.config == config,
            r.max_txs_per_block == config.max_txs_per_block,
    {
        Mempool { app, max_txs_per_block: config.max_txs_per_block, config }
    }

    /// The message that gossips `tx` to the other pools.
    pub fn gossip_tx(&self, tx: RawTx) -> (r: MempoolTransactionBatch)
        ensures
            is_gossip_of(r, tx@),
    {
        MempoolTransactionBatch::new(ProtoAny { type_url: gossip_type_url_string(), value: tx.to_vec() })
    }

    /// Acts on the application's answer `result` about `tx`, which was
    /// submitted locally when `local` holds and received from a peer when not.
    pub fn handle_check_tx_result(
        &self,
        tx: RawTx,
        result: AppResult<A::Outcome>,
        local: bool,
        state: &mut State,
    ) -> (out: AddOutcome<A::Outcome>)
        requires
            old(state).wf(),
        ensures
            final(state).wf(),
            check_result_effect(old(state)@, final(state)@, tx@, result, local, out),
    {
        match result {
            Ok(check_tx_outcome) => {
                if check_tx_outcome.is_valid() {
                    let tx_hash = tx.hash();
                    if state.tx_exists(&tx_hash) {
                        return AddOutcome {
                            response: Err(MempoolError::TxAlreadyExists { tx_hash }),
                            gossip: None,
                        };
                    }
                    let gossip = if local {
                        Some(self.gossip_tx(tx.clone()))
                    } else {
                        None
                    };
                    state.push_new(tx);
                    AddOutcome { response: Ok(check_tx_outcome), gossip }
                } else {
                    AddOutcome { response: Ok(check_tx_outcome), gossip: None }
                }
            },
            Err(app_error) => {
                AddOutcome {
                    response: Err(MempoolError::InvalidTransaction { reason: app_error.to_string() }),
                    gossip: None,
                }
            },
        }
    }

    /// Adds a transaction, submitted locally when `local` holds and received
    /// from a peer when not: refuses one already in the pool, and any new one
    /// when the pool is full; asks the application about any other and acts
    /// on its answer.
    pub fn add_tx(&self, tx: RawTx, local: bool, state: &mut State) -> (out: AddOutcome<A::Outcome>)
        requires
            old(state).wf(),
        ensures
            final(state).wf(),
            add_tx_effect(self.app, self.config.max_pool_size, old(state)@, final(state)@, tx@, local, out),
    {
        let tx_hash = tx.hash();
        if state.tx_exists(&tx_hash) {
            return AddOutcome { response: Err(MempoolError::TxAlreadyExists { tx_hash }), gossip: None };
        }
        let current_size = state.txs.len();
        if current_size >= self.config.max_pool_size {
            return AddOutcome {
                response: Err(MempoolError::mempool_full(current_size, self.config.max_pool_size)),
                gossip: None,
            };
        }
        let ghost before = state@;
        let check_tx_outcome = self.app.check_tx(&tx);
        let ghost result = check_tx_outcome;
        let out = self.handle_check_tx_result(tx, check_tx_outcome, local, state);
        assert(check_result_effect(before, state@, tx@, result, local, out));
        out
    }

    /// Adds the transaction that a peer gossiped: as any other, but it is not
    /// gossiped on.
    pub fn handle_network_msg(&self, msg: &NetworkMsg, state: &mut State) -> (out: AddOutcome<A::Outcome>)
        requires
            old(state).wf(),
        ensures
            final(state).wf(),
            add_tx_effect(
                self.app,
                self.config.max_pool_size,
                old(state)@,
                final(state)@,
                msg.any().value@,
                false,
                out,
            ),
    {
        match msg {
            NetworkMsg::TransactionBatch(batch) => {
                let tx = RawTx(copy_bytes(&batch.transaction_batch.value));
                self.add_tx(tx, false, state)
            },
        }
    }

    /// The transactions proposed for the next block: the oldest ones, in
    /// order, as many as fit the byte budget. The pool keeps them until they
    /// are removed.
    pub fn take(&self, state: &State) -> (r: Vec<RawTx>)
        ensures
            r@.map_values(|t: RawTx| t@) == state@.take(
                fit_count(state@, self.config.max_txs_bytes as int) as int,
            ),
    {
        let n = state.txs.len();
        let capacity = if self.max_txs_per_block < n {
            self.max_txs_per_block
        } else {
            n
        };
        let mut txs: Vec<RawTx> = Vec::with_capacity(capacity);
        let ghost budget = self.config.max_txs_bytes as int;
        let mut max_tx_bytes: u64 = self.config.max_txs_bytes;
        let mut i: usize = 0;
        assert(state@.skip(0) =~= state@);
        assert(txs@.map_values(|t: RawTx| t@) =~= state@.take(0));
        while i < n
            invariant
                n == state@.len(),
                i <= n,
                txs@.map_values(|t: RawTx| t@) == state@.take(i as int),
                fit_count(state@, budget) == i + fit_count(state@.skip(i as int), max_tx_bytes as int),
            ensures
                txs@.map_values(|t: RawTx| t@) == state@.take(fit_count(state@, budget) as int),
            decreases n - i,
        {
            let ghost rest = state@.skip(i as int);
            let ghost prev = txs@.map_values(|t: RawTx| t@);
            let ghost left = max_tx_bytes as int;
            assert(rest[0] == state@[i as int]);
            let len = state.txs[i].len() as u64;
            max_tx_bytes = max_tx_bytes.saturating_sub(len);
            if max_tx_bytes == 0 {
                assert(rest[0].len() >= left);
                break;
            }
            assert(rest.drop_first() =~= state@.skip(i + 1));
            let tx = state.txs[i].clone();
            txs.push(tx);
            i = i + 1;
            assert(txs@.map_values(|t: RawTx| t@) =~= prev.push(state@[i - 1]));
            assert(state@.take(i as int) =~= state@.take(i - 1).push(state@[i - 1]));
        }
        txs
    }

    /// Drops the given transactions from the pool (those it holds; the
    /// others are ignored) and keeps the rest in their order.
    pub fn remove(&self, txs: Vec<RawTx>, state: &mut State)
        requires
            old(state).wf(),
        ensures
            final(state).wf(),
            final(state)@ == without(old(state)@, txs@.map_values(|t: RawTx| t@)),
    {
        let ghost removed = txs@.map_values(|t: RawTx| t@);
        let n = state.txs.len();
        let m = txs.len();
        let mut ignore: HashSet<usize> = HashSet::new();
        let mut k: usize = 0;
        while k < m
            invariant
                state.wf(),
                n == state@.len(),
                m == txs@.len(),
                k <= m,
                removed == txs@.map_values(|t: RawTx| t@),
                forall|i: usize| #[trigger] ignore@.contains(i) ==> i < n,
                forall|i: int| 0 <= i < n ==> (#[trigger] ignore@.contains(i as usize) <==> exists|j: int|
                    0 <= j < k && #[trigger] tx_hash_of(removed[j]) == state.hashes()[i]),
            decreases m - k,
        {
            let h = txs[k].hash();
            assert(h@ == tx_hash_of(removed[k as int]));
            match state.position(&h) {
                Some(p) => {
                    ignore.insert(p);
                    assert forall|i: int| 0 <= i < n && i != p implies state.hashes()[i] != h@ by {
                    }
                },
                None => {
                    assert forall|i: int| 0 <= i < n implies state.hashes()[i] != h@ by {
                        if state.hashes()[i] == h@ {
                            assert(state.hashes().contains(h@));
                        }
                    }
                },
            }
            k = k + 1;
        }
        let mut new_txs: VecDeque<RawTx> = VecDeque::new();
        let mut new_hashes: Vec<TxHash> = Vec::new();
        let mut index: usize = 0;
        while index < n
            invariant
                state.wf(),
                n == state@.len(),
                m == txs@.len(),
                index <= n,
                removed == txs@.map_values(|t: RawTx| t@),
                forall|i: int| 0 <= i < n ==> (#[trigger] ignore@.contains(i as usize) <==> exists|j: int|
                    0 <= j < m && #[trigger] tx_hash_of(removed[j]) == state.hashes()[i]),
                new_txs@.map_values(|t: RawTx| t@) == without(state@.take(index as int), removed),
                new_hashes@.len() == new_txs@.len(),
                forall|q: int| 0 <= q < new_txs@.len() ==> #[trigger] new_hashes@[q]@ == tx_hash_of(new_txs@[q]@),
            decreases n - index,
        {
            let ghost before = new_txs@.map_values(|t: RawTx| t@);
            let ghost tx_view = state@[index as int];
            assert(state@.take(index + 1).drop_last() =~= state@.take(index as int));
            assert(state@.take(index + 1).last() == tx_view);
            assert(state.hashes()[index as int] == tx_hash_of(tx_view));
            let skip = ignore.contains(&index);
            assert(skip == ignore@.contains(index));
            if !skip {
                assert(!is_removed(removed, tx_view)) by {
                    if is_removed(removed, tx_view) {
                        let j = choose|j: int| 0 <= j < removed.len() && #[trigger] tx_hash_of(removed[j]) == tx_hash_of(tx_view);
                        assert(0 <= j < m && tx_hash_of(removed[j]) == state.hashes()[index as int]);
                        assert(ignore@.contains((index as int) as usize));
                    }
                }
                new_hashes.push(state.txs[index].hash());
                new_txs.push_back(state.txs[index].clone());
                assert(new_txs@.map_values(|t: RawTx| t@) =~= before.push(tx_view));
            } else {
                proof {
                    assert(ignore@.contains((index as int) as usize));
                    let j = choose|j: int| 0 <= j < m && #[trigger] tx_hash_of(removed[j]) == state.hashes()[index as int];
                    assert(is_removed(removed, tx_view));
                }
            }
            index = index + 1;
        }
        proof {
            assert(state@.take(n as int) =~= state@);
            lemma_without_members(state@, removed);
            lemma_wf_no_duplicates(state);
        }
        state.txs = new_txs;
        state.tx_hashes = new_hashes;
        proof {
            let w = state@;
            assert forall|i: int| 0 <= i < w.len() implies #[trigger] state.hashes()[i] == tx_hash_of(w[i]) by {
                assert(state.tx_hashes@[i]@ == tx_hash_of(state.txs@[i]@));
            }
            assert forall|i: int, j: int| 0 <= i < w.len() && 0 <= j < w.len() && i != j
                implies state.hashes()[i] != state.hashes()[j] by {
                assert(state.hashes()[i] == tx_hash_of(w[i]));
                assert(state.hashes()[j] == tx_hash_of(w[j]));
            }
        }
    }
}


/// Adding a transaction never drops or reorders what the pool holds: the
/// pool after is the pool before, or the pool before with the transaction
/// appended.
pub proof fn lemma_add_appends_only<A: MempoolApp>(
    app: A,
    max_pool_size: usize,
    before: Seq<Seq<u8>>,
    after: Seq<Seq<u8>>,
    tx: Seq<u8>,
    local: bool,
    out: AddOutcome<A::Outcome>,
)
    requires
        add_tx_effect(app, max_pool_size, before, after, tx, local, out),
    ensures
        after == before || after == before.push(tx),
{
    if !has_hash(before, tx_hash_of(tx)) && before.len() < max_pool_size {
        let result = choose|result: AppResult<A::Outcome>|
            app.spec_check_tx(tx, result) && #[trigger] check_result_effect(before, after, tx, result, local, out);
    }
}

/// After an add that was answered with a valid outcome, or refused because
/// the transaction was there already, the pool holds the transaction; after
/// any other answer, the pool is as before.
pub proof fn lemma_added_tx_is_held<A: MempoolApp>(
    app: A,
    max_pool_size: usize,
    before: Seq<Seq<u8>>,
    after: Seq<Seq<u8>>,
    tx: Seq<u8>,
    local: bool,
    out: AddOutcome<A::Outcome>,
)
    requires
        add_tx_effect(app, max_pool_size, before, after, tx, local, out),
    ensures
        (out.response matches Ok(o) && o.spec_is_valid()) ==> has_hash(after, tx_hash_of(tx)),
        out.response matches Err(MempoolError::TxAlreadyExists { tx_hash }) ==> has_hash(after, tx_hash@)
            && after == before,
        !(out.response matches Ok(o) && o.spec_is_valid()) ==> after == before,
{
    if !has_hash(before, tx_hash_of(tx)) && before.len() < max_pool_size {
        let result = choose|result: AppResult<A::Outcome>|
            app.spec_check_tx(tx, result) && #[trigger] check_result_effect(before, after, tx, result, local, out);
        if after == before.push(tx) {
            assert(tx_hash_of(after[before.len() as int]) == tx_hash_of(tx));
        }
    }
}

/// A new transaction that the application accepts is appended to a pool
/// that is not full: whatever the application may answer about it is a valid
/// outcome, so the add appends it.
pub proof fn lemma_accepted_tx_appended<A: MempoolApp>(
    app: A,
    max_pool_size: usize,
    before: Seq<Seq<u8>>,
    after: Seq<Seq<u8>>,
    tx: Seq<u8>,
    local: bool,
    out: AddOutcome<A::Outcome>,
)
    requires
        add_tx_effect(app, max_pool_size, before, after, tx, local, out),
        !has_hash(before, tx_hash_of(tx)),
        before.len() < max_pool_size,
        forall|r: AppResult<A::Outcome>| #[trigger] app.spec_check_tx(tx, r) ==> (r matches Ok(o) && o.spec_is_valid()),
    ensures
        after == before.push(tx),
        out.response is Ok,
        local ==> (out.gossip matches Some(b) && is_gossip_of(b, tx)),
        !local ==> out.gossip is None,
{
    let result = choose|result: AppResult<A::Outcome>|
        app.spec_check_tx(tx, result) && #[trigger] check_result_effect(before, after, tx, result, local, out);
}

/// A transaction received from a peer is never gossiped on; a transaction
/// submitted locally is gossiped exactly when it is added.
pub proof fn lemma_gossip_only_local<A: MempoolApp>(
    app: A,
    max_pool_size: usize,
    before: Seq<Seq<u8>>,
    after: Seq<Seq<u8>>,
    tx: Seq<u8>,
    local: bool,
    out: AddOutcome<A::Outcome>,
)
    requires
        add_tx_effect(app, max_pool_size, before, after, tx, local, out),
    ensures
        !local ==> out.gossip is None,
        local ==> (out.gossip is Some <==> after == before.push(tx)),
        out.gossip matches Some(b) ==> is_gossip_of(b, tx),
{
    if !has_hash(before, tx_hash_of(tx)) && before.len() < max_pool_size {
        let result = choose|result: AppResult<A::Outcome>|
            app.spec_check_tx(tx, result) && #[trigger] check_result_effect(before, after, tx, result, local, out);
        assert(after != before.push(tx) || after.len() != before.len());
    } else {
        assert(after.len() != before.push(tx).len());
    }
}

/// Adding a transaction a second time, once the first add put it in the
/// pool, is refused and leaves the pool as it is.
pub proof fn lemma_second_add_refused<A: MempoolApp>(
    app: A,
    max_pool_size: usize,
    s0: Seq<Seq<u8>>,
    s1: Seq<Seq<u8>>,
    s2: Seq<Seq<u8>>,
    tx: Seq<u8>,
    local1: bool,
    local2: bool,
    out1: AddOutcome<A::Outcome>,
    out2: AddOutcome<A::Outcome>,
)
    requires
        add_tx_effect(app, max_pool_size, s0, s1, tx, local1, out1),
        s1 == s0.push(tx),
        add_tx_effect(app, max_pool_size, s1, s2, tx, local2, out2),
    ensures
        s2 == s1,
        out2.gossip is None,
        out2.response matches Err(MempoolError::TxAlreadyExists { tx_hash }) && tx_hash@ == tx_hash_of(tx),
{
    assert(tx_hash_of(s1[s0.len() as int]) == tx_hash_of(tx));
}

/// The transactions handed out for one block total less than the budget
/// (when there are any), and the next transaction of the pool, if any, would
/// have made them reach it.
pub proof fn lemma_take_fits_budget(pool: Seq<Seq<u8>>, budget: int)
    ensures
        fit_count(pool, budget) <= pool.len(),
        fit_count(pool, budget) > 0 ==> total_bytes(pool.take(fit_count(pool, budget) as int)) < budget,
        fit_count(pool, budget) < pool.len() ==> total_bytes(pool.take(fit_count(pool, budget) + 1int)) >= budget,
    decreases pool.len(),
{
    lemma_fit_count_bound(pool, budget);
    if pool.len() > 0 {
        let l0 = pool[0].len() as int;
        let rest = pool.drop_first();
        let k = fit_count(pool, budget);
        if l0 >= budget {
            assert(pool.take(1).drop_first() =~= Seq::<Seq<u8>>::empty());
            assert(total_bytes(pool.take(1)) == l0 + total_bytes(pool.take(1).drop_first()));
        } else {
            let k2 = fit_count(rest, budget - l0);
            lemma_take_fits_budget(rest, budget - l0);
            assert(pool.take(k as int).drop_first() =~= rest.take(k2 as int));
            assert(pool.take(k as int)[0] == pool[0]);
            assert(total_bytes(pool.take(k as int)) == l0 + total_bytes(rest.take(k2 as int)));
            if k2 == 0 {
                assert(rest.take(0) =~= Seq::<Seq<u8>>::empty());
                assert(total_bytes(rest.take(0)) == 0);
            }
            if k < pool.len() {
                assert(pool.take(k + 1int).drop_first() =~= rest.take(k2 + 1int));
                assert(pool.take(k + 1int)[0] == pool[0]);
                assert(total_bytes(pool.take(k + 1int)) == l0 + total_bytes(rest.take(k2 + 1int)));
            }
        }
    }
}

/// Removing transactions none of which the pool holds leaves it unchanged.
pub proof fn lemma_remove_absent_is_noop(pool: Seq<Seq<u8>>, removed: Seq<Seq<u8>>)
    requires
        forall|i: int| 0 <= i < pool.len() ==> !is_removed(removed, #[trigger] pool[i]),
    ensures
        without(pool, removed) == pool,
    decreases pool.len(),
{
    if pool.len() > 0 {
        let init = pool.drop_last();
        assert forall|i: int| 0 <= i < init.len() implies !is_removed(removed, #[trigger] init[i]) by {
            assert(init[i] == pool[i]);
        }
        lemma_remove_absent_is_noop(init, removed);
        assert(!is_removed(removed, pool[pool.len() - 1]));
        assert(init.push(pool.last()) =~= pool);
    }
}

/// Removing a transaction right after it was added gives back the pool as
/// it was before the add.
pub proof fn lemma_remove_undoes_add(pool: Seq<Seq<u8>>, tx: Seq<u8>)
    requires
        !has_hash(pool, tx_hash_of(tx)),
    ensures
        without(pool.push(tx), seq![tx]) == pool,
{
    let p2 = pool.push(tx);
    assert(p2.drop_last() =~= pool);
    assert(tx_hash_of(seq![tx][0]) == tx_hash_of(p2.last()));
    assert forall|i: int| 0 <= i < pool.len() implies !is_removed(seq![tx], #[trigger] pool[i]) by {
        if is_removed(seq![tx], pool[i]) {
            let j = choose|j: int| 0 <= j < 1 && #[trigger] tx_hash_of(seq![tx][j]) == tx_hash_of(pool[i]);
            assert(tx_hash_of(pool[i]) == tx_hash_of(tx));
        }
    }
    lemma_remove_absent_is_noop(pool, seq![tx]);
}

/// After a removal the pool holds a transaction exactly when it held it
/// before and it was not among those removed.
pub proof fn lemma_remove_members(pool: Seq<Seq<u8>>, removed: Seq<Seq<u8>>, tx: Seq<u8>)
    ensures
        has_hash(without(pool, removed), tx_hash_of(tx)) <==> (has_hash(pool, tx_hash_of(tx))
            && !is_removed(removed, tx)),
{
    lemma_without_members(pool, removed);
    let w = without(pool, removed);
    if has_hash(w, tx_hash_of(tx)) {
        let i = choose|i: int| 0 <= i < w.len() && #[trigger] tx_hash_of(w[i]) == tx_hash_of(tx);
        assert(w.contains(w[i]));
    }
    if has_hash(pool, tx_hash_of(tx)) && !is_removed(removed, tx) {
        let i = choose|i: int| 0 <= i < pool.len() && #[trigger] tx_hash_of(pool[i]) == tx_hash_of(tx);
        assert(pool.contains(pool[i]));
        assert(w.contains(tx));
        let k = choose|k: int| 0 <= k < w.len() && w[k] == tx;
        assert(tx_hash_of(w[k]) == tx_hash_of(tx));
    }
}


/// What `without` leaves of the first `j` transactions of a pool without
/// duplicates when its first `k` are removed.
proof fn lemma_without_prefix(pool: Seq<Seq<u8>>, k: int, j: int)
    requires
        pool.no_duplicates(),
        0 <= k <= pool.len(),
        0 <= j <= pool.len(),
    ensures
        without(pool.take(j), pool.take(k)) == if j <= k {
            Seq::<Seq<u8>>::empty()
        } else {
            pool.subrange(k, j)
        },
    decreases j,
{
    let p = pool.take(j);
    let rm = pool.take(k);
    if j == 0 {
        assert(p =~= Seq::<Seq<u8>>::empty());
    } else {
        lemma_without_prefix(pool, k, j - 1);
        assert(p.drop_last() =~= pool.take(j - 1));
        assert(p.last() == pool[j - 1]);
        if j - 1 < k {
            assert(tx_hash_of(rm[j - 1]) == tx_hash_of(pool[j - 1]));
            assert(is_removed(rm, p.last()));
        } else {
            assert(!is_removed(rm, p.last())) by {
                if is_removed(rm, p.last()) {
                    let q = choose|q: int| 0 <= q < rm.len() && #[trigger] tx_hash_of(rm[q]) == tx_hash_of(p.last());
                    assert(pool[q] == pool[j - 1]);
                }
            }
            if j - 1 == k {
                assert(pool.subrange(k, j) =~= Seq::<Seq<u8>>::empty().push(pool[j - 1]));
            } else {
                assert(pool.subrange(k, j) =~= pool.subrange(k, j - 1).push(pool[j - 1]));
            }
        }
    }
}

/// Removing the transactions that were handed out for a block leaves the
/// pool with exactly the ones that were not, in their order.
pub proof fn lemma_remove_taken(pool: Seq<Seq<u8>>, k: int)
    requires
        pool.no_duplicates(),
        0 <= k <= pool.len(),
    ensures
        without(pool, pool.take(k)) == pool.skip(k),
{
    lemma_without_prefix(pool, k, pool.len() as int);
    assert(pool.take(pool.len() as int) =~= pool);
    if pool.len() as int <= k {
        assert(pool.skip(k) =~= Seq::<Seq<u8>>::empty());
    } else {
        assert(pool.subrange(k, pool.len() as int) =~= pool.skip(k));
    }
}


/// The total size of a pool is never negative.
proof fn lemma_total_bytes_nonneg(txs: Seq<Seq<u8>>)
    ensures
        total_bytes(txs) >= 0,
    decreases txs.len(),
{
    if txs.len() > 0 {
        lemma_total_bytes_nonneg(txs.drop_first());
    }
}

/// A pool whose transactions total less than the budget is handed out whole.
pub proof fn lemma_take_all_under_budget(pool: Seq<Seq<u8>>, budget: int)
    requires
        total_bytes(pool) < budget,
    ensures
        fit_count(pool, budget) == pool.len(),
        pool.take(fit_count(pool, budget) as int) == pool,
    decreases pool.len(),
{
    if pool.len() > 0 {
        lemma_total_bytes_nonneg(pool.drop_first());
        lemma_take_all_under_budget(pool.drop_first(), budget - pool[0].len());
    }
    assert(pool.take(pool.len() as int) =~= pool);
}

/// Transactions that the application accepts, added one after another to an
/// empty pool with room for them all, end up in the pool in the order they
/// were added: `states[k]` is the pool after the first `k` adds.
pub proof fn lemma_accepted_adds_fifo<A: MempoolApp>(
    app: A,
    max_pool_size: usize,
    states: Seq<Seq<Seq<u8>>>,
    txs: Seq<Seq<u8>>,
    locals: Seq<bool>,
    outs: Seq<AddOutcome<A::Outcome>>,
)
    requires
        states.len() == txs.len() + 1,
        locals.len() == txs.len(),
        outs.len() == txs.len(),
        states[0] == Seq::<Seq<u8>>::empty(),
        txs.len() <= max_pool_size,
        txs.no_duplicates(),
        forall|i: int|
            0 <= i < txs.len() ==> add_tx_effect(
                app,
                max_pool_size,
                #[trigger] states[i],
                states[i + 1],
                txs[i],
                locals[i],
                outs[i],
            ),
        forall|i: int, r: AppResult<A::Outcome>|
            0 <= i < txs.len() && #[trigger] app.spec_check_tx(txs[i], r) ==> (r matches Ok(o)
                && o.spec_is_valid()),
    ensures
        forall|k: int| 0 <= k <= txs.len() ==> #[trigger] states[k] == txs.take(k),
        states[txs.len() as int] == txs,
{
    assert forall|k: int| 0 <= k <= txs.len() implies #[trigger] states[k] == txs.take(k) by {
        lemma_fifo_prefix(app, max_pool_size, states, txs, locals, outs, k);
    }
    assert(txs.take(txs.len() as int) =~= txs);
    assert(states[txs.len() as int] == txs.take(txs.len() as int));
}

proof fn lemma_fifo_prefix<A: MempoolApp>(
    app: A,
    max_pool_size: usize,
    states: Seq<Seq<Seq<u8>>>,
    txs: Seq<Seq<u8>>,
    locals: Seq<bool>,
    outs: Seq<AddOutcome<A::Outcome>>,
    k: int,
)
    requires
        states.len() == txs.len() + 1,
        locals.len() == txs.len(),
        outs.len() == txs.len(),
        states[0] == Seq::<Seq<u8>>::empty(),
        txs.len() <= max_pool_size,
        txs.no_duplicates(),
        forall|i: int|
            0 <= i < txs.len() ==> add_tx_effect(
                app,
                max_pool_size,
                #[trigger] states[i],
                states[i + 1],
                txs[i],
                locals[i],
                outs[i],
            ),
        forall|i: int, r: AppResult<A::Outcome>|
            0 <= i < txs.len() && #[trigger] app.spec_check_tx(txs[i], r) ==> (r matches Ok(o)
                && o.spec_is_valid()),
        0 <= k <= txs.len(),
    ensures
        states[k] == txs.take(k),
    decreases k,
{
    if k == 0 {
        assert(txs.take(0) =~= Seq::<Seq<u8>>::empty());
    } else {
        let j = k - 1;
        lemma_fifo_prefix(app, max_pool_size, states, txs, locals, outs, j);
        let before = states[j];
        assert(add_tx_effect(app, max_pool_size, states[j], states[j + 1], txs[j], locals[j], outs[j]));
        assert(!has_hash(before, tx_hash_of(txs[j]))) by {
            if has_hash(before, tx_hash_of(txs[j])) {
                let q = choose|q: int| 0 <= q < before.len() && #[trigger] tx_hash_of(before[q]) == tx_hash_of(txs[j]);
                assert(txs[q] == txs[j]);
            }
        }
        assert forall|r: AppResult<A::Outcome>| #[trigger] app.spec_check_tx(txs[j], r) implies (r matches Ok(o)
            && o.spec_is_valid()) by {
        }
        lemma_accepted_tx_appended(app, max_pool_size, before, states[k], txs[j], locals[j], outs[j]);
        assert(txs.take(k) =~= txs.take(j).push(txs[j]));
    }
}


/// A pool that holds `max_pool_size` transactions or more refuses every
/// transaction it does not hold, submitted locally or received from a peer:
/// the pool stays as it is, nothing is gossiped, and the answer is that the
/// pool is full, with its size and its limit. So an add never takes a pool
/// past its limit.
pub proof fn lemma_full_pool_refuses<A: MempoolApp>(
    app: A,
    max_pool_size: usize,
    before: Seq<Seq<u8>>,
    after: Seq<Seq<u8>>,
    tx: Seq<u8>,
    local: bool,
    out: AddOutcome<A::Outcome>,
)
    requires
        add_tx_effect(app, max_pool_size, before, after, tx, local, out),
    ensures
        !has_hash(before, tx_hash_of(tx)) && before.len() >= max_pool_size ==> {
            &&& after == before
            &&& out.gossip is None
            &&& out.response == Err::<A::Outcome, MempoolError>(
                MempoolError::MempoolFull { current_size: before.len() as usize, max_size: max_pool_size },
            )
        },
        before.len() <= max_pool_size ==> after.len() <= max_pool_size,
{
    lemma_add_appends_only(app, max_pool_size, before, after, tx, local, out);
}

/// An answer of the application that the transaction is invalid is passed
/// back as it is, and nothing else happens: the pool is unchanged and
/// nothing is gossiped, whatever the pool holds and wherever the transaction
/// came from. Only a valid transaction is refused as a duplicate.
pub proof fn lemma_invalid_outcome_answered<O: CheckTxOutcomeTrait>(
    before: Seq<Seq<u8>>,
    after: Seq<Seq<u8>>,
    tx: Seq<u8>,
    o: O,
    local: bool,
    out: AddOutcome<O>,
)
    requires
        check_result_effect(before, after, tx, Ok::<O, crate::AppError>(o), local, out),
        !o.spec_is_valid(),
    ensures
        after == before,
        out.gossip is None,
        out.response == Ok::<O, MempoolError>(o),
{
}

/// Removal is filtering: the pool after removing some transactions is the
/// pool before with the removed ones filtered out, the others in their order.
pub proof fn lemma_remove_is_filter(pool: Seq<Seq<u8>>, removed: Seq<Seq<u8>>)
    ensures
        without(pool, removed) == pool.filter(|x: Seq<u8>| !is_removed(removed, x)),
    decreases pool.len(),
{
    reveal_with_fuel(Seq::filter, 1);
    if pool.len() > 0 {
        lemma_remove_is_filter(pool.drop_last(), removed);
    }
}

/// Removal keeps the survivors in their old order: of two transactions that
/// stay, the older one still comes first.
pub proof fn lemma_remove_keeps_order(pool: Seq<Seq<u8>>, removed: Seq<Seq<u8>>, i: int, j: int)
    requires
        0 <= i < j < pool.len(),
        !is_removed(removed, pool[i]),
        !is_removed(removed, pool[j]),
    ensures
        exists|a: int, b: int|
            0 <= a < b < without(pool, removed).len() && #[trigger] without(pool, removed)[a] == pool[i]
                && #[trigger] without(pool, removed)[b] == pool[j],
    decreases pool.len(),
{
    let init = pool.drop_last();
    let rest = without(init, removed);
    assert(init[i] == pool[i]);
    if j < pool.len() - 1 {
        assert(init[j] == pool[j]);
        lemma_remove_keeps_order(init, removed, i, j);
        let (a, b) = choose|a: int, b: int|
            0 <= a < b < rest.len() && #[trigger] rest[a] == init[i] && #[trigger] rest[b] == init[j];
        let w = without(pool, removed);
        if is_removed(removed, pool.last()) {
            assert(w[a] == pool[i] && w[b] == pool[j]);
        } else {
            assert(w == rest.push(pool.last()));
            assert(w[a] == pool[i] && w[b] == pool[j]);
        }
    } else {
        lemma_without_members(init, removed);
        assert(init.contains(init[i]));
        assert(rest.contains(pool[i]));
        let a = choose|a: int| 0 <= a < rest.len() && rest[a] == pool[i];
        let w = without(pool, removed);
        assert(pool.last() == pool[j]);
        assert(w == rest.push(pool.last()));
        assert(w[a] == pool[i]);
        assert(w[rest.len() as int] == pool[j]);
    }
}

} // verus!
