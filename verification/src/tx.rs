//! Raw transactions and their hashes.
use vstd::prelude::*;

verus! {

/// The identifier under which the pool files a transaction: a transaction is
/// known by its own bytes, so two transactions are the same exactly when
/// their bytes are.
pub open spec fn tx_hash_of(tx: Seq<u8>) -> Seq<u8> {
    tx
}

/// Compares two byte vectors element by element.
pub fn bytes_eq(a: &Vec<u8>, b: &Vec<u8>) -> (r: bool)
    ensures
        r == (a@ == b@),
{
    if a.len() != b.len() {
        return false;
    }
    let n = a.len();
    let mut i: usize = 0;
    while i < n
        invariant
            n == a@.len(),
            n == b@.len(),
            i <= n,
            forall|j: int| 0 <= j < i ==> a@[j] == b@[j],
        decreases n - i,
    {
        if a[i] != b[i] {
            return false;
        }
        i = i + 1;
    }
    assert(a@ =~= b@);
    true
}

/// Copies a byte vector.
pub fn copy_bytes(a: &Vec<u8>) -> (r: Vec<u8>)
    ensures
        r@ == a@,
{
    let mut out: Vec<u8> = Vec::with_capacity(a.len());
    let n = a.len();
    let mut i: usize = 0;
    while i < n
        invariant
            n == a@.len(),
            i <= n,
            out@ == a@.take(i as int),
        decreases n - i,
    {
        out.push(a[i]);
        i = i + 1;
        assert(out@ =~= a@.take(i as int));
    }
    assert(a@.take(n as int) =~= a@);
    out
}

/// The hash of a transaction.
#[derive(Debug, PartialEq, Eq, Hash)]
pub struct TxHash(pub Vec<u8>);

impl View for TxHash {
    type V = Seq<u8>;

    open spec fn view(&self) -> Seq<u8> {
        self.0@
    }
}

impl Clone for TxHash {
    fn clone(&self) -> (r: Self)
        ensures
            r@ == self@,
    {
        TxHash(copy_bytes(&self.0))
    }
}

impl TxHash {
    /// Whether two hashes are the same.
    pub fn same_as(&self, other: &TxHash) -> (r: bool)
        ensures
            r == (self@ == other@),
    {
        bytes_eq(&self.0, &other.0)
    }

    /// The bytes of the hash.
    pub fn as_bytes(&self) -> (r: &Vec<u8>)
        ensures
            r@ == self@,
    {
        &self.0
    }
}

/// A transaction as the network and the application exchange it: opaque bytes.
#[derive(Debug, PartialEq, Eq, Hash)]
pub struct RawTx(pub Vec<u8>);

impl View for RawTx {
    type V = Seq<u8>;

    open spec fn view(&self) -> Seq<u8> {
        self.0@
    }
}

impl Clone for RawTx {
    fn clone(&self) -> (r: Self)
        ensures
            r@ == self@,
    {
        RawTx(copy_bytes(&self.0))
    }
}

impl RawTx {
    /// The hash under which the pool files this transaction.
    pub fn hash(&self) -> (r: TxHash)
        ensures
            r@ == tx_hash_of(self@),
    {
        TxHash(copy_bytes(&self.0))
    }

    /// The size of the transaction in bytes.
    pub fn len(&self) -> (r: usize)
        ensures
            r == self@.len(),
    {
        self.0.len()
    }

    /// The bytes of the transaction, copied.
    pub fn to_vec(&self) -> (r: Vec<u8>)
        ensures
            r@ == self@,
    {
        copy_bytes(&self.0)
    }
}

} // verus!
