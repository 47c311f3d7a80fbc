use vstd::prelude::*;
use crate::codec::{tx_encodable, tx_hash_of};
use crate::types::TransactionV2;

verus! {

// ---------------------------------------------------------------------------
// The mempool: an ordered queue of pending transactions. A snapshot hands
// out the current prefix with a cursor; truncation after a commit removes
// exactly that prefix.
// ---------------------------------------------------------------------------

/// Whether some queued transaction already carries this canonical hash.
pub open spec fn pool_contains_hash(txs: Seq<TransactionV2>, h: Seq<u8>) -> bool {
    exists|j: int| 0 <= j < txs.len() && tx_hash_of((#[trigger] txs[j])@) == h
}

pub struct Mempool {
    txs: Vec<TransactionV2>,
}

impl Mempool {
    /// The pending transactions, in arrival order.
    pub closed spec fn pending(self) -> Seq<TransactionV2> {
        self.txs@
    }

    pub open spec fn wf(self) -> bool {
        &&& forall|j: int|
            0 <= j < self.pending().len() ==> tx_encodable((#[trigger] self.pending()[j])@)
        &&& forall|m: int, n: int|
            0 <= m < n < self.pending().len() ==> tx_hash_of((#[trigger] self.pending()[m])@)
                != tx_hash_of((#[trigger] self.pending()[n])@)
    }

    pub fn new() -> (r: Self)
        ensures
            r.wf(),
            r.pending() == Seq::<TransactionV2>::empty(),
    {
        Mempool { txs: Vec::new() }
    }

    /// Appends a transaction; one whose canonical hash is already queued
    /// is ignored without error.
    pub fn add_tx(&mut self, tx: TransactionV2)
        requires
            old(self).wf(),
            tx_encodable(tx@),
        ensures
            final(self).wf(),
            pool_contains_hash(old(self).pending(), tx_hash_of(tx@)) ==> final(self).pending()
                == old(self).pending(),
            !pool_contains_hash(old(self).pending(), tx_hash_of(tx@)) ==> final(self).pending()
                == old(self).pending().push(tx),
    {
        let h = tx.hash();
        let mut i: usize = 0;
        while i < self.txs.len()
            invariant
                i <= self.txs@.len(),
                self.txs@ == old(self).txs@,
                old(self).wf(),
                tx_encodable(tx@),
                h@ == tx_hash_of(tx@),
                forall|j: int| 0 <= j < i ==> tx_hash_of((#[trigger] self.txs@[j])@) != h@,
            decreases self.txs@.len() - i,
        {
            let existing = self.txs[i].hash();
            if existing == h {
                return ;
            }
            i = i + 1;
        }
        self.txs.push(tx);
        proof {
            assert(forall|m: int|
                0 <= m < old(self).txs@.len() ==> #[trigger] self.txs@[m] == old(self).txs@[m]);
        }
    }

    /// The current pending transactions and a cursor denoting the end of
    /// the snapshot; `None` when the pool is empty.
    pub fn get_current_txs(&self) -> (r: (Vec<TransactionV2>, Option<usize>))
        ensures
            self.pending().len() <= usize::MAX,
            r.0@.len() == self.pending().len(),
            forall|j: int| 0 <= j < self.pending().len() ==> (#[trigger] r.0@[j])@ == self.pending()[j]@,
            r.1 == (if self.pending().len() == 0 {
                None::<usize>
            } else {
                Some(self.pending().len() as usize)
            }),
    {
        let mut out: Vec<TransactionV2> = Vec::new();
        let mut i: usize = 0;
        while i < self.txs.len()
            invariant
                i <= self.txs@.len(),
                out@.len() == i,
                forall|j: int| 0 <= j < i ==> (#[trigger] out@[j])@ == self.txs@[j]@,
            decreases self.txs@.len() - i,
        {
            out.push(self.txs[i].duplicate());
            i = i + 1;
        }
        let len = self.txs.len();
        if len == 0 {
            (out, None)
        } else {
            (out, Some(len))
        }
    }

    /// Removes the first `count` transactions: exactly the prefix a
    /// snapshot handed out. Called only after the batch that consumed
    /// them has been persisted.
    pub fn clear_upto_tx(&mut self, count: usize)
        requires
            old(self).wf(),
        ensures
            final(self).wf(),
            count <= old(self).pending().len() ==> final(self).pending() == old(
                self,
            ).pending().skip(count as int),
            count > old(self).pending().len() ==> final(self).pending() == Seq::<
                TransactionV2,
            >::empty(),
    {
        let n = if count <= self.txs.len() {
            count
        } else {
            self.txs.len()
        };
        let mut i: usize = 0;
        while i < n
            invariant
                i <= n,
                n <= old(self).txs@.len(),
                n == (if count <= old(self).txs@.len() {
                    count as int
                } else {
                    old(self).txs@.len() as int
                }),
                old(self).wf(),
                self.txs@ == old(self).txs@.skip(i as int),
            decreases n - i,
        {
            self.txs.remove(0);
            proof {
                assert(old(self).txs@.skip(i as int).remove(0) =~= old(self).txs@.skip(
                    i + 1 as int,
                ));
            }
            i = i + 1;
        }
        proof {
            if count > old(self).txs@.len() {
                assert(old(self).txs@.skip(old(self).txs@.len() as int) =~= Seq::<
                    TransactionV2,
                >::empty());
            }
            assert(forall|j: int|
                0 <= j < self.txs@.len() ==> #[trigger] self.txs@[j] == old(self).txs@[j + n]);
            assert forall|m: int, n2: int|
                0 <= m < n2 < self.txs@.len() implies tx_hash_of((#[trigger] self.txs@[m])@)
                != tx_hash_of((#[trigger] self.txs@[n2])@) by {
                assert(self.txs@[m] == old(self).txs@[m + n]);
                assert(self.txs@[n2] == old(self).txs@[n2 + n]);
            }
        }
    }
}

} // verus!
