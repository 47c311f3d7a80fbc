use vstd::prelude::*;
use crate::avail::{AvailHeader, avail_header_enc, avail_header_encodable};
use crate::codec::{header_hash_of, lemma_rt_nexus_header, nexus_header_enc, tx_encodable, tx_hash_of};
use crate::db::{BatchTransaction, DbKey, DbValue, NodeDB, key_view};
use crate::hash::blake2b256_of;
use crate::mempool::Mempool;
use crate::state::{TreeUpdateBatch, merkle_root_of};
use crate::state_machine::{StateMachine, staged_value};
use crate::stf::{batch_pre, parent_hash_view, stf_run, tx_v2_views};
use crate::types::{
    AvailToNexusPointer, H256, HeaderStore, NexusBlock, NexusBlockWithPointers, NexusError,
    NexusHeader, TransactionResult, TransactionStatus, TransactionV2, TransactionWithStatus,
    TxParamsV2,
};
use crate::zkvm::{MockProof, MockProver, ProverInput, ProverMode, guest_header_view};

verus! {

// ---------------------------------------------------------------------------
// The execution engine: for each DA header, snapshot the mempool, run the
// state transition, drive the prover, and persist the batch atomically
// before advancing the mempool watermark.
// ---------------------------------------------------------------------------

/// The proof bytes of the proof-submission transactions, in input order:
/// exactly what the prover must admit as recursion assumptions.
pub open spec fn submit_proofs_of(txs: Seq<TransactionV2>) -> Seq<Seq<u8>>
    decreases txs.len(),
{
    if txs.len() == 0 {
        Seq::<Seq<u8>>::empty()
    } else {
        let rest = submit_proofs_of(txs.drop_first());
        match txs[0].params {
            TxParamsV2::SubmitProof(sp) => seq![sp.proof@] + rest,
            TxParamsV2::InitAccount(_) => rest,
        }
    }
}

/// The byte views of a sequence of proofs.
pub open spec fn proof_views(ps: Seq<crate::types::Proof>) -> Seq<Seq<u8>> {
    ps.map_values(|p: crate::types::Proof| p@)
}

pub proof fn lemma_submit_proofs_snoc(txs: Seq<TransactionV2>, t: TransactionV2)
    ensures
        submit_proofs_of(txs.push(t)) == submit_proofs_of(txs) + (match t.params {
            TxParamsV2::SubmitProof(sp) => seq![sp.proof@],
            TxParamsV2::InitAccount(_) => Seq::<Seq<u8>>::empty(),
        }),
    decreases txs.len(),
{
    reveal_with_fuel(submit_proofs_of, 3);
    if txs.len() == 0 {
        assert(txs.push(t)[0] == t);
        assert(txs.push(t).drop_first() =~= Seq::<TransactionV2>::empty());
        assert(submit_proofs_of(txs.push(t)) =~= submit_proofs_of(txs) + (match t.params {
            TxParamsV2::SubmitProof(sp) => seq![sp.proof@],
            TxParamsV2::InitAccount(_) => Seq::<Seq<u8>>::empty(),
        }));
    } else {
        assert(txs.push(t)[0] == txs[0]);
        assert(txs.push(t).drop_first() =~= txs.drop_first().push(t));
        lemma_submit_proofs_snoc(txs.drop_first(), t);
        assert(submit_proofs_of(txs.push(t)) =~= submit_proofs_of(txs) + (match t.params {
            TxParamsV2::SubmitProof(sp) => seq![sp.proof@],
            TxParamsV2::InitAccount(_) => Seq::<Seq<u8>>::empty(),
        }));
    }
}

/// Runs one batch and proves it: the state machine stages the update, the
/// prover commits the candidate header to its journal, and the header
/// store takes the new header at the front.
#[verifier::rlimit(100)]
#[verifier::spinoff_prover]
pub fn execute_batch(
    txs: &Vec<TransactionV2>,
    state_machine: &mut StateMachine,
    header: AvailHeader,
    header_store: &mut HeaderStore,
    prover_mode: ProverMode,
) -> (r: Result<(MockProof, NexusHeader, Vec<(H256, bool)>, Option<TreeUpdateBatch>), NexusError>)
    requires
        old(state_machine).wf(),
        old(state_machine).vm().latest() < u64::MAX,
        old(header_store).wf(),
        forall|j: int| 0 <= j < txs@.len() ==> tx_encodable((#[trigger] txs@[j])@),
    ensures
        final(state_machine).wf(),
        final(state_machine).vm().snapshots() == old(state_machine).vm().snapshots(),
        r is Ok <==> avail_header_encodable(header),
        r matches Ok(t) ==> ({
            let run = stf_run(
                batch_pre(old(state_machine).vm(), tx_v2_views(txs@)),
                tx_v2_views(txs@),
                parent_hash_view(old(header_store).headers()),
                header.number,
            );
            &&& t.1.parent_hash@ == parent_hash_view(old(header_store).headers())
            &&& t.1.avail_header_hash@ == blake2b256_of(avail_header_enc(header))
            &&& t.1.number == header.number
            &&& t.1.prev_state_root@ == old(state_machine).vm().root_at(old(state_machine).vm().latest())
            &&& t.3 matches Some(batch) ==> t.1.state_root@ == merkle_root_of(
                batch.node_batch.post_entries(),
            ) && batch.node_batch.spec_version() == old(state_machine).vm().latest() + 1
                && batch.node_batch.wf() && (forall|k: Seq<u8>| (
            match #[trigger] batch.node_batch.post_find(k) {
                Some(a) => Some(a@),
                None => None,
            }) == staged_value(run.0, old(state_machine).vm(), k))
            &&& t.3 is None ==> t.1.state_root@ == old(state_machine).vm().root_at(old(state_machine).vm().latest())
            &&& t.2@.len() == txs@.len()
            &&& forall|j: int|
                0 <= j < txs@.len() ==> (#[trigger] t.2@[j]).0@ == tx_hash_of(txs@[j]@) && t.2@[
                    j].1 == run.1[j]
            &&& t.0.journal@ == nexus_header_enc(t.1@)
            &&& proof_views(t.0.assumptions@) == submit_proofs_of(txs@)
            &&& final(header_store).max() == old(header_store).max()
            &&& old(header_store).headers().len() == old(header_store).max() ==> final(header_store).headers() == seq![t.1] + old(header_store).headers().drop_last()
            &&& old(header_store).headers().len() < old(header_store).max() ==> final(header_store).headers() == seq![t.1] + old(header_store).headers()
        }),
        r is Err ==> final(header_store).headers() == old(header_store).headers() && final(header_store).max() == old(header_store).max(),
{
    let (tree_update_batch, state_update, tx_result) = match state_machine.execute_batch(
        &header,
        header_store,
        txs,
    ) {
        Ok(t) => t,
        Err(e) => {
            return Err(e);
        },
    };
    if !crate::zkvm::check_avail_encodable(&header) {
        return Err(NexusError::ProverInputMismatch);
    }
    let avail_hash = header.hash();
    let pre_root = state_update.pre_state_root;
    let post_root = state_update.post_state_root;
    let parent_hash: H256 = match header_store.first() {
        Some(h) => h.hash(),
        None => H256::zero(),
    };
    let candidate = NexusHeader {
        parent_hash,
        prev_state_root: pre_root,
        state_root: post_root,
        avail_header_hash: avail_hash,
        number: header.number,
    };
    let mut zkvm_prover = MockProver::new(Vec::new(), prover_mode);
    let mut zkvm_txs: Vec<crate::types::TransactionZKVM> = Vec::new();
    proof {
        assert(proof_views(zkvm_prover.spec_assumptions()) =~= submit_proofs_of(txs@.take(0)));
    }
    let mut i: usize = 0;
    while i < txs.len()
        invariant
            i <= txs@.len(),
            forall|j: int| 0 <= j < txs@.len() ==> tx_encodable((#[trigger] txs@[j])@),
            zkvm_prover.spec_inputs() == Seq::<ProverInput>::empty(),
            proof_views(zkvm_prover.spec_assumptions()) == submit_proofs_of(txs@.take(i as int)),
        decreases txs@.len() - i,
    {
        let tx = &txs[i];
        let ghost assumed0 = zkvm_prover.spec_assumptions();
        if let TxParamsV2::SubmitProof(submit_proof_tx) = &tx.params {
            let proof = submit_proof_tx.proof.duplicate();
            match zkvm_prover.add_proof_for_recursion(proof) {
                Ok(()) => {},
                Err(e) => {
                    return Err(e);
                },
            }
            proof {
                assert(proof_views(zkvm_prover.spec_assumptions()) =~= proof_views(assumed0).push(
                    submit_proof_tx.proof@,
                ));
            }
        }
        zkvm_txs.push(
            crate::types::TransactionZKVM { signature: tx.signature, params: tx.params.duplicate() },
        );
        proof {
            lemma_submit_proofs_snoc(txs@.take(i as int), txs@[i as int]);
            assert(txs@.take(i as int).push(txs@[i as int]) =~= txs@.take(i + 1 as int));
            assert(proof_views(zkvm_prover.spec_assumptions()) =~= submit_proofs_of(txs@.take(
                i + 1 as int,
            )));
        }
        i = i + 1;
    }
    match zkvm_prover.add_input(ProverInput::Txs(zkvm_txs)) {
        Ok(()) => {},
        Err(e) => {
            return Err(e);
        },
    }
    let ghost su = state_update;
    match zkvm_prover.add_input(ProverInput::BatchUpdate(state_update)) {
        Ok(()) => {},
        Err(e) => {
            return Err(e);
        },
    }
    let ghost da = header;
    match zkvm_prover.add_input(ProverInput::DaHeader(header)) {
        Ok(()) => {},
        Err(e) => {
            return Err(e);
        },
    }
    let store_copy = header_store.duplicate();
    match zkvm_prover.add_input(ProverInput::Headers(store_copy)) {
        Ok(()) => {},
        Err(e) => {
            return Err(e);
        },
    }
    let proof = match zkvm_prover.prove() {
        Ok(p) => p,
        Err(e) => {
            return Err(e);
        },
    };
    proof {
        assert(proof.journal@ == nexus_header_enc(
            guest_header_view(su, da, header_store.headers()),
        ));
        assert(candidate@ == guest_header_view(su, da, header_store.headers()));
        assert(proof.journal@.subrange(0, proof.journal@.len() as int) =~= proof.journal@);
        lemma_rt_nexus_header(proof.journal@, 0, candidate@);
    }
    let result: NexusHeader = match proof.public_inputs() {
        Ok(h) => h,
        Err(e) => {
            return Err(e);
        },
    };
    proof {
        assert(result@ == candidate@);
        assert(txs@.take(txs@.len() as int) =~= txs@);
        assert(proof_views(proof.assumptions@) =~= proof_views(zkvm_prover.spec_assumptions()));
    }
    if !(result == candidate) {
        // The journal always exposes the candidate the guest was driven
        // with; a mismatch would be a prover fault.
        return Err(NexusError::HeaderMismatch);
    }
    header_store.push_front(&result);
    Ok((proof, result, tx_result, tree_update_batch))
}


/// The last writer of a key in a batch determines its value.
pub proof fn lemma_batch_scan(writes: Seq<(crate::db::DbKey, DbValue)>, k: (int, Seq<u8>), j: int)
    requires
        0 <= j < writes.len(),
        key_view(writes[j].0) == k,
        forall|m: int| j < m < writes.len() ==> key_view((#[trigger] writes[m]).0) != k,
    ensures
        crate::db::batch_find(writes, k) == Some(writes[j].1),
    decreases writes.len(),
{
    if j == writes.len() - 1 {
    } else {
        assert(writes.drop_last()[j] == writes[j]);
        lemma_batch_scan(writes.drop_last(), k, j);
    }
}

/// A key no write names keeps its prior value.
pub proof fn lemma_batch_absent(writes: Seq<(crate::db::DbKey, DbValue)>, k: (int, Seq<u8>))
    requires
        forall|m: int| 0 <= m < writes.len() ==> key_view((#[trigger] writes[m]).0) != k,
    ensures
        crate::db::batch_find(writes, k) is None,
    decreases writes.len(),
{
    if writes.len() > 0 {
        lemma_batch_absent(writes.drop_last(), k);
    }
}

/// Everything one processed batch persists, handed to the persistence
/// step in one piece.
pub struct ProcessedBatchInfo {
    pub avail_number: u32,
    pub header: NexusHeader,
    pub txs_result: Vec<(H256, bool)>,
    pub tree_update_batch: Option<TreeUpdateBatch>,
    pub mempool_index: Option<usize>,
    pub updated_header_store: HeaderStore,
    pub jmt_version: u64,
}

/// Everything the header-chain slots hold after a commit: the header
/// store image under its slot, the DA pointer, the header under its own
/// hash, and the committed root. Kept opaque so that callers can pass it
/// along whole; reveal it where a single slot is needed.
#[verifier::opaque]
pub open spec fn chain_slots_persisted(
    db: NodeDB,
    header: NexusHeader,
    store_headers: Seq<NexusHeader>,
    store_max: int,
    avail_number: u32,
) -> bool {
    &&& ({
        let slot = db.spec_get((0int, Seq::<u8>::empty()));
        slot matches Some(DbValue::Headers(hs)) && hs.headers() == store_headers && hs.max()
            == store_max
    })
    &&& db.spec_get((3int, header_hash_of(header@))) == Some(DbValue::Header(header))
    &&& ({
        let slot = db.spec_get((1int, header.avail_header_hash@));
        slot matches Some(DbValue::Pointer(p)) && p.number == avail_number && p.nexus_hash@
            == header_hash_of(header@)
    })
    &&& db.spec_current_root() == Some(header.state_root)
}

/// Every transaction of the batch is stamped in the index with the block
/// hash and its outcome, and the block body stands under its own slot.
/// Opaque, like `chain_slots_persisted`.
#[verifier::opaque]
pub open spec fn batch_records_persisted(
    db: NodeDB,
    header: NexusHeader,
    results: Seq<(H256, bool)>,
    jmt_version: u64,
) -> bool {
    &&& forall|j: int|
        0 <= j < results.len() ==> ({
            let slot = db.spec_get((2int, (#[trigger] results[j]).0@));
            slot matches Some(DbValue::TxStatus(t)) && t.status == (if results[j].1 {
                TransactionStatus::Successful
            } else {
                TransactionStatus::Failed
            }) && t.block_hash is Some && t.block_hash->Some_0@ == header_hash_of(header@)
        })
    &&& ({
        let slot = db.spec_get((4int, header_hash_of(header@)));
        slot matches Some(DbValue::Block(b)) && b.block.header == header && b.jmt_version
            == jmt_version && b.block.transactions@.len() == results.len() && (forall|j: int|
            0 <= j < results.len() ==> (#[trigger] b.block.transactions@[j]).hash == results[j].0
                && b.block.transactions@[j].result == results[j].1)
    })
}

/// Every transaction of the snapshot is in the persisted index, stamped
/// with the block that carried it. Opaque, like `chain_slots_persisted`.
#[verifier::opaque]
pub open spec fn snapshot_marked(db: NodeDB, header: NexusHeader, pending: Seq<TransactionV2>) -> bool {
    forall|j: int|
        0 <= j < pending.len() ==> ({
            let slot = db.spec_get((2int, tx_hash_of((#[trigger] pending[j])@)));
            slot matches Some(DbValue::TxStatus(t)) && t.block_hash is Some
                && t.block_hash->Some_0@ == header_hash_of(header@)
        })
}

/// Whether the store, as previously populated, holds a status record for
/// every transaction of the batch.
pub open spec fn txs_present(db: NodeDB, results: Seq<(H256, bool)>) -> bool {
    forall|j: int|
        0 <= j < results.len() ==> db.spec_get((2int, (#[trigger] results[j]).0@)) matches Some(
            DbValue::TxStatus(_),
        )
}

/// Whether a staged batch commits cleanly under the produced header: the
/// next version, and the header's state root.
pub open spec fn commit_fits(
    batch: Option<TreeUpdateBatch>,
    sm: StateMachine,
    header: NexusHeader,
) -> bool {
    match batch {
        Some(b) => b.node_batch.spec_version() == sm.vm().latest() + 1 && merkle_root_of(
            b.node_batch.post_entries(),
        ) == header.state_root@,
        None => true,
    }
}

/// Persists one processed batch atomically: first checks that every
/// transaction of the batch has a status record to update, then commits
/// the staged tree version, writes the header chain index, the
/// per-transaction statuses and the block body in one batched
/// transaction, sets the committed root, and finally advances the
/// mempool watermark. A failed step leaves everything untouched.
#[verifier::rlimit(100)]
#[verifier::spinoff_prover]
#[verifier::loop_isolation(false)]
pub fn save_batch_information(
    db: &mut NodeDB,
    mempool: &mut Mempool,
    state_machine: &mut StateMachine,
    processed_batch_info: &ProcessedBatchInfo,
) -> (r: Result<(), NexusError>)
    requires
        old(state_machine).wf(),
        old(state_machine).vm().latest() < u64::MAX,
        old(mempool).wf(),
        processed_batch_info.tree_update_batch matches Some(b) ==> b.node_batch.wf(),
        forall|m: int, n: int|
            0 <= m < n < processed_batch_info.txs_result@.len() ==> (
            #[trigger] processed_batch_info.txs_result@[m]).0@ != (
            #[trigger] processed_batch_info.txs_result@[n]).0@,
    ensures
        final(state_machine).wf(),
        r is Ok <==> (commit_fits(
            processed_batch_info.tree_update_batch,
            *old(state_machine),
            processed_batch_info.header,
        ) && txs_present(*old(db), processed_batch_info.txs_result@)),
        r is Ok ==> chain_slots_persisted(
            *final(db),
            processed_batch_info.header,
            processed_batch_info.updated_header_store.headers(),
            processed_batch_info.updated_header_store.max(),
            processed_batch_info.avail_number,
        ),
        r is Ok ==> batch_records_persisted(
            *final(db),
            processed_batch_info.header,
            processed_batch_info.txs_result@,
            processed_batch_info.jmt_version,
        ),
        r is Ok ==> (match processed_batch_info.mempool_index {
            Some(c) => (c <= old(mempool).pending().len() ==> final(mempool).pending()
                == old(mempool).pending().skip(c as int)) && (c > old(
                mempool,
            ).pending().len() ==> final(mempool).pending() == Seq::<TransactionV2>::empty()),
            None => final(mempool).pending() == old(mempool).pending(),
        }),
        r is Ok ==> ((old(mempool).pending().len() <= usize::MAX
            && processed_batch_info.mempool_index == (if old(mempool).pending().len() == 0 {
            None::<usize>
        } else {
            Some(old(mempool).pending().len() as usize)
        })) ==> final(mempool).pending() == Seq::<TransactionV2>::empty()),
        r is Ok ==> (processed_batch_info.tree_update_batch matches Some(b)
            ==> final(state_machine).vm().latest() == old(state_machine).vm().latest() + 1
            && final(state_machine).vm().root_at(final(state_machine).vm().latest())
            == merkle_root_of(b.node_batch.post_entries())),
        processed_batch_info.tree_update_batch is None ==> final(state_machine).vm().snapshots()
            == old(state_machine).vm().snapshots(),
        r is Err ==> final(db).entries_seq() == old(db).entries_seq() && final(db).spec_current_root()
            == old(db).spec_current_root() && final(mempool).pending() == old(mempool).pending(),
        r is Err ==> final(state_machine).vm().snapshots() == old(state_machine).vm().snapshots(),
{
    let avail_number = processed_batch_info.avail_number;
    let header = processed_batch_info.header;
    let jmt_version = processed_batch_info.jmt_version;
    let mempool_index = processed_batch_info.mempool_index;
    let results = &processed_batch_info.txs_result;
    // Every status record must exist before anything is committed: the
    // tree version, the db batch and the watermark move together or not
    // at all.
    let mut p: usize = 0;
    while p < results.len()
        invariant
            p <= results@.len(),
            forall|j: int|
                0 <= j < p ==> db.spec_get((2int, (#[trigger] results@[j]).0@)) matches Some(
                    DbValue::TxStatus(_),
                ),
        decreases results@.len() - p,
    {
        let tx_hash = results[p].0;
        proof {
            assert((results@[p as int].0, results@[p as int].1) == results@[p as int]);
        }
        match db.get(&DbKey::Tx(tx_hash)) {
            Some(DbValue::TxStatus(_)) => {},
            _ => {
                return Err(NexusError::TxNotFound);
            },
        }
        p = p + 1;
    }
    match &processed_batch_info.tree_update_batch {
        Some(i) => {
            match state_machine.commit_state(&header.state_root, &i.node_batch) {
                Ok(()) => {},
                Err(e) => {
                    return Err(e);
                },
            }
        },
        None => (),
    }
    let nexus_hash: H256 = header.hash();
    let mut batch_transaction = BatchTransaction::new();
    batch_transaction.put(
        DbKey::PreviousHeaders,
        DbValue::Headers(processed_batch_info.updated_header_store.duplicate()),
    );
    batch_transaction.put(
        DbKey::AvailPointer(header.avail_header_hash),
        DbValue::Pointer(AvailToNexusPointer { number: avail_number, nexus_hash }),
    );
    let mut txs_result_vec: Vec<TransactionResult> = Vec::new();
    let mut i: usize = 0;
    while i < results.len()
        invariant
            i <= results@.len(),
            state_machine.wf(),
            commit_fits(
                processed_batch_info.tree_update_batch,
                *old(state_machine),
                header,
            ),
            processed_batch_info.tree_update_batch matches Some(b) ==> (b.node_batch.spec_version()
                == old(state_machine).vm().latest() + 1 ==> state_machine.vm().latest() == old(
                state_machine,
            ).vm().latest() + 1 && state_machine.vm().root_at(state_machine.vm().latest())
                == merkle_root_of(b.node_batch.post_entries())),
            processed_batch_info.tree_update_batch is None ==> state_machine.vm().snapshots()
                == old(state_machine).vm().snapshots(),
            mempool.wf(),
            mempool.pending() == old(mempool).pending(),
            nexus_hash@ == header_hash_of(header@),
            batch_transaction.writes().len() == i + 2,
            key_view(batch_transaction.writes()[0].0) == (0int, Seq::<u8>::empty()),
            ({
                let w0 = batch_transaction.writes()[0].1;
                w0 matches DbValue::Headers(hs) && hs.headers()
                    == processed_batch_info.updated_header_store.headers() && hs.max()
                    == processed_batch_info.updated_header_store.max()
            }),
            key_view(batch_transaction.writes()[1].0) == (
                1int,
                header.avail_header_hash@,
            ),
            ({
                let w1 = batch_transaction.writes()[1].1;
                w1 matches DbValue::Pointer(p) && p.number == avail_number
                    && p.nexus_hash@ == nexus_hash@
            }),
            forall|j: int|
                0 <= j < i ==> key_view((#[trigger] batch_transaction.writes()[j + 2]).0) == (
                    2int,
                    results@[j].0@,
                ) && ({
                    let wj = batch_transaction.writes()[j + 2].1;
                    wj matches DbValue::TxStatus(t) && t.status == (if results@[j].1 {
                        TransactionStatus::Successful
                    } else {
                        TransactionStatus::Failed
                    }) && t.block_hash is Some && t.block_hash->Some_0@ == nexus_hash@
                }),
            forall|j: int|
                0 <= j < results@.len() ==> db.spec_get(
                    (2int, (#[trigger] results@[j]).0@),
                ) matches Some(DbValue::TxStatus(_)),
            db.entries_seq() == old(db).entries_seq(),
            db.spec_current_root() == old(db).spec_current_root(),
            txs_result_vec@.len() == i,
            forall|m: int|
                0 <= m < i ==> (#[trigger] txs_result_vec@[m]).hash == results@[m].0
                    && txs_result_vec@[m].result == results@[m].1,
        decreases results@.len() - i,
    {
        let (tx_hash, success) = (results[i].0, results[i].1);
        proof {
            assert((results@[i as int].0, results@[i as int].1) == results@[i as int]);
        }
        let stored: TransactionWithStatus = match db.get(&DbKey::Tx(tx_hash)) {
            Some(DbValue::TxStatus(t)) => t.duplicate(),
            _ => {
                // The presence check above makes this arm unreachable.
                return Err(NexusError::TxNotFound);
            },
        };
        let updated = TransactionWithStatus {
            transaction: stored.transaction,
            status: if success {
                TransactionStatus::Successful
            } else {
                TransactionStatus::Failed
            },
            block_hash: Some(nexus_hash),
        };
        batch_transaction.put(DbKey::Tx(tx_hash), DbValue::TxStatus(updated));
        txs_result_vec.push(TransactionResult { hash: tx_hash, result: success });
        i = i + 1;
    }
    let ghost loop_writes = batch_transaction.writes();
    let ghost n_res = results@.len() as int;
    proof {
        assert forall|m: int| 2 <= m < n_res + 2 implies key_view((#[trigger] loop_writes[m]).0)
            == (2int, results@[m - 2].0@) && ({
            let wm = loop_writes[m].1;
            wm matches DbValue::TxStatus(t) && t.status == (if results@[m - 2].1 {
                TransactionStatus::Successful
            } else {
                TransactionStatus::Failed
            }) && t.block_hash is Some && t.block_hash->Some_0@ == nexus_hash@
        }) by {
            let jj = m - 2;
            assert(batch_transaction.writes()[jj + 2] == loop_writes[m]);
            assert(key_view(batch_transaction.writes()[jj + 2].0) == (2int, results@[jj].0@));
        }
    }
    batch_transaction.put(
        DbKey::Header(nexus_hash),
        DbValue::Header(header),
    );
    batch_transaction.put(
        DbKey::Block(nexus_hash),
        DbValue::Block(
            NexusBlockWithPointers {
                block: NexusBlock {
                    header: header,
                    transactions: txs_result_vec,
                },
                jmt_version: jmt_version,
            },
        ),
    );
    let ghost writes = batch_transaction.writes();
    proof {
        assert(writes.len() == n_res + 4);
        assert(forall|m: int| 0 <= m < n_res + 2 ==> #[trigger] writes[m] == loop_writes[m]);
        assert(key_view(writes[n_res + 2].0) == (3int, nexus_hash@));
        assert(key_view(writes[n_res + 3].0) == (4int, nexus_hash@));
        assert forall|m: int| 0 <= m < writes.len() implies key_view(
            (#[trigger] writes[m]).0,
        ).0 == (if m == 0 {
            0int
        } else if m == 1 {
            1int
        } else if m < n_res + 2 {
            2int
        } else if m == n_res + 2 {
            3int
        } else {
            4int
        }) by {
            if 2 <= m < n_res + 2 {
                assert(writes[m] == loop_writes[m]);
                assert(key_view(loop_writes[m].0) == (2int, results@[m - 2].0@));
            }
        }
        lemma_batch_scan(writes, (0int, Seq::<u8>::empty()), 0);
        lemma_batch_scan(writes, (1int, header.avail_header_hash@), 1);
        lemma_batch_scan(writes, (3int, nexus_hash@), n_res + 2);
        assert forall|j: int| 0 <= j < n_res implies ({
            let slot = crate::db::batch_find(writes, (2int, (#[trigger] results@[j]).0@));
            slot matches Some(DbValue::TxStatus(t)) && t.status == (if results@[j].1 {
                TransactionStatus::Successful
            } else {
                TransactionStatus::Failed
            }) && t.block_hash is Some && t.block_hash->Some_0@ == nexus_hash@
        }) by {
            assert(writes[j + 2] == loop_writes[j + 2]);
            assert forall|m: int| j + 2 < m < writes.len() implies key_view(
                (#[trigger] writes[m]).0,
            ) != (2int, results@[j].0@) by {
                if m < n_res + 2 {
                    assert(writes[m] == loop_writes[m]);
                    assert(key_view(loop_writes[m].0) == (2int, results@[m - 2].0@));
                    assert(results@[m - 2].0@ != results@[j].0@);
                }
            }
            lemma_batch_scan(writes, (2int, results@[j].0@), j + 2);
        }
    }
    match db.put_batch(batch_transaction) {
        Ok(()) => {},
        Err(e) => {
            return Err(e);
        },
    }
    proof {
        assert({
            let slot = db.spec_get((0int, Seq::<u8>::empty()));
            slot matches Some(DbValue::Headers(hs)) && hs.headers()
                == processed_batch_info.updated_header_store.headers() && hs.max()
                == processed_batch_info.updated_header_store.max()
        });
        assert(db.spec_get((3int, nexus_hash@)) == Some(
            DbValue::Header(header),
        ));
        assert({
            let slot = db.spec_get((1int, header.avail_header_hash@));
            slot matches Some(DbValue::Pointer(p)) && p.number
                == avail_number && p.nexus_hash@ == nexus_hash@
        });
        assert(txs_present(*old(db), processed_batch_info.txs_result@));
        assert(commit_fits(
            processed_batch_info.tree_update_batch,
            *old(state_machine),
            header,
        ));
    }
    let ghost db1 = *db;
    match db.set_current_root(&header.state_root) {
        Ok(()) => {},
        Err(e) => {
            return Err(e);
        },
    }
    match mempool_index {
        Some(idx) => {
            mempool.clear_upto_tx(idx);
        },
        None => (),
    }
    proof {
        assert(db.entries_seq() == db1.entries_seq());
        assert forall|k: (int, Seq<u8>)| #[trigger] db.spec_get(k) == db1.spec_get(k) by {}
        reveal(chain_slots_persisted);
        reveal(batch_records_persisted);
        if old(mempool).pending().len() == 0 {
            assert(old(mempool).pending() =~= Seq::<TransactionV2>::empty());
        } else {
            assert(old(mempool).pending().skip(old(mempool).pending().len() as int) =~= Seq::<
                TransactionV2,
            >::empty());
        }
    }
    Ok(())
}


/// The headers persisted under the header-store slot, or none yet.
pub open spec fn stored_headers(db: NodeDB) -> Seq<NexusHeader> {
    match db.spec_get((0int, Seq::<u8>::empty())) {
        Some(DbValue::Headers(hs)) => hs.headers(),
        _ => Seq::<NexusHeader>::empty(),
    }
}

/// The bound of the persisted header store; a fresh store is bounded at
/// 32 headers.
pub open spec fn stored_max(db: NodeDB) -> int {
    match db.spec_get((0int, Seq::<u8>::empty())) {
        Some(DbValue::Headers(hs)) => hs.max(),
        _ => 32,
    }
}

/// Whether every pending transaction has a status record to update.
pub open spec fn pending_present(db: NodeDB, pending: Seq<TransactionV2>) -> bool {
    forall|j: int|
        0 <= j < pending.len() ==> db.spec_get(
            (2int, tx_hash_of((#[trigger] pending[j])@)),
        ) matches Some(DbValue::TxStatus(_))
}

/// A batch's status records exist exactly when its snapshot's do: the
/// result hashes are the snapshot hashes.
pub proof fn lemma_present_iff(
    db: NodeDB,
    results: Seq<(H256, bool)>,
    pending: Seq<TransactionV2>,
)
    requires
        results.len() == pending.len(),
        forall|j: int|
            0 <= j < results.len() ==> (#[trigger] results[j]).0@ == tx_hash_of(pending[j]@),
    ensures
        txs_present(db, results) <==> pending_present(db, pending),
{
    if txs_present(db, results) {
        assert forall|j: int| 0 <= j < pending.len() implies db.spec_get(
            (2int, tx_hash_of((#[trigger] pending[j])@)),
        ) matches Some(DbValue::TxStatus(_)) by {
            assert(results[j].0@ == tx_hash_of(pending[j]@));
        }
    }
    if pending_present(db, pending) {
        assert forall|j: int| 0 <= j < results.len() implies db.spec_get(
            (2int, (#[trigger] results[j]).0@),
        ) matches Some(DbValue::TxStatus(_)) by {
            assert(pending[j] == pending[j]);
            assert(db.spec_get((2int, tx_hash_of(pending[j]@))) matches Some(
                DbValue::TxStatus(_),
            ));
        }
    }
}

/// Persists one executed batch and advances the mempool: the tail of the
/// per-header step, after the batch has been executed and proved.
#[verifier::rlimit(100)]
fn finish_header(
    db: &mut NodeDB,
    mempool: &mut Mempool,
    state_machine: &mut StateMachine,
    avail_number: u32,
    header: NexusHeader,
    tx_result: Vec<(H256, bool)>,
    tree_update_batch: Option<TreeUpdateBatch>,
    store: HeaderStore,
    index: Option<usize>,
) -> (r: Result<(), NexusError>)
    requires
        old(state_machine).wf(),
        old(state_machine).vm().latest() < u64::MAX,
        old(mempool).wf(),
        tree_update_batch matches Some(b) ==> b.node_batch.wf() && b.node_batch.spec_version()
            == old(state_machine).vm().latest() + 1 && merkle_root_of(b.node_batch.post_entries())
            == header.state_root@,
        tree_update_batch is None ==> header.state_root@ == old(state_machine).vm().root_at(
            old(state_machine).vm().latest(),
        ),
        tx_result@.len() == old(mempool).pending().len(),
        forall|j: int|
            0 <= j < tx_result@.len() ==> (#[trigger] tx_result@[j]).0@ == tx_hash_of(
                old(mempool).pending()[j]@,
            ),
        forall|m: int, n: int|
            0 <= m < n < tx_result@.len() ==> (#[trigger] tx_result@[m]).0@ != (
            #[trigger] tx_result@[n]).0@,
        old(mempool).pending().len() <= usize::MAX,
        index == (if old(mempool).pending().len() == 0 {
            None::<usize>
        } else {
            Some(old(mempool).pending().len() as usize)
        }),
        store.headers().len() > 0,
        store.headers()[0] == header,
    ensures
        final(state_machine).wf(),
        final(mempool).wf(),
        r is Ok <==> pending_present(*old(db), old(mempool).pending()),
        r is Ok ==> final(state_machine).vm().root_at(final(state_machine).vm().latest())
            == header.state_root@,
        r is Ok ==> chain_slots_persisted(
            *final(db),
            header,
            store.headers(),
            store.max(),
            avail_number,
        ),
        r is Ok ==> final(mempool).pending() == Seq::<TransactionV2>::empty(),
        r is Ok ==> snapshot_marked(*final(db), header, old(mempool).pending()),
        r is Err ==> final(mempool).pending() == old(mempool).pending(),
        r is Err ==> final(db).entries_seq() == old(db).entries_seq()
            && final(db).spec_current_root() == old(db).spec_current_root()
            && final(state_machine).vm().snapshots() == old(state_machine).vm().snapshots(),
{
    let ghost results0 = tx_result@;
    let updated_version: u64 = match state_machine.state().get_version(false) {
        Ok(Some(i)) => i,
        _ => 0,
    };
    let ghost pending0 = old(mempool).pending();
    let info = ProcessedBatchInfo {
        avail_number,
        header,
        txs_result: tx_result,
        tree_update_batch,
        mempool_index: index,
        updated_header_store: store.duplicate(),
        jmt_version: updated_version,
    };
    proof {
        assert(commit_fits(info.tree_update_batch, *state_machine, info.header));
    }
    match save_batch_information(db, mempool, state_machine, &info) {
        Ok(()) => {
            proof {
                if pending0.len() > 0 {
                    assert(pending0.skip(pending0.len() as int) =~= Seq::<
                        TransactionV2,
                    >::empty());
                }
                lemma_present_iff(*old(db), info.txs_result@, pending0);
                assert(snapshot_marked(*db, header, pending0)) by {
                    reveal(snapshot_marked);
                    reveal(batch_records_persisted);
                    assert(info.txs_result@ == results0);
                    assert forall|j: int| 0 <= j < pending0.len() implies ({
                        let slot = db.spec_get((2int, tx_hash_of((#[trigger] pending0[j])@)));
                        slot matches Some(DbValue::TxStatus(t)) && t.block_hash is Some
                            && t.block_hash->Some_0@ == header_hash_of(header@)
                    }) by {
                        assert(results0[j].0@ == tx_hash_of(pending0[j]@));
                    }
                }
            }
            Ok(())
        },
        Err(e) => {
            proof {
                lemma_present_iff(*old(db), info.txs_result@, pending0);
            }
            Err(e)
        },
    }
}

/// One full engine step for one DA header: load the header store,
/// snapshot the mempool, execute and prove the batch, persist everything
/// atomically, and advance the mempool watermark. On success the
/// committed root equals the new header's state root, the new header
/// chains onto the stored one, and the snapshot has left the mempool.
#[verifier::rlimit(100)]
#[verifier::spinoff_prover]
#[verifier::loop_isolation(false)]
pub fn process_header(
    db: &mut NodeDB,
    mempool: &mut Mempool,
    state_machine: &mut StateMachine,
    avail_header: AvailHeader,
    prover_mode: ProverMode,
) -> (r: Result<NexusHeader, NexusError>)
    requires
        old(state_machine).wf(),
        old(state_machine).vm().latest() < u64::MAX,
        old(mempool).wf(),
        old(db).spec_get((0int, Seq::<u8>::empty())) matches Some(DbValue::Headers(hs))
            ==> hs.wf(),
    ensures
        final(state_machine).wf(),
        final(mempool).wf(),
        r is Ok <==> (avail_header_encodable(avail_header) && (old(db).spec_get(
            (0int, Seq::<u8>::empty()),
        ) matches Some(v) ==> v is Headers) && pending_present(*old(db), old(mempool).pending())),
        r matches Ok(h) ==> ({
            &&& h.parent_hash@ == parent_hash_view(stored_headers(*old(db)))
            &&& h.avail_header_hash@ == blake2b256_of(avail_header_enc(avail_header))
            &&& h.number == avail_header.number
            &&& final(state_machine).vm().root_at(final(state_machine).vm().latest())
                == h.state_root@
            &&& final(mempool).pending() == Seq::<TransactionV2>::empty()
            &&& snapshot_marked(*final(db), h, old(mempool).pending())
            &&& chain_slots_persisted(
                *final(db),
                h,
                (if stored_headers(*old(db)).len() == stored_max(*old(db)) {
                    seq![h] + stored_headers(*old(db)).drop_last()
                } else {
                    seq![h] + stored_headers(*old(db))
                }),
                stored_max(*old(db)),
                avail_header.number,
            )
        }),
        r is Err ==> final(mempool).pending() == old(mempool).pending(),
        r is Err ==> final(db).entries_seq() == old(db).entries_seq()
            && final(db).spec_current_root() == old(db).spec_current_root()
            && final(state_machine).vm().snapshots() == old(state_machine).vm().snapshots(),
{
    let old_headers: HeaderStore = match db.get(&DbKey::PreviousHeaders) {
        Some(DbValue::Headers(hs)) => hs.duplicate(),
        Some(_) => {
            return Err(NexusError::CodecInvalid);
        },
        None => HeaderStore::new(32),
    };
    let (txs, index) = mempool.get_current_txs();
    proof {
        assert(forall|j: int|
            0 <= j < txs@.len() ==> (#[trigger] txs@[j])@ == old(mempool).pending()[j]@);
    }
    let number = avail_header.number;
    let mut store = old_headers;
    match execute_batch(&txs, state_machine, avail_header, &mut store, prover_mode) {
        Ok((_proof_artifact, result, tx_result, tree_update_batch)) => {
            match finish_header(
                db,
                mempool,
                state_machine,
                number,
                result,
                tx_result,
                tree_update_batch,
                store,
                index,
            ) {
                Ok(()) => Ok(result),
                Err(e) => Err(e),
            }
        },
        Err(e) => Err(e),
    }
}


/// Accepts a transaction over RPC: it enters the mempool (duplicates by
/// canonical hash are ignored) and its status record enters the store as
/// pending, so that a later commit can mark it.
pub fn submit_tx(mempool: &mut Mempool, db: &mut NodeDB, tx: TransactionV2) -> (r: Result<
    (),
    NexusError,
>)
    requires
        old(mempool).wf(),
    ensures
        final(mempool).wf(),
        r is Ok <==> tx_encodable(tx@),
        r matches Ok(()) ==> ({
            let h = tx_hash_of(tx@);
            &&& (crate::mempool::pool_contains_hash(old(mempool).pending(), h) ==> final(mempool).pending() == old(mempool).pending())
            &&& (!crate::mempool::pool_contains_hash(old(mempool).pending(), h) ==> final(mempool).pending().len() == old(mempool).pending().len() + 1
                && final(mempool).pending().last()@ == tx@)
            &&& (final(db).spec_get((2int, h)) matches Some(DbValue::TxStatus(t)) && t.status
                == TransactionStatus::InPool && t.block_hash is None && t.transaction@ == tx@)
        }),
        r is Err ==> final(mempool).pending() == old(mempool).pending() && final(db).entries_seq()
            == old(db).entries_seq(),
{
    let size_ok: bool = match &tx.params {
        TxParamsV2::SubmitProof(sp) => sp.proof.0.len() as u64 <= u32::MAX as u64,
        TxParamsV2::InitAccount(_) => true,
    };
    if !size_ok {
        return Err(NexusError::CodecInvalid);
    }
    let h = tx.hash();
    mempool.add_tx(tx.duplicate());
    db.put(
        DbKey::Tx(h),
        DbValue::TxStatus(
            TransactionWithStatus {
                transaction: tx,
                status: TransactionStatus::InPool,
                block_hash: None,
            },
        ),
    );
    Ok(())
}

/// The DA height the relayer resumes from: one past the last processed
/// height, or the fixed starting height when nothing was processed yet.
pub fn relayer_start_height(pointer: Option<u32>) -> (r: u32)
    requires
        pointer matches Some(n) ==> n < u32::MAX,
    ensures
        r == (match pointer {
            Some(n) => (n + 1) as int,
            None => 10000int,
        }),
{
    match pointer {
        Some(n) => n + 1,
        None => 10000,
    }
}

/// Batches waiting to be aggregated: each pairs the transactions taken
/// from the mempool with the aggregated transaction built from them.
pub struct BatchesToAggregate {
    inner: Vec<(Vec<TransactionV2>, TransactionV2)>,
}

impl BatchesToAggregate {
    pub closed spec fn batches(self) -> Seq<(Vec<TransactionV2>, TransactionV2)> {
        self.inner@
    }

    pub fn new() -> (r: Self)
        ensures
            r.batches() == Seq::<(Vec<TransactionV2>, TransactionV2)>::empty(),
    {
        BatchesToAggregate { inner: Vec::new() }
    }

    pub fn add_batch(&mut self, batch: (Vec<TransactionV2>, TransactionV2))
        ensures
            final(self).batches() == old(self).batches().push(batch),
    {
        self.inner.push(batch);
    }

    pub fn get_next_batch(&self) -> (r: Option<&(Vec<TransactionV2>, TransactionV2)>)
        ensures
            match r {
                Some(b) => self.batches().len() > 0 && *b == self.batches()[0],
                None => self.batches().len() == 0,
            },
    {
        if self.inner.len() == 0 {
            return None;
        }
        Some(&self.inner[0])
    }

    pub fn remove_first_batch(&mut self)
        ensures
            old(self).batches().len() > 0 ==> final(self).batches() == old(self).batches().skip(1),
            old(self).batches().len() == 0 ==> final(self).batches() == old(self).batches(),
    {
        if !self.inner.is_empty() {
            self.inner.remove(0);
            proof {
                assert(old(self).inner@.remove(0) =~= old(self).inner@.skip(1));
            }
        } else {
            self.inner.clear();
            proof {
                assert(old(self).inner@ =~= Seq::<(Vec<TransactionV2>, TransactionV2)>::empty());
            }
        }
    }
}

/// An unbroken chain: every stored header names the hash of the one
/// after it, newest first.
pub open spec fn chained(headers: Seq<NexusHeader>) -> bool {
    forall|i: int|
        0 <= i < headers.len() - 1 ==> (#[trigger] headers[i]).parent_hash@ == header_hash_of(
            headers[i + 1]@,
        )
}

/// Pushing a header whose parent hash is the hash of the newest stored
/// header keeps the store an unbroken chain, with or without eviction:
/// committed headers at consecutive heights always chain.
pub proof fn lemma_chain_extends(headers: Seq<NexusHeader>, h: NexusHeader)
    requires
        chained(headers),
        h.parent_hash@ == parent_hash_view(headers),
    ensures
        chained(seq![h] + headers),
        headers.len() > 0 ==> chained(seq![h] + headers.drop_last()),
{
    let pushed = seq![h] + headers;
    assert forall|i: int| 0 <= i < pushed.len() - 1 implies (#[trigger] pushed[i]).parent_hash@
        == header_hash_of(pushed[i + 1]@) by {
        if i == 0 {
            assert(pushed[0] == h);
            assert(pushed[1] == headers[0]);
        } else {
            assert(pushed[i] == headers[i - 1]);
            assert(pushed[i + 1] == headers[i]);
        }
    }
    if headers.len() > 0 {
        let evicted = seq![h] + headers.drop_last();
        assert forall|i: int| 0 <= i < evicted.len() - 1 implies (
        #[trigger] evicted[i]).parent_hash@ == header_hash_of(evicted[i + 1]@) by {
            assert(evicted[i] == pushed[i]);
            assert(evicted[i + 1] == pushed[i + 1]);
        }
    }
}

} // verus!
