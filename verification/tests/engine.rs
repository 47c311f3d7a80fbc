use nexus_core::avail::{
    AvailHeader, DataLookup, Digest, Extension, KateCommitment, V3Extension,
};
use nexus_core::codec::encode_rollup_public_inputs;
use nexus_core::db::{DbKey, DbValue, NodeDB};
use nexus_core::host::{execute_batch, process_header, relayer_start_height, submit_tx};
use nexus_core::mempool::Mempool;
use nexus_core::state::VmState;
use nexus_core::state_machine::StateMachine;
use nexus_core::types::{
    AppAccountId, AppId, H256, InitAccount, Proof, RollupPublicInputsV2, StatementDigest,
    SubmitProof, TransactionStatus, TransactionV2, TxParamsV2, TxSignature,
};
use nexus_core::zkvm::ProverMode;

fn h(b: u8) -> H256 {
    H256::from_bytes([b; 32])
}

fn avail_header(number: u32, seed: u8) -> AvailHeader {
    AvailHeader {
        parent_hash: h(seed),
        number,
        state_root: h(seed.wrapping_add(1)),
        extrinsics_root: h(seed.wrapping_add(2)),
        digest: Digest { logs: vec![] },
        extension: Extension::V3(V3Extension {
            app_lookup: DataLookup { size: 0, index: vec![] },
            commitment: KateCommitment {
                rows: 0,
                cols: 0,
                commitment: vec![],
                data_root: H256::zero(),
            },
        }),
    }
}

const STATEMENT: [u32; 8] = [1, 2, 3, 4, 5, 6, 7, 8];

fn init_tx(statement: [u32; 8]) -> TransactionV2 {
    TransactionV2 {
        signature: TxSignature([0u8; 64]),
        params: TxParamsV2::InitAccount(InitAccount {
            app_id: AppAccountId::from(AppId(100)),
            statement: StatementDigest(statement),
            start_nexus_hash: H256::zero(),
        }),
    }
}

fn submit_proof_tx(height: u32, state_root: H256, start: H256) -> TransactionV2 {
    let pi = RollupPublicInputsV2 {
        nexus_hash: H256::zero(),
        state_root,
        height,
        start_nexus_hash: start,
        app_id: AppAccountId::from(AppId(100)),
        img_id: StatementDigest(STATEMENT),
    };
    TransactionV2 {
        signature: TxSignature([0u8; 64]),
        params: TxParamsV2::SubmitProof(SubmitProof {
            proof: Proof(encode_rollup_public_inputs(&pi)),
            nexus_hash: H256::zero(),
            state_root,
            height,
            app_id: AppAccountId::from(AppId(100)),
        }),
    }
}

struct Node {
    db: NodeDB,
    mempool: Mempool,
    state_machine: StateMachine,
}

fn node() -> Node {
    Node {
        db: NodeDB::new(),
        mempool: Mempool::new(),
        state_machine: StateMachine::new(VmState::new()),
    }
}

fn run(node: &mut Node, header: AvailHeader) -> nexus_core::types::NexusHeader {
    process_header(
        &mut node.db,
        &mut node.mempool,
        &mut node.state_machine,
        header,
        ProverMode::MockProof,
    )
    .unwrap()
}

fn account_of(node: &Node, app: u32) -> Option<nexus_core::types::AccountState> {
    let key = AppAccountId::from(AppId(app)).as_h256();
    let version = match node.state_machine.state().get_version(true).unwrap() {
        Some(v) => v,
        None => 0,
    };
    node.state_machine.state().get(&key, version).unwrap()
}

fn tx_status(node: &Node, tx: &TransactionV2) -> TransactionStatus {
    let hash = tx.hash();
    match node.db.get(&DbKey::Tx(hash)) {
        Some(DbValue::TxStatus(t)) => t.status,
        _ => panic!("transaction not in the persisted index"),
    }
}

#[test]
fn empty_batch_commits_zero_roots() {
    let mut n = node();
    let result = run(&mut n, avail_header(1, 0xAA));
    assert_eq!(result.number, 1);
    assert!(result.prev_state_root == H256::zero());
    assert!(result.state_root == H256::zero());
    assert!(result.parent_hash == H256::zero());
    // Persisted: the header and the chain index.
    let stored = n.db.get(&DbKey::Header(result.hash()));
    assert!(matches!(stored, Some(DbValue::Header(_))));
    let (snap, _) = n.mempool.get_current_txs();
    assert!(snap.is_empty());
}

#[test]
fn init_then_submit_in_one_batch() {
    let mut n = node();
    let tx1 = init_tx(STATEMENT);
    let tx2 = submit_proof_tx(1, h(0x11), H256::zero());
    submit_tx(&mut n.mempool, &mut n.db, tx1.clone()).unwrap();
    submit_tx(&mut n.mempool, &mut n.db, tx2.clone()).unwrap();
    let result = run(&mut n, avail_header(1, 0xAA));
    // The block body is persisted with both outcomes and the tree version.
    match n.db.get(&DbKey::Block(result.hash())) {
        Some(DbValue::Block(b)) => {
            assert!(b.block.header == result);
            assert_eq!(b.block.transactions.len(), 2);
            assert!(b.block.transactions[0].result);
            assert!(b.block.transactions[1].result);
            assert_eq!(b.jmt_version, 1);
        },
        _ => panic!("block body not persisted"),
    }
    let account = account_of(&n, 100).unwrap();
    assert!(account.statement == StatementDigest(STATEMENT));
    assert_eq!(account.height, 1);
    assert!(account.state_root == h(0x11));
    assert_eq!(tx_status(&n, &tx1), TransactionStatus::Successful);
    assert_eq!(tx_status(&n, &tx2), TransactionStatus::Successful);
    // The committed root equals the header's state root.
    let version = n.state_machine.state().get_version(true).unwrap().unwrap();
    assert!(n.state_machine.state().get_root(version).unwrap() == result.state_root);
    // The mempool watermark advanced.
    let (snap, _) = n.mempool.get_current_txs();
    assert!(snap.is_empty());
}

#[test]
fn replay_submit_at_same_height_fails() {
    let mut n = node();
    submit_tx(&mut n.mempool, &mut n.db, init_tx(STATEMENT)).unwrap();
    submit_tx(&mut n.mempool, &mut n.db, submit_proof_tx(1, h(0x11), H256::zero())).unwrap();
    run(&mut n, avail_header(1, 0xAA));
    let before = account_of(&n, 100).unwrap();
    // The same submission again, in a later batch.
    let replay = submit_proof_tx(1, h(0x22), H256::zero());
    submit_tx(&mut n.mempool, &mut n.db, replay.clone()).unwrap();
    run(&mut n, avail_header(2, 0xBB));
    assert_eq!(tx_status(&n, &replay), TransactionStatus::Failed);
    let after = account_of(&n, 100).unwrap();
    assert_eq!(after.height, before.height);
    assert!(after.state_root == before.state_root);
}

#[test]
fn submit_at_next_height_succeeds() {
    let mut n = node();
    submit_tx(&mut n.mempool, &mut n.db, init_tx(STATEMENT)).unwrap();
    submit_tx(&mut n.mempool, &mut n.db, submit_proof_tx(1, h(0x11), H256::zero())).unwrap();
    run(&mut n, avail_header(1, 0xAA));
    let advance = submit_proof_tx(2, h(0x33), H256::zero());
    submit_tx(&mut n.mempool, &mut n.db, advance.clone()).unwrap();
    run(&mut n, avail_header(2, 0xBB));
    assert_eq!(tx_status(&n, &advance), TransactionStatus::Successful);
    assert_eq!(account_of(&n, 100).unwrap().height, 2);
}

#[test]
fn statement_mismatch_on_init_fails() {
    let mut n = node();
    submit_tx(&mut n.mempool, &mut n.db, init_tx(STATEMENT)).unwrap();
    run(&mut n, avail_header(1, 0xAA));
    let before = account_of(&n, 100).unwrap();
    let clashing = init_tx([9, 9, 9, 9, 9, 9, 9, 9]);
    submit_tx(&mut n.mempool, &mut n.db, clashing.clone()).unwrap();
    run(&mut n, avail_header(2, 0xBB));
    assert_eq!(tx_status(&n, &clashing), TransactionStatus::Failed);
    let after = account_of(&n, 100).unwrap();
    assert!(after.statement == before.statement);
    assert!(after.state_root == before.state_root);
}

#[test]
fn init_twice_same_statement_is_idempotent() {
    let mut n = node();
    submit_tx(&mut n.mempool, &mut n.db, init_tx(STATEMENT)).unwrap();
    run(&mut n, avail_header(1, 0xAA));
    let before = account_of(&n, 100).unwrap();
    // A second init with the same statement, in a later batch: the pool
    // was truncated by the first commit, so the same bytes enter again,
    // and the effect is a no-op success.
    let again = init_tx(STATEMENT);
    submit_tx(&mut n.mempool, &mut n.db, again.clone()).unwrap();
    run(&mut n, avail_header(2, 0xBB));
    assert_eq!(tx_status(&n, &again), TransactionStatus::Successful);
    let after = account_of(&n, 100).unwrap();
    assert!(after.statement == before.statement);
    assert!(after.state_root == before.state_root);
    assert_eq!(after.height, before.height);
    assert!(after.start_nexus_hash == before.start_nexus_hash);
}

#[test]
fn headers_chain_across_batches() {
    let mut n = node();
    let h1 = run(&mut n, avail_header(1, 0xAA));
    let h2 = run(&mut n, avail_header(2, 0xBB));
    let h3 = run(&mut n, avail_header(3, 0xCC));
    assert!(h2.parent_hash == h1.hash());
    assert!(h3.parent_hash == h2.hash());
    assert!(h1.parent_hash == H256::zero());
}

#[test]
fn crash_before_persist_replays_identically() {
    // Two nodes fed the same inputs: one loses the batch before
    // persistence, retries, and ends in the same committed state.
    let mut a = node();
    let mut b = node();
    submit_tx(&mut a.mempool, &mut a.db, init_tx(STATEMENT)).unwrap();
    submit_tx(&mut b.mempool, &mut b.db, init_tx(STATEMENT)).unwrap();
    // Node a processes the header at once.
    let header_a = run(&mut a, avail_header(1, 0xAA));
    // Node b "crashes" after executing but before persisting: nothing of
    // the first attempt is kept, and the same header is retried.
    {
        let (txs, _) = b.mempool.get_current_txs();
        assert_eq!(txs.len(), 1);
        // The snapshot is unchanged by the crash; the retry sees it again.
    }
    let header_b = run(&mut b, avail_header(1, 0xAA));
    assert!(header_a == header_b);
    let va = a.state_machine.state().get_version(true).unwrap().unwrap();
    let vb = b.state_machine.state().get_version(true).unwrap().unwrap();
    assert_eq!(va, vb);
    assert!(
        a.state_machine.state().get_root(va).unwrap()
            == b.state_machine.state().get_root(vb).unwrap()
    );
}

#[test]
fn header_store_persists_newest_first() {
    let mut n = node();
    let mut last = None;
    for k in 1..=33u32 {
        last = Some(run(&mut n, avail_header(k, k as u8)));
    }
    match n.db.get(&DbKey::PreviousHeaders) {
        Some(DbValue::Headers(store)) => {
            assert_eq!(store.inner().len(), 32);
            assert_eq!(store.first().unwrap().number, 33);
            assert!(*store.first().unwrap() == last.unwrap());
            assert_eq!(store.inner()[31].number, 2);
        },
        _ => panic!("header store not persisted"),
    }
}

#[test]
fn relayer_resumes_after_last_processed_height() {
    assert_eq!(relayer_start_height(Some(41)), 42);
    assert_eq!(relayer_start_height(None), 10000);
}

#[test]
fn malformed_proof_bytes_fail_the_transaction() {
    let mut n = node();
    submit_tx(&mut n.mempool, &mut n.db, init_tx(STATEMENT)).unwrap();
    let bad = TransactionV2 {
        signature: TxSignature([0u8; 64]),
        params: TxParamsV2::SubmitProof(SubmitProof {
            proof: Proof(vec![1, 2, 3]),
            nexus_hash: H256::zero(),
            state_root: h(0x11),
            height: 1,
            app_id: AppAccountId::from(AppId(100)),
        }),
    };
    submit_tx(&mut n.mempool, &mut n.db, bad.clone()).unwrap();
    run(&mut n, avail_header(1, 0xAA));
    assert_eq!(tx_status(&n, &bad), TransactionStatus::Failed);
}

#[test]
fn prover_journal_is_deterministic_in_its_inputs() {
    // The same recorded inputs drive the prover twice; the journals are
    // byte-identical and expose the same header.
    let mut a = node();
    let mut b = node();
    submit_tx(&mut a.mempool, &mut a.db, init_tx(STATEMENT)).unwrap();
    submit_tx(&mut b.mempool, &mut b.db, init_tx(STATEMENT)).unwrap();
    let (txs_a, _) = a.mempool.get_current_txs();
    let (txs_b, _) = b.mempool.get_current_txs();
    let mut store_a = nexus_core::types::HeaderStore::new(32);
    let mut store_b = nexus_core::types::HeaderStore::new(32);
    let (proof_a, header_a, _, _) = execute_batch(
        &txs_a,
        &mut a.state_machine,
        avail_header(1, 0xAA),
        &mut store_a,
        ProverMode::MockProof,
    )
    .unwrap();
    let (proof_b, header_b, _, _) = execute_batch(
        &txs_b,
        &mut b.state_machine,
        avail_header(1, 0xAA),
        &mut store_b,
        ProverMode::MockProof,
    )
    .unwrap();
    assert_eq!(proof_a.journal, proof_b.journal);
    assert!(header_a == header_b);
    assert!(proof_a.public_inputs().unwrap() == header_a);
    assert!(proof_a.verify().is_ok());
}
