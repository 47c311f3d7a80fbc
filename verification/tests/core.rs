use nexus_core::codec::{
    decode_account_state, decode_header_store, decode_nexus_header, decode_tx,
    encode_account_state, encode_nexus_header, encode_rollup_public_inputs, encode_tx,
};
use nexus_core::hash::ShaHasher;
use nexus_core::mempool::Mempool;
use nexus_core::state::{AccountMap, VmState, verify_inclusion, verify_non_inclusion};
use nexus_core::types::{
    AccountState, AppAccountId, AppId, H256, HeaderStore, NexusHeader, Proof,
    RollupPublicInputsV2, StatementDigest, SubmitProof, TransactionV2, TxParamsV2, TxSignature,
};

fn h(b: u8) -> H256 {
    H256::from_bytes([b; 32])
}

fn header(n: u32) -> NexusHeader {
    NexusHeader {
        parent_hash: h(1),
        prev_state_root: h(2),
        state_root: h(3),
        avail_header_hash: h(4),
        number: n,
    }
}

fn init_tx(app: u32, statement: [u32; 8]) -> TransactionV2 {
    TransactionV2 {
        signature: TxSignature([0u8; 64]),
        params: TxParamsV2::InitAccount(nexus_core::types::InitAccount {
            app_id: AppAccountId::from(AppId(app)),
            statement: StatementDigest(statement),
            start_nexus_hash: H256::zero(),
        }),
    }
}

#[test]
fn sha256_empty_vector() {
    let hasher = ShaHasher::new();
    let digest = hasher.finish();
    let expected: [u8; 32] = [
        0xe3, 0xb0, 0xc4, 0x42, 0x98, 0xfc, 0x1c, 0x14, 0x9a, 0xfb, 0xf4, 0xc8, 0x99, 0x6f,
        0xb9, 0x24, 0x27, 0xae, 0x41, 0xe4, 0x64, 0x9b, 0x93, 0x4c, 0xa4, 0x95, 0x99, 0x1b,
        0x78, 0x52, 0xb8, 0x55,
    ];
    assert_eq!(*digest.as_bytes(), expected);
}

#[test]
fn sha256_incremental_matches_bytes() {
    let mut hasher = ShaHasher::new();
    hasher.write_byte(0x61);
    hasher.write_byte(0x62);
    hasher.write_byte(0x63);
    let digest = hasher.finish();
    // SHA-256 of "abc".
    let expected: [u8; 32] = [
        0xba, 0x78, 0x16, 0xbf, 0x8f, 0x01, 0xcf, 0xea, 0x41, 0x41, 0x40, 0xde, 0x5d, 0xae,
        0x22, 0x23, 0xb0, 0x03, 0x61, 0xa3, 0x96, 0x17, 0x7a, 0x9c, 0xb4, 0x10, 0xff, 0x61,
        0xf2, 0x00, 0x15, 0xad,
    ];
    assert_eq!(*digest.as_bytes(), expected);
}

#[test]
fn nexus_header_round_trip() {
    let hd = header(7);
    let bytes = encode_nexus_header(&hd);
    assert_eq!(bytes.len(), 132);
    let (decoded, used) = decode_nexus_header(&bytes, 0).unwrap();
    assert_eq!(used, 132);
    assert!(decoded == hd);
}

#[test]
fn account_state_round_trip() {
    let account = AccountState {
        statement: StatementDigest([9, 8, 7, 6, 5, 4, 3, 2]),
        state_root: h(0x11),
        last_proof_height: 41,
        start_nexus_hash: h(0x22),
        height: 42,
    };
    let bytes = encode_account_state(&account);
    let (decoded, used) = decode_account_state(&bytes, 0).unwrap();
    assert_eq!(used, bytes.len());
    assert!(decoded.statement == account.statement);
    assert!(decoded.state_root == account.state_root);
    assert_eq!(decoded.last_proof_height, 41);
    assert!(decoded.start_nexus_hash == account.start_nexus_hash);
    assert_eq!(decoded.height, 42);
}

#[test]
fn transaction_round_trip_init() {
    let tx = init_tx(100, [1, 2, 3, 4, 5, 6, 7, 8]);
    let bytes = encode_tx(&tx);
    let (decoded, used) = decode_tx(&bytes, 0).unwrap();
    assert_eq!(used, bytes.len());
    let reencoded = encode_tx(&decoded);
    assert_eq!(bytes, reencoded);
}

#[test]
fn transaction_round_trip_submit() {
    let pi = RollupPublicInputsV2 {
        nexus_hash: h(5),
        state_root: h(0x11),
        height: 1,
        start_nexus_hash: H256::zero(),
        app_id: AppAccountId::from(AppId(100)),
        img_id: StatementDigest([1, 2, 3, 4, 5, 6, 7, 8]),
    };
    let tx = TransactionV2 {
        signature: TxSignature([7u8; 64]),
        params: TxParamsV2::SubmitProof(SubmitProof {
            proof: Proof(encode_rollup_public_inputs(&pi)),
            nexus_hash: h(5),
            state_root: h(0x11),
            height: 1,
            app_id: AppAccountId::from(AppId(100)),
        }),
    };
    let bytes = encode_tx(&tx);
    let (decoded, used) = decode_tx(&bytes, 0).unwrap();
    assert_eq!(used, bytes.len());
    assert_eq!(bytes, encode_tx(&decoded));
}

#[test]
fn header_store_round_trip() {
    let mut store = HeaderStore::new(32);
    store.push_front(&header(1));
    store.push_front(&header(2));
    let bytes = nexus_core::codec::encode_nexus_header(&header(1));
    assert_eq!(bytes.len(), 132);
    let mut out: Vec<u8> = Vec::new();
    nexus_core::codec::push_compact_u32(&mut out, store.inner().len() as u32);
    for hd in store.inner().iter() {
        nexus_core::codec::push_nexus_header(&mut out, hd);
    }
    nexus_core::codec::push_compact_u32(&mut out, 32);
    let (decoded, used) = decode_header_store(&out, 0).unwrap();
    assert_eq!(used, out.len());
    assert_eq!(decoded.inner().len(), 2);
    assert!(decoded.inner()[0] == header(2));
    assert!(decoded.inner()[1] == header(1));
}

#[test]
fn header_store_eviction_at_capacity() {
    let mut store = HeaderStore::new(32);
    for n in 1..=33u32 {
        store.push_front(&header(n));
    }
    assert_eq!(store.inner().len(), 32);
    assert_eq!(store.first().unwrap().number, 33);
    assert_eq!(store.inner()[31].number, 2);
    for (i, hd) in store.inner().iter().enumerate() {
        assert_eq!(hd.number as usize, 33 - i);
    }
}

#[test]
fn mempool_snapshot_is_prefix_under_later_add() {
    let mut pool = Mempool::new();
    pool.add_tx(init_tx(1, [1, 0, 0, 0, 0, 0, 0, 0]));
    pool.add_tx(init_tx(2, [2, 0, 0, 0, 0, 0, 0, 0]));
    let (snap, cursor) = pool.get_current_txs();
    assert_eq!(snap.len(), 2);
    assert_eq!(cursor, Some(2));
    pool.add_tx(init_tx(3, [3, 0, 0, 0, 0, 0, 0, 0]));
    let (snap2, cursor2) = pool.get_current_txs();
    assert_eq!(snap2.len(), 3);
    assert_eq!(cursor2, Some(3));
    for i in 0..2 {
        assert_eq!(encode_tx(&snap[i]), encode_tx(&snap2[i]));
    }
    pool.clear_upto_tx(cursor.unwrap());
    let (snap3, _) = pool.get_current_txs();
    assert_eq!(snap3.len(), 1);
    assert_eq!(encode_tx(&snap3[0]), encode_tx(&snap2[2]));
}

#[test]
fn mempool_ignores_duplicate_hash() {
    let mut pool = Mempool::new();
    pool.add_tx(init_tx(1, [1, 0, 0, 0, 0, 0, 0, 0]));
    pool.add_tx(init_tx(1, [1, 0, 0, 0, 0, 0, 0, 0]));
    let (snap, _) = pool.get_current_txs();
    assert_eq!(snap.len(), 1);
}

#[test]
fn stage_commit_then_get_returns_staged_values() {
    let mut state = VmState::new();
    let key_a = h(0xA0);
    let key_b = h(0xB0);
    let account_a = AccountState {
        statement: StatementDigest([1, 0, 0, 0, 0, 0, 0, 0]),
        state_root: h(0x11),
        last_proof_height: 0,
        start_nexus_hash: H256::zero(),
        height: 1,
    };
    let account_b = AccountState {
        statement: StatementDigest([2, 0, 0, 0, 0, 0, 0, 0]),
        state_root: h(0x22),
        last_proof_height: 0,
        start_nexus_hash: H256::zero(),
        height: 2,
    };
    let updates = vec![(key_a, Some(account_a)), (key_b, Some(account_b))];
    let (batch, update) = state.update_set(updates, 1).unwrap();
    state.commit(&batch.node_batch).unwrap();
    let got_a = state.get(&key_a, 1).unwrap().unwrap();
    let got_b = state.get(&key_b, 1).unwrap().unwrap();
    assert_eq!(got_a.height, 1);
    assert_eq!(got_b.height, 2);
    assert!(state.get_root(1).unwrap() == update.post_state_root);
    // Staging again at an already-committed version must fail.
    assert!(state.update_set(vec![(key_a, None)], 1).is_err());
    // Committing the same version twice must fail.
    assert!(state.commit(&batch.node_batch).is_err());
    // Removal: staging None at the next version removes the key.
    let (batch2, _) = state.update_set(vec![(key_a, None)], 2).unwrap();
    state.commit(&batch2.node_batch).unwrap();
    assert!(state.get(&key_a, 2).unwrap().is_none());
    assert!(state.get(&key_a, 1).unwrap().is_some());
}

#[test]
fn inclusion_proof_verifies_against_root() {
    let mut map = AccountMap::new();
    let account = AccountState {
        statement: StatementDigest([1, 0, 0, 0, 0, 0, 0, 0]),
        state_root: h(0x11),
        last_proof_height: 0,
        start_nexus_hash: H256::zero(),
        height: 1,
    };
    for b in 1..=5u8 {
        map.set(h(b), account);
    }
    let root = map.merkle_root();
    let (value, proof) = map.get_with_proof(&h(3));
    assert!(value.is_some());
    assert!(verify_inclusion(&root, &h(3), &value.unwrap(), &proof));
    // The proof must not verify against a different key's leaf.
    assert!(!verify_inclusion(&root, &h(4), &value.unwrap(), &proof));
}

#[test]
fn app_account_id_is_sha256_of_app_id() {
    let id = AppAccountId::from(AppId(100));
    // SHA-256 of the 4 big-endian bytes 00 00 00 64.
    let expected: [u8; 32] = [
        0x36, 0x55, 0xca, 0x59, 0xb7, 0xd5, 0x66, 0xae, 0x06, 0x29, 0x7c, 0x20, 0x0f,
        0x98, 0xd0, 0x4d, 0xa2, 0xe8, 0xe8, 0x98, 0x12, 0xd6, 0x27, 0xbc, 0x29, 0x29,
        0x7c, 0x25, 0xdb, 0x60, 0x36, 0x2d,
    ];
    assert_eq!(id.as_h256().as_bytes(), &expected);
}

#[test]
fn non_inclusion_witness_verifies_against_root() {
    let mut state = VmState::new();
    let account = AccountState {
        statement: StatementDigest([1, 0, 0, 0, 0, 0, 0, 0]),
        state_root: h(0x11),
        last_proof_height: 0,
        start_nexus_hash: H256::zero(),
        height: 1,
    };
    let (batch, _) = state
        .update_set(vec![(h(0xA0), Some(account)), (h(0xB0), Some(account))], 1)
        .unwrap();
    state.commit(&batch.node_batch).unwrap();
    let root = state.get_root(1).unwrap();
    // An absent key has a witness, and it checks out against the root.
    let witness = state.non_inclusion_witness(&h(0xC0), 1).unwrap();
    assert!(verify_non_inclusion(&root, &h(0xC0), &witness));
    // The same witness does not prove a present key absent.
    assert!(!verify_non_inclusion(&root, &h(0xA0), &witness));
    // A present key has no non-inclusion witness.
    assert!(state.non_inclusion_witness(&h(0xA0), 1).is_none());
    // An unknown version has none either.
    assert!(state.non_inclusion_witness(&h(0xC0), 2).is_none());
}

#[test]
fn digest_item_round_trip() {
    let items = vec![
        nexus_core::avail::DigestItem::PreRuntime([1, 2, 3, 4], vec![9, 8, 7]),
        nexus_core::avail::DigestItem::Consensus([5, 6, 7, 8], vec![]),
        nexus_core::avail::DigestItem::Seal([0, 0, 0, 1], vec![42]),
        nexus_core::avail::DigestItem::Other(vec![1, 1, 2, 3, 5, 8]),
        nexus_core::avail::DigestItem::RuntimeEnvironmentUpdated,
    ];
    for item in items {
        let bytes = item.encode();
        let (decoded, used) = nexus_core::avail::DigestItem::decode(&bytes, 0).unwrap();
        assert_eq!(used, bytes.len());
        assert_eq!(decoded.encode(), bytes);
    }
}
