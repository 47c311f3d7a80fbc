use vstd::prelude::*;
use crate::avail::AvailHeader;
use crate::codec::{
    dec_rollup_public_inputs, decode_rollup_public_inputs, header_hash_of, tx_encodable,
    tx_hash_of,
};
use crate::state::AccountMap;
use crate::state::{VmState, ev, vfind, vset};
use crate::types::{
    AccountState, AccountStateView, H256, HeaderStore, NexusError, NexusHeader, TransactionV2,
    TransactionZKVM, TxParamsV2, TxParamsView, TxView, zero_h256_seq,
};

verus! {

// ---------------------------------------------------------------------------
// The state transition function: pure, deterministic, replayable. Inputs
// are the DA header, the prior nexus headers, the transactions and the
// pre-state; outputs are the post-state and one result per transaction.
// ---------------------------------------------------------------------------

/// The parent hash a batch builds on: the hash of the newest stored
/// header, or zero at genesis.
pub open spec fn parent_hash_view(headers: Seq<NexusHeader>) -> Seq<u8> {
    if headers.len() == 0 {
        zero_h256_seq()
    } else {
        header_hash_of(headers[0]@)
    }
}

/// The zero account: not initialized.
pub open spec fn zero_account_view() -> AccountStateView {
    AccountStateView {
        statement: Seq::<u32>::new(8, |i: int| 0u32),
        state_root: zero_h256_seq(),
        last_proof_height: 0u32,
        start_nexus_hash: zero_h256_seq(),
        height: 0u32,
    }
}

pub open spec fn account_view_is_zero(a: AccountStateView) -> bool {
    a == zero_account_view()
}

/// The account a key holds in a state, defaulting to the zero account.
pub open spec fn state_account(st: Map<Seq<u8>, AccountStateView>, key: Seq<u8>) -> AccountStateView {
    if st.contains_key(key) {
        st[key]
    } else {
        zero_account_view()
    }
}

/// The outcome of an `InitAccount` on one account: a zero account is
/// created with the batch's parent hash, a matching statement is a no-op
/// success, anything else fails.
pub open spec fn init_outcome(
    account: AccountStateView,
    statement: Seq<u32>,
    parent: Seq<u8>,
) -> (Option<AccountStateView>, bool) {
    if account_view_is_zero(account) {
        (
            Some(
                AccountStateView {
                    statement: statement,
                    state_root: zero_h256_seq(),
                    last_proof_height: 0u32,
                    start_nexus_hash: parent,
                    height: 0u32,
                },
            ),
            true,
        )
    } else if account.statement == statement {
        (Some(account), true)
    } else {
        (None, false)
    }
}

/// The outcome of a `SubmitProof` on one account: the proof bytes must
/// decode to public inputs whose statement, start hash and strictly
/// increasing height match the stored account.
pub open spec fn submit_outcome(
    account: AccountStateView,
    proof_bytes: Seq<u8>,
    avail_number: u32,
) -> (Option<AccountStateView>, bool) {
    match dec_rollup_public_inputs(proof_bytes, 0) {
        None => (None, false),
        Some((pi, n)) => if n != proof_bytes.len() {
            (None, false)
        } else if account_view_is_zero(account) {
            (None, false)
        } else if pi.img_id != account.statement {
            (None, false)
        } else if pi.height <= account.height {
            (None, false)
        } else if pi.start_nexus_hash != account.start_nexus_hash {
            (None, false)
        } else {
            (
                Some(
                    AccountStateView {
                        statement: account.statement,
                        state_root: pi.state_root,
                        last_proof_height: avail_number,
                        start_nexus_hash: account.start_nexus_hash,
                        height: pi.height,
                    },
                ),
                true,
            )
        },
    }
}

/// The account key a transaction addresses.
pub open spec fn tx_key(p: TxParamsView) -> Seq<u8> {
    match p {
        TxParamsView::SubmitProof { app_id, .. } => app_id,
        TxParamsView::InitAccount { app_id, .. } => app_id,
    }
}

/// One transaction applied to a state: the new state and whether the
/// transaction succeeded. A failed transaction leaves the state unchanged.
pub open spec fn stf_apply_tx(
    st: Map<Seq<u8>, AccountStateView>,
    tx: TxView,
    parent: Seq<u8>,
    avail_number: u32,
) -> (Map<Seq<u8>, AccountStateView>, bool) {
    let key = tx_key(tx.params);
    let account = state_account(st, key);
    let outcome = match tx.params {
        TxParamsView::InitAccount { statement, .. } => init_outcome(account, statement, parent),
        TxParamsView::SubmitProof { proof, .. } => submit_outcome(account, proof, avail_number),
    };
    match outcome.0 {
        Some(a) => (st.insert(key, a), outcome.1),
        None => (st, outcome.1),
    }
}

/// A whole batch applied in order: each transaction sees the accumulated
/// effects of the successful ones before it.
pub open spec fn stf_run(
    st: Map<Seq<u8>, AccountStateView>,
    txs: Seq<TxView>,
    parent: Seq<u8>,
    avail_number: u32,
) -> (Map<Seq<u8>, AccountStateView>, Seq<bool>)
    decreases txs.len(),
{
    if txs.len() == 0 {
        (st, Seq::<bool>::empty())
    } else {
        let step = stf_apply_tx(st, txs[0], parent, avail_number);
        let rest = stf_run(step.0, txs.drop_first(), parent, avail_number);
        (rest.0, seq![step.1] + rest.1)
    }
}

/// Running a batch extended by one transaction runs the batch, then the
/// transaction.
pub proof fn lemma_stf_run_snoc(
    st: Map<Seq<u8>, AccountStateView>,
    txs: Seq<TxView>,
    tx: TxView,
    parent: Seq<u8>,
    avail_number: u32,
)
    ensures
        ({
            let whole = stf_run(st, txs.push(tx), parent, avail_number);
            let front = stf_run(st, txs, parent, avail_number);
            let step = stf_apply_tx(front.0, tx, parent, avail_number);
            whole.0 == step.0 && whole.1 == front.1.push(step.1)
        }),
    decreases txs.len(),
{
    reveal_with_fuel(stf_run, 3);
    if txs.len() == 0 {
        assert(txs.push(tx)[0] == tx);
        assert(txs.push(tx).drop_first() =~= Seq::<TxView>::empty());
        let front = stf_run(st, txs, parent, avail_number);
        let step = stf_apply_tx(st, tx, parent, avail_number);
        assert(stf_run(st, txs.push(tx), parent, avail_number).1 =~= front.1.push(step.1));
    } else {
        assert(txs.push(tx)[0] == txs[0]);
        assert(txs.push(tx).drop_first() =~= txs.drop_first().push(tx));
        let step0 = stf_apply_tx(st, txs[0], parent, avail_number);
        lemma_stf_run_snoc(step0.0, txs.drop_first(), tx, parent, avail_number);
        let whole = stf_run(st, txs.push(tx), parent, avail_number);
        let front = stf_run(st, txs, parent, avail_number);
        let step = stf_apply_tx(front.0, tx, parent, avail_number);
        assert(whole.1 =~= front.1.push(step.1));
    }
}


/// One loop step of a batch run: extending the processed prefix by one
/// transaction applies exactly that transaction, and keeps the earlier
/// results.
pub proof fn lemma_stf_run_step(
    st0: Map<Seq<u8>, AccountStateView>,
    txs: Seq<TxView>,
    i: int,
    parent: Seq<u8>,
    avail_number: u32,
)
    requires
        0 <= i < txs.len(),
    ensures
        ({
            let front = stf_run(st0, txs.take(i), parent, avail_number);
            let step = stf_apply_tx(front.0, txs[i], parent, avail_number);
            let whole = stf_run(st0, txs.take(i + 1), parent, avail_number);
            &&& whole.0 == step.0
            &&& whole.1.len() == i + 1
            &&& whole.1[i] == step.1
            &&& forall|j: int| 0 <= j < i ==> whole.1[j] == front.1[j]
            &&& front.1.len() == i
        }),
{
    assert(txs.take(i).push(txs[i]) =~= txs.take(i + 1));
    lemma_stf_run_snoc(st0, txs.take(i), txs[i], parent, avail_number);
    lemma_stf_run_len(st0, txs.take(i), parent, avail_number);
    lemma_stf_run_len(st0, txs.take(i + 1), parent, avail_number);
}

/// A run produces one result per transaction.
pub proof fn lemma_stf_run_len(
    st0: Map<Seq<u8>, AccountStateView>,
    txs: Seq<TxView>,
    parent: Seq<u8>,
    avail_number: u32,
)
    ensures
        stf_run(st0, txs, parent, avail_number).1.len() == txs.len(),
    decreases txs.len(),
{
    if txs.len() > 0 {
        let step = stf_apply_tx(st0, txs[0], parent, avail_number);
        lemma_stf_run_len(step.0, txs.drop_first(), parent, avail_number);
    }
}

/// One transaction's effect on the entry list, in storage order: a
/// successful outcome writes the account under the transaction's key
/// (replacing in place, or appending a fresh key); a failure leaves the
/// list as it stands.
pub open spec fn entries_step(
    es: Seq<(Seq<u8>, AccountStateView)>,
    tx: TxView,
    parent: Seq<u8>,
    avail_number: u32,
) -> Seq<(Seq<u8>, AccountStateView)> {
    let key = tx_key(tx.params);
    let account = match vfind(es, key) {
        Some(a) => a,
        None => zero_account_view(),
    };
    let outcome = match tx.params {
        TxParamsView::InitAccount { statement, .. } => init_outcome(account, statement, parent),
        TxParamsView::SubmitProof { proof, .. } => submit_outcome(account, proof, avail_number),
    };
    match outcome.0 {
        Some(a) => vset(es, key, a),
        None => es,
    }
}

/// A whole batch's effect on the entry list, transaction by transaction.
pub open spec fn entries_run(
    es: Seq<(Seq<u8>, AccountStateView)>,
    txs: Seq<TxView>,
    parent: Seq<u8>,
    avail_number: u32,
) -> Seq<(Seq<u8>, AccountStateView)>
    decreases txs.len(),
{
    if txs.len() == 0 {
        es
    } else {
        entries_step(
            entries_run(es, txs.drop_last(), parent, avail_number),
            txs.last(),
            parent,
            avail_number,
        )
    }
}

/// The mathematical content of an account map.
pub open spec fn map_abs(m: AccountMap) -> Map<Seq<u8>, AccountStateView> {
    Map::new(|k: Seq<u8>| m.spec_get(k) is Some, |k: Seq<u8>| m.spec_get(k)->Some_0@)
}

/// The values of a transaction sequence.
pub open spec fn tx_views_of(txs: Seq<TransactionZKVM>) -> Seq<TxView> {
    txs.map_values(|t: TransactionZKVM| t@)
}

/// The values of a sequence of submitted transactions.
pub open spec fn tx_v2_views(txs: Seq<TransactionV2>) -> Seq<TxView> {
    txs.map_values(|t: TransactionV2| t@)
}

/// The pre-state a batch reads, as an entry list: one write per
/// transaction, in order, each holding the account at the latest
/// committed version (the zero account where absent). A key written
/// twice keeps the position of its first appearance.
pub open spec fn gather_entries(vm: VmState, txs: Seq<TxView>) -> Seq<(Seq<u8>, AccountStateView)>
    decreases txs.len(),
{
    if txs.len() == 0 {
        Seq::<(Seq<u8>, AccountStateView)>::empty()
    } else {
        let key = tx_key(txs.last().params);
        vset(
            gather_entries(vm, txs.drop_last()),
            key,
            (match vm.find_at(vm.latest(), key) {
                Some(a) => a@,
                None => zero_account_view(),
            }),
        )
    }
}

/// The pre-state a batch reads: exactly the keys its transactions
/// address, each at the latest committed version, defaulting to the zero
/// account.
pub open spec fn batch_pre(vm: VmState, txs: Seq<TxView>) -> Map<Seq<u8>, AccountStateView> {
    Map::new(
        |k: Seq<u8>| exists|j: int| 0 <= j < txs.len() && tx_key(txs[j].params) == k,
        |k: Seq<u8>|
            match vm.find_at(vm.latest(), k) {
                Some(a) => a@,
                None => zero_account_view(),
            },
    )
}

/// The state transition function. It holds no state of its own: the whole
/// batch outcome is a function of its four inputs.
pub struct StateTransitionFunction {}

impl StateTransitionFunction {
    pub fn new() -> (r: Self) {
        StateTransitionFunction {  }
    }

    /// Applies one transaction to the accumulating post-state; returns
    /// whether it succeeded.
    #[verifier::rlimit(100)]
    #[verifier::spinoff_prover]
    fn apply_one(
        &self,
        tx: &TransactionZKVM,
        post: &mut AccountMap,
        parent_h: &H256,
        number: u32,
    ) -> (ok: bool)
        requires
            old(post).wf(),
        ensures
            final(post).wf(),
            ({
                let step = stf_apply_tx(map_abs(*old(post)), tx@, parent_h@, number);
                map_abs(*final(post)) == step.0 && ok == step.1
            }),
            ev(final(post).entries_seq()) == entries_step(
                ev(old(post).entries_seq()),
                tx@,
                parent_h@,
                number,
            ),
    {
        let ghost st_pre = map_abs(*old(post));
        let ghost txv = tx@;
        let ghost parent = parent_h@;
        let key: H256 = match &tx.params {
            TxParamsV2::SubmitProof(sp) => sp.app_id.as_h256(),
            TxParamsV2::InitAccount(ia) => ia.app_id.as_h256(),
        };
        proof {
            assert(key@ == tx_key(txv.params));
        }
        let account: AccountState = match post.get(&key) {
            Some(a) => a,
            None => AccountState::zero(),
        };
        proof {
            assert(account@ == state_account(st_pre, key@));
            crate::state::lemma_vfind_ev(old(post).entries_seq(), key@);
            assert(account@ == (match vfind(ev(old(post).entries_seq()), key@) {
                Some(a) => a,
                None => zero_account_view(),
            }));
        }
        match &tx.params {
            TxParamsV2::InitAccount(ia) => {
                if account.is_zero() {
                    proof {
                        assert(account@ == zero_account_view());
                    }
                    let created = AccountState {
                        statement: ia.statement,
                        state_root: H256::zero(),
                        last_proof_height: 0,
                        start_nexus_hash: *parent_h,
                        height: 0,
                    };
                    post.set(key, created);
                    proof {
                        assert(init_outcome(account@, ia.statement@, parent).0 == Some(created@));
                        assert(map_abs(*post) =~= st_pre.insert(key@, created@));
                    }
                    true
                } else if account.statement == ia.statement {
                    proof {
                        assert(!account_view_is_zero(account@));
                        assert(init_outcome(account@, ia.statement@, parent).0 == Some(account@));
                        assert(map_abs(*post) =~= st_pre.insert(key@, account@));
                        crate::state::lemma_vset_same(ev(old(post).entries_seq()), key@);
                    }
                    true
                } else {
                    proof {
                        assert(!account_view_is_zero(account@));
                        assert(init_outcome(account@, ia.statement@, parent).0 is None);
                    }
                    false
                }
            },
            TxParamsV2::SubmitProof(sp) => {
                match decode_rollup_public_inputs(&sp.proof.0, 0) {
                    Ok((pi, n)) => {
                        if n != sp.proof.0.len() {
                            false
                        } else if account.is_zero() {
                            proof {
                                assert(account@ == zero_account_view());
                            }
                            false
                        } else if !(pi.img_id == account.statement) {
                            false
                        } else if pi.height <= account.height {
                            false
                        } else if !(pi.start_nexus_hash == account.start_nexus_hash) {
                            false
                        } else {
                            let advanced = AccountState {
                                statement: account.statement,
                                state_root: pi.state_root,
                                last_proof_height: number,
                                start_nexus_hash: account.start_nexus_hash,
                                height: pi.height,
                            };
                            post.set(key, advanced);
                            proof {
                                assert(!account_view_is_zero(account@));
                                assert(submit_outcome(account@, sp.proof@, number).0 == Some(
                                    advanced@,
                                ));
                                assert(map_abs(*post) =~= st_pre.insert(key@, advanced@));
                            }
                            true
                        }
                    },
                    Err(_) => false,
                }
            },
        }
    }

    /// Runs a batch over the pre-state: returns the post image of every
    /// touched account and, per transaction in order, its canonical hash
    /// and whether it succeeded.
    #[verifier::rlimit(100)]
    #[verifier::spinoff_prover]
    pub fn execute_batch_with_results(
        &self,
        avail_header: &AvailHeader,
        old_nexus_headers: &HeaderStore,
        txs: &Vec<TransactionZKVM>,
        pre_state: &AccountMap,
    ) -> (r: Result<(AccountMap, Vec<(H256, bool)>), NexusError>)
        requires
            pre_state.wf(),
            forall|j: int| 0 <= j < txs@.len() ==> tx_encodable((#[trigger] txs@[j])@),
        ensures
            r is Ok,
            r matches Ok(t) ==> t.0.wf() && map_abs(t.0) == stf_run(
                map_abs(*pre_state),
                tx_views_of(txs@),
                parent_hash_view(old_nexus_headers.headers()),
                avail_header.number,
            ).0,
            r matches Ok(t) ==> t.1@.len() == txs@.len() && forall|j: int|
                0 <= j < txs@.len() ==> (#[trigger] t.1@[j]).0@ == tx_hash_of(txs@[j]@) && t.1@[
                    j].1 == stf_run(
                    map_abs(*pre_state),
                    tx_views_of(txs@),
                    parent_hash_view(old_nexus_headers.headers()),
                    avail_header.number,
                ).1[j],
            r matches Ok(t) ==> ev(t.0.entries_seq()) == entries_run(
                ev(pre_state.entries_seq()),
                tx_views_of(txs@),
                parent_hash_view(old_nexus_headers.headers()),
                avail_header.number,
            ),
    {
        let parent_h: H256 = match old_nexus_headers.first() {
            Some(h) => h.hash(),
            None => H256::zero(),
        };
        let ghost parent = parent_hash_view(old_nexus_headers.headers());
        proof {
            assert(parent_h@ == parent);
        }
        let number = avail_header.number;
        let ghost st0 = map_abs(*pre_state);
        let mut post = pre_state.duplicate();
        let mut results: Vec<(H256, bool)> = Vec::new();
        proof {
            assert(map_abs(post) =~= st0);
            assert(tx_views_of(txs@).take(0) =~= Seq::<TxView>::empty());
            assert(ev(post.entries_seq()) =~= ev(pre_state.entries_seq()));
        }
        let mut i: usize = 0;
        while i < txs.len()
            invariant
                i <= txs@.len(),
                forall|j: int| 0 <= j < txs@.len() ==> tx_encodable((#[trigger] txs@[j])@),
                st0 == map_abs(*pre_state),
                parent == parent_hash_view(old_nexus_headers.headers()),
                parent_h@ == parent,
                number == avail_header.number,
                post.wf(),
                map_abs(post) == stf_run(st0, tx_views_of(txs@).take(i as int), parent, number).0,
                ev(post.entries_seq()) == entries_run(
                    ev(pre_state.entries_seq()),
                    tx_views_of(txs@).take(i as int),
                    parent,
                    number,
                ),
                results@.len() == i,
                forall|j: int|
                    0 <= j < i ==> (#[trigger] results@[j]).0@ == tx_hash_of(txs@[j]@)
                        && results@[j].1 == stf_run(
                        st0,
                        tx_views_of(txs@).take(i as int),
                        parent,
                        number,
                    ).1[j],
            decreases txs@.len() - i,
        {
            let tx_hash = txs[i].hash();
            let ok = self.apply_one(&txs[i], &mut post, &parent_h, number);
            results.push((tx_hash, ok));
            proof {
                assert(tx_views_of(txs@)[i as int] == txs@[i as int]@);
                lemma_stf_run_step(st0, tx_views_of(txs@), i as int, parent, number);
                assert(tx_views_of(txs@).take(i + 1 as int).drop_last() =~= tx_views_of(
                    txs@,
                ).take(i as int));
                assert(tx_views_of(txs@).take(i + 1 as int).last() == txs@[i as int]@);
            }
            i = i + 1;
        }
        proof {
            assert(tx_views_of(txs@).take(txs@.len() as int) =~= tx_views_of(txs@));
        }
        Ok((post, results))
    }
}


/// The height a state holds for a key; an absent account counts as
/// height zero.
pub open spec fn state_height(st: Map<Seq<u8>, AccountStateView>, key: Seq<u8>) -> u32 {
    state_account(st, key).height
}

/// One transaction never lowers an account's height, and a successful
/// proof submission for the account strictly raises it.
pub proof fn lemma_apply_tx_height(
    st: Map<Seq<u8>, AccountStateView>,
    tx: TxView,
    parent: Seq<u8>,
    avail_number: u32,
    key: Seq<u8>,
)
    ensures
        state_height(stf_apply_tx(st, tx, parent, avail_number).0, key) >= state_height(st, key),
        tx.params is SubmitProof && tx_key(tx.params) == key && stf_apply_tx(
            st,
            tx,
            parent,
            avail_number,
        ).1 ==> state_height(stf_apply_tx(st, tx, parent, avail_number).0, key) > state_height(
            st,
            key,
        ),
{
    let k = tx_key(tx.params);
    let account = state_account(st, k);
    if tx.params is InitAccount && account_view_is_zero(account) {
        assert(account.height == 0);
    }
}

/// Across a whole batch, heights never decrease; and where the batch
/// holds a successful proof submission for an account, its height after
/// the batch is strictly above its height before.
pub proof fn lemma_stf_run_height_monotone(
    st: Map<Seq<u8>, AccountStateView>,
    txs: Seq<TxView>,
    parent: Seq<u8>,
    avail_number: u32,
    key: Seq<u8>,
)
    ensures
        state_height(stf_run(st, txs, parent, avail_number).0, key) >= state_height(st, key),
        forall|j: int|
            0 <= j < txs.len() && (#[trigger] txs[j]).params is SubmitProof && tx_key(txs[j].params)
                == key && stf_run(st, txs, parent, avail_number).1[j] ==> state_height(
                stf_run(st, txs, parent, avail_number).0,
                key,
            ) > state_height(st, key),
    decreases txs.len(),
{
    if txs.len() > 0 {
        let step = stf_apply_tx(st, txs[0], parent, avail_number);
        lemma_apply_tx_height(st, txs[0], parent, avail_number, key);
        lemma_stf_run_height_monotone(step.0, txs.drop_first(), parent, avail_number, key);
        let whole = stf_run(st, txs, parent, avail_number);
        let rest = stf_run(step.0, txs.drop_first(), parent, avail_number);
        lemma_stf_run_len(step.0, txs.drop_first(), parent, avail_number);
        assert forall|j: int|
            0 <= j < txs.len() && (#[trigger] txs[j]).params is SubmitProof && tx_key(txs[j].params)
                == key && whole.1[j] implies state_height(whole.0, key) > state_height(st, key) by {
            if j == 0 {
                assert(whole.1[0] == step.1);
                assert(state_height(rest.0, key) >= state_height(step.0, key));
            } else {
                assert(txs.drop_first()[j - 1] == txs[j]);
                assert(whole.1[j] == rest.1[j - 1]);
            }
        }
    }
}

/// Submitting the same account initialization twice is idempotent: the
/// first succeeds, the second is a success that changes nothing. A fully
/// zero statement is left out: it creates an account indistinguishable
/// from an absent one.
pub proof fn lemma_init_idempotent(
    st: Map<Seq<u8>, AccountStateView>,
    tx: TxView,
    parent1: Seq<u8>,
    parent2: Seq<u8>,
    n1: u32,
    n2: u32,
)
    requires
        tx.params matches TxParamsView::InitAccount { statement, .. } && statement != Seq::<
            u32,
        >::new(8, |i: int| 0u32),
    ensures
        ({
            let first = stf_apply_tx(st, tx, parent1, n1);
            let second = stf_apply_tx(first.0, tx, parent2, n2);
            first.1 ==> (second.1 && second.0 == first.0)
        }),
{
    let key = tx_key(tx.params);
    let first = stf_apply_tx(st, tx, parent1, n1);
    let second = stf_apply_tx(first.0, tx, parent2, n2);
    if first.1 {
        let account = state_account(st, key);
        match tx.params {
            TxParamsView::InitAccount { statement, .. } => {
                let account1 = state_account(first.0, key);
                assert(account1.statement == statement);
                assert(!account_view_is_zero(account1));
                assert(second.0 =~= first.0.insert(key, account1));
                assert(second.0 =~= first.0);
            },
            TxParamsView::SubmitProof { .. } => {},
        }
    }
}

/// A proof submission at the account's current height fails; one exactly
/// one height above it, with matching statement and start hash, succeeds
/// and raises the account to that height.
pub proof fn lemma_submit_height_boundary(
    account: AccountStateView,
    proof_bytes: Seq<u8>,
    pi: crate::types::RollupPublicInputsView,
    avail_number: u32,
)
    requires
        dec_rollup_public_inputs(proof_bytes, 0) == Some((pi, proof_bytes.len() as int)),
        !account_view_is_zero(account),
        pi.img_id == account.statement,
        pi.start_nexus_hash == account.start_nexus_hash,
    ensures
        pi.height == account.height ==> !submit_outcome(account, proof_bytes, avail_number).1,
        pi.height == account.height + 1 ==> ({
            let outcome = submit_outcome(account, proof_bytes, avail_number);
            outcome.1 && (outcome.0 matches Some(a) && a.height == account.height + 1
                && a.state_root == pi.state_root)
        }),
{
}

/// Replaying the recorded input tuple through the state transition
/// function yields identical output: the batch outcome is a function of
/// the inputs alone.
pub proof fn lemma_stf_replay(
    first: (Map<Seq<u8>, AccountStateView>, Seq<bool>),
    second: (Map<Seq<u8>, AccountStateView>, Seq<bool>),
    st: Map<Seq<u8>, AccountStateView>,
    txs: Seq<TxView>,
    parent: Seq<u8>,
    avail_number: u32,
)
    requires
        first == stf_run(st, txs, parent, avail_number),
        second == stf_run(st, txs, parent, avail_number),
    ensures
        first == second,
{
}

} // verus!
