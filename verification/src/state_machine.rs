use vstd::prelude::*;
use crate::avail::AvailHeader;
use crate::codec::tx_encodable;
use crate::state::{
    AccountMap, NodeBatch, StateUpdate, TreeUpdateBatch, VmState, ev, merkle_root_of, uv, vapply,
};
use crate::stf::{
    StateTransitionFunction, batch_pre, entries_run, gather_entries, parent_hash_view, stf_run,
    tx_v2_views, tx_views_of, zero_account_view,
};
use crate::types::{
    AccountState, AccountStateView, H256, HeaderStore, NexusError, TransactionV2, TransactionZKVM,
    TxParamsV2,
};

verus! {

/// The value staged for a key after a batch: a zero account is a removal,
/// an untouched key keeps its prior value.
pub open spec fn staged_value(
    run0: Map<Seq<u8>, AccountStateView>,
    vm: VmState,
    k: Seq<u8>,
) -> Option<AccountStateView> {
    if run0.contains_key(k) {
        if run0[k] == zero_account_view() {
            None
        } else {
            Some(run0[k])
        }
    } else {
        match vm.find_at(vm.latest(), k) {
            Some(a) => Some(a@),
            None => None,
        }
    }
}

/// The update list a batch stages, at view level: the post image of
/// every touched account in pre-state order, a zero account becoming a
/// removal. Together with `vapply` over the committed entries this fixes
/// the staged entry sequence, and hence the post state root, as a
/// function of the inputs alone.
pub open spec fn staged_updates_view(
    vm: VmState,
    txs: Seq<crate::types::TxView>,
    parent: Seq<u8>,
    avail_number: u32,
) -> Seq<(Seq<u8>, Option<AccountStateView>)> {
    entries_run(gather_entries(vm, txs), txs, parent, avail_number).map_values(
        |e: (Seq<u8>, AccountStateView)|
            (
                e.0,
                if e.1 == zero_account_view() {
                    None
                } else {
                    Some(e.1)
                },
            ),
    )
}

/// The state machine: the transition function paired with the versioned
/// store it reads from and stages against.
pub struct StateMachine {
    stf: StateTransitionFunction,
    state: VmState,
}

impl StateMachine {
    /// The underlying versioned store.
    pub closed spec fn vm(self) -> VmState {
        self.state
    }

    pub open spec fn wf(self) -> bool {
        self.vm().wf()
    }

    pub fn new(state: VmState) -> (r: Self)
        ensures
            r.vm() == state,
    {
        StateMachine { stf: StateTransitionFunction::new(), state }
    }

    pub fn state(&self) -> (r: &VmState)
        ensures
            r == self.vm(),
    {
        &self.state
    }

    /// Commits a staged node batch, first checking that its root equals
    /// the header's state root: a mismatch is a fatal fault, reported
    /// before anything moves, so a failed commit leaves the store as it
    /// stands.
    pub fn commit_state(&mut self, state_root: &H256, node_batch: &NodeBatch) -> (r: Result<
        (),
        NexusError,
    >)
        requires
            old(self).wf(),
            node_batch.wf(),
            old(self).vm().latest() < u64::MAX,
        ensures
            final(self).wf(),
            r is Ok <==> (node_batch.spec_version() == old(self).vm().latest() + 1
                && merkle_root_of(node_batch.post_entries()) == state_root@),
            r is Ok ==> final(self).vm().latest() == old(self).vm().latest() + 1 && (forall|
                k: Seq<u8>,
            |
                final(self).vm().find_at(final(self).vm().latest(), k)
                    == node_batch.post_find(k)) && final(self).vm().root_at(
                final(self).vm().latest(),
            ) == merkle_root_of(node_batch.post_entries()),
            r is Err ==> final(self).vm().snapshots() == old(self).vm().snapshots()
                && final(self).vm().spec_staged_version() == old(self).vm().spec_staged_version(),
    {
        let staged_root = node_batch.post_root();
        if !(staged_root == *state_root) {
            return Err(NexusError::StateRootMismatch);
        }
        match self.state.commit(node_batch) {
            Ok(()) => {},
            Err(e) => {
                return Err(e);
            },
        }
        Ok(())
    }

    /// Builds the pre-state map the batch reads: one entry per
    /// transaction key, holding the account at the latest committed
    /// version or the zero account.
    #[verifier::rlimit(100)]
    #[verifier::spinoff_prover]
    fn gather_pre_state(&self, txs: &Vec<TransactionV2>) -> (r: AccountMap)
        requires
            self.wf(),
        ensures
            r.wf(),
            crate::stf::map_abs(r) == batch_pre(self.vm(), tx_v2_views(txs@)),
            ev(r.entries_seq()) == gather_entries(self.vm(), tx_v2_views(txs@)),
    {
        let mut pre = AccountMap::new();
        let prev: u64 = match self.state.get_version(true) {
            Ok(Some(i)) => i,
            _ => 0,
        };
        proof {
            assert(ev(pre.entries_seq()) =~= gather_entries(self.vm(), tx_v2_views(txs@).take(0)));
        }
        let mut i: usize = 0;
        while i < txs.len()
            invariant
                i <= txs@.len(),
                self.wf(),
                prev == self.vm().latest(),
                pre.wf(),
                forall|j: int|
                    0 <= j < i ==> {
                        let kj = crate::stf::tx_key((#[trigger] txs@[j])@.params);
                        pre.spec_get(kj) matches Some(a) && a@ == (
                        match self.vm().find_at(self.vm().latest(), kj) {
                            Some(b) => b@,
                            None => zero_account_view(),
                        })
                    },
                forall|k: Seq<u8>|
                    #[trigger] pre.spec_get(k) is Some ==> exists|j: int|
                        0 <= j < i && crate::stf::tx_key((#[trigger] txs@[j])@.params) == k,
                ev(pre.entries_seq()) == gather_entries(
                    self.vm(),
                    tx_v2_views(txs@).take(i as int),
                ),
            decreases txs@.len() - i,
        {
            let key: H256 = match &txs[i].params {
                TxParamsV2::SubmitProof(sp) => sp.app_id.as_h256(),
                TxParamsV2::InitAccount(ia) => ia.app_id.as_h256(),
            };
            proof {
                assert(key@ == crate::stf::tx_key(txs@[i as int]@.params));
            }
            let account: AccountState = match self.state.get(&key, prev) {
                Ok(Some(a)) => a,
                _ => AccountState::zero(),
            };
            pre.set(key, account);
            proof {
                assert(account@ == (match self.vm().find_at(self.vm().latest(), key@) {
                    Some(a) => a@,
                    None => zero_account_view(),
                }));
                assert(tx_v2_views(txs@).take(i + 1 as int).drop_last() =~= tx_v2_views(
                    txs@,
                ).take(i as int));
                assert(tx_v2_views(txs@).take(i + 1 as int).last() == txs@[i as int]@);
            }
            i = i + 1;
        }
        proof {
            let m1 = crate::stf::map_abs(pre);
            let m2 = batch_pre(self.vm(), tx_v2_views(txs@));
            assert forall|k: Seq<u8>| #[trigger] m1.contains_key(k) implies m2.contains_key(k) by {
                let j = choose|j: int|
                    0 <= j < txs@.len() && crate::stf::tx_key((#[trigger] txs@[j])@.params) == k;
                assert(tx_v2_views(txs@)[j] == txs@[j]@);
            }
            assert forall|k: Seq<u8>| #[trigger] m2.contains_key(k) implies m1.contains_key(k)
                && m1[k] == m2[k] by {
                let j = choose|j: int|
                    0 <= j < tx_v2_views(txs@).len() && crate::stf::tx_key(
                        (#[trigger] tx_v2_views(txs@)[j]).params,
                    ) == k;
                assert(tx_v2_views(txs@)[j] == txs@[j]@);
                assert(crate::stf::tx_key(txs@[j]@.params) == k);
            }
            assert(m1 =~= m2);
            assert(tx_v2_views(txs@).take(txs@.len() as int) =~= tx_v2_views(txs@));
        }
        pre
    }

    /// Runs a batch: reads the pre-state, applies the transition
    /// function, and stages the touched accounts at the next version.
    /// Nothing is committed; an empty batch stages nothing.
    #[verifier::rlimit(100)]
    #[verifier::spinoff_prover]
    pub fn execute_batch(
        &mut self,
        avail_header: &AvailHeader,
        old_nexus_headers: &HeaderStore,
        txs: &Vec<TransactionV2>,
    ) -> (r: Result<(Option<TreeUpdateBatch>, StateUpdate, Vec<(H256, bool)>), NexusError>)
        requires
            old(self).wf(),
            old(self).vm().latest() < u64::MAX,
            forall|j: int| 0 <= j < txs@.len() ==> tx_encodable((#[trigger] txs@[j])@),
        ensures
            final(self).wf(),
            final(self).vm().snapshots() == old(self).vm().snapshots(),
            r is Ok,
            r matches Ok(t) ==> (txs@.len() == 0 ==> t.0 is None && t.1.pre_state@.len() == 0),
            r matches Ok(t) ==> (t.0 matches Some(batch) ==> ev(batch.node_batch.post_entries())
                == vapply(
                ev(old(self).vm().entries_at(old(self).vm().latest())),
                staged_updates_view(
                    old(self).vm(),
                    tx_v2_views(txs@),
                    parent_hash_view(old_nexus_headers.headers()),
                    avail_header.number,
                ),
            )),
            r matches Ok(t) ==> (t.0 is Some ==> ({
                let staged = staged_updates_view(
                    old(self).vm(),
                    tx_v2_views(txs@),
                    parent_hash_view(old_nexus_headers.headers()),
                    avail_header.number,
                );
                t.1.pre_state@.len() == staged.len() && (forall|j: int|
                    0 <= j < staged.len() ==> (#[trigger] t.1.pre_state@[j]).0@ == staged[j].0
                        && (match t.1.pre_state@[j].1.0 {
                        Some(a) => Some(a@),
                        None => None::<AccountStateView>,
                    }) == (match old(self).vm().find_at(old(self).vm().latest(), staged[j].0) {
                        Some(a) => Some(a@),
                        None => None::<AccountStateView>,
                    }) && t.1.pre_state@[j].1.1@ == (if old(self).vm().find_at(
                        old(self).vm().latest(),
                        staged[j].0,
                    ) is Some {
                        crate::state::spec_path(
                            old(self).vm().entries_at(old(self).vm().latest()),
                            0,
                            old(self).vm().entries_at(old(self).vm().latest()).len() as int,
                            crate::state::find_index(
                                old(self).vm().entries_at(old(self).vm().latest()),
                                staged[j].0,
                            ),
                        )
                    } else {
                        Seq::<(bool, Seq<u8>)>::empty()
                    }))
            })),
            r matches Ok(t) ==> ({
                let run = stf_run(
                    batch_pre(old(self).vm(), tx_v2_views(txs@)),
                    tx_v2_views(txs@),
                    parent_hash_view(old_nexus_headers.headers()),
                    avail_header.number,
                );
                &&& t.2@.len() == txs@.len()
                &&& forall|j: int|
                    0 <= j < txs@.len() ==> (#[trigger] t.2@[j]).0@ == crate::codec::tx_hash_of(
                        txs@[j]@,
                    ) && t.2@[j].1 == run.1[j]
                &&& t.0 matches Some(batch) ==> batch.node_batch.spec_version() == old(
                    self,
                ).vm().latest() + 1 && batch.node_batch.wf() && (forall|k: Seq<u8>| (
                match #[trigger] batch.node_batch.post_find(k) {
                    Some(a) => Some(a@),
                    None => None,
                }) == staged_value(run.0, old(self).vm(), k)) && t.1.post_state_root@
                    == merkle_root_of(batch.node_batch.post_entries())
                &&& t.1.pre_state_root@ == old(self).vm().root_at(old(self).vm().latest())
                &&& t.0 is None ==> t.1.post_state_root@ == old(self).vm().root_at(
                    old(self).vm().latest(),
                )
                &&& t.0 is None ==> run.0.dom() =~= Set::<Seq<u8>>::empty()
            }),
    {
        let prev: u64 = match self.state.get_version(true) {
            Ok(Some(i)) => i,
            _ => 0,
        };
        let pre_state = self.gather_pre_state(txs);
        let mut zkvm_txs: Vec<TransactionZKVM> = Vec::new();
        let mut i: usize = 0;
        while i < txs.len()
            invariant
                i <= txs@.len(),
                forall|j: int| 0 <= j < txs@.len() ==> tx_encodable((#[trigger] txs@[j])@),
                zkvm_txs@.len() == i,
                forall|j: int| 0 <= j < i ==> (#[trigger] zkvm_txs@[j])@ == txs@[j]@,
            decreases txs@.len() - i,
        {
            let tx = &txs[i];
            zkvm_txs.push(TransactionZKVM { signature: tx.signature, params: tx.params.duplicate() });
            i = i + 1;
        }
        proof {
            assert(tx_views_of(zkvm_txs@) =~= tx_v2_views(txs@));
        }
        let (post_map, tx_result) = match self.stf.execute_batch_with_results(
            avail_header,
            old_nexus_headers,
            &zkvm_txs,
            &pre_state,
        ) {
            Ok(t) => t,
            Err(e) => {
                return Err(e);
            },
        };
        if post_map.len() > 0 {
            proof {
                // An empty batch touches no key, so nothing can be staged.
                if txs@.len() == 0 {
                    let entries = post_map.entries_seq();
                    crate::state::lemma_seq_find_at(entries, 0);
                    assert(crate::stf::map_abs(post_map).contains_key(entries[0].0@));
                    assert(tx_v2_views(txs@).len() == 0);
                    assert(!batch_pre(old(self).vm(), tx_v2_views(txs@)).contains_key(
                        entries[0].0@,
                    ));
                    assert(false);
                }
            }
            let version = prev + 1;
            let mut updates: Vec<(H256, Option<AccountState>)> = Vec::new();
            let mut j: usize = 0;
            while j < post_map.len()
                invariant
                    j <= post_map.entries_seq().len(),
                    post_map.wf(),
                    updates@.len() == j,
                    forall|m: int|
                        0 <= m < j ==> (#[trigger] updates@[m]).0 == post_map.entries_seq()[m].0
                            && updates@[m].1 == (if post_map.entries_seq()[m].1@
                            == zero_account_view() {
                            None::<AccountState>
                        } else {
                            Some(post_map.entries_seq()[m].1)
                        }),
                decreases post_map.entries_seq().len() - j,
            {
                let (key, acct) = post_map.entry_at(j);
                if acct.is_zero() {
                    proof {
                        assert(acct@ == zero_account_view());
                    }
                    updates.push((key, None));
                } else {
                    proof {
                        assert(acct@ != zero_account_view());
                    }
                    updates.push((key, Some(acct)));
                }
                j = j + 1;
            }
            let (batch, state_update) = match self.state.update_set(updates, version) {
                Ok(t) => t,
                Err(e) => {
                    return Err(e);
                },
            };
            proof {
                let views = tx_v2_views(txs@);
                let parent = parent_hash_view(old_nexus_headers.headers());
                let es_run = entries_run(
                    gather_entries(old(self).vm(), views),
                    views,
                    parent,
                    avail_header.number,
                );
                assert(ev(post_map.entries_seq()) == es_run);
                assert forall|m: int| 0 <= m < updates@.len() implies #[trigger] uv(updates@)[m]
                    == staged_updates_view(
                    old(self).vm(),
                    views,
                    parent,
                    avail_header.number,
                )[m] by {
                    assert(ev(post_map.entries_seq())[m] == (
                        post_map.entries_seq()[m].0@,
                        post_map.entries_seq()[m].1@,
                    ));
                }
                assert(uv(updates@) =~= staged_updates_view(
                    old(self).vm(),
                    views,
                    parent,
                    avail_header.number,
                ));
                let run0 = crate::stf::map_abs(post_map);
                let entries = post_map.entries_seq();
                assert forall|k: Seq<u8>| (match #[trigger] batch.node_batch.post_find(k) {
                    Some(a) => Some(a@),
                    None => None,
                }) == staged_value(run0, self.vm(), k) by {
                    crate::state::lemma_seq_find_exists(entries, k);
                    if run0.contains_key(k) {
                        let m = choose|m: int|
                            0 <= m < entries.len() && (#[trigger] entries[m]).0@ == k;
                        crate::state::lemma_seq_find_at(entries, m);
                        assert(run0[k] == entries[m].1@);
                        assert(updates@[m].0 == entries[m].0);
                        assert(batch.node_batch.post_find(updates@[m].0@) == updates@[m].1);
                    } else {
                        assert(post_map.spec_get(k) is None);
                        assert forall|j: int| 0 <= j < updates@.len() implies (
                        #[trigger] updates@[j]).0@ != k by {
                            assert(updates@[j].0 == entries[j].0);
                        }
                        assert(batch.node_batch.post_find(k) == self.vm().find_at(
                            self.vm().latest(),
                            k,
                        ));
                    }
                }
            }
            match self.state.update_version(version) {
                Ok(()) => {},
                Err(e) => {
                    return Err(e);
                },
            }
            Ok((Some(batch), state_update, tx_result))
        } else {
            let root = match self.state.get_root(prev) {
                Ok(h) => h,
                Err(e) => {
                    return Err(e);
                },
            };
            proof {
                assert(crate::stf::map_abs(post_map).dom() =~= Set::<Seq<u8>>::empty());
            }
            Ok(
                (
                    None,
                    StateUpdate {
                        pre_state_root: root,
                        post_state_root: root,
                        pre_state: Vec::new(),
                    },
                    tx_result,
                ),
            )
        }
    }
}

} // verus!
