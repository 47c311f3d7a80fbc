use vstd::prelude::*;
use crate::hash::sha256_of;

verus! {

/// A 32-byte digest, the basic identifier of the system: block hashes,
/// state roots, account keys and statement digests are all `H256` values.
#[derive(Clone, Copy, Debug)]
pub struct H256(pub [u8; 32]);

/// The all-zero 32-byte sequence: genesis parent hash, empty state root,
/// and the value of an untouched account key.
pub open spec fn zero_h256_seq() -> Seq<u8> {
    Seq::<u8>::new(32, |i: int| 0u8)
}

impl H256 {
    pub open spec fn view(self) -> Seq<u8> {
        self.0@
    }

    pub fn zero() -> (r: H256)
        ensures
            r@ == zero_h256_seq(),
    {
        let r = H256([0u8; 32]);
        proof {
            assert(r.0@ =~= zero_h256_seq());
        }
        r
    }

    pub fn from_bytes(bytes: [u8; 32]) -> (r: H256)
        ensures
            r@ == bytes@,
    {
        H256(bytes)
    }

    pub fn as_bytes(&self) -> (r: &[u8; 32])
        ensures
            r@ == self@,
    {
        &self.0
    }

    pub open spec fn spec_is_zero(self) -> bool {
        self@ == zero_h256_seq()
    }

    pub fn is_zero(&self) -> (r: bool)
        ensures
            r == self.spec_is_zero(),
    {
        let mut i: usize = 0;
        while i < 32
            invariant
                i <= 32,
                forall|j: int| 0 <= j < i ==> self.0@[j] == 0u8,
            decreases 32 - i,
        {
            if self.0[i] != 0 {
                proof {
                    assert(self@[i as int] != zero_h256_seq()[i as int]);
                }
                return false;
            }
            i = i + 1;
        }
        proof {
            assert(self.0@ =~= zero_h256_seq());
        }
        true
    }
}

impl PartialEq for H256 {
    fn eq(&self, other: &H256) -> (r: bool) {
        let mut i: usize = 0;
        while i < 32
            invariant
                i <= 32,
                forall|j: int| 0 <= j < i ==> self.0@[j] == other.0@[j],
            decreases 32 - i,
        {
            if self.0[i] != other.0[i] {
                return false;
            }
            i = i + 1;
        }
        proof {
            assert(self.0@ =~= other.0@);
        }
        true
    }
}

impl Eq for H256 {}

impl vstd::std_specs::cmp::PartialEqSpecImpl for H256 {
    open spec fn obeys_eq_spec() -> bool {
        true
    }

    open spec fn eq_spec(&self, other: &H256) -> bool {
        self.0@ == other.0@
    }
}

/// A rollup's numeric application id, as registered on the DA chain.
#[derive(Clone, Copy, Debug, PartialEq, Eq, Structural)]
pub struct AppId(pub u32);

/// The big-endian byte encoding of a 32-bit integer.
pub open spec fn u32_be_bytes(v: u32) -> Seq<u8> {
    seq![
        (v >> 24) as u8,
        (v >> 16) as u8,
        (v >> 8) as u8,
        v as u8,
    ]
}

/// The `H256`-sized account key of a rollup, derived from its `AppId` by a
/// fixed SHA-256 over the big-endian encoding of the id.
#[derive(Clone, Copy, Debug)]
pub struct AppAccountId(pub [u8; 32]);

impl AppAccountId {
    pub open spec fn view(self) -> Seq<u8> {
        self.0@
    }

    /// The account key of `value`: SHA-256 over its big-endian bytes.
    pub fn from(value: AppId) -> (r: Self)
        ensures
            r@ == sha256_of(u32_be_bytes(value.0)),
    {
        let mut bytes: Vec<u8> = Vec::new();
        bytes.push((value.0 >> 24) as u8);
        bytes.push((value.0 >> 16) as u8);
        bytes.push((value.0 >> 8) as u8);
        bytes.push(value.0 as u8);
        proof {
            assert(bytes@ =~= u32_be_bytes(value.0));
        }
        let h = crate::hash::sha256_digest(&bytes);
        AppAccountId(h.0)
    }

    pub fn from_h256(value: H256) -> (r: Self)
        ensures
            r@ == value@,
    {
        AppAccountId(value.0)
    }

    pub fn as_h256(&self) -> (r: H256)
        ensures
            r@ == self@,
    {
        H256(self.0)
    }
}

/// A 64-byte transaction signature, opaque to the core: the default
/// signature predicate accepts every value.
#[derive(Clone, Copy, Debug)]
pub struct TxSignature(pub [u8; 64]);

impl TxSignature {
    pub open spec fn view(self) -> Seq<u8> {
        self.0@
    }
}

/// The 32-byte identifier of a rollup's verifier program, carried as eight
/// 32-bit words.
#[derive(Clone, Copy, Debug)]
pub struct StatementDigest(pub [u32; 8]);

impl StatementDigest {
    pub open spec fn view(self) -> Seq<u32> {
        self.0@
    }

    pub fn zero() -> (r: Self)
        ensures
            r@ == Seq::<u32>::new(8, |i: int| 0u32),
    {
        let r = StatementDigest([0u32; 8]);
        proof {
            assert(r.0@ =~= Seq::<u32>::new(8, |i: int| 0u32));
        }
        r
    }

    pub open spec fn spec_is_zero(self) -> bool {
        self@ == Seq::<u32>::new(8, |i: int| 0u32)
    }

    pub fn is_zero(&self) -> (r: bool)
        ensures
            r == self.spec_is_zero(),
    {
        let mut i: usize = 0;
        while i < 8
            invariant
                i <= 8,
                forall|j: int| 0 <= j < i ==> self.0@[j] == 0u32,
            decreases 8 - i,
        {
            if self.0[i] != 0 {
                proof {
                    assert(self@[i as int] != Seq::<u32>::new(8, |k: int| 0u32)[i as int]);
                }
                return false;
            }
            i = i + 1;
        }
        proof {
            assert(self.0@ =~= Seq::<u32>::new(8, |i: int| 0u32));
        }
        true
    }
}

impl PartialEq for StatementDigest {
    fn eq(&self, other: &StatementDigest) -> (r: bool) {
        let mut i: usize = 0;
        while i < 8
            invariant
                i <= 8,
                forall|j: int| 0 <= j < i ==> self.0@[j] == other.0@[j],
            decreases 8 - i,
        {
            if self.0[i] != other.0[i] {
                return false;
            }
            i = i + 1;
        }
        proof {
            assert(self.0@ =~= other.0@);
        }
        true
    }
}

impl Eq for StatementDigest {}

impl vstd::std_specs::cmp::PartialEqSpecImpl for StatementDigest {
    open spec fn obeys_eq_spec() -> bool {
        true
    }

    open spec fn eq_spec(&self, other: &StatementDigest) -> bool {
        self.0@ == other.0@
    }
}

/// An opaque succinct proof, as submitted by an adapter. In the mock
/// backend the bytes are the canonical encoding of the proof's public
/// inputs.
#[derive(Clone, Debug)]
pub struct Proof(pub Vec<u8>);

impl Proof {
    pub open spec fn view(self) -> Seq<u8> {
        self.0@
    }

    pub fn duplicate(&self) -> (r: Self)
        ensures
            r@ == self@,
    {
        Proof(self.0.clone())
    }
}

/// The state of one tracked rollup account. The all-zero value denotes
/// "not initialized"; any non-zero field makes the account present.
#[derive(Clone, Copy, Debug)]
pub struct AccountState {
    pub statement: StatementDigest,
    pub state_root: H256,
    pub last_proof_height: u32,
    pub start_nexus_hash: H256,
    pub height: u32,
}

/// The mathematical value of an `AccountState`.
pub ghost struct AccountStateView {
    pub statement: Seq<u32>,
    pub state_root: Seq<u8>,
    pub last_proof_height: u32,
    pub start_nexus_hash: Seq<u8>,
    pub height: u32,
}

impl View for AccountState {
    type V = AccountStateView;

    open spec fn view(&self) -> AccountStateView {
        AccountStateView {
            statement: self.statement@,
            state_root: self.state_root@,
            last_proof_height: self.last_proof_height,
            start_nexus_hash: self.start_nexus_hash@,
            height: self.height,
        }
    }
}

impl AccountState {
    pub fn zero() -> (r: Self)
        ensures
            r.statement@ == Seq::<u32>::new(8, |i: int| 0u32),
            r.state_root@ == zero_h256_seq(),
            r.last_proof_height == 0u32,
            r.start_nexus_hash@ == zero_h256_seq(),
            r.height == 0u32,
    {
        AccountState {
            statement: StatementDigest::zero(),
            state_root: H256::zero(),
            last_proof_height: 0,
            start_nexus_hash: H256::zero(),
            height: 0,
        }
    }

    pub open spec fn spec_is_zero(self) -> bool {
        &&& self.statement.spec_is_zero()
        &&& self.state_root.spec_is_zero()
        &&& self.last_proof_height == 0u32
        &&& self.start_nexus_hash.spec_is_zero()
        &&& self.height == 0u32
    }

    pub fn is_zero(&self) -> (r: bool)
        ensures
            r == self.spec_is_zero(),
    {
        self.statement.is_zero() && self.state_root.is_zero() && self.last_proof_height == 0
            && self.start_nexus_hash.is_zero() && self.height == 0
    }
}

/// A request to advance an initialized account with a new rollup proof.
#[derive(Clone, Debug)]
pub struct SubmitProof {
    pub proof: Proof,
    pub nexus_hash: H256,
    pub state_root: H256,
    pub height: u32,
    pub app_id: AppAccountId,
}

/// A request to create (or idempotently re-create) a rollup account.
#[derive(Clone, Copy, Debug)]
pub struct InitAccount {
    pub app_id: AppAccountId,
    pub statement: StatementDigest,
    pub start_nexus_hash: H256,
}

/// The two transaction kinds of the core.
#[derive(Clone, Debug)]
pub enum TxParamsV2 {
    SubmitProof(SubmitProof),
    InitAccount(InitAccount),
}

/// The mathematical value of a `TxParamsV2`, with the opaque proof taken
/// as its byte sequence.
pub ghost enum TxParamsView {
    SubmitProof {
        proof: Seq<u8>,
        nexus_hash: Seq<u8>,
        state_root: Seq<u8>,
        height: u32,
        app_id: Seq<u8>,
    },
    InitAccount { app_id: Seq<u8>, statement: Seq<u32>, start_nexus_hash: Seq<u8> },
}

impl TxParamsV2 {
    pub open spec fn view(self) -> TxParamsView {
        match self {
            TxParamsV2::SubmitProof(s) => TxParamsView::SubmitProof {
                proof: s.proof@,
                nexus_hash: s.nexus_hash@,
                state_root: s.state_root@,
                height: s.height,
                app_id: s.app_id@,
            },
            TxParamsV2::InitAccount(i) => TxParamsView::InitAccount {
                app_id: i.app_id@,
                statement: i.statement@,
                start_nexus_hash: i.start_nexus_hash@,
            },
        }
    }

    pub fn duplicate(&self) -> (r: Self)
        ensures
            r@ == self@,
    {
        match self {
            TxParamsV2::SubmitProof(s) => TxParamsV2::SubmitProof(SubmitProof {
                proof: s.proof.duplicate(),
                nexus_hash: s.nexus_hash,
                state_root: s.state_root,
                height: s.height,
                app_id: s.app_id,
            }),
            TxParamsV2::InitAccount(i) => TxParamsV2::InitAccount(*i),
        }
    }
}

/// The mathematical value of a transaction: its signature bytes and the
/// value of its parameters.
pub ghost struct TxView {
    pub signature: Seq<u8>,
    pub params: TxParamsView,
}

/// A transaction as accepted from an adapter over RPC.
#[derive(Clone, Debug)]
pub struct TransactionV2 {
    pub signature: TxSignature,
    pub params: TxParamsV2,
}

impl TransactionV2 {
    pub open spec fn view(self) -> TxView {
        TxView { signature: self.signature@, params: self.params@ }
    }

    pub fn duplicate(&self) -> (r: Self)
        ensures
            r@ == self@,
    {
        TransactionV2 { signature: self.signature, params: self.params.duplicate() }
    }
}

/// A transaction as the zkVM guest reads it; same content as
/// `TransactionV2`.
#[derive(Clone, Debug)]
pub struct TransactionZKVM {
    pub signature: TxSignature,
    pub params: TxParamsV2,
}

impl TransactionZKVM {
    pub open spec fn view(self) -> TxView {
        TxView { signature: self.signature@, params: self.params@ }
    }

    pub fn duplicate(&self) -> (r: Self)
        ensures
            r@ == self@,
    {
        TransactionZKVM { signature: self.signature, params: self.params.duplicate() }
    }
}

/// The public inputs a rollup proof commits to; the statement digest is
/// checked against the stored account.
#[derive(Clone, Copy, Debug)]
pub struct RollupPublicInputsV2 {
    pub nexus_hash: H256,
    pub state_root: H256,
    pub height: u32,
    pub start_nexus_hash: H256,
    pub app_id: AppAccountId,
    pub img_id: StatementDigest,
}

/// The mathematical value of a proof's public inputs.
pub ghost struct RollupPublicInputsView {
    pub nexus_hash: Seq<u8>,
    pub state_root: Seq<u8>,
    pub height: u32,
    pub start_nexus_hash: Seq<u8>,
    pub app_id: Seq<u8>,
    pub img_id: Seq<u32>,
}

impl View for RollupPublicInputsV2 {
    type V = RollupPublicInputsView;

    open spec fn view(&self) -> RollupPublicInputsView {
        RollupPublicInputsView {
            nexus_hash: self.nexus_hash@,
            state_root: self.state_root@,
            height: self.height,
            start_nexus_hash: self.start_nexus_hash@,
            app_id: self.app_id@,
            img_id: self.img_id@,
        }
    }
}

impl RollupPublicInputsV2 {
    /// Rejects a set of public inputs whose statement digest differs from
    /// the one recursion is run under.
    pub fn check_consistency(&self, img_id: &StatementDigest) -> (r: Result<(), NexusError>)
        ensures
            r is Ok <==> self.img_id@ == img_id@,
    {
        if !(self.img_id == *img_id) {
            Err(NexusError::StatementMismatch)
        } else {
            Ok(())
        }
    }
}

/// The canonical block header this system emits: it commits to the new
/// state root and the consumed DA header.
#[derive(Clone, Copy, Debug)]
pub struct NexusHeader {
    pub parent_hash: H256,
    pub prev_state_root: H256,
    pub state_root: H256,
    pub avail_header_hash: H256,
    pub number: u32,
}

/// The mathematical value of a `NexusHeader`.
pub ghost struct NexusHeaderView {
    pub parent_hash: Seq<u8>,
    pub prev_state_root: Seq<u8>,
    pub state_root: Seq<u8>,
    pub avail_header_hash: Seq<u8>,
    pub number: u32,
}

impl View for NexusHeader {
    type V = NexusHeaderView;

    open spec fn view(&self) -> NexusHeaderView {
        NexusHeaderView {
            parent_hash: self.parent_hash@,
            prev_state_root: self.prev_state_root@,
            state_root: self.state_root@,
            avail_header_hash: self.avail_header_hash@,
            number: self.number,
        }
    }
}

impl PartialEq for NexusHeader {
    fn eq(&self, other: &NexusHeader) -> (r: bool) {
        let fields_eq = self.parent_hash == other.parent_hash && self.prev_state_root
            == other.prev_state_root && self.state_root == other.state_root
            && self.avail_header_hash == other.avail_header_hash && self.number == other.number;
        proof {
            if fields_eq {
                assert(self@ == other@);
            }
        }
        fields_eq
    }
}

impl Eq for NexusHeader {}

impl vstd::std_specs::cmp::PartialEqSpecImpl for NexusHeader {
    open spec fn obeys_eq_spec() -> bool {
        true
    }

    open spec fn eq_spec(&self, other: &NexusHeader) -> bool {
        self@ == other@
    }
}

impl NexusHeader {
    /// The SHA-256 hash of this header's canonical encoding.
    pub fn hash(&self) -> (r: H256)
        ensures
            r@ == crate::codec::header_hash_of(self@),
    {
        let bytes = crate::codec::encode_nexus_header(self);
        crate::hash::sha256_digest(&bytes)
    }
}

impl TransactionV2 {
    /// The canonical hash under which this transaction is indexed.
    pub fn hash(&self) -> (r: H256)
        requires
            crate::codec::tx_encodable(self@),
        ensures
            r@ == crate::codec::tx_hash_of(self@),
    {
        let bytes = crate::codec::encode_tx(self);
        crate::hash::sha256_digest(&bytes)
    }
}

impl TransactionZKVM {
    /// The canonical hash under which this transaction is indexed.
    pub fn hash(&self) -> (r: H256)
        requires
            crate::codec::tx_encodable(self@),
        ensures
            r@ == crate::codec::tx_hash_of(self@),
    {
        let bytes = crate::codec::encode_zkvm_tx(self);
        crate::hash::sha256_digest(&bytes)
    }
}

/// The header views of a sequence of headers, in order.
pub open spec fn header_views(s: Seq<NexusHeader>) -> Seq<NexusHeaderView> {
    s.map_values(|h: NexusHeader| h@)
}

/// A bounded sequence of the most recent canonical headers, newest first;
/// pushing onto a full store evicts the oldest header.
#[derive(Clone, Debug)]
pub struct HeaderStore {
    inner: Vec<NexusHeader>,
    max_size: usize,
}

impl HeaderStore {
    /// The stored headers, newest first.
    pub closed spec fn headers(self) -> Seq<NexusHeader> {
        self.inner@
    }

    /// The bound the store was created with.
    pub closed spec fn max(self) -> int {
        self.max_size as int
    }

    pub open spec fn wf(self) -> bool {
        1 <= self.max() <= u32::MAX && self.headers().len() <= self.max()
    }

    pub fn new(max_size: usize) -> (r: Self)
        requires
            1 <= max_size <= u32::MAX,
        ensures
            r.wf(),
            r.headers() == Seq::<NexusHeader>::empty(),
            r.max() == max_size,
    {
        HeaderStore { inner: Vec::new(), max_size }
    }

    /// Rebuilds a store from its parts, as the decoder and tests need.
    pub fn from_parts(inner: Vec<NexusHeader>, max_size: usize) -> (r: Self)
        requires
            1 <= max_size <= u32::MAX,
            inner@.len() <= max_size,
        ensures
            r.wf(),
            r.headers() == inner@,
            r.max() == max_size,
    {
        HeaderStore { inner, max_size }
    }

    /// Pushes the newest header to the front; at capacity the oldest
    /// header leaves at the same time.
    pub fn push_front(&mut self, header: &NexusHeader)
        requires
            old(self).wf(),
        ensures
            final(self).wf(),
            final(self).max() == old(self).max(),
            old(self).headers().len() == old(self).max() ==> final(self).headers() == seq![
                *header,
            ] + old(self).headers().drop_last(),
            old(self).headers().len() < old(self).max() ==> final(self).headers() == seq![*header]
                + old(self).headers(),
    {
        if self.inner.len() == self.max_size {
            self.inner.remove(self.max_size - 1);
        }
        self.inner.insert(0, *header);
    }

    pub fn is_empty(&self) -> (r: bool)
        ensures
            r == (self.headers().len() == 0),
    {
        self.inner.is_empty()
    }

    pub fn first(&self) -> (r: Option<&NexusHeader>)
        ensures
            match r {
                Some(h) => self.headers().len() > 0 && *h == self.headers()[0],
                None => self.headers().len() == 0,
            },
    {
        if self.inner.is_empty() {
            return None;
        }
        Some(&self.inner[0])
    }

    pub fn inner(&self) -> (r: &Vec<NexusHeader>)
        ensures
            r@ == self.headers(),
    {
        &self.inner
    }

    pub fn duplicate(&self) -> (r: Self)
        ensures
            r.headers() == self.headers(),
            r.max() == self.max(),
    {
        let mut copy: Vec<NexusHeader> = Vec::new();
        let mut i: usize = 0;
        while i < self.inner.len()
            invariant
                i <= self.inner@.len(),
                copy@ == self.inner@.take(i as int),
            decreases self.inner@.len() - i,
        {
            copy.push(self.inner[i]);
            proof {
                assert(copy@ =~= self.inner@.take(i + 1 as int));
            }
            i = i + 1;
        }
        proof {
            assert(self.inner@.take(self.inner@.len() as int) =~= self.inner@);
        }
        HeaderStore { inner: copy, max_size: self.max_size }
    }
}

/// Links a DA block hash to the nexus block built from it.
#[derive(Clone, Copy, Debug)]
pub struct AvailToNexusPointer {
    pub number: u32,
    pub nexus_hash: H256,
}

/// Where a transaction stands in its lifecycle.
#[derive(Clone, Copy, Debug, PartialEq, Eq, Structural)]
pub enum TransactionStatus {
    InPool,
    Successful,
    Failed,
}

/// A transaction with its current status and, once committed, the block
/// that carries it.
#[derive(Clone, Debug)]
pub struct TransactionWithStatus {
    pub transaction: TransactionV2,
    pub status: TransactionStatus,
    pub block_hash: Option<H256>,
}

impl TransactionWithStatus {
    pub fn duplicate(&self) -> (r: Self)
        ensures
            r.transaction@ == self.transaction@,
            r.status == self.status,
            r.block_hash == self.block_hash,
    {
        TransactionWithStatus {
            transaction: self.transaction.duplicate(),
            status: self.status,
            block_hash: self.block_hash,
        }
    }
}

/// One transaction's outcome inside a block.
#[derive(Clone, Copy, Debug)]
pub struct TransactionResult {
    pub hash: H256,
    pub result: bool,
}

/// A nexus block: its header and the outcome of every transaction it
/// carries.
#[derive(Clone, Debug)]
pub struct NexusBlock {
    pub header: NexusHeader,
    pub transactions: Vec<TransactionResult>,
}

/// A block together with the tree version its state was committed at.
#[derive(Clone, Debug)]
pub struct NexusBlockWithPointers {
    pub block: NexusBlock,
    pub jmt_version: u64,
}

/// A reduced header form for adapters that only track roots.
#[derive(Clone, Copy, Debug)]
pub struct SimpleNexusHeader {
    pub prev_state_root: H256,
    pub state_root: H256,
    pub tx_root: H256,
    pub avail_blob_root: H256,
}

/// Errors of the core. The recoverable kinds surface per transaction; the
/// rest abort the batch before anything is persisted.
#[derive(Clone, Copy, Debug, PartialEq, Eq, Structural)]
pub enum NexusError {
    /// A statement digest did not match the stored account's statement.
    StatementMismatch,
    /// The committed root did not match the header's state root.
    StateRootMismatch,
    /// A version was staged or committed out of order.
    VersionMismatch,
    /// A value could not be decoded from its canonical byte encoding.
    CodecInvalid,
    /// A transaction to update was not present in the persisted index.
    TxNotFound,
    /// The prover was driven with inputs of the wrong shape or order.
    ProverInputMismatch,
    /// The proof journal did not expose the candidate header.
    HeaderMismatch,
}

} // verus!
