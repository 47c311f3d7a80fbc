use vstd::prelude::*;
use crate::avail::{AvailHeader, avail_header_enc, avail_header_encodable, Extension};
use crate::codec::{dec_nexus_header, nexus_header_enc, decode_nexus_header, encode_nexus_header};
use crate::hash::blake2b256_of;
use crate::state::StateUpdate;
use crate::stf::parent_hash_view;
use crate::types::{
    H256, HeaderStore, NexusError, NexusHeader, NexusHeaderView, Proof, TransactionZKVM,
};

verus! {

// ---------------------------------------------------------------------------
// The proof adapter: an abstract prover with ordered inputs and recursion
// assumptions. The mock backend is first-class: it runs the guest logic
// directly and emits a journal-only artifact, so the whole pipeline can be
// exercised without a proving system.
// ---------------------------------------------------------------------------

/// The proving mode: speed against artifact size. The public header does
/// not depend on the choice.
#[derive(Clone, Copy, Debug, PartialEq, Eq, Structural)]
pub enum ProverMode {
    MockProof,
    NoAggregation,
    Compressed,
    Groth16,
}

/// One ordered prover input, as the guest reads them.
pub enum ProverInput {
    Txs(Vec<TransactionZKVM>),
    BatchUpdate(StateUpdate),
    DaHeader(AvailHeader),
    Headers(HeaderStore),
}

/// The header the guest commits to: it binds the witness roots to the DA
/// header and the prior chain.
pub open spec fn guest_header_view(
    update: StateUpdate,
    da_header: AvailHeader,
    headers: Seq<NexusHeader>,
) -> NexusHeaderView {
    NexusHeaderView {
        parent_hash: parent_hash_view(headers),
        prev_state_root: update.pre_state_root@,
        state_root: update.post_state_root@,
        avail_header_hash: blake2b256_of(avail_header_enc(da_header)),
        number: da_header.number,
    }
}

/// The guest program: assembles the canonical header from the batch
/// witness, the DA header and the prior header store. Deterministic in
/// its inputs.
pub fn zkvm_guest_run(
    update: &StateUpdate,
    da_header: &AvailHeader,
    header_store: &HeaderStore,
) -> (r: NexusHeader)
    requires
        avail_header_encodable(*da_header),
    ensures
        r@ == guest_header_view(*update, *da_header, header_store.headers()),
{
    let parent_hash: H256 = match header_store.first() {
        Some(h) => h.hash(),
        None => H256::zero(),
    };
    NexusHeader {
        parent_hash,
        prev_state_root: update.pre_state_root,
        state_root: update.post_state_root,
        avail_header_hash: da_header.hash(),
        number: da_header.number,
    }
}

/// Whether the DA header fits the encoder's 32-bit length prefixes.
pub fn check_avail_encodable(h: &AvailHeader) -> (r: bool)
    ensures
        r == avail_header_encodable(*h),
{
    if !(h.digest.logs.len() as u64 <= u32::MAX as u64) {
        return false;
    }
    let mut i: usize = 0;
    while i < h.digest.logs.len()
        invariant
            i <= h.digest.logs@.len(),
            forall|j: int|
                0 <= j < i ==> crate::avail::digest_item_data_len(#[trigger] h.digest.logs@[j])
                    <= u32::MAX,
        decreases h.digest.logs@.len() - i,
    {
        let len_ok: bool = match &h.digest.logs[i] {
            crate::avail::DigestItem::PreRuntime(_, data) => data.len() as u64 <= u32::MAX as u64,
            crate::avail::DigestItem::Consensus(_, data) => data.len() as u64 <= u32::MAX as u64,
            crate::avail::DigestItem::Seal(_, data) => data.len() as u64 <= u32::MAX as u64,
            crate::avail::DigestItem::Other(data) => data.len() as u64 <= u32::MAX as u64,
            crate::avail::DigestItem::RuntimeEnvironmentUpdated => true,
        };
        if !len_ok {
            return false;
        }
        i = i + 1;
    }
    match &h.extension {
        Extension::V3(v3) => {
            if !(v3.app_lookup.index.len() as u64 <= u32::MAX as u64) {
                return false;
            }
            if !(v3.commitment.commitment.len() as u64 <= u32::MAX as u64) {
                return false;
            }
        },
    }
    true
}

/// A mock succinct proof: the journal alone, with the assumptions that
/// were admitted while proving.
pub struct MockProof {
    pub journal: Vec<u8>,
    pub assumptions: Vec<Proof>,
}

impl MockProof {
    /// The header committed in the journal.
    pub fn public_inputs(&self) -> (r: Result<NexusHeader, NexusError>)
        ensures
            r matches Ok(h) ==> dec_nexus_header(self.journal@, 0) == Some((h@, 132int))
                && self.journal@.len() == 132,
            r is Err ==> !(dec_nexus_header(self.journal@, 0) matches Some((v, n)) && n
                == self.journal@.len()),
    {
        match decode_nexus_header(&self.journal, 0) {
            Ok((h, n)) => {
                if n == self.journal.len() {
                    proof {
                        assert(dec_nexus_header(self.journal@, 0)->Some_0.1 == 132) by {
                            assert(dec_nexus_header(self.journal@, 0) == Some((h@, n as int)));
                        }
                    }
                    Ok(h)
                } else {
                    Err(NexusError::CodecInvalid)
                }
            },
            Err(_) => Err(NexusError::CodecInvalid),
        }
    }

    /// A mock proof verifies exactly when its journal carries a header.
    pub fn verify(&self) -> (r: Result<(), NexusError>)
        ensures
            r is Ok <==> (dec_nexus_header(self.journal@, 0) matches Some((v, n)) && n
                == self.journal@.len()),
    {
        match self.public_inputs() {
            Ok(_) => Ok(()),
            Err(e) => Err(e),
        }
    }
}

/// Whether the prover was fed the four inputs in guest order.
pub open spec fn inputs_shape_ok(ins: Seq<ProverInput>) -> bool {
    &&& ins.len() == 4
    &&& ins[0] is Txs
    &&& ins[1] is BatchUpdate
    &&& ins[2] is DaHeader
    &&& ins[3] is Headers
}

/// The mock prover: collects ordered inputs and admitted assumptions,
/// then runs the guest and commits its header to the journal.
pub struct MockProver {
    elf: Vec<u8>,
    mode: ProverMode,
    inputs: Vec<ProverInput>,
    assumptions: Vec<Proof>,
}

impl MockProver {
    pub closed spec fn spec_inputs(self) -> Seq<ProverInput> {
        self.inputs@
    }

    pub closed spec fn spec_assumptions(self) -> Seq<Proof> {
        self.assumptions@
    }

    pub closed spec fn spec_mode(self) -> ProverMode {
        self.mode
    }

    pub fn new(elf: Vec<u8>, prover_mode: ProverMode) -> (r: Self)
        ensures
            r.spec_inputs() == Seq::<ProverInput>::empty(),
            r.spec_assumptions() == Seq::<Proof>::empty(),
            r.spec_mode() == prover_mode,
    {
        MockProver { elf, mode: prover_mode, inputs: Vec::new(), assumptions: Vec::new() }
    }

    /// Appends one input; order is significant.
    pub fn add_input(&mut self, input: ProverInput) -> (r: Result<(), NexusError>)
        ensures
            r is Ok,
            final(self).spec_inputs() == old(self).spec_inputs().push(input),
            final(self).spec_assumptions() == old(self).spec_assumptions(),
            final(self).spec_mode() == old(self).spec_mode(),
    {
        self.inputs.push(input);
        Ok(())
    }

    /// Admits a prior proof as a verified fact of the proof being built.
    pub fn add_proof_for_recursion(&mut self, proof: Proof) -> (r: Result<(), NexusError>)
        ensures
            r is Ok,
            final(self).spec_assumptions() == old(self).spec_assumptions().push(proof),
            final(self).spec_inputs() == old(self).spec_inputs(),
            final(self).spec_mode() == old(self).spec_mode(),
    {
        self.assumptions.push(proof);
        Ok(())
    }

    /// Runs the guest over the collected inputs: succeeds exactly when
    /// the four inputs stand in guest order and the DA header is
    /// encodable, and then commits the guest's header to the journal.
    pub fn prove(&mut self) -> (r: Result<MockProof, NexusError>)
        ensures
            final(self).spec_inputs() == old(self).spec_inputs(),
            final(self).spec_assumptions() == old(self).spec_assumptions(),
            final(self).spec_mode() == old(self).spec_mode(),
            r is Ok <==> (inputs_shape_ok(old(self).spec_inputs()) && avail_header_encodable(
                old(self).spec_inputs()[2]->DaHeader_0,
            )),
            r matches Ok(p) ==> p.journal@ == nexus_header_enc(
                guest_header_view(
                    old(self).spec_inputs()[1]->BatchUpdate_0,
                    old(self).spec_inputs()[2]->DaHeader_0,
                    old(self).spec_inputs()[3]->Headers_0.headers(),
                ),
            ) && p.assumptions@.len() == old(self).spec_assumptions().len() && (forall|j: int|
                0 <= j < old(self).spec_assumptions().len() ==> (#[trigger] p.assumptions@[j])@
                    == old(self).spec_assumptions()[j]@),
    {
        if self.inputs.len() != 4 {
            return Err(NexusError::ProverInputMismatch);
        }
        let shape_ok: bool = matches!(&self.inputs[0], ProverInput::Txs(_)) && matches!(
            &self.inputs[1],
            ProverInput::BatchUpdate(_),
        ) && matches!(&self.inputs[2], ProverInput::DaHeader(_)) && matches!(
            &self.inputs[3],
            ProverInput::Headers(_),
        );
        if !shape_ok {
            return Err(NexusError::ProverInputMismatch);
        }
        let update: &StateUpdate = match &self.inputs[1] {
            ProverInput::BatchUpdate(u) => u,
            _ => {
                return Err(NexusError::ProverInputMismatch);
            },
        };
        let da_header: &AvailHeader = match &self.inputs[2] {
            ProverInput::DaHeader(h) => h,
            _ => {
                return Err(NexusError::ProverInputMismatch);
            },
        };
        let header_store: &HeaderStore = match &self.inputs[3] {
            ProverInput::Headers(hs) => hs,
            _ => {
                return Err(NexusError::ProverInputMismatch);
            },
        };
        if !check_avail_encodable(da_header) {
            return Err(NexusError::ProverInputMismatch);
        }
        let header = zkvm_guest_run(update, da_header, header_store);
        let journal = encode_nexus_header(&header);
        let mut assumptions: Vec<Proof> = Vec::new();
        let mut i: usize = 0;
        while i < self.assumptions.len()
            invariant
                i <= self.assumptions@.len(),
                assumptions@.len() == i,
                forall|j: int|
                    0 <= j < i ==> (#[trigger] assumptions@[j])@ == self.assumptions@[j]@,
            decreases self.assumptions@.len() - i,
        {
            assumptions.push(self.assumptions[i].duplicate());
            i = i + 1;
        }
        Ok(MockProof { journal, assumptions })
    }
}

} // verus!
