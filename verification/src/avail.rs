use vstd::prelude::*;
use crate::codec::{
    bytes_enc, compact_u32_bytes, dec_bytes, dec_fixed, lemma_rt_bytes, lemma_rt_fixed,
    lemma_slice_piece, lemma_sub_index, push_bytes, push_compact_u32, push_h256, decode_bytes,
};
use crate::hash::blake2b256_of;
use crate::types::{H256, NexusError};

verus! {

// ---------------------------------------------------------------------------
// Headers of the data-availability chain, as the relayer delivers them,
// with their canonical encoding and BLAKE2b-256 hash.
// ---------------------------------------------------------------------------

/// A rollup's numeric id paired with the start row of its data.
#[derive(Clone, Copy, Debug)]
pub struct DataLookupItem {
    pub app_id: crate::types::AppId,
    pub start: u32,
}

/// The per-application index of a DA block's data.
#[derive(Clone, Debug)]
pub struct DataLookup {
    pub size: u32,
    pub index: Vec<DataLookupItem>,
}

/// A half-open range of rows.
#[derive(Clone, Copy, Debug)]
pub struct Range<Idx> {
    pub start: Idx,
    pub end: Idx,
}

/// Stands in for a lookup's row range, which the core never reads.
#[derive(Clone, Copy, Debug)]
pub struct DataLookupRange {}

/// The polynomial commitment of a DA block.
#[derive(Clone, Debug)]
pub struct KateCommitment {
    pub rows: u16,
    pub cols: u16,
    pub commitment: Vec<u8>,
    pub data_root: H256,
}

#[derive(Clone, Debug)]
pub struct V3Extension {
    pub app_lookup: DataLookup,
    pub commitment: KateCommitment,
}

/// The header extension; only the third version is expected.
#[derive(Clone, Debug)]
pub enum Extension {
    V3(V3Extension),
}

/// One consensus log entry of a DA header.
#[derive(Clone, Debug)]
pub enum DigestItem {
    PreRuntime([u8; 4], Vec<u8>),
    Consensus([u8; 4], Vec<u8>),
    Seal([u8; 4], Vec<u8>),
    Other(Vec<u8>),
    RuntimeEnvironmentUpdated,
}

/// The digest of a DA header: its ordered log entries.
#[derive(Clone, Debug)]
pub struct Digest {
    pub logs: Vec<DigestItem>,
}

/// A data-availability header, the per-height input of the execution
/// engine.
#[derive(Clone, Debug)]
pub struct AvailHeader {
    pub parent_hash: H256,
    pub number: u32,
    pub state_root: H256,
    pub extrinsics_root: H256,
    pub digest: Digest,
    pub extension: Extension,
}

/// A blob whose state root advanced in a batch.
#[derive(Clone, Copy, Debug)]
pub struct UpdatedBlob {
    commitment: [u8; 32],
    state_root: [u8; 32],
}

impl UpdatedBlob {
    pub fn new(commitment: [u8; 32], state_root: [u8; 32]) -> (r: Self)
        ensures
            r.spec_commitment() == commitment@,
            r.spec_state_root() == state_root@,
    {
        UpdatedBlob { commitment, state_root }
    }

    pub closed spec fn spec_commitment(self) -> Seq<u8> {
        self.commitment@
    }

    pub closed spec fn spec_state_root(self) -> Seq<u8> {
        self.state_root@
    }
}

// ---------------------------------------------------------------------------
// Canonical encoding: one tag byte per log kind, compact integers for
// counts and chain numbers.
// ---------------------------------------------------------------------------

/// The canonical encoding of one log entry.
pub open spec fn digest_item_enc(d: DigestItem) -> Seq<u8> {
    match d {
        DigestItem::PreRuntime(id, data) => seq![6u8] + id@ + bytes_enc(data@),
        DigestItem::Consensus(id, data) => seq![4u8] + id@ + bytes_enc(data@),
        DigestItem::Seal(id, data) => seq![5u8] + id@ + bytes_enc(data@),
        DigestItem::Other(data) => seq![0u8] + bytes_enc(data@),
        DigestItem::RuntimeEnvironmentUpdated => seq![8u8],
    }
}

pub open spec fn digest_items_enc(logs: Seq<DigestItem>) -> Seq<u8>
    decreases logs.len(),
{
    if logs.len() == 0 {
        Seq::<u8>::empty()
    } else {
        digest_item_enc(logs[0]) + digest_items_enc(logs.drop_first())
    }
}

pub open spec fn digest_enc(d: Digest) -> Seq<u8>
    recommends
        d.logs@.len() <= u32::MAX,
{
    compact_u32_bytes(d.logs@.len() as u32) + digest_items_enc(d.logs@)
}

pub open spec fn data_lookup_item_enc(it: DataLookupItem) -> Seq<u8> {
    compact_u32_bytes(it.app_id.0) + compact_u32_bytes(it.start)
}

pub open spec fn data_lookup_items_enc(its: Seq<DataLookupItem>) -> Seq<u8>
    decreases its.len(),
{
    if its.len() == 0 {
        Seq::<u8>::empty()
    } else {
        data_lookup_item_enc(its[0]) + data_lookup_items_enc(its.drop_first())
    }
}

pub open spec fn data_lookup_enc(dl: DataLookup) -> Seq<u8>
    recommends
        dl.index@.len() <= u32::MAX,
{
    compact_u32_bytes(dl.size) + compact_u32_bytes(dl.index@.len() as u32)
        + data_lookup_items_enc(dl.index@)
}

pub open spec fn kate_commitment_enc(k: KateCommitment) -> Seq<u8>
    recommends
        k.commitment@.len() <= u32::MAX,
{
    compact_u32_bytes(k.rows as u32) + compact_u32_bytes(k.cols as u32) + bytes_enc(k.commitment@)
        + k.data_root@
}

pub open spec fn extension_enc(e: Extension) -> Seq<u8> {
    match e {
        Extension::V3(v3) => seq![2u8] + data_lookup_enc(v3.app_lookup) + kate_commitment_enc(
            v3.commitment,
        ),
    }
}

pub open spec fn avail_header_enc(h: AvailHeader) -> Seq<u8> {
    h.parent_hash@ + compact_u32_bytes(h.number) + h.state_root@ + h.extrinsics_root@ + digest_enc(
        h.digest,
    ) + extension_enc(h.extension)
}

/// Whether an Avail header is small enough to encode with 32-bit length
/// prefixes.
pub open spec fn avail_header_encodable(h: AvailHeader) -> bool {
    &&& h.digest.logs@.len() <= u32::MAX
    &&& forall|i: int|
        0 <= i < h.digest.logs@.len() ==> digest_item_data_len(#[trigger] h.digest.logs@[i])
            <= u32::MAX
    &&& match h.extension {
        Extension::V3(v3) => v3.app_lookup.index@.len() <= u32::MAX && v3.commitment.commitment@.len()
            <= u32::MAX,
    }
}

/// The length of a log entry's payload.
pub open spec fn digest_item_data_len(d: DigestItem) -> int {
    match d {
        DigestItem::PreRuntime(_, data) => data@.len() as int,
        DigestItem::Consensus(_, data) => data@.len() as int,
        DigestItem::Seal(_, data) => data@.len() as int,
        DigestItem::Other(data) => data@.len() as int,
        DigestItem::RuntimeEnvironmentUpdated => 0,
    }
}

fn push_engine_id(out: &mut Vec<u8>, id: &[u8; 4])
    ensures
        final(out)@ == old(out)@ + id@,
{
    out.push(id[0]);
    out.push(id[1]);
    out.push(id[2]);
    out.push(id[3]);
    proof {
        assert(final(out)@ =~= old(out)@ + id@);
    }
}

impl DigestItem {
    /// The canonical byte encoding of this log entry.
    pub fn encode(&self) -> (r: Vec<u8>)
        requires
            digest_item_data_len(*self) <= u32::MAX,
        ensures
            r@ == digest_item_enc(*self),
    {
        let mut out: Vec<u8> = Vec::new();
        match self {
            DigestItem::PreRuntime(id, data) => {
                out.push(6u8);
                push_engine_id(&mut out, id);
                push_bytes(&mut out, data);
            },
            DigestItem::Consensus(id, data) => {
                out.push(4u8);
                push_engine_id(&mut out, id);
                push_bytes(&mut out, data);
            },
            DigestItem::Seal(id, data) => {
                out.push(5u8);
                push_engine_id(&mut out, id);
                push_bytes(&mut out, data);
            },
            DigestItem::Other(data) => {
                out.push(0u8);
                push_bytes(&mut out, data);
            },
            DigestItem::RuntimeEnvironmentUpdated => {
                out.push(8u8);
            },
        }
        proof {
            assert(out@ =~= digest_item_enc(*self));
        }
        out
    }
}

/// The mathematical value of a log entry.
pub ghost enum DigestItemView {
    PreRuntime { id: Seq<u8>, data: Seq<u8> },
    Consensus { id: Seq<u8>, data: Seq<u8> },
    Seal { id: Seq<u8>, data: Seq<u8> },
    Other { data: Seq<u8> },
    RuntimeEnvironmentUpdated,
}

impl View for DigestItem {
    type V = DigestItemView;

    open spec fn view(&self) -> DigestItemView {
        match self {
            DigestItem::PreRuntime(id, data) => DigestItemView::PreRuntime {
                id: id@,
                data: data@,
            },
            DigestItem::Consensus(id, data) => DigestItemView::Consensus {
                id: id@,
                data: data@,
            },
            DigestItem::Seal(id, data) => DigestItemView::Seal { id: id@, data: data@ },
            DigestItem::Other(data) => DigestItemView::Other { data: data@ },
            DigestItem::RuntimeEnvironmentUpdated => DigestItemView::RuntimeEnvironmentUpdated,
        }
    }
}

/// The spec decoder of one log entry.
pub open spec fn dec_digest_item(s: Seq<u8>, i: int) -> Option<(DigestItemView, int)> {
    if !(0 <= i && i + 1 <= s.len()) {
        None
    } else if s[i] == 6u8 || s[i] == 4u8 || s[i] == 5u8 {
        match dec_fixed(s, i + 1, 4) {
            None => None,
            Some((id, j1)) => match dec_bytes(s, j1) {
                None => None,
                Some((data, j2)) => Some(
                    (
                        if s[i] == 6u8 {
                            DigestItemView::PreRuntime { id, data }
                        } else if s[i] == 4u8 {
                            DigestItemView::Consensus { id, data }
                        } else {
                            DigestItemView::Seal { id, data }
                        },
                        j2,
                    ),
                ),
            },
        }
    } else if s[i] == 0u8 {
        match dec_bytes(s, i + 1) {
            None => None,
            Some((data, j1)) => Some((DigestItemView::Other { data }, j1)),
        }
    } else if s[i] == 8u8 {
        Some((DigestItemView::RuntimeEnvironmentUpdated, i + 1))
    } else {
        None
    }
}

impl DigestItem {
    /// Decodes one log entry from its canonical bytes.
    pub fn decode(buf: &Vec<u8>, pos: usize) -> (r: Result<(DigestItem, usize), NexusError>)
        ensures
            r matches Ok(t) ==> dec_digest_item(buf@, pos as int) == Some((t.0@, t.1 as int)),
            r is Err ==> dec_digest_item(buf@, pos as int) is None,
    {
        if !(pos < buf.len()) {
            return Err(NexusError::CodecInvalid);
        }
        let tag = buf[pos];
        if tag == 6 || tag == 4 || tag == 5 {
            if pos + 1 <= buf.len() && buf.len() - (pos + 1) >= 4 {
                let id = [buf[pos + 1], buf[pos + 2], buf[pos + 3], buf[pos + 4]];
                proof {
                    assert(id@ =~= buf@.subrange(pos + 1 as int, pos + 5 as int));
                }
                let (data, j2) = match decode_bytes(buf, pos + 5) {
                    Ok(t) => t,
                    Err(e) => {
                        return Err(e);
                    },
                };
                if tag == 6 {
                    Ok((DigestItem::PreRuntime(id, data), j2))
                } else if tag == 4 {
                    Ok((DigestItem::Consensus(id, data), j2))
                } else {
                    Ok((DigestItem::Seal(id, data), j2))
                }
            } else {
                Err(NexusError::CodecInvalid)
            }
        } else if tag == 0 {
            let (data, j1) = match decode_bytes(buf, pos + 1) {
                Ok(t) => t,
                Err(e) => {
                    return Err(e);
                },
            };
            Ok((DigestItem::Other(data), j1))
        } else if tag == 8 {
            Ok((DigestItem::RuntimeEnvironmentUpdated, pos + 1))
        } else {
            Err(NexusError::CodecInvalid)
        }
    }
}

/// Encode-then-decode of a log entry is the identity.
pub proof fn lemma_rt_digest_item(s: Seq<u8>, i: int, d: DigestItem)
    requires
        0 <= i,
        digest_item_data_len(d) <= u32::MAX,
        i + digest_item_enc(d).len() <= s.len(),
        s.subrange(i, i + digest_item_enc(d).len() as int) == digest_item_enc(d),
    ensures
        dec_digest_item(s, i) == Some((d@, i + digest_item_enc(d).len() as int)),
{
    let e = digest_item_enc(d);
    lemma_sub_index(s, i, e, 0);
    match d {
        DigestItem::PreRuntime(id, data) => {
            assert(s[i] == 6u8);
            lemma_slice_piece(s, i, e, 1, 5);
            assert(e.subrange(1, 5) =~= id@);
            lemma_rt_fixed(s, i + 1, id@);
            lemma_slice_piece(s, i, e, 5, e.len() as int);
            assert(e.subrange(5, e.len() as int) =~= bytes_enc(data@));
            lemma_rt_bytes(s, i + 5, data@);
        },
        DigestItem::Consensus(id, data) => {
            assert(s[i] == 4u8);
            lemma_slice_piece(s, i, e, 1, 5);
            assert(e.subrange(1, 5) =~= id@);
            lemma_rt_fixed(s, i + 1, id@);
            lemma_slice_piece(s, i, e, 5, e.len() as int);
            assert(e.subrange(5, e.len() as int) =~= bytes_enc(data@));
            lemma_rt_bytes(s, i + 5, data@);
        },
        DigestItem::Seal(id, data) => {
            assert(s[i] == 5u8);
            lemma_slice_piece(s, i, e, 1, 5);
            assert(e.subrange(1, 5) =~= id@);
            lemma_rt_fixed(s, i + 1, id@);
            lemma_slice_piece(s, i, e, 5, e.len() as int);
            assert(e.subrange(5, e.len() as int) =~= bytes_enc(data@));
            lemma_rt_bytes(s, i + 5, data@);
        },
        DigestItem::Other(data) => {
            assert(s[i] == 0u8);
            lemma_slice_piece(s, i, e, 1, e.len() as int);
            assert(e.subrange(1, e.len() as int) =~= bytes_enc(data@));
            lemma_rt_bytes(s, i + 1, data@);
        },
        DigestItem::RuntimeEnvironmentUpdated => {
            assert(s[i] == 8u8);
        },
    }
}

impl AvailHeader {
    /// The canonical byte encoding of this header.
    #[verifier::rlimit(100)]
    #[verifier::spinoff_prover]
    pub fn encode(&self) -> (r: Vec<u8>)
        requires
            avail_header_encodable(*self),
        ensures
            r@ == avail_header_enc(*self),
    {
        let mut out: Vec<u8> = Vec::new();
        push_h256(&mut out, &self.parent_hash);
        push_compact_u32(&mut out, self.number);
        push_h256(&mut out, &self.state_root);
        push_h256(&mut out, &self.extrinsics_root);
        push_compact_u32(&mut out, self.digest.logs.len() as u32);
        let mut i: usize = 0;
        while i < self.digest.logs.len()
            invariant
                i <= self.digest.logs@.len(),
                avail_header_encodable(*self),
                out@ == self.parent_hash@ + compact_u32_bytes(self.number) + self.state_root@
                    + self.extrinsics_root@ + compact_u32_bytes(self.digest.logs@.len() as u32)
                    + digest_items_enc(self.digest.logs@.take(i as int)),
            decreases self.digest.logs@.len() - i,
        {
            let item_bytes = self.digest.logs[i].encode();
            let ghost out_before = out@;
            let mut j: usize = 0;
            while j < item_bytes.len()
                invariant
                    j <= item_bytes@.len(),
                    out@ == out_before + item_bytes@.take(j as int),
                decreases item_bytes@.len() - j,
            {
                out.push(item_bytes[j]);
                proof {
                    assert(out@ =~= out_before + item_bytes@.take(j + 1 as int));
                }
                j = j + 1;
            }
            proof {
                assert(item_bytes@.take(item_bytes@.len() as int) =~= item_bytes@);
                lemma_digest_items_enc_snoc(self.digest.logs@.take(i as int), self.digest.logs@[
                    i as int]);
                assert(self.digest.logs@.take(i as int).push(self.digest.logs@[i as int])
                    =~= self.digest.logs@.take(i + 1 as int));
                assert(out@ =~= self.parent_hash@ + compact_u32_bytes(self.number)
                    + self.state_root@ + self.extrinsics_root@ + compact_u32_bytes(
                    self.digest.logs@.len() as u32,
                ) + digest_items_enc(self.digest.logs@.take(i + 1 as int)));
            }
            i = i + 1;
        }
        proof {
            assert(self.digest.logs@.take(self.digest.logs@.len() as int) =~= self.digest.logs@);
        }
        match &self.extension {
            Extension::V3(v3) => {
                out.push(2u8);
                push_compact_u32(&mut out, v3.app_lookup.size);
                push_compact_u32(&mut out, v3.app_lookup.index.len() as u32);
                let ghost lookup_prefix = out@;
                let mut i2: usize = 0;
                while i2 < v3.app_lookup.index.len()
                    invariant
                        i2 <= v3.app_lookup.index@.len(),
                        out@ == lookup_prefix + data_lookup_items_enc(
                            v3.app_lookup.index@.take(i2 as int),
                        ),
                    decreases v3.app_lookup.index@.len() - i2,
                {
                    let it = v3.app_lookup.index[i2];
                    push_compact_u32(&mut out, it.app_id.0);
                    push_compact_u32(&mut out, it.start);
                    proof {
                        lemma_lookup_items_enc_snoc(
                            v3.app_lookup.index@.take(i2 as int),
                            v3.app_lookup.index@[i2 as int],
                        );
                        assert(v3.app_lookup.index@.take(i2 as int).push(v3.app_lookup.index@[
                            i2 as int]) =~= v3.app_lookup.index@.take(i2 + 1 as int));
                        assert(out@ =~= lookup_prefix + data_lookup_items_enc(
                            v3.app_lookup.index@.take(i2 + 1 as int),
                        ));
                    }
                    i2 = i2 + 1;
                }
                proof {
                    assert(v3.app_lookup.index@.take(v3.app_lookup.index@.len() as int)
                        =~= v3.app_lookup.index@);
                }
                push_compact_u32(&mut out, v3.commitment.rows as u32);
                push_compact_u32(&mut out, v3.commitment.cols as u32);
                push_bytes(&mut out, &v3.commitment.commitment);
                push_h256(&mut out, &v3.commitment.data_root);
            },
        }
        proof {
            assert(out@ =~= avail_header_enc(*self));
        }
        out
    }

    /// The BLAKE2b-256 hash of the canonical encoding, as the DA chain
    /// identifies its headers.
    pub fn hash(&self) -> (r: H256)
        requires
            avail_header_encodable(*self),
        ensures
            r@ == blake2b256_of(avail_header_enc(*self)),
    {
        let bytes = self.encode();
        crate::hash::blake2b_256_digest(&bytes)
    }
}

/// Appending one log entry appends its encoding.
pub proof fn lemma_digest_items_enc_snoc(logs: Seq<DigestItem>, d: DigestItem)
    ensures
        digest_items_enc(logs.push(d)) == digest_items_enc(logs) + digest_item_enc(d),
    decreases logs.len(),
{
    reveal_with_fuel(digest_items_enc, 3);
    if logs.len() == 0 {
        assert(logs.push(d)[0] == d);
        assert(logs.push(d).drop_first() =~= Seq::<DigestItem>::empty());
        assert(digest_items_enc(logs.push(d)) =~= digest_item_enc(d));
        assert(digest_items_enc(logs) + digest_item_enc(d) =~= digest_item_enc(d));
    } else {
        assert(logs.push(d)[0] == logs[0]);
        assert(logs.push(d).drop_first() =~= logs.drop_first().push(d));
        lemma_digest_items_enc_snoc(logs.drop_first(), d);
        assert(digest_items_enc(logs.push(d)) =~= digest_items_enc(logs) + digest_item_enc(d));
    }
}

/// Appending one lookup item appends its encoding.
pub proof fn lemma_lookup_items_enc_snoc(its: Seq<DataLookupItem>, it: DataLookupItem)
    ensures
        data_lookup_items_enc(its.push(it)) == data_lookup_items_enc(its) + data_lookup_item_enc(
            it,
        ),
    decreases its.len(),
{
    reveal_with_fuel(data_lookup_items_enc, 3);
    if its.len() == 0 {
        assert(its.push(it)[0] == it);
        assert(its.push(it).drop_first() =~= Seq::<DataLookupItem>::empty());
        assert(data_lookup_items_enc(its.push(it)) =~= data_lookup_item_enc(it));
        assert(data_lookup_items_enc(its) + data_lookup_item_enc(it) =~= data_lookup_item_enc(it));
    } else {
        assert(its.push(it)[0] == its[0]);
        assert(its.push(it).drop_first() =~= its.drop_first().push(it));
        lemma_lookup_items_enc_snoc(its.drop_first(), it);
        assert(data_lookup_items_enc(its.push(it)) =~= data_lookup_items_enc(its)
            + data_lookup_item_enc(it));
    }
}

} // verus!
