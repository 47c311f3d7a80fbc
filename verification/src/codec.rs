use vstd::prelude::*;
use crate::types::{
    AccountState, AccountStateView, AppAccountId, H256, HeaderStore, InitAccount, NexusBlockWithPointers,
    NexusError, NexusHeader, NexusHeaderView, Proof, RollupPublicInputsV2, RollupPublicInputsView,
    StatementDigest, SubmitProof, TransactionResult, TransactionV2, TransactionZKVM, TxParamsV2,
    TxParamsView, TxSignature, TxView, header_views,
};

verus! {

use vstd::arithmetic::div_mod::{
    lemma_fundamental_div_mod, lemma_div_denominator, lemma_small_mod, lemma_div_is_ordered,
    lemma_mod_mod, lemma_mod_multiples_vanish,
};

// ---------------------------------------------------------------------------
// Canonical byte encoding, SCALE-style: little-endian fixed-width integers,
// compact integers for counts and chain numbers, length-prefixed byte
// vectors, one-byte variant tags. Every encoder has a spec mirror, and the
// decoders of the persisted types are proved to invert them.
// ---------------------------------------------------------------------------

/// The four little-endian bytes of a 32-bit integer.
pub open spec fn u32_le_bytes(v: u32) -> Seq<u8> {
    seq![
        (v as int % 256) as u8,
        (v as int / 256 % 256) as u8,
        (v as int / 65536 % 256) as u8,
        (v as int / 16777216 % 256) as u8,
    ]
}

/// The eight little-endian bytes of a 64-bit integer.
pub open spec fn u64_le_bytes(v: u64) -> Seq<u8> {
    seq![
        (v as int % 256) as u8,
        (v as int / 256 % 256) as u8,
        (v as int / 65536 % 256) as u8,
        (v as int / 16777216 % 256) as u8,
        (v as int / 4294967296 % 256) as u8,
        (v as int / 1099511627776 % 256) as u8,
        (v as int / 281474976710656 % 256) as u8,
        (v as int / 72057594037927936 % 256) as u8,
    ]
}

/// The compact encoding of a 32-bit integer: the two low bits of the first
/// byte select a 1, 2, 4 or 5 byte form.
pub open spec fn compact_u32_bytes(v: u32) -> Seq<u8> {
    if v < 64 {
        seq![(v as int * 4) as u8]
    } else if v < 16384 {
        let x = v as int * 4 + 1;
        seq![(x % 256) as u8, (x / 256) as u8]
    } else if v < 1073741824 {
        let x = v as int * 4 + 2;
        seq![(x % 256) as u8, (x / 256 % 256) as u8, (x / 65536 % 256) as u8, (x / 16777216) as u8]
    } else {
        seq![3u8] + u32_le_bytes(v)
    }
}

/// A length-prefixed byte vector: compact length, then the raw bytes.
pub open spec fn bytes_enc(b: Seq<u8>) -> Seq<u8>
    recommends
        b.len() <= u32::MAX,
{
    compact_u32_bytes(b.len() as u32) + b
}

/// A statement digest: eight little-endian 32-bit words.
pub open spec fn statement_enc(s: Seq<u32>) -> Seq<u8>
    recommends
        s.len() == 8,
{
    u32_le_bytes(s[0]) + u32_le_bytes(s[1]) + u32_le_bytes(s[2]) + u32_le_bytes(s[3])
        + u32_le_bytes(s[4]) + u32_le_bytes(s[5]) + u32_le_bytes(s[6]) + u32_le_bytes(s[7])
}

pub open spec fn account_state_enc(a: AccountStateView) -> Seq<u8> {
    statement_enc(a.statement) + a.state_root + u32_le_bytes(a.last_proof_height)
        + a.start_nexus_hash + u32_le_bytes(a.height)
}

pub open spec fn nexus_header_enc(h: NexusHeaderView) -> Seq<u8> {
    h.parent_hash + h.prev_state_root + h.state_root + h.avail_header_hash
        + u32_le_bytes(h.number)
}

pub open spec fn rollup_public_inputs_enc(p: RollupPublicInputsView) -> Seq<u8> {
    p.nexus_hash + p.state_root + u32_le_bytes(p.height) + p.start_nexus_hash + p.app_id
        + statement_enc(p.img_id)
}

pub open spec fn tx_params_enc(p: TxParamsView) -> Seq<u8> {
    match p {
        TxParamsView::SubmitProof { proof, nexus_hash, state_root, height, app_id } => seq![0u8]
            + bytes_enc(proof) + nexus_hash + state_root + u32_le_bytes(height) + app_id,
        TxParamsView::InitAccount { app_id, statement, start_nexus_hash } => seq![1u8] + app_id
            + statement_enc(statement) + start_nexus_hash,
    }
}

pub open spec fn tx_enc(t: TxView) -> Seq<u8> {
    t.signature + tx_params_enc(t.params)
}

/// The canonical hash of a transaction: SHA-256 over its encoding.
pub open spec fn tx_hash_of(t: TxView) -> Seq<u8> {
    crate::hash::sha256_of(tx_enc(t))
}

/// The hash of a nexus header: SHA-256 over its canonical encoding.
pub open spec fn header_hash_of(h: NexusHeaderView) -> Seq<u8> {
    crate::hash::sha256_of(nexus_header_enc(h))
}

/// The headers of a store, newest first, as a compact-length sequence.
pub open spec fn headers_enc(hs: Seq<NexusHeaderView>) -> Seq<u8>
    decreases hs.len(),
{
    if hs.len() == 0 {
        Seq::<u8>::empty()
    } else {
        nexus_header_enc(hs[0]) + headers_enc(hs.drop_first())
    }
}

pub open spec fn header_store_enc(headers: Seq<NexusHeaderView>, max_size: int) -> Seq<u8>
    recommends
        headers.len() <= u32::MAX,
        0 <= max_size <= u32::MAX,
{
    compact_u32_bytes(headers.len() as u32) + headers_enc(headers)
        + compact_u32_bytes(max_size as u32)
}

// ---------------------------------------------------------------------------
// Executable encoders. Each appends its encoding to an output vector.
// ---------------------------------------------------------------------------

pub fn push_u32_le(out: &mut Vec<u8>, v: u32)
    ensures
        final(out)@ == old(out)@ + u32_le_bytes(v),
{
    out.push((v % 256) as u8);
    out.push((v / 256 % 256) as u8);
    out.push((v / 65536 % 256) as u8);
    out.push((v / 16777216 % 256) as u8);
    proof {
        assert(final(out)@ =~= old(out)@ + u32_le_bytes(v));
    }
}

pub fn push_u64_le(out: &mut Vec<u8>, v: u64)
    ensures
        final(out)@ == old(out)@ + u64_le_bytes(v),
{
    out.push((v % 256) as u8);
    out.push((v / 256 % 256) as u8);
    out.push((v / 65536 % 256) as u8);
    out.push((v / 16777216 % 256) as u8);
    out.push((v / 4294967296 % 256) as u8);
    out.push((v / 1099511627776 % 256) as u8);
    out.push((v / 281474976710656 % 256) as u8);
    out.push((v / 72057594037927936 % 256) as u8);
    proof {
        assert(final(out)@ =~= old(out)@ + u64_le_bytes(v));
    }
}

pub fn push_compact_u32(out: &mut Vec<u8>, v: u32)
    ensures
        final(out)@ == old(out)@ + compact_u32_bytes(v),
{
    if v < 64 {
        out.push((v * 4) as u8);
        proof {
            assert(final(out)@ =~= old(out)@ + compact_u32_bytes(v));
        }
    } else if v < 16384 {
        let x: u32 = v * 4 + 1;
        out.push((x % 256) as u8);
        out.push((x / 256) as u8);
        proof {
            assert(final(out)@ =~= old(out)@ + compact_u32_bytes(v));
        }
    } else if v < 1073741824 {
        let x: u32 = v * 4 + 2;
        out.push((x % 256) as u8);
        out.push((x / 256 % 256) as u8);
        out.push((x / 65536 % 256) as u8);
        out.push((x / 16777216) as u8);
        proof {
            assert(final(out)@ =~= old(out)@ + compact_u32_bytes(v));
        }
    } else {
        out.push(3u8);
        push_u32_le(out, v);
        proof {
            assert(final(out)@ =~= old(out)@ + compact_u32_bytes(v));
        }
    }
}

pub fn push_h256(out: &mut Vec<u8>, h: &H256)
    ensures
        final(out)@ == old(out)@ + h@,
{
    let mut i: usize = 0;
    while i < 32
        invariant
            i <= 32,
            out@ == old(out)@ + h.0@.take(i as int),
        decreases 32 - i,
    {
        out.push(h.0[i]);
        proof {
            assert(out@ =~= old(out)@ + h.0@.take(i + 1 as int));
        }
        i = i + 1;
    }
    proof {
        assert(h.0@.take(32) =~= h@);
    }
}

pub fn push_bytes(out: &mut Vec<u8>, b: &Vec<u8>)
    requires
        b@.len() <= u32::MAX,
    ensures
        final(out)@ == old(out)@ + bytes_enc(b@),
{
    push_compact_u32(out, b.len() as u32);
    let mut i: usize = 0;
    while i < b.len()
        invariant
            i <= b@.len(),
            b@.len() <= u32::MAX,
            out@ == old(out)@ + compact_u32_bytes(b@.len() as u32) + b@.take(i as int),
        decreases b@.len() - i,
    {
        out.push(b[i]);
        proof {
            assert(out@ =~= old(out)@ + compact_u32_bytes(b@.len() as u32) + b@.take(i + 1 as int));
        }
        i = i + 1;
    }
    proof {
        assert(b@.take(b@.len() as int) =~= b@);
        assert(out@ =~= old(out)@ + bytes_enc(b@));
    }
}

pub fn push_statement(out: &mut Vec<u8>, s: &StatementDigest)
    ensures
        final(out)@ == old(out)@ + statement_enc(s@),
{
    push_u32_le(out, s.0[0]);
    push_u32_le(out, s.0[1]);
    push_u32_le(out, s.0[2]);
    push_u32_le(out, s.0[3]);
    push_u32_le(out, s.0[4]);
    push_u32_le(out, s.0[5]);
    push_u32_le(out, s.0[6]);
    push_u32_le(out, s.0[7]);
    proof {
        assert(final(out)@ =~= old(out)@ + statement_enc(s@));
    }
}

pub fn push_sig(out: &mut Vec<u8>, s: &TxSignature)
    ensures
        final(out)@ == old(out)@ + s@,
{
    let mut i: usize = 0;
    while i < 64
        invariant
            i <= 64,
            out@ == old(out)@ + s.0@.take(i as int),
        decreases 64 - i,
    {
        out.push(s.0[i]);
        proof {
            assert(out@ =~= old(out)@ + s.0@.take(i + 1 as int));
        }
        i = i + 1;
    }
    proof {
        assert(s.0@.take(64) =~= s@);
    }
}

pub fn push_account_state(out: &mut Vec<u8>, a: &AccountState)
    ensures
        final(out)@ == old(out)@ + account_state_enc(a@),
{
    push_statement(out, &a.statement);
    push_h256(out, &a.state_root);
    push_u32_le(out, a.last_proof_height);
    push_h256(out, &a.start_nexus_hash);
    push_u32_le(out, a.height);
    proof {
        assert(final(out)@ =~= old(out)@ + account_state_enc(a@));
    }
}

pub fn push_nexus_header(out: &mut Vec<u8>, h: &NexusHeader)
    ensures
        final(out)@ == old(out)@ + nexus_header_enc(h@),
{
    push_h256(out, &h.parent_hash);
    push_h256(out, &h.prev_state_root);
    push_h256(out, &h.state_root);
    push_h256(out, &h.avail_header_hash);
    push_u32_le(out, h.number);
    proof {
        assert(final(out)@ =~= old(out)@ + nexus_header_enc(h@));
    }
}

pub fn push_rollup_public_inputs(out: &mut Vec<u8>, p: &RollupPublicInputsV2)
    ensures
        final(out)@ == old(out)@ + rollup_public_inputs_enc(p@),
{
    push_h256(out, &p.nexus_hash);
    push_h256(out, &p.state_root);
    push_u32_le(out, p.height);
    push_h256(out, &p.start_nexus_hash);
    let app = p.app_id.as_h256();
    push_h256(out, &app);
    push_statement(out, &p.img_id);
    proof {
        assert(final(out)@ =~= old(out)@ + rollup_public_inputs_enc(p@));
    }
}

pub fn push_tx_params(out: &mut Vec<u8>, p: &TxParamsV2)
    requires
        p is SubmitProof ==> p->SubmitProof_0.proof@.len() <= u32::MAX,
    ensures
        final(out)@ == old(out)@ + tx_params_enc(p@),
{
    match p {
        TxParamsV2::SubmitProof(s) => {
            out.push(0u8);
            push_bytes(out, &s.proof.0);
            push_h256(out, &s.nexus_hash);
            push_h256(out, &s.state_root);
            push_u32_le(out, s.height);
            let app = s.app_id.as_h256();
            push_h256(out, &app);
            proof {
                assert(final(out)@ =~= old(out)@ + tx_params_enc(p@));
            }
        },
        TxParamsV2::InitAccount(i) => {
            out.push(1u8);
            let app = i.app_id.as_h256();
            push_h256(out, &app);
            push_statement(out, &i.statement);
            push_h256(out, &i.start_nexus_hash);
            proof {
                assert(final(out)@ =~= old(out)@ + tx_params_enc(p@));
            }
        },
    }
}

/// Whether a transaction value is small enough to encode: the proof bytes
/// of a `SubmitProof` must carry a 32-bit length prefix.
pub open spec fn tx_encodable(t: TxView) -> bool {
    t.params matches TxParamsView::SubmitProof { proof, .. } ==> proof.len() <= u32::MAX
}

pub fn encode_tx(t: &TransactionV2) -> (r: Vec<u8>)
    requires
        tx_encodable(t@),
    ensures
        r@ == tx_enc(t@),
{
    let mut out: Vec<u8> = Vec::new();
    push_sig(&mut out, &t.signature);
    push_tx_params(&mut out, &t.params);
    proof {
        assert(out@ =~= tx_enc(t@));
    }
    out
}

pub fn encode_zkvm_tx(t: &TransactionZKVM) -> (r: Vec<u8>)
    requires
        tx_encodable(t@),
    ensures
        r@ == tx_enc(t@),
{
    let mut out: Vec<u8> = Vec::new();
    push_sig(&mut out, &t.signature);
    push_tx_params(&mut out, &t.params);
    proof {
        assert(out@ =~= tx_enc(t@));
    }
    out
}

pub fn encode_account_state(a: &AccountState) -> (r: Vec<u8>)
    ensures
        r@ == account_state_enc(a@),
{
    let mut out: Vec<u8> = Vec::new();
    push_account_state(&mut out, a);
    proof {
        assert(out@ =~= account_state_enc(a@));
    }
    out
}

pub fn encode_nexus_header(h: &NexusHeader) -> (r: Vec<u8>)
    ensures
        r@ == nexus_header_enc(h@),
{
    let mut out: Vec<u8> = Vec::new();
    push_nexus_header(&mut out, h);
    proof {
        assert(out@ =~= nexus_header_enc(h@));
    }
    out
}

pub fn encode_rollup_public_inputs(p: &RollupPublicInputsV2) -> (r: Vec<u8>)
    ensures
        r@ == rollup_public_inputs_enc(p@),
{
    let mut out: Vec<u8> = Vec::new();
    push_rollup_public_inputs(&mut out, p);
    proof {
        assert(out@ =~= rollup_public_inputs_enc(p@));
    }
    out
}


/// One transaction outcome inside a block body: the hash and a result
/// byte.
pub open spec fn tx_result_enc(t: TransactionResult) -> Seq<u8> {
    t.hash@ + seq![if t.result { 1u8 } else { 0u8 }]
}

pub open spec fn tx_results_enc(s: Seq<TransactionResult>) -> Seq<u8>
    decreases s.len(),
{
    if s.len() == 0 {
        Seq::<u8>::empty()
    } else {
        tx_result_enc(s[0]) + tx_results_enc(s.drop_first())
    }
}

/// The persisted block body: the header, the per-transaction outcomes,
/// and the tree version the state was committed at.
pub open spec fn nexus_block_enc(b: NexusBlockWithPointers) -> Seq<u8>
    recommends
        b.block.transactions@.len() <= u32::MAX,
{
    nexus_header_enc(b.block.header@) + compact_u32_bytes(b.block.transactions@.len() as u32)
        + tx_results_enc(b.block.transactions@) + u64_le_bytes(b.jmt_version)
}

pub proof fn lemma_tx_results_enc_snoc(s: Seq<TransactionResult>, t: TransactionResult)
    ensures
        tx_results_enc(s.push(t)) == tx_results_enc(s) + tx_result_enc(t),
    decreases s.len(),
{
    reveal_with_fuel(tx_results_enc, 3);
    if s.len() == 0 {
        assert(s.push(t)[0] == t);
        assert(s.push(t).drop_first() =~= Seq::<TransactionResult>::empty());
        assert(tx_results_enc(s.push(t)) =~= tx_result_enc(t));
        assert(tx_results_enc(s) + tx_result_enc(t) =~= tx_result_enc(t));
    } else {
        assert(s.push(t)[0] == s[0]);
        assert(s.push(t).drop_first() =~= s.drop_first().push(t));
        lemma_tx_results_enc_snoc(s.drop_first(), t);
        assert(tx_results_enc(s.push(t)) =~= tx_results_enc(s) + tx_result_enc(t));
    }
}

/// Encodes a persisted block body.
pub fn encode_nexus_block(b: &NexusBlockWithPointers) -> (r: Vec<u8>)
    requires
        b.block.transactions@.len() <= u32::MAX,
    ensures
        r@ == nexus_block_enc(*b),
{
    let mut out: Vec<u8> = Vec::new();
    push_nexus_header(&mut out, &b.block.header);
    push_compact_u32(&mut out, b.block.transactions.len() as u32);
    let ghost prefix = out@;
    let mut i: usize = 0;
    while i < b.block.transactions.len()
        invariant
            i <= b.block.transactions@.len(),
            out@ == prefix + tx_results_enc(b.block.transactions@.take(i as int)),
        decreases b.block.transactions@.len() - i,
    {
        let t = b.block.transactions[i];
        push_h256(&mut out, &t.hash);
        out.push(if t.result {
            1u8
        } else {
            0u8
        });
        proof {
            lemma_tx_results_enc_snoc(
                b.block.transactions@.take(i as int),
                b.block.transactions@[i as int],
            );
            assert(b.block.transactions@.take(i as int).push(b.block.transactions@[i as int])
                =~= b.block.transactions@.take(i + 1 as int));
            assert(out@ =~= prefix + tx_results_enc(b.block.transactions@.take(i + 1 as int)));
        }
        i = i + 1;
    }
    proof {
        assert(b.block.transactions@.take(b.block.transactions@.len() as int)
            =~= b.block.transactions@);
    }
    push_u64_le(&mut out, b.jmt_version);
    proof {
        assert(out@ =~= nexus_block_enc(*b));
    }
    out
}

// ---------------------------------------------------------------------------
// Spec decoders: partial inverses of the encoders, over byte sequences and
// a read position. `None` is a malformed or truncated input.
// ---------------------------------------------------------------------------

/// The integer read from four little-endian bytes at `i`.
pub open spec fn le_u32_at(s: Seq<u8>, i: int) -> int
    recommends
        0 <= i,
        i + 4 <= s.len(),
{
    s[i] as int + s[i + 1] as int * 256 + s[i + 2] as int * 65536 + s[i + 3] as int * 16777216
}

pub open spec fn dec_u32_le(s: Seq<u8>, i: int) -> Option<(u32, int)> {
    if 0 <= i && i + 4 <= s.len() {
        Some((le_u32_at(s, i) as u32, i + 4))
    } else {
        None
    }
}

pub open spec fn dec_compact_u32(s: Seq<u8>, i: int) -> Option<(u32, int)> {
    if !(0 <= i && i + 1 <= s.len()) {
        None
    } else {
        let b0 = s[i] as int;
        let tag = b0 % 4;
        if tag == 0 {
            Some(((b0 / 4) as u32, i + 1))
        } else if tag == 1 {
            if i + 2 <= s.len() {
                Some((((b0 + s[i + 1] as int * 256) / 4) as u32, i + 2))
            } else {
                None
            }
        } else if tag == 2 {
            if i + 4 <= s.len() {
                Some(((le_u32_at(s, i) / 4) as u32, i + 4))
            } else {
                None
            }
        } else {
            if b0 == 3 && i + 5 <= s.len() {
                Some((le_u32_at(s, i + 1) as u32, i + 5))
            } else {
                None
            }
        }
    }
}

pub open spec fn dec_fixed(s: Seq<u8>, i: int, n: int) -> Option<(Seq<u8>, int)> {
    if 0 <= i && 0 <= n && i + n <= s.len() {
        Some((s.subrange(i, i + n), i + n))
    } else {
        None
    }
}

pub open spec fn dec_statement(s: Seq<u8>, i: int) -> Option<(Seq<u32>, int)> {
    if 0 <= i && i + 32 <= s.len() {
        Some(
            (
                seq![
                    le_u32_at(s, i) as u32,
                    le_u32_at(s, i + 4) as u32,
                    le_u32_at(s, i + 8) as u32,
                    le_u32_at(s, i + 12) as u32,
                    le_u32_at(s, i + 16) as u32,
                    le_u32_at(s, i + 20) as u32,
                    le_u32_at(s, i + 24) as u32,
                    le_u32_at(s, i + 28) as u32,
                ],
                i + 32,
            ),
        )
    } else {
        None
    }
}

pub open spec fn dec_bytes(s: Seq<u8>, i: int) -> Option<(Seq<u8>, int)> {
    match dec_compact_u32(s, i) {
        None => None,
        Some((n, j)) => dec_fixed(s, j, n as int),
    }
}

// ---------------------------------------------------------------------------
// Recomposition facts for the primitive decoders.
// ---------------------------------------------------------------------------

/// Reading back the four little-endian bytes of `v` yields `v`.
pub proof fn lemma_le_recompose_4(v: int)
    requires
        0 <= v < 0x100000000,
    ensures
        v % 256 + (v / 256 % 256) * 256 + (v / 65536 % 256) * 65536 + (v / 16777216 % 256)
            * 16777216 == v,
{
    lemma_fundamental_div_mod(v, 256);
    lemma_fundamental_div_mod(v / 256, 256);
    lemma_div_denominator(v, 256, 256);
    lemma_fundamental_div_mod(v / 65536, 256);
    lemma_div_denominator(v, 65536, 256);
    lemma_div_is_ordered(v, 0xffffffff, 16777216);
    assert(0xffffffffint / 16777216 == 255);
    lemma_small_mod((v / 16777216) as nat, 256);
}

/// A helper to read one element of an encoded piece out of the larger
/// buffer that contains it.
pub proof fn lemma_sub_index(s: Seq<u8>, i: int, e: Seq<u8>, k: int)
    requires
        0 <= i,
        i + e.len() <= s.len(),
        s.subrange(i, i + e.len() as int) == e,
        0 <= k < e.len(),
    ensures
        s[i + k] == e[k],
{
    assert(s[i + k] == s.subrange(i, i + e.len() as int)[k]);
}

/// A piece of an encoding placed in a larger buffer is itself in place.
pub proof fn lemma_slice_piece(s: Seq<u8>, i: int, e: Seq<u8>, a: int, b: int)
    requires
        0 <= i,
        i + e.len() <= s.len(),
        s.subrange(i, i + e.len() as int) == e,
        0 <= a <= b <= e.len(),
    ensures
        s.subrange(i + a, i + b) == e.subrange(a, b),
{
    assert forall|k: int| 0 <= k < b - a implies s.subrange(i + a, i + b)[k] == e.subrange(a, b)[k]
    by {
        lemma_sub_index(s, i, e, a + k);
    }
    assert(s.subrange(i + a, i + b) =~= e.subrange(a, b));
}

pub proof fn lemma_rt_u32_le(s: Seq<u8>, i: int, v: u32)
    requires
        0 <= i,
        i + 4 <= s.len(),
        s.subrange(i, i + 4) == u32_le_bytes(v),
    ensures
        dec_u32_le(s, i) == Some((v, i + 4)),
{
    lemma_sub_index(s, i, u32_le_bytes(v), 0);
    lemma_sub_index(s, i, u32_le_bytes(v), 1);
    lemma_sub_index(s, i, u32_le_bytes(v), 2);
    lemma_sub_index(s, i, u32_le_bytes(v), 3);
    lemma_le_recompose_4(v as int);
}

pub proof fn lemma_rt_compact_u32(s: Seq<u8>, i: int, v: u32)
    requires
        0 <= i,
        i + compact_u32_bytes(v).len() <= s.len(),
        s.subrange(i, i + compact_u32_bytes(v).len() as int) == compact_u32_bytes(v),
    ensures
        dec_compact_u32(s, i) == Some((v, i + compact_u32_bytes(v).len() as int)),
{
    let e = compact_u32_bytes(v);
    if v < 64 {
        lemma_sub_index(s, i, e, 0);
        assert(s[i] as int == v as int * 4);
        lemma_mod_multiples_vanish(v as int, 0, 4);
        lemma_fundamental_div_mod(v as int * 4, 4);
    } else if v < 16384 {
        let x = v as int * 4 + 1;
        lemma_sub_index(s, i, e, 0);
        lemma_sub_index(s, i, e, 1);
        assert(s[i] as int == x % 256 && s[i + 1] as int == x / 256);
        lemma_fundamental_div_mod(x, 256);
        assert(s[i] as int + s[i + 1] as int * 256 == x);
        lemma_mod_mod(x, 4, 64);
        lemma_mod_multiples_vanish(v as int, 1, 4);
        assert((s[i] as int) % 4 == 1);
        lemma_fundamental_div_mod(x, 4);
        assert(x / 4 == v);
    } else if v < 1073741824 {
        let x = v as int * 4 + 2;
        lemma_sub_index(s, i, e, 0);
        lemma_sub_index(s, i, e, 1);
        lemma_sub_index(s, i, e, 2);
        lemma_sub_index(s, i, e, 3);
        lemma_le_recompose_4(x);
        assert(le_u32_at(s, i) == x);
        lemma_mod_mod(x, 4, 64);
        lemma_mod_multiples_vanish(v as int, 2, 4);
        assert((s[i] as int) % 4 == 2);
        lemma_fundamental_div_mod(x, 4);
        assert(x / 4 == v);
    } else {
        lemma_sub_index(s, i, e, 0);
        assert(s[i] == 3u8);
        lemma_slice_piece(s, i, e, 1, 5);
        assert(e.subrange(1, 5) =~= u32_le_bytes(v));
        lemma_rt_u32_le(s, i + 1, v);
    }
}

pub proof fn lemma_rt_fixed(s: Seq<u8>, i: int, b: Seq<u8>)
    requires
        0 <= i,
        i + b.len() <= s.len(),
        s.subrange(i, i + b.len() as int) == b,
    ensures
        dec_fixed(s, i, b.len() as int) == Some((b, i + b.len() as int)),
{
}

pub proof fn lemma_rt_statement_word(s: Seq<u8>, i: int, st: Seq<u32>, k: int)
    requires
        0 <= i,
        st.len() == 8,
        i + 32 <= s.len(),
        s.subrange(i, i + 32) == statement_enc(st),
        0 <= k < 8,
    ensures
        le_u32_at(s, i + 4 * k) == st[k],
{
    let e = statement_enc(st);
    assert(e.subrange(4 * k, 4 * k + 4) =~= u32_le_bytes(st[k]));
    lemma_slice_piece(s, i, e, 4 * k, 4 * k + 4);
    lemma_rt_u32_le(s, i + 4 * k, st[k]);
    lemma_sub_index(s, i + 4 * k, u32_le_bytes(st[k]), 0);
}

pub proof fn lemma_rt_statement(s: Seq<u8>, i: int, st: Seq<u32>)
    requires
        0 <= i,
        st.len() == 8,
        i + 32 <= s.len(),
        s.subrange(i, i + 32) == statement_enc(st),
    ensures
        dec_statement(s, i) == Some((st, i + 32)),
{
    lemma_rt_statement_word(s, i, st, 0);
    lemma_rt_statement_word(s, i, st, 1);
    lemma_rt_statement_word(s, i, st, 2);
    lemma_rt_statement_word(s, i, st, 3);
    lemma_rt_statement_word(s, i, st, 4);
    lemma_rt_statement_word(s, i, st, 5);
    lemma_rt_statement_word(s, i, st, 6);
    lemma_rt_statement_word(s, i, st, 7);
    assert(dec_statement(s, i)->Some_0.0 =~= st);
}

pub proof fn lemma_rt_bytes(s: Seq<u8>, i: int, b: Seq<u8>)
    requires
        0 <= i,
        b.len() <= u32::MAX,
        i + bytes_enc(b).len() <= s.len(),
        s.subrange(i, i + bytes_enc(b).len() as int) == bytes_enc(b),
    ensures
        dec_bytes(s, i) == Some((b, i + bytes_enc(b).len() as int)),
{
    let e = bytes_enc(b);
    let c = compact_u32_bytes(b.len() as u32);
    lemma_slice_piece(s, i, e, 0, c.len() as int);
    assert(e.subrange(0, c.len() as int) =~= c);
    lemma_rt_compact_u32(s, i, b.len() as u32);
    lemma_slice_piece(s, i, e, c.len() as int, e.len() as int);
    assert(e.subrange(c.len() as int, e.len() as int) =~= b);
    lemma_rt_fixed(s, i + c.len(), b);
}


// ---------------------------------------------------------------------------
// Struct-level spec decoders.
// ---------------------------------------------------------------------------

pub open spec fn dec_account_state(s: Seq<u8>, i: int) -> Option<(AccountStateView, int)> {
    match dec_statement(s, i) {
        None => None,
        Some((st, j1)) => match dec_fixed(s, j1, 32) {
            None => None,
            Some((root, j2)) => match dec_u32_le(s, j2) {
                None => None,
                Some((lph, j3)) => match dec_fixed(s, j3, 32) {
                    None => None,
                    Some((start, j4)) => match dec_u32_le(s, j4) {
                        None => None,
                        Some((h, j5)) => Some(
                            (
                                AccountStateView {
                                    statement: st,
                                    state_root: root,
                                    last_proof_height: lph,
                                    start_nexus_hash: start,
                                    height: h,
                                },
                                j5,
                            ),
                        ),
                    },
                },
            },
        },
    }
}

pub open spec fn dec_nexus_header(s: Seq<u8>, i: int) -> Option<(NexusHeaderView, int)> {
    match dec_fixed(s, i, 32) {
        None => None,
        Some((parent, j1)) => match dec_fixed(s, j1, 32) {
            None => None,
            Some((prev, j2)) => match dec_fixed(s, j2, 32) {
                None => None,
                Some((root, j3)) => match dec_fixed(s, j3, 32) {
                    None => None,
                    Some((avail, j4)) => match dec_u32_le(s, j4) {
                        None => None,
                        Some((n, j5)) => Some(
                            (
                                NexusHeaderView {
                                    parent_hash: parent,
                                    prev_state_root: prev,
                                    state_root: root,
                                    avail_header_hash: avail,
                                    number: n,
                                },
                                j5,
                            ),
                        ),
                    },
                },
            },
        },
    }
}

pub open spec fn dec_rollup_public_inputs(s: Seq<u8>, i: int) -> Option<
    (RollupPublicInputsView, int),
> {
    match dec_fixed(s, i, 32) {
        None => None,
        Some((nexus, j1)) => match dec_fixed(s, j1, 32) {
            None => None,
            Some((root, j2)) => match dec_u32_le(s, j2) {
                None => None,
                Some((h, j3)) => match dec_fixed(s, j3, 32) {
                    None => None,
                    Some((start, j4)) => match dec_fixed(s, j4, 32) {
                        None => None,
                        Some((app, j5)) => match dec_statement(s, j5) {
                            None => None,
                            Some((img, j6)) => Some(
                                (
                                    RollupPublicInputsView {
                                        nexus_hash: nexus,
                                        state_root: root,
                                        height: h,
                                        start_nexus_hash: start,
                                        app_id: app,
                                        img_id: img,
                                    },
                                    j6,
                                ),
                            ),
                        },
                    },
                },
            },
        },
    }
}

pub open spec fn dec_tx_params(s: Seq<u8>, i: int) -> Option<(TxParamsView, int)> {
    if !(0 <= i && i + 1 <= s.len()) {
        None
    } else if s[i] == 0u8 {
        match dec_bytes(s, i + 1) {
            None => None,
            Some((proof, j1)) => match dec_fixed(s, j1, 32) {
                None => None,
                Some((nexus, j2)) => match dec_fixed(s, j2, 32) {
                    None => None,
                    Some((root, j3)) => match dec_u32_le(s, j3) {
                        None => None,
                        Some((h, j4)) => match dec_fixed(s, j4, 32) {
                            None => None,
                            Some((app, j5)) => Some(
                                (
                                    TxParamsView::SubmitProof {
                                        proof: proof,
                                        nexus_hash: nexus,
                                        state_root: root,
                                        height: h,
                                        app_id: app,
                                    },
                                    j5,
                                ),
                            ),
                        },
                    },
                },
            },
        }
    } else if s[i] == 1u8 {
        match dec_fixed(s, i + 1, 32) {
            None => None,
            Some((app, j1)) => match dec_statement(s, j1) {
                None => None,
                Some((st, j2)) => match dec_fixed(s, j2, 32) {
                    None => None,
                    Some((start, j3)) => Some(
                        (
                            TxParamsView::InitAccount {
                                app_id: app,
                                statement: st,
                                start_nexus_hash: start,
                            },
                            j3,
                        ),
                    ),
                },
            },
        }
    } else {
        None
    }
}

pub open spec fn dec_tx(s: Seq<u8>, i: int) -> Option<(TxView, int)> {
    match dec_fixed(s, i, 64) {
        None => None,
        Some((sig, j1)) => match dec_tx_params(s, j1) {
            None => None,
            Some((params, j2)) => Some((TxView { signature: sig, params: params }, j2)),
        },
    }
}

pub open spec fn dec_headers(s: Seq<u8>, i: int, n: int) -> Option<(Seq<NexusHeaderView>, int)>
    decreases n,
{
    if n <= 0 {
        Some((Seq::<NexusHeaderView>::empty(), i))
    } else {
        match dec_nexus_header(s, i) {
            None => None,
            Some((h, j)) => match dec_headers(s, j, n - 1) {
                None => None,
                Some((rest, k)) => Some((seq![h] + rest, k)),
            },
        }
    }
}

/// A decoded header store must also be well formed: at most `max_size`
/// headers and a positive bound.
pub open spec fn dec_header_store(s: Seq<u8>, i: int) -> Option<
    ((Seq<NexusHeaderView>, u32), int),
> {
    match dec_compact_u32(s, i) {
        None => None,
        Some((n, j1)) => match dec_headers(s, j1, n as int) {
            None => None,
            Some((hs, j2)) => match dec_compact_u32(s, j2) {
                None => None,
                Some((max, j3)) => if 1 <= max && n <= max {
                    Some(((hs, max), j3))
                } else {
                    None
                },
            },
        },
    }
}

// ---------------------------------------------------------------------------
// Round trips for the struct decoders.
// ---------------------------------------------------------------------------

/// Well-formed field widths of a header value: every digest is 32 bytes.
pub open spec fn header_view_wf(h: NexusHeaderView) -> bool {
    h.parent_hash.len() == 32 && h.prev_state_root.len() == 32 && h.state_root.len() == 32
        && h.avail_header_hash.len() == 32
}

/// Well-formed field widths of an account value.
pub open spec fn account_view_wf(a: AccountStateView) -> bool {
    a.statement.len() == 8 && a.state_root.len() == 32 && a.start_nexus_hash.len() == 32
}

/// Well-formed field widths of public-input values.
pub open spec fn public_inputs_view_wf(p: RollupPublicInputsView) -> bool {
    p.nexus_hash.len() == 32 && p.state_root.len() == 32 && p.start_nexus_hash.len() == 32
        && p.app_id.len() == 32 && p.img_id.len() == 8
}

/// Well-formed field widths of a transaction value.
pub open spec fn tx_view_wf(t: TxView) -> bool {
    t.signature.len() == 64 && match t.params {
        TxParamsView::SubmitProof { proof, nexus_hash, state_root, height, app_id } => {
            proof.len() <= u32::MAX && nexus_hash.len() == 32 && state_root.len() == 32
                && app_id.len() == 32
        },
        TxParamsView::InitAccount { app_id, statement, start_nexus_hash } => {
            app_id.len() == 32 && statement.len() == 8 && start_nexus_hash.len() == 32
        },
    }
}

#[verifier::rlimit(60)]
pub proof fn lemma_rt_account_state(s: Seq<u8>, i: int, a: AccountStateView)
    requires
        0 <= i,
        account_view_wf(a),
        i + account_state_enc(a).len() <= s.len(),
        s.subrange(i, i + account_state_enc(a).len() as int) == account_state_enc(a),
    ensures
        account_state_enc(a).len() == 104,
        dec_account_state(s, i) == Some((a, i + 104)),
{
    let e = account_state_enc(a);
    assert(e.len() == 104);
    lemma_slice_piece(s, i, e, 0, 32);
    assert(e.subrange(0, 32) =~= statement_enc(a.statement));
    lemma_rt_statement(s, i, a.statement);
    lemma_slice_piece(s, i, e, 32, 64);
    assert(e.subrange(32, 64) =~= a.state_root);
    lemma_rt_fixed(s, i + 32, a.state_root);
    lemma_slice_piece(s, i, e, 64, 68);
    assert(e.subrange(64, 68) =~= u32_le_bytes(a.last_proof_height));
    lemma_rt_u32_le(s, i + 64, a.last_proof_height);
    lemma_slice_piece(s, i, e, 68, 100);
    assert(e.subrange(68, 100) =~= a.start_nexus_hash);
    lemma_rt_fixed(s, i + 68, a.start_nexus_hash);
    lemma_slice_piece(s, i, e, 100, 104);
    assert(e.subrange(100, 104) =~= u32_le_bytes(a.height));
    lemma_rt_u32_le(s, i + 100, a.height);
}

#[verifier::rlimit(60)]
pub proof fn lemma_rt_nexus_header(s: Seq<u8>, i: int, h: NexusHeaderView)
    requires
        0 <= i,
        header_view_wf(h),
        i + nexus_header_enc(h).len() <= s.len(),
        s.subrange(i, i + nexus_header_enc(h).len() as int) == nexus_header_enc(h),
    ensures
        nexus_header_enc(h).len() == 132,
        dec_nexus_header(s, i) == Some((h, i + 132)),
{
    let e = nexus_header_enc(h);
    assert(e.len() == 132);
    lemma_slice_piece(s, i, e, 0, 32);
    assert(e.subrange(0, 32) =~= h.parent_hash);
    lemma_rt_fixed(s, i, h.parent_hash);
    lemma_slice_piece(s, i, e, 32, 64);
    assert(e.subrange(32, 64) =~= h.prev_state_root);
    lemma_rt_fixed(s, i + 32, h.prev_state_root);
    lemma_slice_piece(s, i, e, 64, 96);
    assert(e.subrange(64, 96) =~= h.state_root);
    lemma_rt_fixed(s, i + 64, h.state_root);
    lemma_slice_piece(s, i, e, 96, 128);
    assert(e.subrange(96, 128) =~= h.avail_header_hash);
    lemma_rt_fixed(s, i + 96, h.avail_header_hash);
    lemma_slice_piece(s, i, e, 128, 132);
    assert(e.subrange(128, 132) =~= u32_le_bytes(h.number));
    lemma_rt_u32_le(s, i + 128, h.number);
}

#[verifier::rlimit(60)]
pub proof fn lemma_rt_rollup_public_inputs(s: Seq<u8>, i: int, p: RollupPublicInputsView)
    requires
        0 <= i,
        public_inputs_view_wf(p),
        i + rollup_public_inputs_enc(p).len() <= s.len(),
        s.subrange(i, i + rollup_public_inputs_enc(p).len() as int) == rollup_public_inputs_enc(p),
    ensures
        rollup_public_inputs_enc(p).len() == 164,
        dec_rollup_public_inputs(s, i) == Some((p, i + 164)),
{
    let e = rollup_public_inputs_enc(p);
    assert(e.len() == 164);
    lemma_slice_piece(s, i, e, 0, 32);
    assert(e.subrange(0, 32) =~= p.nexus_hash);
    lemma_rt_fixed(s, i, p.nexus_hash);
    lemma_slice_piece(s, i, e, 32, 64);
    assert(e.subrange(32, 64) =~= p.state_root);
    lemma_rt_fixed(s, i + 32, p.state_root);
    lemma_slice_piece(s, i, e, 64, 68);
    assert(e.subrange(64, 68) =~= u32_le_bytes(p.height));
    lemma_rt_u32_le(s, i + 64, p.height);
    lemma_slice_piece(s, i, e, 68, 100);
    assert(e.subrange(68, 100) =~= p.start_nexus_hash);
    lemma_rt_fixed(s, i + 68, p.start_nexus_hash);
    lemma_slice_piece(s, i, e, 100, 132);
    assert(e.subrange(100, 132) =~= p.app_id);
    lemma_rt_fixed(s, i + 100, p.app_id);
    lemma_slice_piece(s, i, e, 132, 164);
    assert(e.subrange(132, 164) =~= statement_enc(p.img_id));
    lemma_rt_statement(s, i + 132, p.img_id);
}

#[verifier::rlimit(100)]
#[verifier::spinoff_prover]
pub proof fn lemma_rt_tx_params(s: Seq<u8>, i: int, p: TxParamsView)
    requires
        0 <= i,
        tx_view_wf(TxView { signature: Seq::<u8>::new(64, |k: int| 0u8), params: p }),
        i + tx_params_enc(p).len() <= s.len(),
        s.subrange(i, i + tx_params_enc(p).len() as int) == tx_params_enc(p),
    ensures
        dec_tx_params(s, i) == Some((p, i + tx_params_enc(p).len() as int)),
{
    let e = tx_params_enc(p);
    lemma_sub_index(s, i, e, 0);
    match p {
        TxParamsView::SubmitProof { proof, nexus_hash, state_root, height, app_id } => {
            let c = bytes_enc(proof);
            let o1 = 1 + c.len() as int;
            assert(s[i] == 0u8);
            lemma_slice_piece(s, i, e, 1, o1);
            assert(e.subrange(1, o1) =~= c);
            lemma_rt_bytes(s, i + 1, proof);
            lemma_slice_piece(s, i, e, o1, o1 + 32);
            assert(e.subrange(o1, o1 + 32) =~= nexus_hash);
            lemma_rt_fixed(s, i + o1, nexus_hash);
            lemma_slice_piece(s, i, e, o1 + 32, o1 + 64);
            assert(e.subrange(o1 + 32, o1 + 64) =~= state_root);
            lemma_rt_fixed(s, i + o1 + 32, state_root);
            lemma_slice_piece(s, i, e, o1 + 64, o1 + 68);
            assert(e.subrange(o1 + 64, o1 + 68) =~= u32_le_bytes(height));
            lemma_rt_u32_le(s, i + o1 + 64, height);
            lemma_slice_piece(s, i, e, o1 + 68, o1 + 100);
            assert(e.subrange(o1 + 68, o1 + 100) =~= app_id);
            lemma_rt_fixed(s, i + o1 + 68, app_id);
        },
        TxParamsView::InitAccount { app_id, statement, start_nexus_hash } => {
            assert(s[i] == 1u8);
            lemma_slice_piece(s, i, e, 1, 33);
            assert(e.subrange(1, 33) =~= app_id);
            lemma_rt_fixed(s, i + 1, app_id);
            lemma_slice_piece(s, i, e, 33, 65);
            assert(e.subrange(33, 65) =~= statement_enc(statement));
            lemma_rt_statement(s, i + 33, statement);
            lemma_slice_piece(s, i, e, 65, 97);
            assert(e.subrange(65, 97) =~= start_nexus_hash);
            lemma_rt_fixed(s, i + 65, start_nexus_hash);
        },
    }
}

/// Encode-then-decode of a transaction is the identity.
pub proof fn lemma_rt_tx(s: Seq<u8>, i: int, t: TxView)
    requires
        0 <= i,
        tx_view_wf(t),
        i + tx_enc(t).len() <= s.len(),
        s.subrange(i, i + tx_enc(t).len() as int) == tx_enc(t),
    ensures
        dec_tx(s, i) == Some((t, i + tx_enc(t).len() as int)),
{
    let e = tx_enc(t);
    lemma_slice_piece(s, i, e, 0, 64);
    assert(e.subrange(0, 64) =~= t.signature);
    lemma_rt_fixed(s, i, t.signature);
    lemma_slice_piece(s, i, e, 64, e.len() as int);
    assert(e.subrange(64, e.len() as int) =~= tx_params_enc(t.params));
    lemma_rt_tx_params(s, i + 64, t.params);
}

/// The length of an encoded header sequence.
pub proof fn lemma_headers_enc_len(hs: Seq<NexusHeaderView>)
    requires
        forall|k: int| 0 <= k < hs.len() ==> header_view_wf(#[trigger] hs[k]),
    ensures
        headers_enc(hs).len() == 132 * hs.len(),
    decreases hs.len(),
{
    if hs.len() > 0 {
        lemma_headers_enc_len(hs.drop_first());
    }
}

pub proof fn lemma_rt_headers(s: Seq<u8>, i: int, hs: Seq<NexusHeaderView>)
    requires
        0 <= i,
        forall|k: int| 0 <= k < hs.len() ==> header_view_wf(#[trigger] hs[k]),
        i + headers_enc(hs).len() <= s.len(),
        s.subrange(i, i + headers_enc(hs).len() as int) == headers_enc(hs),
    ensures
        dec_headers(s, i, hs.len() as int) == Some((hs, i + headers_enc(hs).len() as int)),
    decreases hs.len(),
{
    let e = headers_enc(hs);
    lemma_headers_enc_len(hs);
    if hs.len() == 0 {
        assert(dec_headers(s, i, 0) == Some((Seq::<NexusHeaderView>::empty(), i)));
        assert(hs =~= Seq::<NexusHeaderView>::empty());
    } else {
        let h0 = hs[0];
        let rest = hs.drop_first();
        lemma_headers_enc_len(rest);
        lemma_slice_piece(s, i, e, 0, 132);
        assert(e.subrange(0, 132) =~= nexus_header_enc(h0));
        lemma_rt_nexus_header(s, i, h0);
        lemma_slice_piece(s, i, e, 132, e.len() as int);
        assert(e.subrange(132, e.len() as int) =~= headers_enc(rest));
        lemma_rt_headers(s, i + 132, rest);
        assert(seq![h0] + rest =~= hs);
    }
}

/// Encode-then-decode of a header store is the identity, for a well-formed
/// store.
pub proof fn lemma_rt_header_store(s: Seq<u8>, i: int, hs: Seq<NexusHeaderView>, max_size: int)
    requires
        0 <= i,
        forall|k: int| 0 <= k < hs.len() ==> header_view_wf(#[trigger] hs[k]),
        hs.len() <= max_size,
        1 <= max_size <= u32::MAX,
        i + header_store_enc(hs, max_size).len() <= s.len(),
        s.subrange(i, i + header_store_enc(hs, max_size).len() as int) == header_store_enc(
            hs,
            max_size,
        ),
    ensures
        dec_header_store(s, i) == Some(
            ((hs, max_size as u32), i + header_store_enc(hs, max_size).len() as int),
        ),
{
    let e = header_store_enc(hs, max_size);
    let c1 = compact_u32_bytes(hs.len() as u32);
    let he = headers_enc(hs);
    let c2 = compact_u32_bytes(max_size as u32);
    lemma_headers_enc_len(hs);
    let o1 = c1.len() as int;
    let o2 = o1 + he.len() as int;
    lemma_slice_piece(s, i, e, 0, o1);
    assert(e.subrange(0, o1) =~= c1);
    lemma_rt_compact_u32(s, i, hs.len() as u32);
    lemma_slice_piece(s, i, e, o1, o2);
    assert(e.subrange(o1, o2) =~= he);
    lemma_rt_headers(s, i + o1, hs);
    lemma_slice_piece(s, i, e, o2, e.len() as int);
    assert(e.subrange(o2, e.len() as int) =~= c2);
    lemma_rt_compact_u32(s, i + o2, max_size as u32);
}


// ---------------------------------------------------------------------------
// Executable decoders. Each one returns exactly what its spec decoder
// reads, or an error where the spec decoder reads nothing.
// ---------------------------------------------------------------------------

pub fn decode_u32_le(buf: &Vec<u8>, pos: usize) -> (r: Result<(u32, usize), NexusError>)
    ensures
        r matches Ok(t) ==> dec_u32_le(buf@, pos as int) == Some((t.0, t.1 as int)) && t.1 <= buf@.len(),
        r is Err ==> dec_u32_le(buf@, pos as int) is None,
{
    if pos <= buf.len() && buf.len() - pos >= 4 {
        let v: u32 = buf[pos] as u32 + buf[pos + 1] as u32 * 256 + buf[pos + 2] as u32 * 65536
            + buf[pos + 3] as u32 * 16777216;
        Ok((v, pos + 4))
    } else {
        Err(NexusError::CodecInvalid)
    }
}

pub fn decode_compact_u32(buf: &Vec<u8>, pos: usize) -> (r: Result<(u32, usize), NexusError>)
    ensures
        r matches Ok(t) ==> dec_compact_u32(buf@, pos as int) == Some((t.0, t.1 as int)) && t.1 <= buf@.len(),
        r is Err ==> dec_compact_u32(buf@, pos as int) is None,
{
    if !(pos < buf.len()) {
        return Err(NexusError::CodecInvalid);
    }
    let b0 = buf[pos];
    let tag = b0 % 4;
    if tag == 0 {
        Ok(((b0 / 4) as u32, pos + 1))
    } else if tag == 1 {
        if buf.len() - pos >= 2 {
            let x: u32 = b0 as u32 + buf[pos + 1] as u32 * 256;
            Ok((x / 4, pos + 2))
        } else {
            Err(NexusError::CodecInvalid)
        }
    } else if tag == 2 {
        if buf.len() - pos >= 4 {
            let x: u32 = b0 as u32 + buf[pos + 1] as u32 * 256 + buf[pos + 2] as u32 * 65536
                + buf[pos + 3] as u32 * 16777216;
            Ok((x / 4, pos + 4))
        } else {
            Err(NexusError::CodecInvalid)
        }
    } else {
        if b0 == 3 && buf.len() - pos >= 5 {
            let v: u32 = buf[pos + 1] as u32 + buf[pos + 2] as u32 * 256 + buf[pos + 3] as u32
                * 65536 + buf[pos + 4] as u32 * 16777216;
            Ok((v, pos + 5))
        } else {
            Err(NexusError::CodecInvalid)
        }
    }
}

pub fn decode_h256(buf: &Vec<u8>, pos: usize) -> (r: Result<(H256, usize), NexusError>)
    ensures
        r matches Ok(t) ==> dec_fixed(buf@, pos as int, 32) == Some((t.0@, t.1 as int)) && t.1 <= buf@.len(),
        r is Err ==> dec_fixed(buf@, pos as int, 32) is None,
{
    if pos <= buf.len() && buf.len() - pos >= 32 {
        let mut arr = [0u8; 32];
        let mut k: usize = 0;
        while k < 32
            invariant
                pos + 32 <= buf@.len(),
                buf@.len() <= usize::MAX,
                k <= 32,
                forall|m: int| 0 <= m < k ==> arr@[m] == buf@[pos + m],
            decreases 32 - k,
        {
            arr[k] = buf[pos + k];
            k = k + 1;
        }
        proof {
            assert(arr@ =~= buf@.subrange(pos as int, pos as int + 32));
        }
        Ok((H256(arr), pos + 32))
    } else {
        Err(NexusError::CodecInvalid)
    }
}

pub fn decode_sig(buf: &Vec<u8>, pos: usize) -> (r: Result<(TxSignature, usize), NexusError>)
    ensures
        r matches Ok(t) ==> dec_fixed(buf@, pos as int, 64) == Some((t.0@, t.1 as int)) && t.1 <= buf@.len(),
        r is Err ==> dec_fixed(buf@, pos as int, 64) is None,
{
    if pos <= buf.len() && buf.len() - pos >= 64 {
        let mut arr = [0u8; 64];
        let mut k: usize = 0;
        while k < 64
            invariant
                pos + 64 <= buf@.len(),
                buf@.len() <= usize::MAX,
                k <= 64,
                forall|m: int| 0 <= m < k ==> arr@[m] == buf@[pos + m],
            decreases 64 - k,
        {
            arr[k] = buf[pos + k];
            k = k + 1;
        }
        proof {
            assert(arr@ =~= buf@.subrange(pos as int, pos as int + 64));
        }
        Ok((TxSignature(arr), pos + 64))
    } else {
        Err(NexusError::CodecInvalid)
    }
}

pub fn decode_statement(buf: &Vec<u8>, pos: usize) -> (r: Result<
    (StatementDigest, usize),
    NexusError,
>)
    ensures
        r matches Ok(t) ==> dec_statement(buf@, pos as int) == Some((t.0@, t.1 as int)) && t.1 <= buf@.len(),
        r is Err ==> dec_statement(buf@, pos as int) is None,
{
    if pos <= buf.len() && buf.len() - pos >= 32 {
        let mut arr = [0u32; 8];
        let mut k: usize = 0;
        while k < 8
            invariant
                pos + 32 <= buf@.len(),
                buf@.len() <= usize::MAX,
                k <= 8,
                forall|m: int| 0 <= m < k ==> arr@[m] == le_u32_at(buf@, pos + 4 * m) as u32,
            decreases 8 - k,
        {
            let off = pos + 4 * k;
            let v: u32 = buf[off] as u32 + buf[off + 1] as u32 * 256 + buf[off + 2] as u32 * 65536
                + buf[off + 3] as u32 * 16777216;
            arr[k] = v;
            k = k + 1;
        }
        let st = StatementDigest(arr);
        proof {
            assert(st@ =~= dec_statement(buf@, pos as int)->Some_0.0);
        }
        Ok((st, pos + 32))
    } else {
        Err(NexusError::CodecInvalid)
    }
}

pub fn decode_bytes(buf: &Vec<u8>, pos: usize) -> (r: Result<(Vec<u8>, usize), NexusError>)
    ensures
        r matches Ok(t) ==> dec_bytes(buf@, pos as int) == Some((t.0@, t.1 as int)) && t.1 <= buf@.len(),
        r is Err ==> dec_bytes(buf@, pos as int) is None,
{
    let (n, j) = match decode_compact_u32(buf, pos) {
        Ok(t) => t,
        Err(e) => {
            return Err(e);
        },
    };
    let n_usize = n as usize;
    if j <= buf.len() && buf.len() - j >= n_usize {
        let mut out: Vec<u8> = Vec::new();
        let mut k: usize = 0;
        while k < n_usize
            invariant
                j + n_usize <= buf@.len(),
                buf@.len() <= usize::MAX,
                k <= n_usize,
                out@ == buf@.subrange(j as int, j as int + k as int),
            decreases n_usize - k,
        {
            out.push(buf[j + k]);
            proof {
                assert(out@ =~= buf@.subrange(j as int, j as int + (k + 1) as int));
            }
            k = k + 1;
        }
        Ok((out, j + n_usize))
    } else {
        Err(NexusError::CodecInvalid)
    }
}

pub fn decode_account_state(buf: &Vec<u8>, pos: usize) -> (r: Result<
    (AccountState, usize),
    NexusError,
>)
    ensures
        r matches Ok(t) ==> dec_account_state(buf@, pos as int) == Some((t.0@, t.1 as int)) && t.1 <= buf@.len(),
        r is Err ==> dec_account_state(buf@, pos as int) is None,
{
    let (statement, j1) = match decode_statement(buf, pos) {
        Ok(t) => t,
        Err(e) => {
            return Err(e);
        },
    };
    let (state_root, j2) = match decode_h256(buf, j1) {
        Ok(t) => t,
        Err(e) => {
            return Err(e);
        },
    };
    let (last_proof_height, j3) = match decode_u32_le(buf, j2) {
        Ok(t) => t,
        Err(e) => {
            return Err(e);
        },
    };
    let (start_nexus_hash, j4) = match decode_h256(buf, j3) {
        Ok(t) => t,
        Err(e) => {
            return Err(e);
        },
    };
    let (height, j5) = match decode_u32_le(buf, j4) {
        Ok(t) => t,
        Err(e) => {
            return Err(e);
        },
    };
    Ok((AccountState { statement, state_root, last_proof_height, start_nexus_hash, height }, j5))
}

pub fn decode_nexus_header(buf: &Vec<u8>, pos: usize) -> (r: Result<
    (NexusHeader, usize),
    NexusError,
>)
    ensures
        r matches Ok(t) ==> dec_nexus_header(buf@, pos as int) == Some((t.0@, t.1 as int)) && t.1 <= buf@.len(),
        r is Err ==> dec_nexus_header(buf@, pos as int) is None,
{
    let (parent_hash, j1) = match decode_h256(buf, pos) {
        Ok(t) => t,
        Err(e) => {
            return Err(e);
        },
    };
    let (prev_state_root, j2) = match decode_h256(buf, j1) {
        Ok(t) => t,
        Err(e) => {
            return Err(e);
        },
    };
    let (state_root, j3) = match decode_h256(buf, j2) {
        Ok(t) => t,
        Err(e) => {
            return Err(e);
        },
    };
    let (avail_header_hash, j4) = match decode_h256(buf, j3) {
        Ok(t) => t,
        Err(e) => {
            return Err(e);
        },
    };
    let (number, j5) = match decode_u32_le(buf, j4) {
        Ok(t) => t,
        Err(e) => {
            return Err(e);
        },
    };
    Ok((NexusHeader { parent_hash, prev_state_root, state_root, avail_header_hash, number }, j5))
}

pub fn decode_rollup_public_inputs(buf: &Vec<u8>, pos: usize) -> (r: Result<
    (RollupPublicInputsV2, usize),
    NexusError,
>)
    ensures
        r matches Ok(t) ==> dec_rollup_public_inputs(buf@, pos as int) == Some(
            (t.0@, t.1 as int),
        ) && t.1 <= buf@.len(),
        r is Err ==> dec_rollup_public_inputs(buf@, pos as int) is None,
{
    let (nexus_hash, j1) = match decode_h256(buf, pos) {
        Ok(t) => t,
        Err(e) => {
            return Err(e);
        },
    };
    let (state_root, j2) = match decode_h256(buf, j1) {
        Ok(t) => t,
        Err(e) => {
            return Err(e);
        },
    };
    let (height, j3) = match decode_u32_le(buf, j2) {
        Ok(t) => t,
        Err(e) => {
            return Err(e);
        },
    };
    let (start_nexus_hash, j4) = match decode_h256(buf, j3) {
        Ok(t) => t,
        Err(e) => {
            return Err(e);
        },
    };
    let (app, j5) = match decode_h256(buf, j4) {
        Ok(t) => t,
        Err(e) => {
            return Err(e);
        },
    };
    let (img_id, j6) = match decode_statement(buf, j5) {
        Ok(t) => t,
        Err(e) => {
            return Err(e);
        },
    };
    Ok(
        (
            RollupPublicInputsV2 {
                nexus_hash,
                state_root,
                height,
                start_nexus_hash,
                app_id: AppAccountId::from_h256(app),
                img_id,
            },
            j6,
        ),
    )
}

pub fn decode_tx_params(buf: &Vec<u8>, pos: usize) -> (r: Result<(TxParamsV2, usize), NexusError>)
    ensures
        r matches Ok(t) ==> dec_tx_params(buf@, pos as int) == Some((t.0@, t.1 as int)) && t.1 <= buf@.len(),
        r is Err ==> dec_tx_params(buf@, pos as int) is None,
{
    if !(pos < buf.len()) {
        return Err(NexusError::CodecInvalid);
    }
    let tag = buf[pos];
    if tag == 0 {
        let (proof, j1) = match decode_bytes(buf, pos + 1) {
            Ok(t) => t,
            Err(e) => {
                return Err(e);
            },
        };
        let (nexus_hash, j2) = match decode_h256(buf, j1) {
            Ok(t) => t,
            Err(e) => {
                return Err(e);
            },
        };
        let (state_root, j3) = match decode_h256(buf, j2) {
            Ok(t) => t,
            Err(e) => {
                return Err(e);
            },
        };
        let (height, j4) = match decode_u32_le(buf, j3) {
            Ok(t) => t,
            Err(e) => {
                return Err(e);
            },
        };
        let (app, j5) = match decode_h256(buf, j4) {
            Ok(t) => t,
            Err(e) => {
                return Err(e);
            },
        };
        Ok(
            (
                TxParamsV2::SubmitProof(
                    SubmitProof {
                        proof: Proof(proof),
                        nexus_hash,
                        state_root,
                        height,
                        app_id: AppAccountId::from_h256(app),
                    },
                ),
                j5,
            ),
        )
    } else if tag == 1 {
        let (app, j1) = match decode_h256(buf, pos + 1) {
            Ok(t) => t,
            Err(e) => {
                return Err(e);
            },
        };
        let (statement, j2) = match decode_statement(buf, j1) {
            Ok(t) => t,
            Err(e) => {
                return Err(e);
            },
        };
        let (start_nexus_hash, j3) = match decode_h256(buf, j2) {
            Ok(t) => t,
            Err(e) => {
                return Err(e);
            },
        };
        Ok(
            (
                TxParamsV2::InitAccount(
                    InitAccount {
                        app_id: AppAccountId::from_h256(app),
                        statement,
                        start_nexus_hash,
                    },
                ),
                j3,
            ),
        )
    } else {
        Err(NexusError::CodecInvalid)
    }
}

pub fn decode_tx(buf: &Vec<u8>, pos: usize) -> (r: Result<(TransactionV2, usize), NexusError>)
    ensures
        r matches Ok(t) ==> dec_tx(buf@, pos as int) == Some((t.0@, t.1 as int)) && t.1 <= buf@.len(),
        r is Err ==> dec_tx(buf@, pos as int) is None,
{
    let (signature, j1) = match decode_sig(buf, pos) {
        Ok(t) => t,
        Err(e) => {
            return Err(e);
        },
    };
    let (params, j2) = match decode_tx_params(buf, j1) {
        Ok(t) => t,
        Err(e) => {
            return Err(e);
        },
    };
    Ok((TransactionV2 { signature, params }, j2))
}

pub fn decode_headers(buf: &Vec<u8>, pos: usize, n: u32) -> (r: Result<
    (Vec<NexusHeader>, usize),
    NexusError,
>)
    ensures
        r matches Ok(t) ==> dec_headers(buf@, pos as int, n as int) == Some(
            (header_views(t.0@), t.1 as int),
        ) && t.0@.len() == n,
        r is Err ==> dec_headers(buf@, pos as int, n as int) is None,
    decreases n,
{
    if n == 0 {
        proof {
            assert(header_views(Seq::<NexusHeader>::empty()) =~= Seq::<NexusHeaderView>::empty());
        }
        Ok((Vec::new(), pos))
    } else {
        let (h, j) = match decode_nexus_header(buf, pos) {
            Ok(t) => t,
            Err(e) => {
                return Err(e);
            },
        };
        let (rest, k) = match decode_headers(buf, j, n - 1) {
            Ok(t) => t,
            Err(e) => {
                return Err(e);
            },
        };
        let mut out = rest;
        out.insert(0, h);
        proof {
            assert(header_views(out@) =~= seq![h@] + header_views(out@.drop_first()));
        }
        Ok((out, k))
    }
}

pub fn decode_header_store(buf: &Vec<u8>, pos: usize) -> (r: Result<
    (HeaderStore, usize),
    NexusError,
>)
    ensures
        r matches Ok(t) ==> dec_header_store(buf@, pos as int) == Some(
            ((header_views(t.0.headers()), t.0.max() as u32), t.1 as int),
        ) && t.1 <= buf@.len() && t.0.wf(),
        r is Err ==> dec_header_store(buf@, pos as int) is None,
{
    let (n, j1) = match decode_compact_u32(buf, pos) {
        Ok(t) => t,
        Err(e) => {
            return Err(e);
        },
    };
    let (hs, j2) = match decode_headers(buf, j1, n) {
        Ok(t) => t,
        Err(e) => {
            return Err(e);
        },
    };
    let (max, j3) = match decode_compact_u32(buf, j2) {
        Ok(t) => t,
        Err(e) => {
            return Err(e);
        },
    };
    if 1 <= max && n <= max {
        let store = HeaderStore::from_parts(hs, max as usize);
        Ok((store, j3))
    } else {
        Err(NexusError::CodecInvalid)
    }
}

} // verus!
