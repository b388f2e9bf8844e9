use vstd::prelude::*;

use crate::chunks::{
    chunk_wf, dec_chunk, enc_chunk, lemma_chunk_round_trip, MaybeEncodedShardChunk,
    MaybeEncodedShardChunkView, ShardChunk, ShardChunkHeader,
};
use crate::codec::{
    blob_wf, dec_bytes, enc_bytes, lemma_bytes_round_trip, read_bytes, write_bytes,
};
use crate::crypto::{
    dec_signature, enc_signature, lemma_signature_round_trip, sig_wf, AccountId, Signature,
    SignatureView, ValidatorSigner,
};
use crate::hash::{content_hash, digest_of, hash_wf, CryptoHash};
use crate::merkle::{
    dec_path, enc_path, lemma_path_round_trip, path_view, path_wf, read_path, write_path,
    MerklePath, MerklePathItemView,
};
use crate::state::{
    dec_partial_state, enc_partial_state, lemma_partial_state_round_trip, partial_state_wf,
    PartialState,
};

verus! {

/// Evidence of a double-signed block: two raw header encodings signed by
/// the same author for conflicting positions. That the headers really
/// conflict is the external verifier's semantic check; this crate
/// guarantees the structural shape.
#[derive(Clone, PartialEq, Eq)]
pub struct BlockDoubleSign {
    pub left_block_header: Vec<u8>,
    pub right_block_header: Vec<u8>,
}

#[verifier::ext_equal]
pub struct BlockDoubleSignView {
    pub left_block_header: Seq<u8>,
    pub right_block_header: Seq<u8>,
}

impl View for BlockDoubleSign {
    type V = BlockDoubleSignView;

    open spec fn view(&self) -> BlockDoubleSignView {
        BlockDoubleSignView {
            left_block_header: self.left_block_header@,
            right_block_header: self.right_block_header@,
        }
    }
}

/// Evidence of an invalid chunk: the encoded block header that lists the
/// chunk, a Merkle proof that the chunk's header is included in that
/// block, and the chunk itself in encoded or decoded form.
#[derive(Clone, PartialEq, Eq)]
pub struct ChunkProofs {
    /// Encoded block header that contains the invalid chunk.
    pub block_header: Vec<u8>,
    /// Merkle proof of inclusion of this chunk.
    pub merkle_proof: MerklePath,
    /// The invalid chunk, in an encoded or in a decoded form.
    pub chunk: Box<MaybeEncodedShardChunk>,
}

#[verifier::ext_equal]
pub struct ChunkProofsView {
    pub block_header: Seq<u8>,
    pub merkle_proof: Seq<MerklePathItemView>,
    pub chunk: MaybeEncodedShardChunkView,
}

impl View for ChunkProofs {
    type V = ChunkProofsView;

    open spec fn view(&self) -> ChunkProofsView {
        ChunkProofsView {
            block_header: self.block_header@,
            merkle_proof: path_view(self.merkle_proof@),
            chunk: (*self.chunk)@,
        }
    }
}

/// Evidence that a chunk's claimed post-state does not follow from
/// applying the previous chunk: both headers, inclusion proofs for both
/// chunks, the previous chunk whose transactions are replayed, the
/// disputed header, and the state witness the replay dereferences.
#[derive(Clone, PartialEq, Eq)]
pub struct ChunkState {
    /// Encoded previous block header.
    pub prev_block_header: Vec<u8>,
    /// Encoded block header that contains the invalid chunk.
    pub block_header: Vec<u8>,
    /// Merkle proof of inclusion of the previous chunk.
    pub prev_merkle_proof: MerklePath,
    /// Previous chunk, whose transactions are replayed.
    pub prev_chunk: ShardChunk,
    /// Merkle proof of inclusion of this chunk.
    pub merkle_proof: MerklePath,
    /// The invalid chunk header.
    pub chunk_header: ShardChunkHeader,
    /// Partial state that the transactions of the previous chunk touch.
    pub partial_state: PartialState,
}

#[verifier::ext_equal]
pub struct ChunkStateView {
    pub prev_block_header: Seq<u8>,
    pub block_header: Seq<u8>,
    pub prev_merkle_proof: Seq<MerklePathItemView>,
    pub prev_chunk: Seq<u8>,
    pub merkle_proof: Seq<MerklePathItemView>,
    pub chunk_header: Seq<u8>,
    pub partial_state: Seq<Seq<u8>>,
}

impl View for ChunkState {
    type V = ChunkStateView;

    open spec fn view(&self) -> ChunkStateView {
        ChunkStateView {
            prev_block_header: self.prev_block_header@,
            block_header: self.block_header@,
            prev_merkle_proof: path_view(self.prev_merkle_proof@),
            prev_chunk: self.prev_chunk@,
            merkle_proof: path_view(self.merkle_proof@),
            chunk_header: self.chunk_header@,
            partial_state: self.partial_state@,
        }
    }
}

/// The three disputable facts, a closed sum: every consumer must handle
/// each fault kind explicitly.
#[derive(Clone, PartialEq, Eq)]
pub enum ChallengeBody {
    BlockDoubleSign(BlockDoubleSign),
    ChunkProofs(ChunkProofs),
    ChunkState(ChunkState),
}

#[verifier::ext_equal]
pub enum ChallengeBodyView {
    BlockDoubleSign(BlockDoubleSignView),
    ChunkProofs(ChunkProofsView),
    ChunkState(ChunkStateView),
}

impl View for ChallengeBody {
    type V = ChallengeBodyView;

    open spec fn view(&self) -> ChallengeBodyView {
        match self {
            ChallengeBody::BlockDoubleSign(b) => ChallengeBodyView::BlockDoubleSign(b@),
            ChallengeBody::ChunkProofs(b) => ChallengeBodyView::ChunkProofs(b@),
            ChallengeBody::ChunkState(b) => ChallengeBodyView::ChunkState(b@),
        }
    }
}

/// The signed, hash-committed envelope around a challenge body. `hash`
/// is always the content hash of the body alone, never of the envelope;
/// it is left off the wire and recomputed on every decode, so the
/// transmitted bytes can never forge it independently of the body.
#[derive(Clone, PartialEq, Eq)]
pub struct Challenge {
    pub body: ChallengeBody,
    pub account_id: AccountId,
    pub signature: Signature,
    pub hash: CryptoHash,
}

#[verifier::ext_equal]
pub struct ChallengeView {
    pub body: ChallengeBodyView,
    pub account_id: Seq<u8>,
    pub signature: SignatureView,
    pub hash: Seq<u8>,
}

impl View for Challenge {
    type V = ChallengeView;

    open spec fn view(&self) -> ChallengeView {
        ChallengeView {
            body: self.body@,
            account_id: self.account_id@,
            signature: self.signature@,
            hash: self.hash@,
        }
    }
}

pub type Challenges = Vec<Challenge>;

/// One verification outcome: the penalized account and whether the fault
/// was a double sign.
#[derive(Clone, PartialEq, Eq)]
pub struct SlashedValidator {
    pub account_id: AccountId,
    pub is_double_sign: bool,
}

#[verifier::ext_equal]
pub struct SlashedValidatorView {
    pub account_id: Seq<u8>,
    pub is_double_sign: bool,
}

impl View for SlashedValidator {
    type V = SlashedValidatorView;

    open spec fn view(&self) -> SlashedValidatorView {
        SlashedValidatorView { account_id: self.account_id@, is_double_sign: self.is_double_sign }
    }
}

/// Result of checking a challenge: which accounts to slash, in
/// evaluation order. If the challenge itself is invalid this holds its
/// sender, otherwise the author of the faulty data and any co-signers.
pub type ChallengesResult = Vec<SlashedValidator>;

// ---------------------------------------------------------------------
// Well-formedness: every length fits its 32-bit prefix, digests have 32
// bytes, signatures match their scheme.

pub open spec fn bds_wf(v: BlockDoubleSignView) -> bool {
    blob_wf(v.left_block_header) && blob_wf(v.right_block_header)
}

pub open spec fn chunk_proofs_wf(v: ChunkProofsView) -> bool {
    blob_wf(v.block_header) && path_wf(v.merkle_proof) && chunk_wf(v.chunk)
}

pub open spec fn chunk_state_wf(v: ChunkStateView) -> bool {
    &&& blob_wf(v.prev_block_header)
    &&& blob_wf(v.block_header)
    &&& path_wf(v.prev_merkle_proof)
    &&& blob_wf(v.prev_chunk)
    &&& path_wf(v.merkle_proof)
    &&& blob_wf(v.chunk_header)
    &&& partial_state_wf(v.partial_state)
}

pub open spec fn body_wf(v: ChallengeBodyView) -> bool {
    match v {
        ChallengeBodyView::BlockDoubleSign(b) => bds_wf(b),
        ChallengeBodyView::ChunkProofs(b) => chunk_proofs_wf(b),
        ChallengeBodyView::ChunkState(b) => chunk_state_wf(b),
    }
}

/// A well-formed envelope carries the content hash of its own body.
pub open spec fn challenge_wf(c: ChallengeView) -> bool {
    &&& body_wf(c.body)
    &&& blob_wf(c.account_id)
    &&& sig_wf(c.signature)
    &&& c.hash == digest_of(enc_body(c.body))
}

pub open spec fn slashed_wf(v: SlashedValidatorView) -> bool {
    blob_wf(v.account_id)
}

// ---------------------------------------------------------------------
// Canonical wire forms. Field order is fixed; there is no padding; the
// envelope's hash is deliberately absent.

pub open spec fn enc_bds(v: BlockDoubleSignView) -> Seq<u8> {
    enc_bytes(v.left_block_header) + enc_bytes(v.right_block_header)
}

pub open spec fn dec_bds(s: Seq<u8>) -> Option<(BlockDoubleSignView, Seq<u8>)> {
    match dec_bytes(s) {
        Some((l, r1)) => match dec_bytes(r1) {
            Some((rt, r2)) => Some(
                (BlockDoubleSignView { left_block_header: l, right_block_header: rt }, r2),
            ),
            None => None,
        },
        None => None,
    }
}

pub open spec fn enc_chunk_proofs(v: ChunkProofsView) -> Seq<u8> {
    enc_bytes(v.block_header) + enc_path(v.merkle_proof) + enc_chunk(v.chunk)
}

pub open spec fn dec_chunk_proofs(s: Seq<u8>) -> Option<(ChunkProofsView, Seq<u8>)> {
    match dec_bytes(s) {
        Some((bh, r1)) => match dec_path(r1) {
            Some((mp, r2)) => match dec_chunk(r2) {
                Some((ck, r3)) => Some(
                    (ChunkProofsView { block_header: bh, merkle_proof: mp, chunk: ck }, r3),
                ),
                None => None,
            },
            None => None,
        },
        None => None,
    }
}

pub open spec fn enc_chunk_state(v: ChunkStateView) -> Seq<u8> {
    enc_bytes(v.prev_block_header) + enc_bytes(v.block_header) + enc_path(v.prev_merkle_proof)
        + enc_bytes(v.prev_chunk) + enc_path(v.merkle_proof) + enc_bytes(v.chunk_header)
        + enc_partial_state(v.partial_state)
}

pub open spec fn dec_chunk_state(s: Seq<u8>) -> Option<(ChunkStateView, Seq<u8>)> {
    match dec_bytes(s) {
        Some((pbh, r1)) => match dec_bytes(r1) {
            Some((bh, r2)) => match dec_path(r2) {
                Some((pmp, r3)) => match dec_bytes(r3) {
                    Some((pc, r4)) => match dec_path(r4) {
                        Some((mp, r5)) => match dec_bytes(r5) {
                            Some((ch, r6)) => match dec_partial_state(r6) {
                                Some((ps, r7)) => Some(
                                    (
                                        ChunkStateView {
                                            prev_block_header: pbh,
                                            block_header: bh,
                                            prev_merkle_proof: pmp,
                                            prev_chunk: pc,
                                            merkle_proof: mp,
                                            chunk_header: ch,
                                            partial_state: ps,
                                        },
                                        r7,
                                    ),
                                ),
                                None => None,
                            },
                            None => None,
                        },
                        None => None,
                    },
                    None => None,
                },
                None => None,
            },
            None => None,
        },
        None => None,
    }
}

pub open spec fn body_tag(v: ChallengeBodyView) -> u8 {
    match v {
        ChallengeBodyView::BlockDoubleSign(_) => 0,
        ChallengeBodyView::ChunkProofs(_) => 1,
        ChallengeBodyView::ChunkState(_) => 2,
    }
}

/// A body on the wire: the variant tag, then the variant's fields in
/// declaration order.
pub open spec fn enc_body(v: ChallengeBodyView) -> Seq<u8> {
    seq![body_tag(v)] + match v {
        ChallengeBodyView::BlockDoubleSign(b) => enc_bds(b),
        ChallengeBodyView::ChunkProofs(b) => enc_chunk_proofs(b),
        ChallengeBodyView::ChunkState(b) => enc_chunk_state(b),
    }
}

pub open spec fn dec_body(s: Seq<u8>) -> Option<(ChallengeBodyView, Seq<u8>)> {
    if s.len() < 1 {
        None
    } else if s[0] == 0 {
        match dec_bds(s.skip(1)) {
            Some((b, r)) => Some((ChallengeBodyView::BlockDoubleSign(b), r)),
            None => None,
        }
    } else if s[0] == 1 {
        match dec_chunk_proofs(s.skip(1)) {
            Some((b, r)) => Some((ChallengeBodyView::ChunkProofs(b), r)),
            None => None,
        }
    } else if s[0] == 2 {
        match dec_chunk_state(s.skip(1)) {
            Some((b, r)) => Some((ChallengeBodyView::ChunkState(b), r)),
            None => None,
        }
    } else {
        None
    }
}

/// Decoding a complete body message: every byte must be consumed.
pub open spec fn dec_body_msg(bytes: Seq<u8>) -> Option<ChallengeBodyView> {
    match dec_body(bytes) {
        Some((v, r)) => if r.len() == 0 {
            Some(v)
        } else {
            None
        },
        None => None,
    }
}

/// The envelope on the wire: body, account bytes, signature. No hash.
pub open spec fn enc_challenge_wire(c: ChallengeView) -> Seq<u8> {
    enc_body(c.body) + enc_bytes(c.account_id) + enc_signature(c.signature)
}

pub open spec fn dec_challenge_wire(s: Seq<u8>) -> Option<
    ((ChallengeBodyView, Seq<u8>, SignatureView), Seq<u8>),
> {
    match dec_body(s) {
        Some((b, r1)) => match dec_bytes(r1) {
            Some((a, r2)) => match dec_signature(r2) {
                Some((sg, r3)) => Some(((b, a, sg), r3)),
                None => None,
            },
            None => None,
        },
        None => None,
    }
}

/// Decoding a complete envelope message. The hash is not read from the
/// wire: it is derived from the decoded body, always.
pub open spec fn dec_challenge_msg(bytes: Seq<u8>) -> Option<ChallengeView> {
    match dec_challenge_wire(bytes) {
        Some((w, r)) => if r.len() == 0 {
            Some(
                ChallengeView {
                    body: w.0,
                    account_id: w.1,
                    signature: w.2,
                    hash: digest_of(enc_body(w.0)),
                },
            )
        } else {
            None
        },
        None => None,
    }
}

pub open spec fn enc_slashed(v: SlashedValidatorView) -> Seq<u8> {
    enc_bytes(v.account_id) + seq![
        if v.is_double_sign {
            1u8
        } else {
            0u8
        },
    ]
}

pub open spec fn dec_slashed(s: Seq<u8>) -> Option<(SlashedValidatorView, Seq<u8>)> {
    match dec_bytes(s) {
        Some((a, r)) => if r.len() >= 1 && (r[0] == 0 || r[0] == 1) {
            Some(
                (SlashedValidatorView { account_id: a, is_double_sign: r[0] == 1 }, r.skip(1)),
            )
        } else {
            None
        },
        None => None,
    }
}

pub open spec fn dec_slashed_msg(bytes: Seq<u8>) -> Option<SlashedValidatorView> {
    match dec_slashed(bytes) {
        Some((v, r)) => if r.len() == 0 {
            Some(v)
        } else {
            None
        },
        None => None,
    }
}

// ---------------------------------------------------------------------
// Round-trip laws: every canonical encoding decodes back to exactly the
// value it came from, so the wire form pins the evidence down byte for
// byte.

pub proof fn lemma_bds_round_trip(v: BlockDoubleSignView, rest: Seq<u8>)
    requires
        bds_wf(v),
    ensures
        dec_bds(enc_bds(v) + rest) == Some((v, rest)),
{
    let s = enc_bds(v) + rest;
    let t1 = enc_bytes(v.right_block_header) + rest;
    assert(s =~= enc_bytes(v.left_block_header) + t1);
    lemma_bytes_round_trip(v.left_block_header, t1);
    lemma_bytes_round_trip(v.right_block_header, rest);
    assert(dec_bds(s)->Some_0.0 =~= v);
}

pub proof fn lemma_chunk_proofs_round_trip(v: ChunkProofsView, rest: Seq<u8>)
    requires
        chunk_proofs_wf(v),
    ensures
        dec_chunk_proofs(enc_chunk_proofs(v) + rest) == Some((v, rest)),
{
    let s = enc_chunk_proofs(v) + rest;
    let t2 = enc_chunk(v.chunk) + rest;
    let t1 = enc_path(v.merkle_proof) + t2;
    assert(s =~= enc_bytes(v.block_header) + t1);
    lemma_bytes_round_trip(v.block_header, t1);
    lemma_path_round_trip(v.merkle_proof, t2);
    lemma_chunk_round_trip(v.chunk, rest);
    assert(dec_chunk_proofs(s)->Some_0.0 =~= v);
}

#[verifier::rlimit(50)]
pub proof fn lemma_chunk_state_round_trip(v: ChunkStateView, rest: Seq<u8>)
    requires
        chunk_state_wf(v),
    ensures
        dec_chunk_state(enc_chunk_state(v) + rest) == Some((v, rest)),
{
    let s = enc_chunk_state(v) + rest;
    let t6 = enc_partial_state(v.partial_state) + rest;
    let t5 = enc_bytes(v.chunk_header) + t6;
    let t4 = enc_path(v.merkle_proof) + t5;
    let t3 = enc_bytes(v.prev_chunk) + t4;
    let t2 = enc_path(v.prev_merkle_proof) + t3;
    let t1 = enc_bytes(v.block_header) + t2;
    assert(s =~= enc_bytes(v.prev_block_header) + t1);
    lemma_bytes_round_trip(v.prev_block_header, t1);
    lemma_bytes_round_trip(v.block_header, t2);
    lemma_path_round_trip(v.prev_merkle_proof, t3);
    lemma_bytes_round_trip(v.prev_chunk, t4);
    lemma_path_round_trip(v.merkle_proof, t5);
    lemma_bytes_round_trip(v.chunk_header, t6);
    lemma_partial_state_round_trip(v.partial_state, rest);
    assert(dec_chunk_state(s)->Some_0.0 =~= v);
}

#[verifier::rlimit(100)]
#[verifier::spinoff_prover]
pub proof fn lemma_body_round_trip(v: ChallengeBodyView, rest: Seq<u8>)
    requires
        body_wf(v),
    ensures
        dec_body(enc_body(v) + rest) == Some((v, rest)),
{
    let s = enc_body(v) + rest;
    assert(s[0] == body_tag(v));
    match v {
        ChallengeBodyView::BlockDoubleSign(b) => {
            assert(s.skip(1) =~= enc_bds(b) + rest);
            lemma_bds_round_trip(b, rest);
        },
        ChallengeBodyView::ChunkProofs(b) => {
            assert(s.skip(1) =~= enc_chunk_proofs(b) + rest);
            lemma_chunk_proofs_round_trip(b, rest);
        },
        ChallengeBodyView::ChunkState(b) => {
            assert(s.skip(1) =~= enc_chunk_state(b) + rest);
            lemma_chunk_state_round_trip(b, rest);
        },
    }
}

/// Law: encoding a well-formed body and decoding the complete message
/// reproduces the body exactly.
pub proof fn lemma_body_msg_round_trip(v: ChallengeBodyView)
    requires
        body_wf(v),
    ensures
        dec_body_msg(enc_body(v)) == Some(v),
{
    assert(enc_body(v) =~= enc_body(v) + Seq::<u8>::empty());
    lemma_body_round_trip(v, Seq::<u8>::empty());
}

/// Law: distinct well-formed bodies have distinct canonical encodings.
/// Their content hashes can therefore differ only where the hash
/// function itself collides on different inputs.
pub proof fn lemma_body_encoding_injective(b1: ChallengeBodyView, b2: ChallengeBodyView)
    requires
        body_wf(b1),
        body_wf(b2),
        b1 != b2,
    ensures
        enc_body(b1) != enc_body(b2),
{
    if enc_body(b1) == enc_body(b2) {
        lemma_body_msg_round_trip(b1);
        lemma_body_msg_round_trip(b2);
        assert(false);
    }
}

/// Law: a well-formed envelope round-trips through its wire form, with
/// the hash rederived from the decoded body rather than copied.
pub proof fn lemma_challenge_round_trip(c: ChallengeView)
    requires
        challenge_wf(c),
    ensures
        dec_challenge_msg(enc_challenge_wire(c)) == Some(c),
{
    let s = enc_challenge_wire(c);
    let t2 = enc_signature(c.signature) + Seq::<u8>::empty();
    let t1 = enc_bytes(c.account_id) + t2;
    assert(s =~= enc_body(c.body) + t1);
    lemma_body_round_trip(c.body, t1);
    lemma_bytes_round_trip(c.account_id, t2);
    lemma_signature_round_trip(c.signature, Seq::<u8>::empty());
    assert(dec_challenge_msg(s)->Some_0 =~= c);
}

/// Law: whatever bytes a challenge was decoded from, its hash equals
/// the content hash of its own body's canonical encoding — it is never
/// taken from the wire, so wire bytes cannot forge it independently of
/// the body.
pub proof fn lemma_decoded_hash_is_content_hash(bytes: Seq<u8>, c: ChallengeView)
    requires
        dec_challenge_msg(bytes) == Some(c),
    ensures
        c.hash == digest_of(enc_body(c.body)),
{
}

pub proof fn lemma_slashed_round_trip(v: SlashedValidatorView, rest: Seq<u8>)
    requires
        slashed_wf(v),
    ensures
        dec_slashed(enc_slashed(v) + rest) == Some((v, rest)),
{
    let s = enc_slashed(v) + rest;
    let flag = seq![
        if v.is_double_sign {
            1u8
        } else {
            0u8
        },
    ];
    assert(s =~= enc_bytes(v.account_id) + (flag + rest));
    lemma_bytes_round_trip(v.account_id, flag + rest);
    assert((flag + rest)[0] == flag[0]);
    assert((flag + rest).skip(1) =~= rest);
    assert(dec_slashed(s)->Some_0.0 =~= v);
}

/// Law: an outcome record round-trips through its wire form.
pub proof fn lemma_slashed_msg_round_trip(v: SlashedValidatorView)
    requires
        slashed_wf(v),
    ensures
        dec_slashed_msg(enc_slashed(v)) == Some(v),
{
    assert(enc_slashed(v) =~= enc_slashed(v) + Seq::<u8>::empty());
    lemma_slashed_round_trip(v, Seq::<u8>::empty());
}

// ---------------------------------------------------------------------
// Soundness of the decoders: any bytes that decode are exactly the
// canonical encoding of what came out. Together with the round trips
// above, the canonical form is unique in both directions.

pub proof fn lemma_dec_bds_sound(s: Seq<u8>, v: BlockDoubleSignView, r: Seq<u8>)
    requires
        dec_bds(s) == Some((v, r)),
    ensures
        s == enc_bds(v) + r,
        bds_wf(v),
{
    let d1 = dec_bytes(s);
    assert(d1 is Some);
    let t1 = d1->Some_0.1;
    crate::codec::lemma_dec_bytes_sound(s, v.left_block_header, t1);
    crate::codec::lemma_dec_bytes_sound(t1, v.right_block_header, r);
    assert(s =~= enc_bds(v) + r);
}

pub proof fn lemma_dec_chunk_proofs_sound(s: Seq<u8>, v: ChunkProofsView, r: Seq<u8>)
    requires
        dec_chunk_proofs(s) == Some((v, r)),
    ensures
        s == enc_chunk_proofs(v) + r,
        chunk_proofs_wf(v),
{
    let d1 = dec_bytes(s);
    assert(d1 is Some);
    let t1 = d1->Some_0.1;
    let d2 = dec_path(t1);
    assert(d2 is Some);
    let t2 = d2->Some_0.1;
    crate::codec::lemma_dec_bytes_sound(s, v.block_header, t1);
    crate::merkle::lemma_dec_path_sound(t1, v.merkle_proof, t2);
    crate::chunks::lemma_dec_chunk_sound(t2, v.chunk, r);
    assert(s =~= enc_chunk_proofs(v) + r);
}

#[verifier::rlimit(100)]
#[verifier::spinoff_prover]
pub proof fn lemma_dec_chunk_state_sound(s: Seq<u8>, v: ChunkStateView, r: Seq<u8>)
    requires
        dec_chunk_state(s) == Some((v, r)),
    ensures
        s == enc_chunk_state(v) + r,
        chunk_state_wf(v),
{
    let d1 = dec_bytes(s);
    assert(d1 is Some);
    let t1 = d1->Some_0.1;
    let d2 = dec_bytes(t1);
    assert(d2 is Some);
    let t2 = d2->Some_0.1;
    let d3 = dec_path(t2);
    assert(d3 is Some);
    let t3 = d3->Some_0.1;
    let d4 = dec_bytes(t3);
    assert(d4 is Some);
    let t4 = d4->Some_0.1;
    let d5 = dec_path(t4);
    assert(d5 is Some);
    let t5 = d5->Some_0.1;
    let d6 = dec_bytes(t5);
    assert(d6 is Some);
    let t6 = d6->Some_0.1;
    crate::codec::lemma_dec_bytes_sound(s, v.prev_block_header, t1);
    crate::codec::lemma_dec_bytes_sound(t1, v.block_header, t2);
    crate::merkle::lemma_dec_path_sound(t2, v.prev_merkle_proof, t3);
    crate::codec::lemma_dec_bytes_sound(t3, v.prev_chunk, t4);
    crate::merkle::lemma_dec_path_sound(t4, v.merkle_proof, t5);
    crate::codec::lemma_dec_bytes_sound(t5, v.chunk_header, t6);
    crate::state::lemma_dec_partial_state_sound(t6, v.partial_state, r);
    lemma_concat_chain(
        s,
        enc_bytes(v.prev_block_header),
        enc_bytes(v.block_header),
        enc_path(v.prev_merkle_proof),
        enc_bytes(v.prev_chunk),
        enc_path(v.merkle_proof),
        enc_bytes(v.chunk_header),
        enc_partial_state(v.partial_state),
        t1,
        t2,
        t3,
        t4,
        t5,
        t6,
        r,
    );
}

#[verifier::rlimit(100)]
#[verifier::spinoff_prover]
proof fn lemma_concat_chain(
    s: Seq<u8>,
    e1: Seq<u8>,
    e2: Seq<u8>,
    e3: Seq<u8>,
    e4: Seq<u8>,
    e5: Seq<u8>,
    e6: Seq<u8>,
    e7: Seq<u8>,
    t1: Seq<u8>,
    t2: Seq<u8>,
    t3: Seq<u8>,
    t4: Seq<u8>,
    t5: Seq<u8>,
    t6: Seq<u8>,
    r: Seq<u8>,
)
    requires
        s == e1 + t1,
        t1 == e2 + t2,
        t2 == e3 + t3,
        t3 == e4 + t4,
        t4 == e5 + t5,
        t5 == e6 + t6,
        t6 == e7 + r,
    ensures
        s == (e1 + e2 + e3 + e4 + e5 + e6 + e7) + r,
{
    assert(t5 =~= (e6 + e7) + r);
    assert(t4 =~= ((e5 + e6) + e7) + r);
    assert(t3 =~= (((e4 + e5) + e6) + e7) + r);
    assert(t2 =~= ((((e3 + e4) + e5) + e6) + e7) + r);
    assert(t1 =~= (((((e2 + e3) + e4) + e5) + e6) + e7) + r);
    assert(s =~= ((((((e1 + e2) + e3) + e4) + e5) + e6) + e7) + r);
}

#[verifier::spinoff_prover]
proof fn lemma_body_sound_double_sign(s: Seq<u8>, b: BlockDoubleSignView, r: Seq<u8>)
    requires
        s.len() >= 1,
        s[0] == 0,
        dec_bds(s.skip(1)) == Some((b, r)),
    ensures
        s == enc_body(ChallengeBodyView::BlockDoubleSign(b)) + r,
        bds_wf(b),
{
    lemma_dec_bds_sound(s.skip(1), b, r);
    assert(s =~= seq![0u8] + (enc_bds(b) + r));
    assert(enc_body(ChallengeBodyView::BlockDoubleSign(b)) + r =~= seq![0u8] + (enc_bds(b)
        + r));
}

#[verifier::spinoff_prover]
proof fn lemma_body_sound_chunk_proofs(s: Seq<u8>, b: ChunkProofsView, r: Seq<u8>)
    requires
        s.len() >= 1,
        s[0] == 1,
        dec_chunk_proofs(s.skip(1)) == Some((b, r)),
    ensures
        s == enc_body(ChallengeBodyView::ChunkProofs(b)) + r,
        chunk_proofs_wf(b),
{
    lemma_dec_chunk_proofs_sound(s.skip(1), b, r);
    assert(s =~= seq![1u8] + (enc_chunk_proofs(b) + r));
    assert(enc_body(ChallengeBodyView::ChunkProofs(b)) + r =~= seq![1u8] + (enc_chunk_proofs(b)
        + r));
}

#[verifier::rlimit(50)]
#[verifier::spinoff_prover]
proof fn lemma_body_sound_chunk_state(s: Seq<u8>, b: ChunkStateView, r: Seq<u8>)
    requires
        s.len() >= 1,
        s[0] == 2,
        dec_chunk_state(s.skip(1)) == Some((b, r)),
    ensures
        s == enc_body(ChallengeBodyView::ChunkState(b)) + r,
        chunk_state_wf(b),
{
    lemma_dec_chunk_state_sound(s.skip(1), b, r);
    assert(s =~= seq![2u8] + (enc_chunk_state(b) + r));
    assert(enc_body(ChallengeBodyView::ChunkState(b)) + r =~= seq![2u8] + (enc_chunk_state(b)
        + r));
}

#[verifier::rlimit(50)]
#[verifier::spinoff_prover]
pub proof fn lemma_dec_body_sound(s: Seq<u8>, v: ChallengeBodyView, r: Seq<u8>)
    requires
        dec_body(s) == Some((v, r)),
    ensures
        s == enc_body(v) + r,
        body_wf(v),
{
    assert(s.len() >= 1);
    if s[0] == 0 {
        let db = dec_bds(s.skip(1));
        assert(db is Some);
        assert(v == ChallengeBodyView::BlockDoubleSign(db->Some_0.0) && r == db->Some_0.1);
        lemma_body_sound_double_sign(s, db->Some_0.0, r);
    } else if s[0] == 1 {
        let db = dec_chunk_proofs(s.skip(1));
        assert(db is Some);
        assert(v == ChallengeBodyView::ChunkProofs(db->Some_0.0) && r == db->Some_0.1);
        lemma_body_sound_chunk_proofs(s, db->Some_0.0, r);
    } else {
        assert(s[0] == 2);
        let db = dec_chunk_state(s.skip(1));
        assert(db is Some);
        assert(v == ChallengeBodyView::ChunkState(db->Some_0.0) && r == db->Some_0.1);
        lemma_body_sound_chunk_state(s, db->Some_0.0, r);
    }
}

/// Law: the canonical form of a body is unique — whatever complete
/// message decodes to a body is exactly that body's encoding, so one
/// byte string can never stand for two different pieces of evidence.
pub proof fn lemma_body_decode_sound(bytes: Seq<u8>, v: ChallengeBodyView)
    requires
        dec_body_msg(bytes) == Some(v),
    ensures
        bytes == enc_body(v),
        body_wf(v),
{
    let d = dec_body(bytes);
    assert(d is Some);
    let r = d->Some_0.1;
    lemma_dec_body_sound(bytes, v, r);
    assert(bytes =~= enc_body(v));
}

/// Law: the canonical form of an envelope is unique, and any decoded
/// envelope is well formed: its hash is the content hash of its body.
pub proof fn lemma_challenge_decode_sound(bytes: Seq<u8>, c: ChallengeView)
    requires
        dec_challenge_msg(bytes) == Some(c),
    ensures
        bytes == enc_challenge_wire(c),
        challenge_wf(c),
{
    let d = dec_challenge_wire(bytes);
    assert(d is Some);
    let d1 = dec_body(bytes);
    assert(d1 is Some);
    let t1 = d1->Some_0.1;
    let d2 = dec_bytes(t1);
    assert(d2 is Some);
    let t2 = d2->Some_0.1;
    lemma_dec_body_sound(bytes, c.body, t1);
    crate::codec::lemma_dec_bytes_sound(t1, c.account_id, t2);
    crate::crypto::lemma_dec_signature_sound(t2, c.signature, d->Some_0.1);
    assert(bytes =~= enc_challenge_wire(c));
}

/// Law: the canonical form of an outcome record is unique.
pub proof fn lemma_dec_slashed_sound(s: Seq<u8>, v: SlashedValidatorView, r: Seq<u8>)
    requires
        dec_slashed(s) == Some((v, r)),
    ensures
        s == enc_slashed(v) + r,
        slashed_wf(v),
{
    let db = dec_bytes(s);
    assert(db is Some);
    let t = db->Some_0.1;
    crate::codec::lemma_dec_bytes_sound(s, v.account_id, t);
    assert(t.len() >= 1 && (t[0] == 0 || t[0] == 1));
    assert(t[0] == 1 <==> v.is_double_sign);
    assert(t =~= seq![t[0]] + r);
    assert(s =~= enc_slashed(v) + r);
}

// ---------------------------------------------------------------------
// Executable encoders and decoders, each pinned to the spec-level wire
// form above.

impl BlockDoubleSign {
    pub fn write_to(&self, out: &mut Vec<u8>)
        requires
            bds_wf(self@),
        ensures
            final(out)@ == old(out)@ + enc_bds(self@),
    {
        write_bytes(out, &self.left_block_header);
        write_bytes(out, &self.right_block_header);
        assert(out@ =~= old(out)@ + enc_bds(self@));
    }

    pub fn read_from(data: &Vec<u8>, pos: usize) -> (r: Option<(BlockDoubleSign, usize)>)
        requires
            pos <= data@.len(),
        ensures
            match r {
                Some(bp) => {
                    &&& dec_bds(data@.skip(pos as int)) == Some((bp.0@, data@.skip(bp.1 as int)))
                    &&& pos < bp.1 <= data@.len()
                    &&& bds_wf(bp.0@)
                },
                None => dec_bds(data@.skip(pos as int)) is None,
            },
    {
        match read_bytes(data, pos) {
            Some((l, p1)) => match read_bytes(data, p1) {
                Some((rt, p2)) => {
                    let b = BlockDoubleSign { left_block_header: l, right_block_header: rt };
                    proof {
                        assert(dec_bds(data@.skip(pos as int))->Some_0.0 =~= b@);
                    }
                    Some((b, p2))
                },
                None => None,
            },
            None => None,
        }
    }
}

impl ChunkProofs {
    pub fn write_to(&self, out: &mut Vec<u8>)
        requires
            chunk_proofs_wf(self@),
        ensures
            final(out)@ == old(out)@ + enc_chunk_proofs(self@),
    {
        write_bytes(out, &self.block_header);
        write_path(out, &self.merkle_proof);
        self.chunk.write_to(out);
        assert(out@ =~= old(out)@ + enc_chunk_proofs(self@));
    }

    pub fn read_from(data: &Vec<u8>, pos: usize) -> (r: Option<(ChunkProofs, usize)>)
        requires
            pos <= data@.len(),
        ensures
            match r {
                Some(cp) => {
                    &&& dec_chunk_proofs(data@.skip(pos as int)) == Some(
                        (cp.0@, data@.skip(cp.1 as int)),
                    )
                    &&& pos < cp.1 <= data@.len()
                    &&& chunk_proofs_wf(cp.0@)
                },
                None => dec_chunk_proofs(data@.skip(pos as int)) is None,
            },
    {
        match read_bytes(data, pos) {
            Some((bh, p1)) => match read_path(data, p1) {
                Some((mp, p2)) => match MaybeEncodedShardChunk::read_from(data, p2) {
                    Some((ck, p3)) => {
                        let c = ChunkProofs {
                            block_header: bh,
                            merkle_proof: mp,
                            chunk: Box::new(ck),
                        };
                        proof {
                            assert(dec_chunk_proofs(data@.skip(pos as int))->Some_0.0 =~= c@);
                        }
                        Some((c, p3))
                    },
                    None => None,
                },
                None => None,
            },
            None => None,
        }
    }
}

impl ChunkState {
    pub fn write_to(&self, out: &mut Vec<u8>)
        requires
            chunk_state_wf(self@),
        ensures
            final(out)@ == old(out)@ + enc_chunk_state(self@),
    {
        write_bytes(out, &self.prev_block_header);
        write_bytes(out, &self.block_header);
        write_path(out, &self.prev_merkle_proof);
        write_bytes(out, &self.prev_chunk.bytes);
        write_path(out, &self.merkle_proof);
        write_bytes(out, &self.chunk_header.bytes);
        self.partial_state.write_to(out);
        assert(out@ =~= old(out)@ + enc_chunk_state(self@));
    }

    #[verifier::rlimit(100)]
    #[verifier::spinoff_prover]
    pub fn read_from(data: &Vec<u8>, pos: usize) -> (r: Option<(ChunkState, usize)>)
        requires
            pos <= data@.len(),
        ensures
            match r {
                Some(cp) => {
                    &&& dec_chunk_state(data@.skip(pos as int)) == Some(
                        (cp.0@, data@.skip(cp.1 as int)),
                    )
                    &&& pos < cp.1 <= data@.len()
                    &&& chunk_state_wf(cp.0@)
                },
                None => dec_chunk_state(data@.skip(pos as int)) is None,
            },
    {
        match read_bytes(data, pos) {
            Some((pbh, p1)) => match read_bytes(data, p1) {
                Some((bh, p2)) => match read_path(data, p2) {
                    Some((pmp, p3)) => match read_bytes(data, p3) {
                        Some((pc, p4)) => match read_path(data, p4) {
                            Some((mp, p5)) => match read_bytes(data, p5) {
                                Some((ch, p6)) => match PartialState::read_from(data, p6) {
                                    Some((ps, p7)) => {
                                        let c = ChunkState {
                                            prev_block_header: pbh,
                                            block_header: bh,
                                            prev_merkle_proof: pmp,
                                            prev_chunk: ShardChunk::new(pc),
                                            merkle_proof: mp,
                                            chunk_header: ShardChunkHeader::new(ch),
                                            partial_state: ps,
                                        };
                                        proof {
                                            assert(dec_chunk_state(
                                                data@.skip(pos as int),
                                            )->Some_0.0 =~= c@);
                                        }
                                        Some((c, p7))
                                    },
                                    None => None,
                                },
                                None => None,
                            },
                            None => None,
                        },
                        None => None,
                    },
                    None => None,
                },
                None => None,
            },
            None => None,
        }
    }
}

impl ChallengeBody {
    /// Appends the canonical wire form of this body.
    pub fn write_to(&self, out: &mut Vec<u8>)
        requires
            body_wf(self@),
        ensures
            final(out)@ == old(out)@ + enc_body(self@),
    {
        match self {
            ChallengeBody::BlockDoubleSign(b) => {
                out.push(0u8);
                b.write_to(out);
            },
            ChallengeBody::ChunkProofs(b) => {
                out.push(1u8);
                b.write_to(out);
            },
            ChallengeBody::ChunkState(b) => {
                out.push(2u8);
                b.write_to(out);
            },
        }
        assert(out@ =~= old(out)@ + enc_body(self@));
    }

    /// The canonical wire form of this body: what the content hash is
    /// computed over.
    pub fn encode(&self) -> (r: Vec<u8>)
        requires
            body_wf(self@),
        ensures
            r@ == enc_body(self@),
    {
        let mut out: Vec<u8> = Vec::new();
        self.write_to(&mut out);
        out
    }

    #[verifier::rlimit(100)]
    #[verifier::spinoff_prover]
    pub fn read_from(data: &Vec<u8>, pos: usize) -> (r: Option<(ChallengeBody, usize)>)
        requires
            pos <= data@.len(),
        ensures
            match r {
                Some(bp) => {
                    &&& dec_body(data@.skip(pos as int)) == Some((bp.0@, data@.skip(bp.1 as int)))
                    &&& pos < bp.1 <= data@.len()
                    &&& body_wf(bp.0@)
                },
                None => dec_body(data@.skip(pos as int)) is None,
            },
    {
        let ghost s = data@.skip(pos as int);
        if pos < data.len() {
            let tag = data[pos];
            assert(tag == s[0]);
            assert(s.skip(1) =~= data@.skip(pos as int + 1));
            if tag == 0u8 {
                match BlockDoubleSign::read_from(data, pos + 1) {
                    Some((b, p)) => Some((ChallengeBody::BlockDoubleSign(b), p)),
                    None => None,
                }
            } else if tag == 1u8 {
                match ChunkProofs::read_from(data, pos + 1) {
                    Some((b, p)) => Some((ChallengeBody::ChunkProofs(b), p)),
                    None => None,
                }
            } else if tag == 2u8 {
                match ChunkState::read_from(data, pos + 1) {
                    Some((b, p)) => Some((ChallengeBody::ChunkState(b), p)),
                    None => None,
                }
            } else {
                None
            }
        } else {
            None
        }
    }

    /// Decodes a complete canonical body message.
    pub fn decode(bytes: &Vec<u8>) -> (r: Option<ChallengeBody>)
        ensures
            match r {
                Some(v) => dec_body_msg(bytes@) == Some(v@) && body_wf(v@),
                None => dec_body_msg(bytes@) is None,
            },
    {
        assert(bytes@.skip(0) =~= bytes@);
        match ChallengeBody::read_from(bytes, 0) {
            Some((v, p)) => {
                if p == bytes.len() {
                    assert(bytes@.skip(p as int).len() == 0);
                    Some(v)
                } else {
                    assert(bytes@.skip(p as int).len() != 0);
                    None
                }
            },
            None => None,
        }
    }
}

impl Challenge {
    /// Recomputes the envelope's hash from its body. Every
    /// deserialization path runs this, so a transmitted hash can never
    /// survive into a decoded value.
    pub fn init(&mut self)
        requires
            body_wf(old(self)@.body),
        ensures
            final(self)@.body == old(self)@.body,
            final(self)@.account_id == old(self)@.account_id,
            final(self)@.signature == old(self)@.signature,
            final(self)@.hash == digest_of(enc_body(old(self)@.body)),
            hash_wf(final(self)@.hash),
    {
        let encoded = self.body.encode();
        self.hash = content_hash(&encoded);
    }

    /// Builds the signed envelope: hash the body's canonical encoding,
    /// sign the hash, attribute the result to the signer's account.
    pub fn produce(body: ChallengeBody, signer: &ValidatorSigner) -> (r: Challenge)
        requires
            body_wf(body@),
            blob_wf(signer@),
        ensures
            r@.body == body@,
            r@.account_id == signer@,
            sig_wf(r@.signature),
            r@.hash == digest_of(enc_body(body@)),
            challenge_wf(r@),
    {
        let encoded = body.encode();
        let hash = content_hash(&encoded);
        let signature = signer.sign_bytes(hash.as_bytes());
        let account_id = signer.validator_id().clone();
        Challenge { body, account_id, signature, hash }
    }

    /// The canonical wire form of the envelope: body, account bytes,
    /// signature — and no hash.
    pub fn encode(&self) -> (r: Vec<u8>)
        requires
            body_wf(self@.body),
            blob_wf(self@.account_id),
            sig_wf(self@.signature),
        ensures
            r@ == enc_challenge_wire(self@),
    {
        let mut out: Vec<u8> = Vec::new();
        self.body.write_to(&mut out);
        write_bytes(&mut out, &self.account_id.bytes);
        self.signature.write_to(&mut out);
        assert(out@ =~= enc_challenge_wire(self@));
        out
    }

    /// Decodes a complete envelope message and immediately rederives the
    /// hash from the decoded body, discarding nothing from the wire in
    /// its place: the wire form never carries a hash at all.
    #[verifier::rlimit(100)]
    #[verifier::spinoff_prover]
    pub fn decode(bytes: &Vec<u8>) -> (r: Option<Challenge>)
        ensures
            match r {
                Some(c) => dec_challenge_msg(bytes@) == Some(c@) && challenge_wf(c@),
                None => dec_challenge_msg(bytes@) is None,
            },
    {
        assert(bytes@.skip(0) =~= bytes@);
        match ChallengeBody::read_from(bytes, 0) {
            Some((body, p1)) => match read_bytes(bytes, p1) {
                Some((a, p2)) => match Signature::read_from(bytes, p2) {
                    Some((sg, p3)) => {
                        if p3 == bytes.len() {
                            assert(bytes@.skip(p3 as int).len() == 0);
                            let encoded = body.encode();
                            let hash = content_hash(&encoded);
                            let c = Challenge {
                                body,
                                account_id: AccountId::new(a),
                                signature: sg,
                                hash,
                            };
                            proof {
                                assert(dec_challenge_msg(bytes@)->Some_0 =~= c@);
                            }
                            Some(c)
                        } else {
                            assert(bytes@.skip(p3 as int).len() != 0);
                            None
                        }
                    },
                    None => None,
                },
                None => None,
            },
            None => None,
        }
    }
}

impl SlashedValidator {
    pub fn new(account_id: AccountId, is_double_sign: bool) -> (r: SlashedValidator)
        ensures
            r@.account_id == account_id@,
            r@.is_double_sign == is_double_sign,
    {
        SlashedValidator { account_id, is_double_sign }
    }

    /// The canonical wire form of this outcome record.
    pub fn encode(&self) -> (r: Vec<u8>)
        requires
            slashed_wf(self@),
        ensures
            r@ == enc_slashed(self@),
    {
        let mut out: Vec<u8> = Vec::new();
        write_bytes(&mut out, &self.account_id.bytes);
        if self.is_double_sign {
            out.push(1u8);
        } else {
            out.push(0u8);
        }
        assert(out@ =~= enc_slashed(self@));
        out
    }

    /// Decodes a complete outcome-record message.
    pub fn decode(bytes: &Vec<u8>) -> (r: Option<SlashedValidator>)
        ensures
            match r {
                Some(v) => dec_slashed_msg(bytes@) == Some(v@) && slashed_wf(v@),
                None => dec_slashed_msg(bytes@) is None,
            },
    {
        assert(bytes@.skip(0) =~= bytes@);
        match read_bytes(bytes, 0) {
            Some((a, p1)) => {
                if p1 < bytes.len() {
                    let flag = bytes[p1];
                    assert(flag == bytes@.skip(0).skip(p1 as int)[0]);
                    if (flag == 0u8 || flag == 1u8) && p1 + 1 == bytes.len() {
                        let v = SlashedValidator {
                            account_id: AccountId::new(a),
                            is_double_sign: flag == 1u8,
                        };
                        proof {
                            let rr = bytes@.skip(p1 as int);
                            assert(rr.skip(1) =~= bytes@.skip(p1 as int + 1));
                            assert(bytes@.skip(p1 as int + 1).len() == 0);
                            assert(dec_slashed(bytes@)->Some_0.0 =~= v@);
                        }
                        Some(v)
                    } else {
                        None
                    }
                } else {
                    None
                }
            },
            None => None,
        }
    }
}

} // verus!
