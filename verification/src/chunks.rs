use vstd::prelude::*;

use crate::codec::{blob_wf, dec_bytes, enc_bytes, lemma_bytes_round_trip, read_bytes, write_bytes};

verus! {

// The chunk containers below belong to the block/chunk encoding pipeline,
// an external collaborator. This crate consumes them as opaque
// serializable values: each carries its own canonical encoding and is
// framed on the wire as a length-prefixed blob.

/// A shard chunk in its wire-encoded, possibly corrupt form.
#[derive(Clone, PartialEq, Eq)]
pub struct EncodedShardChunk {
    pub bytes: Vec<u8>,
}

/// A shard chunk in its already-validated, structured form, carried here
/// by its canonical encoding.
#[derive(Clone, PartialEq, Eq)]
pub struct ShardChunk {
    pub bytes: Vec<u8>,
}

/// A shard chunk header, carried by its canonical encoding.
#[derive(Clone, PartialEq, Eq)]
pub struct ShardChunkHeader {
    pub bytes: Vec<u8>,
}

impl View for EncodedShardChunk {
    type V = Seq<u8>;

    open spec fn view(&self) -> Seq<u8> {
        self.bytes@
    }
}

impl View for ShardChunk {
    type V = Seq<u8>;

    open spec fn view(&self) -> Seq<u8> {
        self.bytes@
    }
}

impl View for ShardChunkHeader {
    type V = Seq<u8>;

    open spec fn view(&self) -> Seq<u8> {
        self.bytes@
    }
}

impl EncodedShardChunk {
    pub fn new(bytes: Vec<u8>) -> (r: EncodedShardChunk)
        ensures
            r@ == bytes@,
    {
        EncodedShardChunk { bytes }
    }
}

impl ShardChunk {
    pub fn new(bytes: Vec<u8>) -> (r: ShardChunk)
        ensures
            r@ == bytes@,
    {
        ShardChunk { bytes }
    }
}

impl ShardChunkHeader {
    pub fn new(bytes: Vec<u8>) -> (r: ShardChunkHeader)
        ensures
            r@ == bytes@,
    {
        ShardChunkHeader { bytes }
    }
}

/// The chunk evidence attached to a challenge: either the wire-encoded
/// form, needed when the alleged fault is a bad encoding that cannot be
/// decoded, or the decoded form, which spares the prover re-encoding a
/// chunk it has already validated (re-encoding is redundant work and a
/// non-canonical encoder could itself introduce mismatches).
#[derive(Clone, PartialEq, Eq)]
pub enum MaybeEncodedShardChunk {
    Encoded(EncodedShardChunk),
    Decoded(ShardChunk),
}

/// The mathematical shape of the chunk evidence.
#[verifier::ext_equal]
pub enum MaybeEncodedShardChunkView {
    Encoded(Seq<u8>),
    Decoded(Seq<u8>),
}

impl View for MaybeEncodedShardChunk {
    type V = MaybeEncodedShardChunkView;

    open spec fn view(&self) -> MaybeEncodedShardChunkView {
        match self {
            MaybeEncodedShardChunk::Encoded(c) => MaybeEncodedShardChunkView::Encoded(c@),
            MaybeEncodedShardChunk::Decoded(c) => MaybeEncodedShardChunkView::Decoded(c@),
        }
    }
}

pub open spec fn chunk_wf(v: MaybeEncodedShardChunkView) -> bool {
    match v {
        MaybeEncodedShardChunkView::Encoded(b) => blob_wf(b),
        MaybeEncodedShardChunkView::Decoded(b) => blob_wf(b),
    }
}

pub open spec fn chunk_tag(v: MaybeEncodedShardChunkView) -> u8 {
    match v {
        MaybeEncodedShardChunkView::Encoded(_) => 0,
        MaybeEncodedShardChunkView::Decoded(_) => 1,
    }
}

pub open spec fn chunk_blob(v: MaybeEncodedShardChunkView) -> Seq<u8> {
    match v {
        MaybeEncodedShardChunkView::Encoded(b) => b,
        MaybeEncodedShardChunkView::Decoded(b) => b,
    }
}

/// Chunk evidence on the wire: the variant tag, then the chunk's own
/// encoding as a length-prefixed blob.
pub open spec fn enc_chunk(v: MaybeEncodedShardChunkView) -> Seq<u8> {
    seq![chunk_tag(v)] + enc_bytes(chunk_blob(v))
}

pub open spec fn dec_chunk(s: Seq<u8>) -> Option<(MaybeEncodedShardChunkView, Seq<u8>)> {
    if s.len() >= 1 && (s[0] == 0 || s[0] == 1) {
        match dec_bytes(s.skip(1)) {
            Some((b, r)) => Some(
                (
                    if s[0] == 0 {
                        MaybeEncodedShardChunkView::Encoded(b)
                    } else {
                        MaybeEncodedShardChunkView::Decoded(b)
                    },
                    r,
                ),
            ),
            None => None,
        }
    } else {
        None
    }
}

pub proof fn lemma_chunk_round_trip(v: MaybeEncodedShardChunkView, rest: Seq<u8>)
    requires
        chunk_wf(v),
    ensures
        dec_chunk(enc_chunk(v) + rest) == Some((v, rest)),
{
    let s = enc_chunk(v) + rest;
    assert(s[0] == chunk_tag(v));
    assert(s.skip(1) =~= enc_bytes(chunk_blob(v)) + rest);
    lemma_bytes_round_trip(chunk_blob(v), rest);
}

pub proof fn lemma_dec_chunk_sound(s: Seq<u8>, v: MaybeEncodedShardChunkView, r: Seq<u8>)
    requires
        dec_chunk(s) == Some((v, r)),
    ensures
        s == enc_chunk(v) + r,
        chunk_wf(v),
{
    assert(s.len() >= 1 && (s[0] == 0 || s[0] == 1));
    let db = dec_bytes(s.skip(1));
    assert(db is Some);
    let b = db->Some_0.0;
    assert(r == db->Some_0.1);
    crate::codec::lemma_dec_bytes_sound(s.skip(1), b, r);
    assert(chunk_tag(v) == s[0] && chunk_blob(v) == b);
    assert(s =~= seq![s[0]] + s.skip(1));
    assert(s =~= enc_chunk(v) + r);
}

impl MaybeEncodedShardChunk {
    /// Appends the canonical wire form of this chunk evidence.
    pub fn write_to(&self, out: &mut Vec<u8>)
        requires
            chunk_wf(self@),
        ensures
            final(out)@ == old(out)@ + enc_chunk(self@),
    {
        match self {
            MaybeEncodedShardChunk::Encoded(c) => {
                out.push(0u8);
                write_bytes(out, &c.bytes);
            },
            MaybeEncodedShardChunk::Decoded(c) => {
                out.push(1u8);
                write_bytes(out, &c.bytes);
            },
        }
        assert(out@ =~= old(out)@ + enc_chunk(self@));
    }

    /// Reads chunk evidence at `pos`.
    pub fn read_from(data: &Vec<u8>, pos: usize) -> (r: Option<(MaybeEncodedShardChunk, usize)>)
        requires
            pos <= data@.len(),
        ensures
            match r {
                Some(cp) => {
                    &&& dec_chunk(data@.skip(pos as int)) == Some(
                        (cp.0@, data@.skip(cp.1 as int)),
                    )
                    &&& pos < cp.1 <= data@.len()
                    &&& chunk_wf(cp.0@)
                },
                None => dec_chunk(data@.skip(pos as int)) is None,
            },
    {
        let ghost s = data@.skip(pos as int);
        if pos < data.len() && (data[pos] == 0u8 || data[pos] == 1u8) {
            let tag = data[pos];
            assert(tag == s[0]);
            assert(s.skip(1) =~= data@.skip(pos as int + 1));
            match read_bytes(data, pos + 1) {
                Some((b, p2)) => {
                    let chunk = if tag == 0u8 {
                        MaybeEncodedShardChunk::Encoded(EncodedShardChunk { bytes: b })
                    } else {
                        MaybeEncodedShardChunk::Decoded(ShardChunk { bytes: b })
                    };
                    Some((chunk, p2))
                },
                None => None,
            }
        } else {
            None
        }
    }
}

} // verus!
