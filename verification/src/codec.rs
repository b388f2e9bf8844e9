use vstd::prelude::*;

verus! {

// Canonical byte-level primitives shared by every wire form in this crate:
// little-endian 32-bit length prefixes, length-prefixed byte blobs, and
// counted lists of blobs. Encoding is deterministic; decoding consumes a
// prefix of the input and hands back the rest.

/// The four little-endian bytes of a 32-bit length or count.
pub open spec fn u32_le(n: u32) -> Seq<u8> {
    seq![
        (n & 0xff) as u8,
        ((n >> 8) & 0xff) as u8,
        ((n >> 16) & 0xff) as u8,
        ((n >> 24) & 0xff) as u8,
    ]
}

/// The 32-bit value read back from four little-endian bytes.
pub open spec fn u32_from_le(b0: u8, b1: u8, b2: u8, b3: u8) -> u32 {
    (b0 as u32) | ((b1 as u32) << 8) | ((b2 as u32) << 16) | ((b3 as u32) << 24)
}

pub open spec fn dec_u32(s: Seq<u8>) -> Option<(u32, Seq<u8>)> {
    if s.len() >= 4 {
        Some((u32_from_le(s[0], s[1], s[2], s[3]), s.skip(4)))
    } else {
        None
    }
}

/// A blob can be framed only when its length fits the 32-bit prefix.
pub open spec fn blob_wf(b: Seq<u8>) -> bool {
    b.len() <= u32::MAX
}

/// A byte blob on the wire: 32-bit length prefix, then the bytes verbatim.
pub open spec fn enc_bytes(b: Seq<u8>) -> Seq<u8> {
    u32_le(b.len() as u32) + b
}

pub open spec fn dec_bytes(s: Seq<u8>) -> Option<(Seq<u8>, Seq<u8>)> {
    match dec_u32(s) {
        Some((n, r)) => if r.len() >= n {
            Some((r.take(n as int), r.skip(n as int)))
        } else {
            None
        },
        None => None,
    }
}

pub open spec fn blob_seq_wf(vs: Seq<Seq<u8>>) -> bool {
    &&& vs.len() <= u32::MAX
    &&& forall|i: int| 0 <= i < vs.len() ==> blob_wf(#[trigger] vs[i])
}

pub open spec fn enc_blob_seq(vs: Seq<Seq<u8>>) -> Seq<u8>
    decreases vs.len(),
{
    if vs.len() == 0 {
        Seq::empty()
    } else {
        enc_bytes(vs[0]) + enc_blob_seq(vs.skip(1))
    }
}

/// A list of blobs on the wire: 32-bit count, then each blob framed.
pub open spec fn enc_blob_list(vs: Seq<Seq<u8>>) -> Seq<u8> {
    u32_le(vs.len() as u32) + enc_blob_seq(vs)
}

pub open spec fn dec_blob_seq(s: Seq<u8>, n: nat) -> Option<(Seq<Seq<u8>>, Seq<u8>)>
    decreases n,
{
    if n == 0 {
        Some((Seq::empty(), s))
    } else {
        match dec_bytes(s) {
            Some((b, r)) => match dec_blob_seq(r, (n - 1) as nat) {
                Some((bs, r2)) => Some((seq![b] + bs, r2)),
                None => None,
            },
            None => None,
        }
    }
}

pub open spec fn dec_blob_list(s: Seq<u8>) -> Option<(Seq<Seq<u8>>, Seq<u8>)> {
    match dec_u32(s) {
        Some((n, r)) => dec_blob_seq(r, n as nat),
        None => None,
    }
}

proof fn lemma_u32_byte_bounds(n: u32)
    by (bit_vector)
    ensures
        n & 0xff < 256,
        (n >> 8) & 0xff < 256,
        (n >> 16) & 0xff < 256,
        (n >> 24) & 0xff < 256,
{
}

pub proof fn lemma_u32_round_trip(n: u32, rest: Seq<u8>)
    ensures
        dec_u32(u32_le(n) + rest) == Some((n, rest)),
{
    let s = u32_le(n) + rest;
    assert(s.len() >= 4);
    assert(s[0] == (n & 0xff) as u8);
    assert(s[1] == ((n >> 8) & 0xff) as u8);
    assert(s[2] == ((n >> 16) & 0xff) as u8);
    assert(s[3] == ((n >> 24) & 0xff) as u8);
    assert(u32_from_le(
        (n & 0xff) as u8,
        ((n >> 8) & 0xff) as u8,
        ((n >> 16) & 0xff) as u8,
        ((n >> 24) & 0xff) as u8,
    ) == n) by (bit_vector);
    assert(s.skip(4) =~= rest);
}

pub proof fn lemma_bytes_round_trip(b: Seq<u8>, rest: Seq<u8>)
    requires
        blob_wf(b),
    ensures
        dec_bytes(enc_bytes(b) + rest) == Some((b, rest)),
{
    let n = b.len() as u32;
    let s = enc_bytes(b) + rest;
    assert(s =~= u32_le(n) + (b + rest));
    lemma_u32_round_trip(n, b + rest);
    assert(dec_u32(s) == Some((n, b + rest)));
    assert((b + rest).len() >= n);
    assert((b + rest).take(n as int) =~= b);
    assert((b + rest).skip(n as int) =~= rest);
}

#[verifier::rlimit(100)]
#[verifier::spinoff_prover]
pub proof fn lemma_blob_seq_round_trip(vs: Seq<Seq<u8>>, rest: Seq<u8>)
    requires
        forall|i: int| 0 <= i < vs.len() ==> blob_wf(#[trigger] vs[i]),
    ensures
        dec_blob_seq(enc_blob_seq(vs) + rest, vs.len()) == Some((vs, rest)),
    decreases vs.len(),
{
    if vs.len() == 0 {
        assert(enc_blob_seq(vs) + rest =~= rest);
        assert(vs =~= Seq::<Seq<u8>>::empty());
    } else {
        let tail = vs.skip(1);
        let s = enc_blob_seq(vs) + rest;
        assert(s =~= enc_bytes(vs[0]) + (enc_blob_seq(tail) + rest));
        lemma_bytes_round_trip(vs[0], enc_blob_seq(tail) + rest);
        assert(forall|i: int| 0 <= i < tail.len() ==> blob_wf(#[trigger] tail[i]));
        lemma_blob_seq_round_trip(tail, rest);
        assert(seq![vs[0]] + tail =~= vs);
    }
}

pub proof fn lemma_enc_blob_seq_snoc(vs: Seq<Seq<u8>>, b: Seq<u8>)
    ensures
        enc_blob_seq(vs.push(b)) == enc_blob_seq(vs) + enc_bytes(b),
    decreases vs.len(),
{
    let p = vs.push(b);
    if vs.len() == 0 {
        assert(p[0] == b);
        assert(p.skip(1) =~= Seq::<Seq<u8>>::empty());
        assert(enc_blob_seq(p) == enc_bytes(b) + enc_blob_seq(p.skip(1)));
        assert(enc_blob_seq(p) =~= enc_blob_seq(vs) + enc_bytes(b));
    } else {
        assert(p[0] == vs[0]);
        assert(p.skip(1) =~= vs.skip(1).push(b));
        assert(enc_blob_seq(p) == enc_bytes(vs[0]) + enc_blob_seq(vs.skip(1).push(b)));
        lemma_enc_blob_seq_snoc(vs.skip(1), b);
        assert(enc_blob_seq(vs) == enc_bytes(vs[0]) + enc_blob_seq(vs.skip(1)));
        assert(enc_blob_seq(p) =~= enc_blob_seq(vs) + enc_bytes(b));
    }
}

pub proof fn lemma_blob_list_round_trip(vs: Seq<Seq<u8>>, rest: Seq<u8>)
    requires
        blob_seq_wf(vs),
    ensures
        dec_blob_list(enc_blob_list(vs) + rest) == Some((vs, rest)),
{
    let n = vs.len() as u32;
    let s = enc_blob_list(vs) + rest;
    assert(s =~= u32_le(n) + (enc_blob_seq(vs) + rest));
    lemma_u32_round_trip(n, enc_blob_seq(vs) + rest);
    lemma_blob_seq_round_trip(vs, rest);
}

proof fn lemma_u32_le_of_from_le(b0: u8, b1: u8, b2: u8, b3: u8)
    by (bit_vector)
    ensures
        (u32_from_le(b0, b1, b2, b3) & 0xff) as u8 == b0,
        ((u32_from_le(b0, b1, b2, b3) >> 8) & 0xff) as u8 == b1,
        ((u32_from_le(b0, b1, b2, b3) >> 16) & 0xff) as u8 == b2,
        ((u32_from_le(b0, b1, b2, b3) >> 24) & 0xff) as u8 == b3,
{
}

pub proof fn lemma_dec_u32_sound(s: Seq<u8>, n: u32, r: Seq<u8>)
    requires
        dec_u32(s) == Some((n, r)),
    ensures
        s == u32_le(n) + r,
{
    assert(s.len() >= 4);
    lemma_u32_le_of_from_le(s[0], s[1], s[2], s[3]);
    assert(s =~= u32_le(n) + s.skip(4));
}

pub proof fn lemma_dec_bytes_sound(s: Seq<u8>, b: Seq<u8>, r: Seq<u8>)
    requires
        dec_bytes(s) == Some((b, r)),
    ensures
        s == enc_bytes(b) + r,
        blob_wf(b),
{
    let du = dec_u32(s);
    assert(du is Some);
    let n = du->Some_0.0;
    let t = du->Some_0.1;
    lemma_dec_u32_sound(s, n, t);
    assert(b == t.take(n as int) && r == t.skip(n as int));
    assert(t =~= b + r);
    assert(b.len() == n);
    assert(b.len() as u32 == n);
    assert(s =~= enc_bytes(b) + r);
}

#[verifier::rlimit(100)]
pub proof fn lemma_dec_blob_seq_sound(s: Seq<u8>, n: nat, bs: Seq<Seq<u8>>, r: Seq<u8>)
    requires
        dec_blob_seq(s, n) == Some((bs, r)),
    ensures
        s == enc_blob_seq(bs) + r,
        bs.len() == n,
        forall|i: int| 0 <= i < bs.len() ==> blob_wf(#[trigger] bs[i]),
    decreases n,
{
    if n == 0 {
        assert(bs =~= Seq::<Seq<u8>>::empty());
        assert(s =~= enc_blob_seq(bs) + r);
    } else {
        let db = dec_bytes(s);
        assert(db is Some);
        let b = db->Some_0.0;
        let t = db->Some_0.1;
        let rec = dec_blob_seq(t, (n - 1) as nat);
        assert(rec is Some);
        let bs2 = rec->Some_0.0;
        assert(bs == seq![b] + bs2 && r == rec->Some_0.1);
        lemma_dec_bytes_sound(s, b, t);
        lemma_dec_blob_seq_sound(t, (n - 1) as nat, bs2, r);
        assert(bs[0] == b);
        assert(bs.skip(1) =~= bs2);
        assert(enc_blob_seq(bs) == enc_bytes(bs[0]) + enc_blob_seq(bs.skip(1)));
        assert(s =~= enc_blob_seq(bs) + r);
        assert(forall|i: int| 0 <= i < bs.len() ==> blob_wf(#[trigger] bs[i])) by {
            assert(forall|i: int|
                1 <= i < bs.len() ==> bs[i] == #[trigger] bs2[i - 1] && blob_wf(bs2[i - 1]));
        }
    }
}

/// Appends the four little-endian bytes of `n`.
pub fn write_u32(out: &mut Vec<u8>, n: u32)
    ensures
        final(out)@ == old(out)@ + u32_le(n),
{
    proof {
        lemma_u32_byte_bounds(n);
    }
    out.push((n & 0xff) as u8);
    out.push(((n >> 8) & 0xff) as u8);
    out.push(((n >> 16) & 0xff) as u8);
    out.push(((n >> 24) & 0xff) as u8);
    assert(out@ =~= old(out)@ + u32_le(n));
}

/// Appends a length-prefixed byte blob.
pub fn write_bytes(out: &mut Vec<u8>, b: &Vec<u8>)
    requires
        blob_wf(b@),
    ensures
        final(out)@ == old(out)@ + enc_bytes(b@),
{
    write_u32(out, b.len() as u32);
    let ghost mid = out@;
    let mut i: usize = 0;
    while i < b.len()
        invariant
            i <= b@.len(),
            out@ == mid + b@.take(i as int),
        decreases b@.len() - i,
    {
        out.push(b[i]);
        assert(out@ =~= mid + b@.take(i as int + 1));
        i = i + 1;
    }
    assert(b@.take(b@.len() as int) =~= b@);
    assert(out@ =~= old(out)@ + enc_bytes(b@));
}

/// Reads a 32-bit little-endian value at `pos`.
pub fn read_u32(data: &Vec<u8>, pos: usize) -> (r: Option<(u32, usize)>)
    requires
        pos <= data@.len(),
    ensures
        match r {
            Some(vp) => {
                &&& dec_u32(data@.skip(pos as int)) == Some((vp.0, data@.skip(vp.1 as int)))
                &&& pos < vp.1 <= data@.len()
            },
            None => dec_u32(data@.skip(pos as int)) is None,
        },
{
    if data.len() - pos >= 4 {
        let b0 = data[pos];
        let b1 = data[pos + 1];
        let b2 = data[pos + 2];
        let b3 = data[pos + 3];
        let v = (b0 as u32) | ((b1 as u32) << 8) | ((b2 as u32) << 16) | ((b3 as u32) << 24);
        let ghost s = data@.skip(pos as int);
        assert(s[0] == b0 && s[1] == b1 && s[2] == b2 && s[3] == b3);
        assert(s.skip(4) =~= data@.skip(pos as int + 4));
        Some((v, pos + 4))
    } else {
        None
    }
}

/// Reads a length-prefixed byte blob at `pos`.
pub fn read_bytes(data: &Vec<u8>, pos: usize) -> (r: Option<(Vec<u8>, usize)>)
    requires
        pos <= data@.len(),
    ensures
        match r {
            Some(bp) => {
                &&& dec_bytes(data@.skip(pos as int)) == Some((bp.0@, data@.skip(bp.1 as int)))
                &&& pos < bp.1 <= data@.len()
                &&& blob_wf(bp.0@)
            },
            None => dec_bytes(data@.skip(pos as int)) is None,
        },
{
    let ghost s = data@.skip(pos as int);
    match read_u32(data, pos) {
        Some((n, p1)) => {
            assert(data@.skip(p1 as int).len() == data@.len() - p1);
            if data.len() - p1 >= n as usize {
                let end: usize = p1 + n as usize;
                let mut b: Vec<u8> = Vec::new();
                let mut i: usize = p1;
                while i < end
                    invariant
                        p1 <= i <= end,
                        end <= data@.len(),
                        b@ == data@.subrange(p1 as int, i as int),
                    decreases end - i,
                {
                    b.push(data[i]);
                    assert(b@ =~= data@.subrange(p1 as int, i as int + 1));
                    i = i + 1;
                }
                proof {
                    let r1 = data@.skip(p1 as int);
                    assert(r1.take(n as int) =~= data@.subrange(p1 as int, end as int));
                    assert(r1.skip(n as int) =~= data@.skip(end as int));
                }
                Some((b, end))
            } else {
                None
            }
        },
        None => None,
    }
}

} // verus!
