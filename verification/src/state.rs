use vstd::prelude::*;
use vstd::string::StringExecFns;

use crate::codec::{
    blob_seq_wf, dec_blob_seq, dec_u32, enc_blob_list, enc_blob_seq,
    lemma_blob_list_round_trip, lemma_enc_blob_seq_snoc, read_bytes, read_u32,
    write_bytes, write_u32,
};

verus! {

/// A serialized trie node or state value: an immutable, reference-counted
/// byte blob that any number of witnesses may share.
pub type TrieValue = std::sync::Arc<Vec<u8>>;

/// The succinct state witness for replaying one chunk: the ordered sequence
/// of raw trie-node and value blobs the disputed computation dereferences.
/// The replay engine that walks the trie builds it; this crate carries it
/// read-only and pins down its canonical wire form.
#[derive(Clone, PartialEq, Eq)]
pub enum PartialState {
    /// State represented by the sequence of trie values
    /// (raw trie nodes and state values).
    TrieValues(Vec<TrieValue>),
}

impl View for PartialState {
    type V = Seq<Seq<u8>>;

    open spec fn view(&self) -> Seq<Seq<u8>> {
        match self {
            PartialState::TrieValues(values) => values@.map_values(|v: TrieValue| v@),
        }
    }
}

/// Tag for the `TrieValues` representation on the wire.
pub open spec fn spec_trie_values_tag() -> u8 {
    0
}

/// Canonical wire form of a witness: representation tag, 32-bit blob count,
/// then each blob length-prefixed.
pub open spec fn enc_partial_state(vs: Seq<Seq<u8>>) -> Seq<u8> {
    seq![spec_trie_values_tag()] + enc_blob_list(vs)
}

pub open spec fn dec_partial_state(s: Seq<u8>) -> Option<(Seq<Seq<u8>>, Seq<u8>)> {
    if s.len() >= 1 && s[0] == spec_trie_values_tag() {
        match dec_u32(s.skip(1)) {
            Some((n, r)) => dec_blob_seq(r, n as nat),
            None => None,
        }
    } else {
        None
    }
}

/// Decoding a complete message: every byte of the input must be consumed.
pub open spec fn dec_partial_state_msg(bytes: Seq<u8>) -> Option<Seq<Seq<u8>>> {
    match dec_partial_state(bytes) {
        Some((v, r)) => if r.len() == 0 {
            Some(v)
        } else {
            None
        },
        None => None,
    }
}

/// A witness can be framed when its count and every blob fit the
/// 32-bit length prefixes.
pub open spec fn partial_state_wf(vs: Seq<Seq<u8>>) -> bool {
    blob_seq_wf(vs)
}

/// Law: the canonical encoding of a witness decodes back to exactly the
/// same sequence of blobs, byte for byte, with nothing left over.
#[verifier::rlimit(50)]
pub proof fn lemma_partial_state_round_trip(vs: Seq<Seq<u8>>, rest: Seq<u8>)
    requires
        partial_state_wf(vs),
    ensures
        dec_partial_state(enc_partial_state(vs) + rest) == Some((vs, rest)),
        dec_partial_state_msg(enc_partial_state(vs)) == Some(vs),
{
    let s = enc_partial_state(vs) + rest;
    assert(s.len() >= 1);
    assert(s[0] == spec_trie_values_tag());
    assert(s.skip(1) =~= (enc_blob_list(vs) + rest).skip(0));
    assert((enc_blob_list(vs) + rest).skip(0) =~= enc_blob_list(vs) + rest);
    lemma_blob_list_round_trip(vs, rest);
    assert(dec_u32(s.skip(1)) == dec_u32(enc_blob_list(vs) + rest));
    assert(dec_partial_state(s) == Some((vs, rest)));
    lemma_partial_state_msg_round_trip(vs);
}

proof fn lemma_partial_state_msg_round_trip(vs: Seq<Seq<u8>>)
    requires
        partial_state_wf(vs),
    ensures
        dec_partial_state_msg(enc_partial_state(vs)) == Some(vs),
{
    let s2 = enc_partial_state(vs);
    let s3 = enc_partial_state(vs) + Seq::<u8>::empty();
    assert(s2 =~= s3);
    assert(s3.len() >= 1 && s3[0] == spec_trie_values_tag());
    assert(s3.skip(1) =~= enc_blob_list(vs) + Seq::<u8>::empty());
    lemma_blob_list_round_trip(vs, Seq::<u8>::empty());
    assert(dec_partial_state(s3) == Some((vs, Seq::<u8>::empty())));
}

/// Law: the canonical form of a witness is unique — any bytes that
/// decode to a witness are exactly its encoding.
#[verifier::rlimit(100)]
#[verifier::spinoff_prover]
pub proof fn lemma_dec_partial_state_sound(s: Seq<u8>, vs: Seq<Seq<u8>>, r: Seq<u8>)
    requires
        dec_partial_state(s) == Some((vs, r)),
    ensures
        s == enc_partial_state(vs) + r,
        partial_state_wf(vs),
{
    assert(s.len() >= 1 && s[0] == spec_trie_values_tag());
    let du = dec_u32(s.skip(1));
    assert(du is Some);
    let n = du->Some_0.0;
    let t = du->Some_0.1;
    crate::codec::lemma_dec_u32_sound(s.skip(1), n, t);
    crate::codec::lemma_dec_blob_seq_sound(t, n as nat, vs, r);
    assert(vs.len() as u32 == n);
    assert(s =~= seq![spec_trie_values_tag()] + s.skip(1));
    assert(s =~= enc_partial_state(vs) + r);
}

impl PartialState {
    /// The number of witness blobs carried.
    pub fn len(&self) -> (r: usize)
        ensures
            r == self@.len(),
    {
        let PartialState::TrieValues(values) = self;
        values.len()
    }

    /// Appends the canonical wire form of this witness.
    pub fn write_to(&self, out: &mut Vec<u8>)
        requires
            partial_state_wf(self@),
        ensures
            final(out)@ == old(out)@ + enc_partial_state(self@),
    {
        let PartialState::TrieValues(values) = self;
        out.push(0u8);
        write_u32(out, values.len() as u32);
        let ghost mid = out@;
        let mut i: usize = 0;
        while i < values.len()
            invariant
                i <= values@.len(),
                self@ == values@.map_values(|v: TrieValue| v@),
                out@ == mid + enc_blob_seq(self@.take(i as int)),
                partial_state_wf(self@),
            decreases values@.len() - i,
        {
            let tv: &TrieValue = &values[i];
            assert((**tv)@ == self@[i as int]);
            write_bytes(out, &**tv);
            proof {
                lemma_enc_blob_seq_snoc(self@.take(i as int), self@[i as int]);
                assert(self@.take(i as int).push(self@[i as int]) =~= self@.take(i as int + 1));
            }
            i = i + 1;
        }
        proof {
            assert(self@.take(self@.len() as int) =~= self@);
            assert(out@ =~= old(out)@ + enc_partial_state(self@));
        }
    }

    /// The canonical wire form of this witness.
    pub fn encode(&self) -> (r: Vec<u8>)
        requires
            partial_state_wf(self@),
        ensures
            r@ == enc_partial_state(self@),
    {
        let mut out: Vec<u8> = Vec::new();
        self.write_to(&mut out);
        out
    }

    /// Reads a witness from its canonical wire form at `pos`.
    pub fn read_from(data: &Vec<u8>, pos: usize) -> (r: Option<(PartialState, usize)>)
        requires
            pos <= data@.len(),
        ensures
            match r {
                Some(vp) => {
                    &&& dec_partial_state(data@.skip(pos as int)) == Some(
                        (vp.0@, data@.skip(vp.1 as int)),
                    )
                    &&& pos < vp.1 <= data@.len()
                    &&& partial_state_wf(vp.0@)
                },
                None => dec_partial_state(data@.skip(pos as int)) is None,
            },
    {
        let ghost s = data@.skip(pos as int);
        if pos < data.len() && data[pos] == 0u8 {
            assert(s[0] == spec_trie_values_tag());
            assert(s.skip(1) =~= data@.skip(pos as int + 1));
            match read_u32(data, pos + 1) {
                Some((n, p_start)) => {
                    let ghost p1 = p_start as int;
                    assert(dec_partial_state(s) == dec_blob_seq(data@.skip(p1), n as nat));
                    let mut p: usize = p_start;
                    let mut values: Vec<TrieValue> = Vec::new();
                    let mut k: u32 = 0;
                    assert(values@.map_values(|v: TrieValue| v@) =~= Seq::<Seq<u8>>::empty());
                    while k < n
                        invariant
                            k <= n,
                            pos < p <= data@.len(),
                            values@.len() == k,
                            blob_seq_wf(values@.map_values(|v: TrieValue| v@)),
                            dec_partial_state(data@.skip(pos as int)) == dec_blob_seq(
                                data@.skip(p1),
                                n as nat,
                            ),
                            dec_blob_seq(data@.skip(p1), n as nat) == match dec_blob_seq(
                                data@.skip(p as int),
                                (n - k) as nat,
                            ) {
                                Some((bs, r)) => Some(
                                    (values@.map_values(|v: TrieValue| v@) + bs, r),
                                ),
                                None => None,
                            },
                        decreases n - k,
                    {
                        let ghost acc = values@.map_values(|v: TrieValue| v@);
                        match read_bytes(data, p) {
                            Some((b, p2)) => {
                                let ghost bb = b@;
                                proof {
                                    let rec = dec_blob_seq(
                                        data@.skip(p2 as int),
                                        (n - k - 1) as nat,
                                    );
                                    assert(dec_blob_seq(data@.skip(p as int), (n - k) as nat)
                                        == match rec {
                                        Some((bs, r)) => Some((seq![bb] + bs, r)),
                                        None => None,
                                    });
                                    if rec is Some {
                                        let bs0 = rec->Some_0.0;
                                        assert(acc + (seq![bb] + bs0) =~= acc.push(bb) + bs0);
                                    }
                                }
                                values.push(std::sync::Arc::new(b));
                                proof {
                                    assert(values@.map_values(|v: TrieValue| v@) =~= acc.push(
                                        bb,
                                    ));
                                }
                                p = p2;
                                k = k + 1;
                            },
                            None => {
                                proof {
                                    assert(dec_blob_seq(data@.skip(p as int), (n - k) as nat)
                                        is None);
                                }
                                return None;
                            },
                        }
                    }
                    proof {
                        assert(dec_blob_seq(data@.skip(p as int), (n - k) as nat) == Some(
                            (Seq::<Seq<u8>>::empty(), data@.skip(p as int)),
                        ));
                        let accf = values@.map_values(|v: TrieValue| v@);
                        assert(accf + Seq::<Seq<u8>>::empty() =~= accf);
                    }
                    Some((PartialState::TrieValues(values), p))
                },
                None => None,
            }
        } else {
            None
        }
    }

    /// Decodes a complete canonical message into a witness.
    pub fn decode(bytes: &Vec<u8>) -> (r: Option<PartialState>)
        ensures
            match r {
                Some(v) => dec_partial_state_msg(bytes@) == Some(v@) && partial_state_wf(v@),
                None => dec_partial_state_msg(bytes@) is None,
            },
    {
        assert(bytes@.skip(0) =~= bytes@);
        match PartialState::read_from(bytes, 0) {
            Some((v, p)) => {
                if p == bytes.len() {
                    assert(bytes@.skip(p as int).len() == 0);
                    Some(v)
                } else {
                    assert(bytes@.skip(p as int).len() != 0);
                    None
                }
            },
            None => None,
        }
    }
}

/// The character for one decimal digit.
pub open spec fn digit_char(d: nat) -> char {
    if d == 0 {
        '0'
    } else if d == 1 {
        '1'
    } else if d == 2 {
        '2'
    } else if d == 3 {
        '3'
    } else if d == 4 {
        '4'
    } else if d == 5 {
        '5'
    } else if d == 6 {
        '6'
    } else if d == 7 {
        '7'
    } else if d == 8 {
        '8'
    } else {
        '9'
    }
}

/// The decimal digits of `n`, most significant first.
pub open spec fn spec_decimal(n: nat) -> Seq<char>
    decreases n,
{
    if n < 10 {
        seq![digit_char(n)]
    } else {
        spec_decimal(n / 10).push(digit_char(n % 10))
    }
}

/// The summarized, loggable form of a witness: its blob count and
/// nothing of the blobs themselves.
pub open spec fn spec_summary(n: nat) -> Seq<char> {
    spec_decimal(n) + " trie values"@
}

fn append_digit(out: &mut String, d: u64)
    requires
        d < 10,
    ensures
        final(out)@ == old(out)@ + seq![digit_char(d as nat)],
{
    if d == 0 {
        out.append("0");
        proof {
            reveal_strlit("0");
            assert("0"@ =~= seq![digit_char(d as nat)]);
        }
    } else if d == 1 {
        out.append("1");
        proof {
            reveal_strlit("1");
            assert("1"@ =~= seq![digit_char(d as nat)]);
        }
    } else if d == 2 {
        out.append("2");
        proof {
            reveal_strlit("2");
            assert("2"@ =~= seq![digit_char(d as nat)]);
        }
    } else if d == 3 {
        out.append("3");
        proof {
            reveal_strlit("3");
            assert("3"@ =~= seq![digit_char(d as nat)]);
        }
    } else if d == 4 {
        out.append("4");
        proof {
            reveal_strlit("4");
            assert("4"@ =~= seq![digit_char(d as nat)]);
        }
    } else if d == 5 {
        out.append("5");
        proof {
            reveal_strlit("5");
            assert("5"@ =~= seq![digit_char(d as nat)]);
        }
    } else if d == 6 {
        out.append("6");
        proof {
            reveal_strlit("6");
            assert("6"@ =~= seq![digit_char(d as nat)]);
        }
    } else if d == 7 {
        out.append("7");
        proof {
            reveal_strlit("7");
            assert("7"@ =~= seq![digit_char(d as nat)]);
        }
    } else if d == 8 {
        out.append("8");
        proof {
            reveal_strlit("8");
            assert("8"@ =~= seq![digit_char(d as nat)]);
        }
    } else {
        out.append("9");
        proof {
            reveal_strlit("9");
            assert("9"@ =~= seq![digit_char(d as nat)]);
        }
    }
}

fn append_decimal(out: &mut String, n: u64)
    ensures
        final(out)@ == old(out)@ + spec_decimal(n as nat),
    decreases n,
{
    if n < 10 {
        append_digit(out, n);
    } else {
        append_decimal(out, n / 10);
        append_digit(out, n % 10);
        assert(out@ =~= old(out)@ + spec_decimal(n as nat));
    }
}

impl PartialState {
    /// The summarized form for logs and inspection: the count of trie
    /// values, never the raw blob contents, which can be large and look
    /// like binary noise.
    pub fn summary(&self) -> (r: String)
        ensures
            r@ == spec_summary(self@.len()),
    {
        let mut out = String::new();
        append_decimal(&mut out, self.len() as u64);
        out.append(" trie values");
        out
    }
}

impl Default for PartialState {
    /// The canonical "no evidence" placeholder: a witness of zero blobs.
    fn default() -> (r: PartialState)
        ensures
            r@.len() == 0,
    {
        let values: Vec<TrieValue> = Vec::new();
        let r = PartialState::TrieValues(values);
        assert(r@ =~= Seq::<Seq<u8>>::empty());
        r
    }
}

} // verus!
