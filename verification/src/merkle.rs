use vstd::prelude::*;

use crate::codec::{dec_u32, read_u32, u32_le, write_u32};
use crate::hash::{hash_wf, CryptoHash};

verus! {

/// Which side a sibling digest sits on at one level of an inclusion proof.
#[derive(Clone, Copy, PartialEq, Eq, Structural)]
pub enum Direction {
    Left,
    Right,
}

/// One level of a Merkle inclusion proof: the sibling digest and the side
/// it combines on.
#[derive(Clone, PartialEq, Eq)]
pub struct MerklePathItem {
    pub hash: CryptoHash,
    pub direction: Direction,
}

/// Proof that a leaf digest is included under a Merkle-committed root:
/// one sibling digest and direction per level.
pub type MerklePath = Vec<MerklePathItem>;

/// The mathematical shape of one proof level.
#[verifier::ext_equal]
pub struct MerklePathItemView {
    pub hash: Seq<u8>,
    pub direction: Direction,
}

impl View for MerklePathItem {
    type V = MerklePathItemView;

    open spec fn view(&self) -> MerklePathItemView {
        MerklePathItemView { hash: self.hash@, direction: self.direction }
    }
}

pub open spec fn path_view(items: Seq<MerklePathItem>) -> Seq<MerklePathItemView> {
    items.map_values(|it: MerklePathItem| it@)
}

pub open spec fn path_item_wf(it: MerklePathItemView) -> bool {
    hash_wf(it.hash)
}

pub open spec fn path_wf(p: Seq<MerklePathItemView>) -> bool {
    &&& p.len() <= u32::MAX
    &&& forall|i: int| 0 <= i < p.len() ==> path_item_wf(#[trigger] p[i])
}

pub open spec fn dir_tag(d: Direction) -> u8 {
    match d {
        Direction::Left => 0,
        Direction::Right => 1,
    }
}

/// One proof level on the wire: the 32 digest bytes verbatim, then the
/// direction tag.
pub open spec fn enc_path_item(it: MerklePathItemView) -> Seq<u8> {
    it.hash + seq![dir_tag(it.direction)]
}

pub open spec fn dec_path_item(s: Seq<u8>) -> Option<(MerklePathItemView, Seq<u8>)> {
    if s.len() >= 33 && (s[32] == 0 || s[32] == 1) {
        Some(
            (
                MerklePathItemView {
                    hash: s.take(32),
                    direction: if s[32] == 0 {
                        Direction::Left
                    } else {
                        Direction::Right
                    },
                },
                s.skip(33),
            ),
        )
    } else {
        None
    }
}

pub open spec fn enc_path_items(p: Seq<MerklePathItemView>) -> Seq<u8>
    decreases p.len(),
{
    if p.len() == 0 {
        Seq::empty()
    } else {
        enc_path_item(p[0]) + enc_path_items(p.skip(1))
    }
}

/// A proof on the wire: 32-bit level count, then each level.
pub open spec fn enc_path(p: Seq<MerklePathItemView>) -> Seq<u8> {
    u32_le(p.len() as u32) + enc_path_items(p)
}

pub open spec fn dec_path_items(s: Seq<u8>, n: nat) -> Option<
    (Seq<MerklePathItemView>, Seq<u8>),
>
    decreases n,
{
    if n == 0 {
        Some((Seq::empty(), s))
    } else {
        match dec_path_item(s) {
            Some((it, r)) => match dec_path_items(r, (n - 1) as nat) {
                Some((its, r2)) => Some((seq![it] + its, r2)),
                None => None,
            },
            None => None,
        }
    }
}

pub open spec fn dec_path(s: Seq<u8>) -> Option<(Seq<MerklePathItemView>, Seq<u8>)> {
    match dec_u32(s) {
        Some((n, r)) => dec_path_items(r, n as nat),
        None => None,
    }
}

pub proof fn lemma_path_item_round_trip(it: MerklePathItemView, rest: Seq<u8>)
    requires
        path_item_wf(it),
    ensures
        dec_path_item(enc_path_item(it) + rest) == Some((it, rest)),
{
    let s = enc_path_item(it) + rest;
    assert(s.len() >= 33);
    assert(s[32] == dir_tag(it.direction));
    assert(s.take(32) =~= it.hash);
    assert(s.skip(33) =~= rest);
    assert(dec_path_item(s)->Some_0.0 =~= it);
}

pub proof fn lemma_enc_path_items_snoc(p: Seq<MerklePathItemView>, it: MerklePathItemView)
    ensures
        enc_path_items(p.push(it)) == enc_path_items(p) + enc_path_item(it),
    decreases p.len(),
{
    let q = p.push(it);
    if p.len() == 0 {
        assert(q[0] == it);
        assert(q.skip(1) =~= Seq::<MerklePathItemView>::empty());
        assert(enc_path_items(q) == enc_path_item(it) + enc_path_items(q.skip(1)));
        assert(enc_path_items(q) =~= enc_path_items(p) + enc_path_item(it));
    } else {
        assert(q[0] == p[0]);
        assert(q.skip(1) =~= p.skip(1).push(it));
        assert(enc_path_items(q) == enc_path_item(p[0]) + enc_path_items(p.skip(1).push(it)));
        lemma_enc_path_items_snoc(p.skip(1), it);
        assert(enc_path_items(p) == enc_path_item(p[0]) + enc_path_items(p.skip(1)));
        assert(enc_path_items(q) =~= enc_path_items(p) + enc_path_item(it));
    }
}

#[verifier::rlimit(50)]
pub proof fn lemma_path_items_round_trip(p: Seq<MerklePathItemView>, rest: Seq<u8>)
    requires
        forall|i: int| 0 <= i < p.len() ==> path_item_wf(#[trigger] p[i]),
    ensures
        dec_path_items(enc_path_items(p) + rest, p.len()) == Some((p, rest)),
    decreases p.len(),
{
    if p.len() == 0 {
        assert(enc_path_items(p) + rest =~= rest);
        assert(p =~= Seq::<MerklePathItemView>::empty());
    } else {
        let tail = p.skip(1);
        let s = enc_path_items(p) + rest;
        assert(s =~= enc_path_item(p[0]) + (enc_path_items(tail) + rest));
        lemma_path_item_round_trip(p[0], enc_path_items(tail) + rest);
        lemma_path_items_round_trip(tail, rest);
        assert(seq![p[0]] + tail =~= p);
    }
}

pub proof fn lemma_path_round_trip(p: Seq<MerklePathItemView>, rest: Seq<u8>)
    requires
        path_wf(p),
    ensures
        dec_path(enc_path(p) + rest) == Some((p, rest)),
{
    let n = p.len() as u32;
    let s = enc_path(p) + rest;
    assert(s =~= u32_le(n) + (enc_path_items(p) + rest));
    crate::codec::lemma_u32_round_trip(n, enc_path_items(p) + rest);
    lemma_path_items_round_trip(p, rest);
}

pub proof fn lemma_dec_path_item_sound(s: Seq<u8>, it: MerklePathItemView, r: Seq<u8>)
    requires
        dec_path_item(s) == Some((it, r)),
    ensures
        s == enc_path_item(it) + r,
        path_item_wf(it),
{
    assert(s.len() >= 33 && (s[32] == 0 || s[32] == 1));
    assert(it.hash == s.take(32) && r == s.skip(33));
    assert(dir_tag(it.direction) == s[32]);
    assert(s =~= enc_path_item(it) + r);
}

#[verifier::rlimit(100)]
pub proof fn lemma_dec_path_items_sound(
    s: Seq<u8>,
    n: nat,
    its: Seq<MerklePathItemView>,
    r: Seq<u8>,
)
    requires
        dec_path_items(s, n) == Some((its, r)),
    ensures
        s == enc_path_items(its) + r,
        its.len() == n,
        forall|i: int| 0 <= i < its.len() ==> path_item_wf(#[trigger] its[i]),
    decreases n,
{
    if n == 0 {
        assert(its =~= Seq::<MerklePathItemView>::empty());
        assert(s =~= enc_path_items(its) + r);
    } else {
        let di = dec_path_item(s);
        assert(di is Some);
        let it = di->Some_0.0;
        let t = di->Some_0.1;
        let rec = dec_path_items(t, (n - 1) as nat);
        assert(rec is Some);
        let its2 = rec->Some_0.0;
        assert(its == seq![it] + its2 && r == rec->Some_0.1);
        lemma_dec_path_item_sound(s, it, t);
        lemma_dec_path_items_sound(t, (n - 1) as nat, its2, r);
        assert(its[0] == it);
        assert(its.skip(1) =~= its2);
        assert(enc_path_items(its) == enc_path_item(its[0]) + enc_path_items(its.skip(1)));
        assert(s =~= enc_path_items(its) + r);
        assert(forall|i: int| 0 <= i < its.len() ==> path_item_wf(#[trigger] its[i])) by {
            assert(forall|i: int|
                1 <= i < its.len() ==> its[i] == #[trigger] its2[i - 1] && path_item_wf(
                    its2[i - 1],
                ));
        }
    }
}

/// Law: the canonical form of an inclusion proof is unique.
pub proof fn lemma_dec_path_sound(s: Seq<u8>, p: Seq<MerklePathItemView>, r: Seq<u8>)
    requires
        dec_path(s) == Some((p, r)),
    ensures
        s == enc_path(p) + r,
        path_wf(p),
{
    let du = dec_u32(s);
    assert(du is Some);
    let n = du->Some_0.0;
    let t = du->Some_0.1;
    crate::codec::lemma_dec_u32_sound(s, n, t);
    lemma_dec_path_items_sound(t, n as nat, p, r);
    assert(p.len() as u32 == n);
    assert(s =~= enc_path(p) + r);
}

/// Appends the canonical wire form of one proof level.
pub fn write_path_item(out: &mut Vec<u8>, it: &MerklePathItem)
    requires
        path_item_wf(it@),
    ensures
        final(out)@ == old(out)@ + enc_path_item(it@),
{
    let hb: &Vec<u8> = it.hash.as_bytes();
    let ghost base = out@;
    let mut i: usize = 0;
    while i < hb.len()
        invariant
            i <= hb@.len(),
            out@ == base + hb@.take(i as int),
        decreases hb@.len() - i,
    {
        out.push(hb[i]);
        assert(out@ =~= base + hb@.take(i as int + 1));
        i = i + 1;
    }
    assert(hb@.take(hb@.len() as int) =~= hb@);
    match it.direction {
        Direction::Left => out.push(0u8),
        Direction::Right => out.push(1u8),
    }
    assert(out@ =~= old(out)@ + enc_path_item(it@));
}

/// Reads one proof level at `pos`.
pub fn read_path_item(data: &Vec<u8>, pos: usize) -> (r: Option<(MerklePathItem, usize)>)
    requires
        pos <= data@.len(),
    ensures
        match r {
            Some(ip) => {
                &&& dec_path_item(data@.skip(pos as int)) == Some(
                    (ip.0@, data@.skip(ip.1 as int)),
                )
                &&& pos < ip.1 <= data@.len()
                &&& path_item_wf(ip.0@)
            },
            None => dec_path_item(data@.skip(pos as int)) is None,
        },
{
    let ghost s = data@.skip(pos as int);
    if data.len() - pos >= 33 {
        let end: usize = pos + 32;
        let mut hb: Vec<u8> = Vec::new();
        let mut i: usize = pos;
        while i < end
            invariant
                pos <= i <= end,
                end <= data@.len(),
                hb@ == data@.subrange(pos as int, i as int),
            decreases end - i,
        {
            hb.push(data[i]);
            assert(hb@ =~= data@.subrange(pos as int, i as int + 1));
            i = i + 1;
        }
        assert(hb@ =~= s.take(32));
        let tag = data[end];
        assert(tag == s[32]);
        if tag == 0u8 || tag == 1u8 {
            let dir = if tag == 0u8 {
                Direction::Left
            } else {
                Direction::Right
            };
            let item = MerklePathItem { hash: CryptoHash::new(hb), direction: dir };
            assert(data@.skip(pos as int + 33) =~= s.skip(33));
            assert(item@ =~= dec_path_item(s)->Some_0.0);
            Some((item, end + 1))
        } else {
            None
        }
    } else {
        None
    }
}

/// Appends the canonical wire form of an inclusion proof.
pub fn write_path(out: &mut Vec<u8>, p: &MerklePath)
    requires
        path_wf(path_view(p@)),
    ensures
        final(out)@ == old(out)@ + enc_path(path_view(p@)),
{
    write_u32(out, p.len() as u32);
    let ghost mid = out@;
    let ghost pv = path_view(p@);
    let mut i: usize = 0;
    while i < p.len()
        invariant
            i <= p@.len(),
            pv == path_view(p@),
            pv.len() == p@.len(),
            forall|j: int| 0 <= j < p@.len() ==> pv[j] == p@[j]@,
            out@ == mid + enc_path_items(pv.take(i as int)),
            path_wf(pv),
        decreases p@.len() - i,
    {
        let it: &MerklePathItem = &p[i];
        write_path_item(out, it);
        proof {
            lemma_enc_path_items_snoc(pv.take(i as int), pv[i as int]);
            assert(pv.take(i as int).push(pv[i as int]) =~= pv.take(i as int + 1));
        }
        i = i + 1;
    }
    proof {
        assert(pv.take(pv.len() as int) =~= pv);
        assert(out@ =~= old(out)@ + enc_path(pv));
    }
}

/// Reads an inclusion proof at `pos`.
pub fn read_path(data: &Vec<u8>, pos: usize) -> (r: Option<(MerklePath, usize)>)
    requires
        pos <= data@.len(),
    ensures
        match r {
            Some(pp) => {
                &&& dec_path(data@.skip(pos as int)) == Some(
                    (path_view(pp.0@), data@.skip(pp.1 as int)),
                )
                &&& pos < pp.1 <= data@.len()
                &&& path_wf(path_view(pp.0@))
            },
            None => dec_path(data@.skip(pos as int)) is None,
        },
{
    match read_u32(data, pos) {
        Some((n, p_start)) => {
            let ghost p1 = p_start as int;
            assert(dec_path(data@.skip(pos as int)) == dec_path_items(data@.skip(p1), n as nat));
            let mut p: usize = p_start;
            let mut items: Vec<MerklePathItem> = Vec::new();
            let mut k: u32 = 0;
            assert(path_view(items@) =~= Seq::<MerklePathItemView>::empty());
            while k < n
                invariant
                    k <= n,
                    pos < p <= data@.len(),
                    items@.len() == k,
                    path_wf(path_view(items@)),
                    dec_path(data@.skip(pos as int)) == dec_path_items(
                        data@.skip(p1),
                        n as nat,
                    ),
                    dec_path_items(data@.skip(p1), n as nat) == match dec_path_items(
                        data@.skip(p as int),
                        (n - k) as nat,
                    ) {
                        Some((its, r)) => Some((path_view(items@) + its, r)),
                        None => None,
                    },
                decreases n - k,
            {
                let ghost acc = path_view(items@);
                match read_path_item(data, p) {
                    Some((it, p2)) => {
                        let ghost iv = it@;
                        proof {
                            let rec = dec_path_items(data@.skip(p2 as int), (n - k - 1) as nat);
                            assert(dec_path_items(data@.skip(p as int), (n - k) as nat)
                                == match rec {
                                Some((its, r)) => Some((seq![iv] + its, r)),
                                None => None,
                            });
                            if rec is Some {
                                let its0 = rec->Some_0.0;
                                assert(acc + (seq![iv] + its0) =~= acc.push(iv) + its0);
                            }
                        }
                        items.push(it);
                        proof {
                            assert(path_view(items@) =~= acc.push(iv));
                        }
                        p = p2;
                        k = k + 1;
                    },
                    None => {
                        return None;
                    },
                }
            }
            proof {
                assert(dec_path_items(data@.skip(p as int), (n - k) as nat) == Some(
                    (Seq::<MerklePathItemView>::empty(), data@.skip(p as int)),
                ));
                let accf = path_view(items@);
                assert(accf + Seq::<MerklePathItemView>::empty() =~= accf);
            }
            Some((items, p))
        },
        None => None,
    }
}

} // verus!
