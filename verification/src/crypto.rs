use vstd::prelude::*;

verus! {

/// An account identifier, carried as the raw bytes of a validated
/// account name. Validation of the name itself is the embedding
/// chain's concern; this crate treats the identifier opaquely.
#[derive(PartialEq, Eq)]
pub struct AccountId {
    pub bytes: Vec<u8>,
}

impl View for AccountId {
    type V = Seq<u8>;

    open spec fn view(&self) -> Seq<u8> {
        self.bytes@
    }
}

impl AccountId {
    pub fn new(bytes: Vec<u8>) -> (r: AccountId)
        ensures
            r@ == bytes@,
    {
        AccountId { bytes }
    }

    pub fn as_bytes(&self) -> (r: &Vec<u8>)
        ensures
            r@ == self@,
    {
        &self.bytes
    }
}

impl Clone for AccountId {
    fn clone(&self) -> (r: AccountId)
        ensures
            r@ == self@,
    {
        let mut bytes: Vec<u8> = Vec::new();
        let mut i: usize = 0;
        while i < self.bytes.len()
            invariant
                i <= self.bytes@.len(),
                bytes@ == self.bytes@.take(i as int),
            decreases self.bytes@.len() - i,
        {
            bytes.push(self.bytes[i]);
            assert(bytes@ =~= self.bytes@.take(i as int + 1));
            i = i + 1;
        }
        assert(bytes@ =~= self.bytes@);
        AccountId { bytes }
    }
}

/// The signature schemes a validator may sign under.
#[derive(Clone, Copy, PartialEq, Eq, Structural)]
pub enum SignatureKind {
    Ed25519,
    Secp256k1,
    MlDsa65,
}

/// A detached signature: the scheme it was made under and its raw bytes.
/// The scheme fixes the byte count, so the wire form needs no length
/// prefix.
#[derive(Clone, PartialEq, Eq)]
pub struct Signature {
    pub kind: SignatureKind,
    pub data: Vec<u8>,
}

/// The mathematical shape of a signature.
#[verifier::ext_equal]
pub struct SignatureView {
    pub kind: SignatureKind,
    pub data: Seq<u8>,
}

impl View for Signature {
    type V = SignatureView;

    open spec fn view(&self) -> SignatureView {
        SignatureView { kind: self.kind, data: self.data@ }
    }
}

/// The raw byte count each scheme's signatures have.
pub open spec fn sig_data_len(k: SignatureKind) -> nat {
    match k {
        SignatureKind::Ed25519 => 64,
        SignatureKind::Secp256k1 => 65,
        SignatureKind::MlDsa65 => 3309,
    }
}

/// A signature is well formed when its byte count matches its scheme.
pub open spec fn sig_wf(v: SignatureView) -> bool {
    v.data.len() == sig_data_len(v.kind)
}

pub open spec fn sig_kind_tag(k: SignatureKind) -> u8 {
    match k {
        SignatureKind::Ed25519 => 0,
        SignatureKind::Secp256k1 => 1,
        SignatureKind::MlDsa65 => 2,
    }
}

pub open spec fn sig_kind_of_tag(t: u8) -> Option<SignatureKind> {
    if t == 0 {
        Some(SignatureKind::Ed25519)
    } else if t == 1 {
        Some(SignatureKind::Secp256k1)
    } else if t == 2 {
        Some(SignatureKind::MlDsa65)
    } else {
        None
    }
}

/// A signature on the wire: the scheme tag, then the raw bytes verbatim.
pub open spec fn enc_signature(v: SignatureView) -> Seq<u8> {
    seq![sig_kind_tag(v.kind)] + v.data
}

pub open spec fn dec_signature(s: Seq<u8>) -> Option<(SignatureView, Seq<u8>)> {
    if s.len() < 1 {
        None
    } else {
        match sig_kind_of_tag(s[0]) {
            Some(k) => {
                let l = sig_data_len(k) as int;
                if s.len() >= 1 + l {
                    Some((SignatureView { kind: k, data: s.subrange(1, 1 + l) }, s.skip(1 + l)))
                } else {
                    None
                }
            },
            None => None,
        }
    }
}

pub proof fn lemma_signature_round_trip(v: SignatureView, rest: Seq<u8>)
    requires
        sig_wf(v),
    ensures
        dec_signature(enc_signature(v) + rest) == Some((v, rest)),
{
    let s = enc_signature(v) + rest;
    assert(s[0] == sig_kind_tag(v.kind));
    assert(sig_kind_of_tag(sig_kind_tag(v.kind)) == Some(v.kind));
    let l = sig_data_len(v.kind) as int;
    assert(s.len() == 1 + l + rest.len());
    assert(s.subrange(1, 1 + l) =~= v.data);
    assert(s.skip(1 + l) =~= rest);
    assert(dec_signature(s)->Some_0.0 =~= v);
}

pub proof fn lemma_dec_signature_sound(s: Seq<u8>, v: SignatureView, r: Seq<u8>)
    requires
        dec_signature(s) == Some((v, r)),
    ensures
        s == enc_signature(v) + r,
        sig_wf(v),
{
    assert(s.len() >= 1);
    let dk = sig_kind_of_tag(s[0]);
    assert(dk is Some);
    let k = dk->Some_0;
    assert(sig_kind_tag(k) == s[0]);
    let l = sig_data_len(k) as int;
    assert(v.kind == k && v.data == s.subrange(1, 1 + l) && r == s.skip(1 + l));
    assert(s =~= enc_signature(v) + r);
}

impl Signature {
    /// Appends the canonical wire form of this signature.
    pub fn write_to(&self, out: &mut Vec<u8>)
        requires
            sig_wf(self@),
        ensures
            final(out)@ == old(out)@ + enc_signature(self@),
    {
        match self.kind {
            SignatureKind::Ed25519 => out.push(0u8),
            SignatureKind::Secp256k1 => out.push(1u8),
            SignatureKind::MlDsa65 => out.push(2u8),
        }
        let ghost mid = out@;
        let mut i: usize = 0;
        while i < self.data.len()
            invariant
                i <= self.data@.len(),
                out@ == mid + self.data@.take(i as int),
            decreases self.data@.len() - i,
        {
            out.push(self.data[i]);
            assert(out@ =~= mid + self.data@.take(i as int + 1));
            i = i + 1;
        }
        assert(self.data@.take(self.data@.len() as int) =~= self.data@);
        assert(out@ =~= old(out)@ + enc_signature(self@));
    }

    /// Reads a signature at `pos`.
    pub fn read_from(data: &Vec<u8>, pos: usize) -> (r: Option<(Signature, usize)>)
        requires
            pos <= data@.len(),
        ensures
            match r {
                Some(sp) => {
                    &&& dec_signature(data@.skip(pos as int)) == Some(
                        (sp.0@, data@.skip(sp.1 as int)),
                    )
                    &&& pos < sp.1 <= data@.len()
                    &&& sig_wf(sp.0@)
                },
                None => dec_signature(data@.skip(pos as int)) is None,
            },
    {
        let ghost s = data@.skip(pos as int);
        if pos < data.len() {
            let tag = data[pos];
            assert(tag == s[0]);
            let kind = if tag == 0u8 {
                Some(SignatureKind::Ed25519)
            } else if tag == 1u8 {
                Some(SignatureKind::Secp256k1)
            } else if tag == 2u8 {
                Some(SignatureKind::MlDsa65)
            } else {
                None
            };
            match kind {
                Some(k) => {
                    let l: usize = match k {
                        SignatureKind::Ed25519 => 64,
                        SignatureKind::Secp256k1 => 65,
                        SignatureKind::MlDsa65 => 3309,
                    };
                    if data.len() - (pos + 1) >= l {
                        let start: usize = pos + 1;
                        let end: usize = start + l;
                        let mut raw: Vec<u8> = Vec::new();
                        let mut i: usize = start;
                        while i < end
                            invariant
                                start <= i <= end,
                                end <= data@.len(),
                                raw@ == data@.subrange(start as int, i as int),
                            decreases end - i,
                        {
                            raw.push(data[i]);
                            assert(raw@ =~= data@.subrange(start as int, i as int + 1));
                            i = i + 1;
                        }
                        let sig = Signature { kind: k, data: raw };
                        proof {
                            assert(s.subrange(1, 1 + l as int) =~= data@.subrange(
                                start as int,
                                end as int,
                            ));
                            assert(s.skip(1 + l as int) =~= data@.skip(end as int));
                            assert(dec_signature(s)->Some_0.0 =~= sig@);
                        }
                        Some((sig, end))
                    } else {
                        None
                    }
                },
                None => None,
            }
        } else {
            None
        }
    }
}

#[verifier::external_type_specification]
#[verifier::external_body]
pub struct ExSecretKey(near_crypto::SecretKey);

/// Relies on near_crypto::SecretKey::sign and on the borsh serialization
/// of the signature it returns: one scheme tag byte (0 for ED25519, 1 for
/// SECP256K1, 2 for ML-DSA-65) followed by the raw signature bytes, 64,
/// 65 or 3309 of them respectively. SECP256K1 signing requires a 32-byte
/// message, so shorter or longer inputs are excluded.
#[verifier::external_body]
fn sign_with(key: &near_crypto::SecretKey, data: &Vec<u8>) -> (r: Signature)
    requires
        data@.len() == 32,
    ensures
        sig_wf(r@),
{
    let sig = key.sign(data.as_slice());
    let bytes = borsh::to_vec(&sig).expect("serializing a signature never fails");
    let kind = match bytes[0] {
        0 => SignatureKind::Ed25519,
        1 => SignatureKind::Secp256k1,
        _ => SignatureKind::MlDsa65,
    };
    Signature { kind, data: bytes[1..].to_vec() }
}

/// The signing capability a validator holds: its account identity and
/// the secret key it signs with. The key itself is opaque to this crate.
pub struct ValidatorSigner {
    account_id: AccountId,
    secret_key: near_crypto::SecretKey,
}

impl View for ValidatorSigner {
    type V = Seq<u8>;

    closed spec fn view(&self) -> Seq<u8> {
        self.account_id@
    }
}

impl ValidatorSigner {
    pub fn new(account_id: AccountId, secret_key: near_crypto::SecretKey) -> (r: ValidatorSigner)
        ensures
            r@ == account_id@,
    {
        ValidatorSigner { account_id, secret_key }
    }

    /// The account this signer attributes its signatures to.
    pub fn validator_id(&self) -> (r: &AccountId)
        ensures
            r@ == self@,
    {
        &self.account_id
    }

    /// Signs a 32-byte digest. Which bytes come back depends on the
    /// secret key, so only the signature's well-formedness is promised.
    pub fn sign_bytes(&self, data: &Vec<u8>) -> (r: Signature)
        requires
            data@.len() == 32,
        ensures
            sig_wf(r@),
    {
        sign_with(&self.secret_key, data)
    }
}

} // verus!
