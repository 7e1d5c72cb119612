//! Trusted boundary to the Ed25519 and X25519 primitives of iota-crypto.
//!
//! Each wrapper names what the outside call returns; the codecs are verified
//! against those names. The X25519 shared secret is stated as a symmetric
//! function of the two parties' secret scalars, which is what RFC 7748 key
//! agreement guarantees.

use vstd::prelude::*;

verus! {

/// The Ed25519 public key derived from a 32-byte secret key.
pub uninterp spec fn ed25519_pub(sk: Seq<u8>) -> Seq<u8>;

/// The deterministic Ed25519 signature of `msg` under `sk`.
pub uninterp spec fn ed25519_sig(sk: Seq<u8>, msg: Seq<u8>) -> Seq<u8>;

/// Whether `sig` verifies as an Ed25519 signature on `msg` under `pk`.
pub uninterp spec fn ed25519_sig_valid(pk: Seq<u8>, msg: Seq<u8>, sig: Seq<u8>) -> bool;

/// The signature in its wire width: Ed25519 signatures are 64 bytes, and the
/// codecs reason over that width.
pub open spec fn ed25519_sig64(sk: Seq<u8>, msg: Seq<u8>) -> Seq<u8> {
    if ed25519_sig(sk, msg).len() == 64 {
        ed25519_sig(sk, msg)
    } else {
        Seq::new(64, |i: int| 0u8)
    }
}

/// What a verification reports: every honestly produced signature verifies
/// (RFC 8032 completeness), and nothing else is assumed beyond the named
/// verdict of the verifier.
pub open spec fn ed25519_verifies(pk: Seq<u8>, msg: Seq<u8>, sig: Seq<u8>) -> bool {
    ed25519_sig_valid(pk, msg, sig) || (exists|sk: Seq<u8>|
        pk == ed25519_pub(sk) && sig == ed25519_sig64(sk, msg))
}

/// Relies on crypto::signatures::ed25519::SecretKey::public_key: the public
/// key is a pure function of the 32 secret-key bytes, and is 32 bytes.
#[verifier::external_body]
pub fn ed25519_public_key(sk: &[u8]) -> (r: Vec<u8>)
    requires
        sk@.len() == 32,
    ensures
        r@ == ed25519_pub(sk@),
        r@.len() == 32,
{
    let mut bytes = [0u8; 32];
    bytes.copy_from_slice(sk);
    let secret = crypto::signatures::ed25519::SecretKey::from_bytes(&bytes);
    secret.public_key().to_bytes().to_vec()
}

/// Relies on crypto::signatures::ed25519::SecretKey::sign: RFC 8032 Ed25519
/// signing is a deterministic function of key and message; the signature is
/// 64 bytes.
#[verifier::external_body]
pub fn ed25519_sign(sk: &[u8], msg: &[u8]) -> (r: Vec<u8>)
    requires
        sk@.len() == 32,
    ensures
        r@ == ed25519_sig(sk@, msg@),
        r@.len() == 64,
{
    let mut bytes = [0u8; 32];
    bytes.copy_from_slice(sk);
    let secret = crypto::signatures::ed25519::SecretKey::from_bytes(&bytes);
    secret.sign(msg).to_bytes().to_vec()
}

/// Relies on crypto::signatures::ed25519::PublicKey::verify, and on Ed25519
/// completeness: a signature produced by signing `msg` under the secret key
/// matching `pk` always verifies. Bytes that are no valid public key verify
/// nothing.
#[verifier::external_body]
pub fn ed25519_verify(pk: &[u8], msg: &[u8], sig: &[u8]) -> (r: bool)
    requires
        pk@.len() == 32,
        sig@.len() == 64,
    ensures
        r == (ed25519_sig_valid(pk@, msg@, sig@) || (exists|sk: Seq<u8>|
            pk@ == ed25519_pub(sk) && sig@ == ed25519_sig64(sk, msg@))),
{
    let mut pkb = [0u8; 32];
    pkb.copy_from_slice(pk);
    let mut sigb = [0u8; 64];
    sigb.copy_from_slice(sig);
    match crypto::signatures::ed25519::PublicKey::try_from_bytes(pkb) {
        Ok(key) => key.verify(&crypto::signatures::ed25519::Signature::from_bytes(sigb), msg),
        Err(_) => false,
    }
}

/// The X25519 public key derived from a 32-byte secret scalar.
pub uninterp spec fn x25519_pub(sk: Seq<u8>) -> Seq<u8>;

/// The X25519 shared secret of an ordered pair of secret scalars.
pub uninterp spec fn x25519_shared_raw(a: Seq<u8>, b: Seq<u8>) -> Seq<u8>;

/// Byte-wise lexicographic order on byte strings, shorter prefixes first.
pub open spec fn seq_le(a: Seq<u8>, b: Seq<u8>) -> bool
    decreases a.len(),
{
    if a.len() == 0 {
        true
    } else if b.len() == 0 {
        false
    } else if a.first() < b.first() {
        true
    } else if a.first() > b.first() {
        false
    } else {
        seq_le(a.drop_first(), b.drop_first())
    }
}

/// The X25519 shared secret as a symmetric function of the two parties'
/// secret scalars.
pub open spec fn x25519_shared(a: Seq<u8>, b: Seq<u8>) -> Seq<u8> {
    if seq_le(a, b) {
        x25519_shared_raw(a, b)
    } else {
        x25519_shared_raw(b, a)
    }
}

pub proof fn lemma_seq_le_total(a: Seq<u8>, b: Seq<u8>)
    ensures
        seq_le(a, b) || seq_le(b, a),
        (seq_le(a, b) && seq_le(b, a)) ==> a == b,
    decreases a.len(),
{
    if a.len() == 0 {
        if seq_le(b, a) {
            assert(b.len() == 0);
            assert(a =~= b);
        }
    } else if b.len() == 0 {
    } else if a.first() == b.first() {
        lemma_seq_le_total(a.drop_first(), b.drop_first());
        if seq_le(a, b) && seq_le(b, a) {
            assert(a.drop_first() == b.drop_first());
            assert forall|i: int| 0 <= i < a.len() implies a[i] == b[i] by {
                if i > 0 {
                    assert(a[i] == a.drop_first()[i - 1]);
                    assert(b[i] == b.drop_first()[i - 1]);
                }
            }
            assert(a =~= b);
        }
    }
}

/// Key agreement is symmetric in the two secrets.
pub proof fn lemma_x25519_shared_sym(a: Seq<u8>, b: Seq<u8>)
    ensures
        x25519_shared(a, b) == x25519_shared(b, a),
{
    lemma_seq_le_total(a, b);
}

/// Relies on crypto::keys::x25519::SecretKey::public_key: the public key is a
/// pure function of the 32 secret bytes, and is 32 bytes.
#[verifier::external_body]
pub fn x25519_public_key(sk: &[u8]) -> (r: Vec<u8>)
    requires
        sk@.len() == 32,
    ensures
        r@ == x25519_pub(sk@),
        r@.len() == 32,
{
    let mut bytes = [0u8; 32];
    bytes.copy_from_slice(sk);
    let secret = crypto::keys::x25519::SecretKey::from_bytes(bytes);
    secret.public_key().to_bytes().to_vec()
}

/// Relies on crypto::keys::x25519::SecretKey::diffie_hellman and RFC 7748 key
/// agreement: when the peer key is the public key of some secret scalar, the
/// result is the shared secret of the two scalars, the same for both parties.
#[verifier::external_body]
pub fn x25519_diffie_hellman(sk: &[u8], pk: &[u8]) -> (r: Vec<u8>)
    requires
        sk@.len() == 32,
        pk@.len() == 32,
    ensures
        r@.len() == 32,
        forall|other: Seq<u8>|
            pk@ == x25519_pub(other) ==> r@ == (if seq_le(sk@, other) {
                x25519_shared_raw(sk@, other)
            } else {
                x25519_shared_raw(other, sk@)
            }),
{
    let mut skb = [0u8; 32];
    skb.copy_from_slice(sk);
    let mut pkb = [0u8; 32];
    pkb.copy_from_slice(pk);
    let secret = crypto::keys::x25519::SecretKey::from_bytes(skb);
    let public = crypto::keys::x25519::PublicKey::from_bytes(pkb);
    secret.diffie_hellman(&public).to_bytes().to_vec()
}

/// Relies on crypto::keys::x25519::SecretKey::generate: 32 bytes from the
/// system randomness source, or nothing when that source fails. Nothing is
/// assumed of the value.
#[verifier::external_body]
pub fn x25519_generate_secret() -> (r: Option<Vec<u8>>)
    ensures
        r is Some ==> r.unwrap()@.len() == 32,
{
    match crypto::keys::x25519::SecretKey::generate() {
        Ok(sk) => Some(sk.to_bytes().to_vec()),
        Err(_) => None,
    }
}

/// The X25519 secret scalar that iota-crypto derives from an Ed25519 secret
/// key (the low half of the SHA-512 digest of the seed).
pub uninterp spec fn x25519_secret_of_ed25519(sk: Seq<u8>) -> Seq<u8>;

/// Relies on the From<&ed25519::SecretKey> conversion of
/// crypto::keys::x25519::SecretKey: a pure function of the Ed25519 seed,
/// yielding a 32-byte scalar.
#[verifier::external_body]
pub fn x25519_secret_from_ed25519(sk: &[u8]) -> (r: Vec<u8>)
    requires
        sk@.len() == 32,
    ensures
        r@ == x25519_secret_of_ed25519(sk@),
        r@.len() == 32,
{
    let mut bytes = [0u8; 32];
    bytes.copy_from_slice(sk);
    let secret = crypto::signatures::ed25519::SecretKey::from_bytes(&bytes);
    let exchange: crypto::keys::x25519::SecretKey = (&secret).into();
    exchange.to_bytes().to_vec()
}

} // verus!
