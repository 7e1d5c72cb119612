//! Identities that hold secret material. An identity is never serialized in
//! a header; only its identifier is. Signing squeezes a 64-byte external
//! digest from the sponge and emits an Ed25519 signature over it.

use vstd::prelude::*;
use crate::crypto_ops::{
    ed25519_pub, ed25519_public_key, ed25519_sig64, ed25519_sign, ed25519_verifies,
    ed25519_verify, x25519_secret_from_ed25519, x25519_secret_of_ed25519,
};
use crate::error::Error;
use crate::identifier::Identifier;
use crate::sizeofctx::SizeofCtx;
use crate::sponge::sp_squeeze;
use crate::unwrapctx::{
    lemma_absorb_step, um_absorb, um_commit, um_mask, um_squeeze_ext, UnwrapCtx, UnwrapM,
};
use crate::wrapctx::{
    lemma_wm_mask_append, wm_absorb, wm_commit, wm_mask, wm_squeeze_ext, WrapCtx, WrapM,
};

verus! {

/// Width of an Ed25519 secret key in bytes.
pub const ED25519_SK_SIZE: usize = 32;

/// Width of an Ed25519 signature in bytes.
pub const ED25519_SIG_SIZE: usize = 64;

/// Width of the squeezed signing digest in bytes.
pub const HASH_SIG_SIZE: usize = 64;

/// An Ed25519 signing key.
pub struct Ed25519 {
    secret: Vec<u8>,
}

impl View for Ed25519 {
    type V = Seq<u8>;

    closed spec fn view(&self) -> Seq<u8> {
        self.secret@
    }
}

impl Ed25519 {
    pub open spec fn wf(&self) -> bool {
        self@.len() == ED25519_SK_SIZE
    }

    /// A signing key from its 32 secret bytes.
    pub fn new(secret: Vec<u8>) -> (r: Result<Ed25519, Error>)
        ensures
            match r {
                Ok(key) => secret@.len() == ED25519_SK_SIZE && key@ == secret@ && key.wf(),
                Err(e) => secret@.len() != ED25519_SK_SIZE && e == Error::GuardFailed,
            },
    {
        if secret.len() == ED25519_SK_SIZE {
            Ok(Ed25519 { secret })
        } else {
            Err(Error::GuardFailed)
        }
    }

    pub fn secret_bytes(&self) -> (r: &[u8])
        ensures
            r@ == self@,
    {
        self.secret.as_slice()
    }
}

/// The kinds of identity that can own a channel role. A DID-bound identity
/// would resolve its documents through an outside collaborator; this core
/// carries the Ed25519 kind.
pub enum IdentityKind {
    Ed25519(Ed25519),
}

impl View for IdentityKind {
    type V = Seq<u8>;

    closed spec fn view(&self) -> Seq<u8> {
        match self {
            IdentityKind::Ed25519(key) => key@,
        }
    }
}

impl IdentityKind {
    pub open spec fn wf(&self) -> bool {
        self@.len() == ED25519_SK_SIZE
    }

    /// The canonical identifier of this identity: the Ed25519 public key.
    pub fn to_identifier(&self) -> (r: Identifier)
        requires
            self.wf(),
        ensures
            r@ == crate::identifier::IdV::Ed(ed25519_pub(self@)),
            r.wf(),
    {
        match self {
            IdentityKind::Ed25519(key) => Identifier::Ed25519PublicKey(
                ed25519_public_key(key.secret_bytes()),
            ),
        }
    }

    /// The X25519 exchange secret derived from the signing key.
    pub fn ke_sk(&self) -> (r: Vec<u8>)
        requires
            self.wf(),
        ensures
            r@ == x25519_secret_of_ed25519(self@),
            r@.len() == 32,
    {
        match self {
            IdentityKind::Ed25519(key) => x25519_secret_from_ed25519(key.secret_bytes()),
        }
    }

    pub fn secret_bytes(&self) -> (r: &[u8])
        ensures
            r@ == self@,
    {
        match self {
            IdentityKind::Ed25519(key) => key.secret_bytes(),
        }
    }
}

/// An identity and the identifier it deterministically produces.
pub struct Identity {
    identitykind: IdentityKind,
    identifier: Identifier,
}

impl View for Identity {
    type V = Seq<u8>;

    closed spec fn view(&self) -> Seq<u8> {
        self.identitykind@
    }
}

impl Identity {
    /// Every identity carries exactly the identifier of its kind.
    pub open spec fn wf(&self) -> bool {
        self@.len() == ED25519_SK_SIZE && self.identifier_view() == crate::identifier::IdV::Ed(
            ed25519_pub(self@),
        )
    }

    pub closed spec fn identifier_view(&self) -> crate::identifier::IdV {
        self.identifier@
    }

    pub fn new(identitykind: IdentityKind) -> (r: Identity)
        requires
            identitykind.wf(),
        ensures
            r@ == identitykind@,
            r.wf(),
    {
        let identifier = identitykind.to_identifier();
        Identity { identitykind, identifier }
    }

    pub fn identifier(&self) -> (r: &Identifier)
        ensures
            r@ == self.identifier_view(),
    {
        &self.identifier
    }

    pub fn kind(&self) -> (r: &IdentityKind)
        ensures
            r@ == self@,
    {
        &self.identitykind
    }
}

/// The masked wire form of an identity: its kind tag, then the secret key.
/// Used when a user exports its own state, never in message headers.
pub open spec fn identity_wire(sk: Seq<u8>) -> Seq<u8> {
    seq![0u8] + sk
}

/// Parse a masked identity.
pub open spec fn identity_parse(m: UnwrapM) -> Result<(UnwrapM, Seq<u8>), Error> {
    match um_mask(m, 1) {
        Err(e) => Err(e),
        Ok(t1) => {
            let tag = t1.1[0];
            if tag == 0u8 {
                match um_mask(t1.0, ED25519_SK_SIZE as nat) {
                    Err(e) => Err(e),
                    Ok(t2) => Ok((t2.0, t2.1)),
                }
            } else {
                Err(Error::UnknownVariant(tag))
            }
        },
    }
}

impl Identity {
    /// Count the masked wire form.
    pub fn sizeof(&self, ctx: &mut SizeofCtx)
        requires
            self.wf(),
            old(ctx)@ + 1 + ED25519_SK_SIZE <= u64::MAX,
        ensures
            final(ctx)@ == old(ctx)@ + 1 + ED25519_SK_SIZE,
    {
        ctx.mask_u8();
        match &self.identitykind {
            IdentityKind::Ed25519(key) => ctx.mask(key.secret_bytes()),
        }
    }

    /// Serialize this identity, masked.
    pub fn wrap(&self, ctx: &mut WrapCtx)
        requires
            old(ctx).wf(),
        ensures
            final(ctx).wf(),
            final(ctx)@ == wm_mask(old(ctx)@, identity_wire(self@)),
    {
        let ghost m0 = ctx@;
        ctx.mask_u8(0u8);
        match &self.identitykind {
            IdentityKind::Ed25519(key) => ctx.mask(key.secret_bytes()),
        }
        proof {
            lemma_wm_mask_append(m0, seq![0u8], self@);
        }
    }

    /// Parse a masked identity off the stream.
    pub fn unwrap_from(ctx: &mut UnwrapCtx) -> (r: Result<Identity, Error>)
        requires
            old(ctx).wf(),
        ensures
            final(ctx).wf(),
            final(ctx)@.inp == old(ctx)@.inp,
            match r {
                Ok(identity) => identity_parse(old(ctx)@) == Ok::<(UnwrapM, Seq<u8>), Error>(
                    (final(ctx)@, identity@),
                ) && identity.wf(),
                Err(e) => identity_parse(old(ctx)@) == Err::<(UnwrapM, Seq<u8>), Error>(e),
            },
    {
        let tag = match ctx.mask_u8() {
            Ok(b) => b,
            Err(e) => {
                return Err(e);
            },
        };
        if tag != 0 {
            return Err(Error::UnknownVariant(tag));
        }
        let ghost m1 = ctx@;
        match ctx.mask_n(ED25519_SK_SIZE) {
            Ok(secret) => {
                proof {
                    crate::sponge::lemma_sp_decrypt_len(
                        m1.sp,
                        m1.inp.subrange(m1.cur, m1.cur + ED25519_SK_SIZE as int),
                    );
                }
                Ok(Identity::new(IdentityKind::Ed25519(Ed25519 { secret })))
            },
            Err(e) => Err(e),
        }
    }
}

/// The `decrypt` operation a key-exchange recipient runs: an X25519
/// decapsulation under the 32-byte exchange secret; other widths are
/// rejected as the invalid-key error.
pub fn content_decrypt(ctx: &mut UnwrapCtx, exchange_key: &[u8]) -> (r: Result<Vec<u8>, Error>)
    requires
        old(ctx).wf(),
    ensures
        final(ctx).wf(),
        final(ctx)@.inp == old(ctx)@.inp,
        match r {
            Ok(key) => exchange_key@.len() == 32 && key@.len() == 32
                && crate::unwrapctx::x25519_unwrap_ok(
                old(ctx)@,
                final(ctx)@,
                exchange_key@,
                key@,
            ),
            Err(e) => (exchange_key@.len() != 32 && e == Error::GuardFailed && final(ctx)@ == old(
                ctx,
            )@) || (exchange_key@.len() == 32 && crate::unwrapctx::x25519_unwrap_err(
                old(ctx)@,
                e,
            )),
        },
{
    if exchange_key.len() != 32 {
        return Err(Error::GuardFailed);
    }
    ctx.x25519(exchange_key)
}

/// The signing digest a sponge in state `m` yields.
pub open spec fn sign_digest(m: WrapM) -> Seq<u8> {
    sp_squeeze(m.sp, HASH_SIG_SIZE as nat).1
}

/// Signing without a kind tag: squeeze the external digest, sign it, absorb
/// the signature onto the wire.
pub open spec fn ed_sign_m(m: WrapM, sk: Seq<u8>) -> WrapM {
    wm_absorb(wm_squeeze_ext(m, HASH_SIG_SIZE as nat), ed25519_sig64(sk, sign_digest(m)))
}

/// Verifying without a kind tag: squeeze the same digest, read the signature,
/// verify it.
pub open spec fn ed_verify_m(m: UnwrapM, pk: Seq<u8>) -> Result<UnwrapM, Error> {
    let digest = um_squeeze_ext(m, HASH_SIG_SIZE as nat).1;
    let m1 = um_squeeze_ext(m, HASH_SIG_SIZE as nat).0;
    match um_absorb(m1, ED25519_SIG_SIZE as nat) {
        Err(e) => Err(e),
        Ok(t) => if ed25519_verifies(pk, digest, t.1) {
            Ok(t.0)
        } else {
            Err(Error::SignatureInvalid)
        },
    }
}

/// Sign the sponge's digest with a bare Ed25519 key.
pub fn ed_sign(ctx: &mut WrapCtx, sk: &[u8])
    requires
        old(ctx).wf(),
        sk@.len() == ED25519_SK_SIZE,
    ensures
        final(ctx).wf(),
        final(ctx)@ == ed_sign_m(old(ctx)@, sk@),
{
    let digest = ctx.squeeze_ext(HASH_SIG_SIZE);
    let sig = ed25519_sign(sk, digest.as_slice());
    ctx.absorb(sig.as_slice());
}

/// Verify the signature on the sponge's digest under a bare Ed25519 key.
pub fn ed_verify(ctx: &mut UnwrapCtx, pk: &[u8]) -> (r: Result<(), Error>)
    requires
        old(ctx).wf(),
        pk@.len() == 32,
    ensures
        final(ctx).wf(),
        final(ctx)@.inp == old(ctx)@.inp,
        match r {
            Ok(u) => ed_verify_m(old(ctx)@, pk@) == Ok::<UnwrapM, Error>(final(ctx)@),
            Err(e) => ed_verify_m(old(ctx)@, pk@) == Err::<UnwrapM, Error>(e),
        },
{
    let digest = ctx.squeeze_ext(HASH_SIG_SIZE);
    let ghost m1 = ctx@;
    let sig = match ctx.absorb_n(ED25519_SIG_SIZE) {
        Ok(v) => v,
        Err(e) => {
            return Err(e);
        },
    };
    if ed25519_verify(pk, digest.as_slice(), sig.as_slice()) {
        Ok(())
    } else {
        Err(Error::SignatureInvalid)
    }
}

/// Round trip of the bare signature: verifying what `ed_sign_m` wrote, from
/// the same sponge state and under the signer's public key, succeeds.
pub proof fn lemma_ed_verify_of_sign(m: UnwrapM, sk: Seq<u8>)
    requires
        0 <= m.cur,
        m.cur + ED25519_SIG_SIZE <= m.inp.len(),
        m.inp.subrange(m.cur, m.cur + ED25519_SIG_SIZE as int) == ed25519_sig64(
            sk,
            sp_squeeze(m.sp, HASH_SIG_SIZE as nat).1,
        ),
    ensures
        ed_verify_m(m, ed25519_pub(sk)) == Ok::<UnwrapM, Error>(
            UnwrapM {
                sp: crate::sponge::sp_absorb(
                    sp_squeeze(m.sp, HASH_SIG_SIZE as nat).0,
                    ed25519_sig64(sk, sp_squeeze(m.sp, HASH_SIG_SIZE as nat).1),
                ),
                inp: m.inp,
                cur: m.cur + ED25519_SIG_SIZE,
            },
        ),
{
    let digest = sp_squeeze(m.sp, HASH_SIG_SIZE as nat).1;
    let sig = ed25519_sig64(sk, digest);
    let m1 = um_squeeze_ext(m, HASH_SIG_SIZE as nat).0;
    assert(sig.len() == ED25519_SIG_SIZE) by {
        assert(m.inp.subrange(m.cur, m.cur + ED25519_SIG_SIZE as int).len()
            == ED25519_SIG_SIZE as int);
    }
    lemma_absorb_step(m1, sig);
    assert(ed25519_verifies(ed25519_pub(sk), digest, sig));
}

/// The tagged signing form of an identity: a kind tag absorbed, a commit,
/// then the bare signature.
pub open spec fn identity_sign_m(m: WrapM, sk: Seq<u8>) -> WrapM {
    ed_sign_m(wm_commit(wm_absorb(m, seq![0u8])), sk)
}

/// The tagged verification form.
pub open spec fn identity_verify_m(m: UnwrapM, pk: Seq<u8>) -> Result<UnwrapM, Error> {
    match um_absorb(m, 1) {
        Err(e) => Err(e),
        Ok(t1) => {
            let tag = t1.1[0];
            if tag == 0u8 {
                ed_verify_m(um_commit(t1.0), pk)
            } else {
                Err(Error::UnknownVariant(tag))
            }
        },
    }
}

impl Identity {
    /// Count the wire bytes of a signature block.
    pub fn sign_sizeof(&self, ctx: &mut SizeofCtx)
        requires
            old(ctx)@ + 1 + ED25519_SIG_SIZE <= u64::MAX,
        ensures
            final(ctx)@ == old(ctx)@ + 1 + ED25519_SIG_SIZE,
    {
        ctx.absorb_u8();
        ctx.commit();
        ctx.squeeze_ext();
        let sig_budget = [0u8; 64];
        ctx.absorb(sig_budget.as_slice());
    }

    /// Sign the sponge's digest: kind tag, commit, signature.
    pub fn sign(&self, ctx: &mut WrapCtx)
        requires
            old(ctx).wf(),
            self.wf(),
        ensures
            final(ctx).wf(),
            final(ctx)@ == identity_sign_m(old(ctx)@, self@),
    {
        ctx.absorb_u8(0u8);
        ctx.commit();
        match &self.identitykind {
            IdentityKind::Ed25519(key) => ed_sign(ctx, key.secret_bytes()),
        }
    }

    /// Verify a signature block against a publisher's Ed25519 public key.
    pub fn verify(ctx: &mut UnwrapCtx, pk: &[u8]) -> (r: Result<(), Error>)
        requires
            old(ctx).wf(),
            pk@.len() == 32,
        ensures
            final(ctx).wf(),
            final(ctx)@.inp == old(ctx)@.inp,
            match r {
                Ok(u) => identity_verify_m(old(ctx)@, pk@) == Ok::<UnwrapM, Error>(final(ctx)@),
                Err(e) => identity_verify_m(old(ctx)@, pk@) == Err::<UnwrapM, Error>(e),
            },
    {
        let tag = match ctx.absorb_u8() {
            Ok(b) => b,
            Err(e) => {
                return Err(e);
            },
        };
        if tag != 0 {
            return Err(Error::UnknownVariant(tag));
        }
        ctx.commit();
        ed_verify(ctx, pk)
    }
}

} // verus!
