//! The wrap context: one pass that serializes a message while feeding the
//! sponge, so that framing, encryption and the authentication tag are a
//! single computation.

use vstd::prelude::*;
use crate::size::{size_encode, size_wire};
use crate::sponge::{
    sp_absorb, sp_commit, sp_encrypt, sp_init, sp_squeeze, sp_wf, SpState, Spongos,
};

verus! {

/// Model of a wrap context: the sponge and the bytes emitted so far.
pub ghost struct WrapM {
    pub sp: SpState,
    pub out: Seq<u8>,
}

/// `absorb`: plain on the wire, mixed into the sponge.
pub open spec fn wm_absorb(m: WrapM, x: Seq<u8>) -> WrapM {
    WrapM { sp: sp_absorb(m.sp, x), out: m.out + x }
}

/// `absorb(external)`: mixed into the sponge, nothing on the wire.
pub open spec fn wm_absorb_ext(m: WrapM, x: Seq<u8>) -> WrapM {
    WrapM { sp: sp_absorb(m.sp, x), out: m.out }
}

/// `mask`: encrypted on the wire, plaintext kept by the sponge.
pub open spec fn wm_mask(m: WrapM, x: Seq<u8>) -> WrapM {
    WrapM { sp: sp_encrypt(m.sp, x).0, out: m.out + sp_encrypt(m.sp, x).1 }
}

/// `skip`: plain on the wire, no sponge update.
pub open spec fn wm_skip(m: WrapM, x: Seq<u8>) -> WrapM {
    WrapM { sp: m.sp, out: m.out + x }
}

/// `commit`: mix the outer part into the hidden part.
pub open spec fn wm_commit(m: WrapM) -> WrapM {
    WrapM { sp: sp_commit(m.sp), out: m.out }
}

/// `squeeze`: emit `n` tag bytes on the wire.
pub open spec fn wm_squeeze(m: WrapM, n: nat) -> WrapM {
    WrapM { sp: sp_squeeze(m.sp, n).0, out: m.out + sp_squeeze(m.sp, n).1 }
}

/// `squeeze(external)`: derive `n` bytes, nothing on the wire.
pub open spec fn wm_squeeze_ext(m: WrapM, n: nat) -> WrapM {
    WrapM { sp: sp_squeeze(m.sp, n).0, out: m.out }
}

/// `absorb(Size(n))`: the varint form, absorbed.
pub open spec fn wm_absorb_size(m: WrapM, n: nat) -> WrapM {
    wm_absorb(m, size_wire(n))
}

/// `skip(Size(n))`: the varint form, skipped.
pub open spec fn wm_skip_size(m: WrapM, n: nat) -> WrapM {
    wm_skip(m, size_wire(n))
}

/// `mask(Size(n))`: the varint form, encrypted.
pub open spec fn wm_mask_size(m: WrapM, n: nat) -> WrapM {
    wm_mask(m, size_wire(n))
}

/// Absorbing a concatenation is absorbing its parts in order.
pub proof fn lemma_wm_absorb_append(m: WrapM, x: Seq<u8>, y: Seq<u8>)
    ensures
        wm_absorb(m, x + y) == wm_absorb(wm_absorb(m, x), y),
{
    crate::sponge::lemma_sp_absorb_append(m.sp, x, y);
    assert(m.out + (x + y) =~= (m.out + x) + y);
}

/// Masking a concatenation is masking its parts in order.
pub proof fn lemma_wm_mask_append(m: WrapM, x: Seq<u8>, y: Seq<u8>)
    ensures
        wm_mask(m, x + y) == wm_mask(wm_mask(m, x), y),
{
    crate::sponge::lemma_sp_encrypt_append(m.sp, x, y);
    assert(m.out + (sp_encrypt(m.sp, x).1 + sp_encrypt(sp_encrypt(m.sp, x).0, y).1) =~= (m.out
        + sp_encrypt(m.sp, x).1) + sp_encrypt(sp_encrypt(m.sp, x).0, y).1);
}

/// `join`: resume from a stored sponge, then absorb the link bytes; nothing
/// on the wire.
pub open spec fn wm_join(m: WrapM, stored: SpState, link: Seq<u8>) -> WrapM {
    WrapM { sp: sp_absorb(stored, link), out: m.out }
}

/// One X25519 key-encapsulation branch on the wrap side: the ephemeral
/// public key goes on the wire, the shared secret into the sponge, then the
/// payload is masked.
pub open spec fn wm_x25519(m: WrapM, epk: Seq<u8>, shared: Seq<u8>, key: Seq<u8>) -> WrapM {
    wm_mask(wm_commit(wm_absorb_ext(wm_absorb(m, epk), shared)), key)
}

/// What one `x25519` wrap step guarantees: some 32-byte shared secret was
/// absorbed, and whenever the recipient key is the public key of a secret
/// scalar, that shared secret is the key agreement of the two scalars.
pub open spec fn x25519_wrap_ok(
    m0: WrapM,
    m1: WrapM,
    esk: Seq<u8>,
    rpk: Seq<u8>,
    key: Seq<u8>,
) -> bool {
    crate::crypto_ops::x25519_pub(esk).len() == 32 && (exists|sh: Seq<u8>|
        #![auto]
        sh.len() == 32 && m1 == wm_x25519(m0, crate::crypto_ops::x25519_pub(esk), sh, key) && (
        forall|other: Seq<u8>|
            rpk == crate::crypto_ops::x25519_pub(other) ==> sh == crate::crypto_ops::x25519_shared(
                esk,
                other,
            )))
}

/// Fork isolation: work done inside a fork section leaves the enclosing
/// sponge exactly where it stood at the fork. A sponge that absorbed `x` and
/// then ran a forked section absorbing `y` stands, after the fork exits, on
/// the state that absorbing `x` alone gives.
pub proof fn lemma_fork_isolation(m: WrapM, x: Seq<u8>, y: Seq<u8>)
    ensures
        ({
            let parent = wm_absorb(m, x);
            let inside = wm_absorb(parent, y);
            let after = WrapM { sp: parent.sp, out: inside.out };
            after.sp == wm_absorb(m, x).sp
        }),
{
}

/// A wrap context: a sponge in lockstep with an output buffer.
pub struct WrapCtx {
    spongos: Spongos,
    out: Vec<u8>,
}

impl View for WrapCtx {
    type V = WrapM;

    closed spec fn view(&self) -> WrapM {
        WrapM { sp: self.spongos@, out: self.out@ }
    }
}

impl WrapCtx {
    pub open spec fn wf(&self) -> bool {
        sp_wf(self@.sp)
    }

    /// A fresh context over an empty output buffer.
    pub fn new() -> (r: WrapCtx)
        ensures
            r.wf(),
            r@ == (WrapM { sp: sp_init(), out: Seq::<u8>::empty() }),
    {
        let r = WrapCtx { spongos: Spongos::init(), out: Vec::new() };
        proof {
            assert(r@.out =~= Seq::<u8>::empty());
        }
        r
    }

    /// Resume from the sponge stored for a prior message and bind the link.
    pub fn join(&mut self, stored: &Spongos, link: &[u8])
        requires
            stored.wf(),
        ensures
            final(self).wf(),
            final(self)@ == wm_join(old(self)@, stored@, link@),
    {
        self.spongos = stored.fork();
        self.spongos.absorb(link);
    }

    pub fn absorb(&mut self, x: &[u8])
        requires
            old(self).wf(),
        ensures
            final(self).wf(),
            final(self)@ == wm_absorb(old(self)@, x@),
    {
        self.spongos.absorb(x);
        crate::bytes::push_slice(&mut self.out, x);
    }

    pub fn absorb_u8(&mut self, b: u8)
        requires
            old(self).wf(),
        ensures
            final(self).wf(),
            final(self)@ == wm_absorb(old(self)@, seq![b]),
    {
        let one = [b];
        proof {
            assert(one@ =~= seq![b]);
        }
        self.absorb(one.as_slice());
    }

    pub fn absorb_ext(&mut self, x: &[u8])
        requires
            old(self).wf(),
        ensures
            final(self).wf(),
            final(self)@ == wm_absorb_ext(old(self)@, x@),
    {
        self.spongos.absorb(x);
    }

    pub fn absorb_ext_u8(&mut self, b: u8)
        requires
            old(self).wf(),
        ensures
            final(self).wf(),
            final(self)@ == wm_absorb_ext(old(self)@, seq![b]),
    {
        let one = [b];
        proof {
            assert(one@ =~= seq![b]);
        }
        self.absorb_ext(one.as_slice());
    }

    pub fn mask(&mut self, x: &[u8])
        requires
            old(self).wf(),
        ensures
            final(self).wf(),
            final(self)@ == wm_mask(old(self)@, x@),
    {
        let mut cipher = self.spongos.encrypt(x);
        self.out.append(&mut cipher);
    }

    pub fn mask_u8(&mut self, b: u8)
        requires
            old(self).wf(),
        ensures
            final(self).wf(),
            final(self)@ == wm_mask(old(self)@, seq![b]),
    {
        let one = [b];
        proof {
            assert(one@ =~= seq![b]);
        }
        self.mask(one.as_slice());
    }

    pub fn skip(&mut self, x: &[u8])
        requires
            old(self).wf(),
        ensures
            final(self).wf(),
            final(self)@ == wm_skip(old(self)@, x@),
    {
        crate::bytes::push_slice(&mut self.out, x);
    }

    pub fn absorb_size(&mut self, n: u64)
        requires
            old(self).wf(),
        ensures
            final(self).wf(),
            final(self)@ == wm_absorb_size(old(self)@, n as nat),
    {
        let enc = size_encode(n);
        self.absorb(enc.as_slice());
    }

    pub fn mask_size(&mut self, n: u64)
        requires
            old(self).wf(),
        ensures
            final(self).wf(),
            final(self)@ == wm_mask_size(old(self)@, n as nat),
    {
        let enc = size_encode(n);
        self.mask(enc.as_slice());
    }

    pub fn skip_size(&mut self, n: u64)
        requires
            old(self).wf(),
        ensures
            final(self).wf(),
            final(self)@ == wm_skip_size(old(self)@, n as nat),
    {
        let enc = size_encode(n);
        self.skip(enc.as_slice());
    }

    pub fn commit(&mut self)
        requires
            old(self).wf(),
        ensures
            final(self).wf(),
            final(self)@ == wm_commit(old(self)@),
    {
        self.spongos.commit();
    }

    /// Squeeze `n` tag bytes onto the wire.
    pub fn squeeze_emit(&mut self, n: usize)
        requires
            old(self).wf(),
        ensures
            final(self).wf(),
            final(self)@ == wm_squeeze(old(self)@, n as nat),
    {
        let mut tag = self.spongos.squeeze(n);
        self.out.append(&mut tag);
    }

    /// Squeeze `n` bytes for the caller, off the wire.
    pub fn squeeze_ext(&mut self, n: usize) -> (r: Vec<u8>)
        requires
            old(self).wf(),
        ensures
            final(self).wf(),
            final(self)@ == wm_squeeze_ext(old(self)@, n as nat),
            r@ == sp_squeeze(old(self)@.sp, n as nat).1,
    {
        self.spongos.squeeze(n)
    }

    /// A copy of the sponge, for a `fork` section.
    pub fn sponge_fork(&self) -> (r: Spongos)
        requires
            self.wf(),
        ensures
            r.wf(),
            r@ == self@.sp,
    {
        self.spongos.fork()
    }

    /// Leave a `fork` section: restore the sponge saved at its start.
    pub fn sponge_restore(&mut self, saved: Spongos)
        requires
            saved.wf(),
        ensures
            final(self).wf(),
            final(self)@ == (WrapM { sp: saved@, out: old(self)@.out }),
    {
        self.spongos = saved;
    }

    /// The `x25519` operator: encapsulate `key` for the holder of the secret
    /// scalar behind `recipient_pk`, under the caller-drawn ephemeral secret.
    pub fn x25519(&mut self, esk: &[u8], recipient_pk: &[u8], key: &[u8])
        requires
            old(self).wf(),
            esk@.len() == 32,
            recipient_pk@.len() == 32,
        ensures
            final(self).wf(),
            x25519_wrap_ok(old(self)@, final(self)@, esk@, recipient_pk@, key@),
    {
        let ghost m0 = self@;
        let epk = crate::crypto_ops::x25519_public_key(esk);
        self.absorb(epk.as_slice());
        let shared = crate::crypto_ops::x25519_diffie_hellman(esk, recipient_pk);
        self.absorb_ext(shared.as_slice());
        self.commit();
        self.mask(key);
        proof {
            let sh = shared@;
            assert(sh.len() == 32 && self@ == wm_x25519(
                m0,
                crate::crypto_ops::x25519_pub(esk@),
                sh,
                key@,
            ) && (forall|other: Seq<u8>|
                recipient_pk@ == crate::crypto_ops::x25519_pub(other)
                    ==> sh == crate::crypto_ops::x25519_shared(esk@, other)));
        }
    }

    /// How many bytes were emitted so far.
    pub fn out_len(&self) -> (r: usize)
        ensures
            r == self@.out.len(),
    {
        self.out.len()
    }

    /// The emitted bytes and the final sponge, for the caller to store.
    pub fn into_parts(self) -> (r: (Vec<u8>, Spongos))
        ensures
            r.0@ == self@.out,
            r.1@ == self@.sp,
            self.wf() ==> r.1.wf(),
    {
        (self.out, self.spongos)
    }
}

} // verus!
