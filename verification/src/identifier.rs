//! Canonical binary identities of recipients and publishers: an Ed25519
//! public key, a pre-shared-key identifier, or a DID URI. On the wire an
//! identifier is a variant tag followed by its payload, all masked.

use vstd::prelude::*;
use crate::error::Error;
use crate::size::{pow256, size_num_bytes, size_wire, lemma_num_bytes_le, lemma_pow256_8};
use crate::sizeofctx::SizeofCtx;
use crate::sponge::sp_encrypt;
use crate::unwrapctx::{
    lemma_mask_size_step, lemma_mask_step, um_mask, um_mask_size, UnwrapCtx, UnwrapM,
};
use crate::wrapctx::{lemma_wm_mask_append, wm_mask, WrapCtx, WrapM};

verus! {

/// Width of a pre-shared-key identifier in bytes.
pub const PSKID_SIZE: usize = 16;

/// Width of an Ed25519 public key in bytes.
pub const ED25519_PK_SIZE: usize = 32;

/// What an identifier looks like to the model.
pub ghost enum IdV {
    Ed(Seq<u8>),
    Psk(Seq<u8>),
    Did(Seq<u8>),
}

pub open spec fn idv_wf(v: IdV) -> bool {
    match v {
        IdV::Ed(pk) => pk.len() == ED25519_PK_SIZE,
        IdV::Psk(id) => id.len() == PSKID_SIZE,
        IdV::Did(uri) => uri.len() < pow256(8),
    }
}

/// The plaintext wire form of an identifier: a tag byte, then the payload;
/// a DID URI is length-prefixed.
pub open spec fn id_wire(v: IdV) -> Seq<u8> {
    match v {
        IdV::Ed(pk) => seq![0u8] + pk,
        IdV::Psk(id) => seq![1u8] + id,
        IdV::Did(uri) => seq![2u8] + size_wire(uri.len()) + uri,
    }
}

/// How many bytes an identifier takes on the wire.
pub open spec fn id_sizeof(v: IdV) -> nat {
    match v {
        IdV::Ed(pk) => (1 + ED25519_PK_SIZE) as nat,
        IdV::Psk(id) => (1 + PSKID_SIZE) as nat,
        IdV::Did(uri) => 1 + (1 + size_num_bytes(uri.len())) + uri.len(),
    }
}

pub proof fn lemma_id_wire_len(v: IdV)
    requires
        idv_wf(v),
    ensures
        id_wire(v).len() == id_sizeof(v),
{
    match v {
        IdV::Ed(pk) => {},
        IdV::Psk(id) => {},
        IdV::Did(uri) => {
            crate::size::lemma_be_bytes_len(uri.len(), size_num_bytes(uri.len()));
        },
    }
}

/// Parse an identifier: mask the tag, then the payload the tag calls for.
pub open spec fn id_parse(m: UnwrapM) -> Result<(UnwrapM, IdV), Error> {
    match um_mask(m, 1) {
        Err(e) => Err(e),
        Ok(t1) => {
            let tag = t1.1[0];
            if tag == 0u8 {
                match um_mask(t1.0, ED25519_PK_SIZE as nat) {
                    Err(e) => Err(e),
                    Ok(t2) => Ok((t2.0, IdV::Ed(t2.1))),
                }
            } else if tag == 1u8 {
                match um_mask(t1.0, PSKID_SIZE as nat) {
                    Err(e) => Err(e),
                    Ok(t2) => Ok((t2.0, IdV::Psk(t2.1))),
                }
            } else if tag == 2u8 {
                match um_mask_size(t1.0) {
                    Err(e) => Err(e),
                    Ok(t2) => match um_mask(t2.0, t2.1) {
                        Err(e) => Err(e),
                        Ok(t3) => Ok((t3.0, IdV::Did(t3.1))),
                    },
                }
            } else {
                Err(Error::UnknownVariant(tag))
            }
        },
    }
}

/// A recipient's or publisher's identity on the wire.
pub enum Identifier {
    /// A 32-byte Ed25519 public key.
    Ed25519PublicKey(Vec<u8>),
    /// A 16-byte identifier of a pre-shared key.
    PskId(Vec<u8>),
    /// Decentralized-identifier URI bytes.
    DID(Vec<u8>),
}

impl View for Identifier {
    type V = IdV;

    open spec fn view(&self) -> IdV {
        match self {
            Identifier::Ed25519PublicKey(pk) => IdV::Ed(pk@),
            Identifier::PskId(id) => IdV::Psk(id@),
            Identifier::DID(uri) => IdV::Did(uri@),
        }
    }
}

impl Identifier {
    pub open spec fn wf(&self) -> bool {
        idv_wf(self@)
    }

    /// A copy with the same bytes.
    pub fn duplicate(&self) -> (r: Identifier)
        ensures
            r@ == self@,
    {
        match self {
            Identifier::Ed25519PublicKey(pk) => Identifier::Ed25519PublicKey(
                vstd::slice::slice_to_vec(pk.as_slice()),
            ),
            Identifier::PskId(id) => Identifier::PskId(vstd::slice::slice_to_vec(id.as_slice())),
            Identifier::DID(uri) => Identifier::DID(vstd::slice::slice_to_vec(uri.as_slice())),
        }
    }

    pub fn eq_id(&self, other: &Identifier) -> (r: bool)
        ensures
            r <==> self@ == other@,
    {
        match (self, other) {
            (Identifier::Ed25519PublicKey(a), Identifier::Ed25519PublicKey(b)) => {
                crate::bytes::bytes_eq(a.as_slice(), b.as_slice())
            },
            (Identifier::PskId(a), Identifier::PskId(b)) => {
                crate::bytes::bytes_eq(a.as_slice(), b.as_slice())
            },
            (Identifier::DID(a), Identifier::DID(b)) => {
                crate::bytes::bytes_eq(a.as_slice(), b.as_slice())
            },
            _ => false,
        }
    }

    /// Count the wire bytes of this identifier.
    pub fn sizeof(&self, ctx: &mut SizeofCtx)
        requires
            self.wf(),
            old(ctx)@ + id_sizeof(self@) <= u64::MAX,
        ensures
            final(ctx)@ == old(ctx)@ + id_sizeof(self@),
    {
        match self {
            Identifier::Ed25519PublicKey(pk) => {
                ctx.mask_u8();
                ctx.mask(pk.as_slice());
            },
            Identifier::PskId(id) => {
                ctx.mask_u8();
                ctx.mask(id.as_slice());
            },
            Identifier::DID(uri) => {
                proof {
                    lemma_pow256_8();
                    lemma_num_bytes_le(uri@.len(), 8);
                }
                ctx.mask_u8();
                ctx.size_field(uri.len() as u64);
                ctx.mask(uri.as_slice());
            },
        }
    }

    /// Serialize this identifier, masked.
    pub fn wrap(&self, ctx: &mut WrapCtx)
        requires
            self.wf(),
            old(ctx).wf(),
        ensures
            final(ctx).wf(),
            final(ctx)@ == wm_mask(old(ctx)@, id_wire(self@)),
    {
        let ghost m0 = ctx@;
        match self {
            Identifier::Ed25519PublicKey(pk) => {
                ctx.mask_u8(0u8);
                ctx.mask(pk.as_slice());
                proof {
                    lemma_wm_mask_append(m0, seq![0u8], pk@);
                }
            },
            Identifier::PskId(id) => {
                ctx.mask_u8(1u8);
                ctx.mask(id.as_slice());
                proof {
                    lemma_wm_mask_append(m0, seq![1u8], id@);
                }
            },
            Identifier::DID(uri) => {
                ctx.mask_u8(2u8);
                let ghost m1 = ctx@;
                ctx.mask_size(uri.len() as u64);
                ctx.mask(uri.as_slice());
                proof {
                    lemma_wm_mask_append(m1, size_wire(uri@.len()), uri@);
                    lemma_wm_mask_append(m0, seq![2u8], size_wire(uri@.len()) + uri@);
                    assert(seq![2u8] + (size_wire(uri@.len()) + uri@) =~= id_wire(self@));
                }
            },
        }
    }

    /// Parse an identifier, masked, off the stream.
    pub fn unwrap_from(ctx: &mut UnwrapCtx) -> (r: Result<Identifier, Error>)
        requires
            old(ctx).wf(),
        ensures
            final(ctx).wf(),
            final(ctx)@.inp == old(ctx)@.inp,
            match r {
                Ok(id) => id_parse(old(ctx)@) == Ok::<(UnwrapM, IdV), Error>((final(ctx)@, id@))
                    && id.wf(),
                Err(e) => id_parse(old(ctx)@) == Err::<(UnwrapM, IdV), Error>(e),
            },
    {
        let ghost m0 = ctx@;
        let tag = match ctx.mask_u8() {
            Ok(b) => b,
            Err(e) => {
                return Err(e);
            },
        };
        let ghost m1 = ctx@;
        if tag == 0 {
            match ctx.mask_n(ED25519_PK_SIZE) {
                Ok(pk) => {
                    proof {
                        crate::sponge::lemma_sp_decrypt_len(
                            m1.sp,
                            m1.inp.subrange(m1.cur, m1.cur + ED25519_PK_SIZE as int),
                        );
                    }
                    Ok(Identifier::Ed25519PublicKey(pk))
                },
                Err(e) => Err(e),
            }
        } else if tag == 1 {
            match ctx.mask_n(PSKID_SIZE) {
                Ok(id) => {
                    proof {
                        crate::sponge::lemma_sp_decrypt_len(
                            m1.sp,
                            m1.inp.subrange(m1.cur, m1.cur + PSKID_SIZE as int),
                        );
                    }
                    Ok(Identifier::PskId(id))
                },
                Err(e) => Err(e),
            }
        } else if tag == 2 {
            let len = match ctx.mask_size() {
                Ok(v) => v,
                Err(e) => {
                    return Err(e);
                },
            };
            let ghost m2 = ctx@;
            let total = ctx.remaining_len();
            if len > total as u64 {
                proof {
                    assert(um_mask(m2, len as nat) == Err::<(UnwrapM, Seq<u8>), Error>(
                        Error::StreamExhausted,
                    ));
                }
                return Err(Error::StreamExhausted);
            }
            match ctx.mask_n(len as usize) {
                Ok(uri) => {
                    proof {
                        crate::sponge::lemma_sp_decrypt_len(
                            m2.sp,
                            m2.inp.subrange(m2.cur, m2.cur + len as int),
                        );
                        crate::size::lemma_pow256_8();
                    }
                    Ok(Identifier::DID(uri))
                },
                Err(e) => Err(e),
            }
        } else {
            Err(Error::UnknownVariant(tag))
        }
    }
}

/// Round trip: parsing a masked identifier written from the same sponge state
/// gives back the identifier and the writing sponge.
pub proof fn lemma_id_round_trip(m: UnwrapM, v: IdV)
    requires
        idv_wf(v),
        0 <= m.cur,
        m.cur + id_wire(v).len() <= m.inp.len(),
        m.inp.subrange(m.cur, m.cur + id_wire(v).len()) == sp_encrypt(m.sp, id_wire(v)).1,
    ensures
        id_parse(m) == Ok::<(UnwrapM, IdV), Error>(
            (
                UnwrapM {
                    sp: sp_encrypt(m.sp, id_wire(v)).0,
                    inp: m.inp,
                    cur: m.cur + id_wire(v).len(),
                },
                v,
            ),
        ),
{
    let w = id_wire(v);
    match v {
        IdV::Ed(pk) => {
            crate::unwrapctx::lemma_mask_segments(m, seq![0u8], pk);
            lemma_mask_step(m, seq![0u8]);
            let s1 = sp_encrypt(m.sp, seq![0u8]).0;
            let m1 = UnwrapM { sp: s1, inp: m.inp, cur: m.cur + 1 };
            lemma_mask_step(m1, pk);
            crate::sponge::lemma_sp_encrypt_append(m.sp, seq![0u8], pk);
        },
        IdV::Psk(id) => {
            crate::unwrapctx::lemma_mask_segments(m, seq![1u8], id);
            lemma_mask_step(m, seq![1u8]);
            let s1 = sp_encrypt(m.sp, seq![1u8]).0;
            let m1 = UnwrapM { sp: s1, inp: m.inp, cur: m.cur + 1 };
            lemma_mask_step(m1, id);
            crate::sponge::lemma_sp_encrypt_append(m.sp, seq![1u8], id);
        },
        IdV::Did(uri) => {
            let sw = size_wire(uri.len());
            crate::size::lemma_num_bytes_le(uri.len(), 8);
            crate::size::lemma_be_bytes_len(uri.len(), size_num_bytes(uri.len()));
            assert(seq![2u8] + (sw + uri) =~= w);
            crate::unwrapctx::lemma_mask_segments(m, seq![2u8], sw + uri);
            lemma_mask_step(m, seq![2u8]);
            let s1 = sp_encrypt(m.sp, seq![2u8]).0;
            let m1 = UnwrapM { sp: s1, inp: m.inp, cur: m.cur + 1 };
            crate::unwrapctx::lemma_mask_segments(m1, sw, uri);
            lemma_mask_size_step(m1, uri.len());
            let s2 = sp_encrypt(s1, sw).0;
            let m2 = UnwrapM { sp: s2, inp: m.inp, cur: m1.cur + sw.len() };
            lemma_mask_step(m2, uri);
            crate::sponge::lemma_sp_encrypt_append(s1, sw, uri);
            crate::sponge::lemma_sp_encrypt_append(m.sp, seq![2u8], sw + uri);
            assert(seq![2u8] + (sw + uri) =~= w);
        },
    }
}

} // verus!
