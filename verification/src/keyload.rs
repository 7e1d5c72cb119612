//! The Keyload message content: a forked multi-recipient key encapsulation.
//! Each recipient branch carries the same session key, wrapped either under a
//! pre-shared key or under an X25519 key exchange; the branches are jointly
//! bound by a squeezed recipient hash that the author signs.

use vstd::prelude::*;
use crate::crypto_ops::{x25519_generate_secret, x25519_pub, x25519_shared};
use crate::error::Error;
use crate::identifier::{id_parse, id_sizeof, id_wire, idv_wf, IdV, Identifier};
use crate::identity::{ed_sign, ed_sign_m, ed_verify, ed_verify_m, ED25519_SIG_SIZE, HASH_SIG_SIZE};
use crate::linkstore::{ls_find, LinkStore};
use crate::msgid::MsgId;
use crate::size::size_num_bytes;
use crate::sizeofctx::SizeofCtx;
use crate::sponge::{sp_squeeze, SpState};
use crate::unwrapctx::{
    um_absorb, um_absorb_ext, um_absorb_size, um_commit, um_join, um_mask, um_skip,
    um_squeeze_ext, UnwrapCtx, UnwrapM,
};

use crate::wrapctx::{
    wm_absorb, wm_absorb_ext, wm_absorb_size, wm_commit, wm_join, wm_mask, wm_squeeze_ext,
    wm_x25519, WrapCtx, WrapM,
};

verus! {

/// Width of the nonce in bytes.
pub const NONCE_SIZE: usize = 16;

/// Width of the session key and of a pre-shared key in bytes.
pub const KEY_SIZE: usize = 32;

/// Wire width of a dead pre-shared-key branch.
pub const PSK_BRANCH_SIZE: usize = 32;

/// Wire width of a dead X25519 branch: ephemeral key plus masked key.
pub const X25519_BRANCH_SIZE: usize = 64;

/// The most recently stored value for an identifier, if any.
pub open spec fn kv_find(entries: Seq<(IdV, Seq<u8>)>, id: IdV) -> Option<Seq<u8>>
    decreases entries.len(),
{
    if entries.len() == 0 {
        None
    } else if entries.last().0 == id {
        Some(entries.last().1)
    } else {
        kv_find(entries.drop_last(), id)
    }
}

/// A store from recipient identifiers to their secret material: pre-shared
/// keys, or X25519 secret scalars.
pub struct IdStore {
    entries: Vec<(Identifier, Vec<u8>)>,
}

impl View for IdStore {
    type V = Seq<(IdV, Seq<u8>)>;

    closed spec fn view(&self) -> Seq<(IdV, Seq<u8>)> {
        self.entries@.map_values(|e: (Identifier, Vec<u8>)| (e.0@, e.1@))
    }
}

impl IdStore {
    pub fn new() -> (r: IdStore)
        ensures
            r@ =~= Seq::<(IdV, Seq<u8>)>::empty(),
    {
        IdStore { entries: Vec::new() }
    }

    /// Store material for an identifier.
    pub fn insert(&mut self, id: Identifier, material: Vec<u8>)
        ensures
            final(self)@ == old(self)@.push((id@, material@)),
    {
        let ghost before = self@;
        self.entries.push((id, material));
        proof {
            assert(self@ =~= before.push((id@, material@)));
        }
    }

    /// The material stored for an identifier, as a fresh copy.
    pub fn lookup(&self, id: &Identifier) -> (r: Option<Vec<u8>>)
        ensures
            match r {
                Some(v) => kv_find(self@, id@) == Some(v@),
                None => kv_find(self@, id@) is None,
            },
    {
        let mut i: usize = self.entries.len();
        proof {
            assert(self@.take(i as int) =~= self@);
        }
        while i > 0
            invariant
                i <= self@.len(),
                kv_find(self@, id@) == kv_find(self@.take(i as int), id@),
            decreases i,
        {
            let entry = &self.entries[i - 1];
            proof {
                assert(self@.take(i as int).last() == self@[i - 1]);
                assert(self@.take(i as int).drop_last() =~= self@.take(i as int - 1));
            }
            if entry.0.eq_id(id) {
                return Some(vstd::slice::slice_to_vec(entry.1.as_slice()));
            }
            i = i - 1;
        }
        None
    }
}

/// One recipient as the wrap interpreter runs it: the masked identifier, then
/// a forked branch wrapping the session key, with the parent sponge restored
/// on exit. `br` holds the ephemeral public key and the shared secret of an
/// X25519 branch; a pre-shared-key branch ignores it.
pub open spec fn kl_recipient_m(
    m: WrapM,
    id: IdV,
    material: Seq<u8>,
    key: Seq<u8>,
    br: (Seq<u8>, Seq<u8>),
) -> WrapM {
    let mid = wm_mask(m, id_wire(id));
    let mb = match id {
        IdV::Psk(pskid) => wm_mask(wm_commit(wm_absorb_ext(mid, material)), key),
        _ => wm_x25519(mid, br.0, br.1, key),
    };
    WrapM { sp: mid.sp, out: mb.out }
}

/// The recipient list, in order.
pub open spec fn kl_recipients_m(
    m: WrapM,
    recips: Seq<(IdV, Seq<u8>)>,
    key: Seq<u8>,
    brs: Seq<(Seq<u8>, Seq<u8>)>,
) -> WrapM
    decreases recips.len(),
{
    if recips.len() == 0 {
        m
    } else {
        kl_recipients_m(
            kl_recipient_m(m, recips[0].0, recips[0].1, key, brs[0]),
            recips.skip(1),
            key,
            brs.skip(1),
        )
    }
}

pub proof fn lemma_kl_recipients_snoc(
    m: WrapM,
    r: Seq<(IdV, Seq<u8>)>,
    key: Seq<u8>,
    brs: Seq<(Seq<u8>, Seq<u8>)>,
    x: (IdV, Seq<u8>),
    b: (Seq<u8>, Seq<u8>),
)
    requires
        brs.len() == r.len(),
    ensures
        kl_recipients_m(m, r.push(x), key, brs.push(b)) == kl_recipient_m(
            kl_recipients_m(m, r, key, brs),
            x.0,
            x.1,
            key,
            b,
        ),
    decreases r.len(),
{
    if r.len() == 0 {
        assert(r.push(x)[0] == x);
        assert(brs.push(b)[0] == b);
        assert(r.push(x).skip(1) =~= Seq::<(IdV, Seq<u8>)>::empty());
        assert(brs.push(b).skip(1) =~= Seq::<(Seq<u8>, Seq<u8>)>::empty());
        assert(kl_recipients_m(m, r.push(x), key, brs.push(b)) == kl_recipients_m(
            kl_recipient_m(m, x.0, x.1, key, b),
            Seq::<(IdV, Seq<u8>)>::empty(),
            key,
            Seq::<(Seq<u8>, Seq<u8>)>::empty(),
        ));
        assert(kl_recipients_m(
            kl_recipient_m(m, x.0, x.1, key, b),
            Seq::<(IdV, Seq<u8>)>::empty(),
            key,
            Seq::<(Seq<u8>, Seq<u8>)>::empty(),
        ) == kl_recipient_m(m, x.0, x.1, key, b));
        assert(kl_recipients_m(m, r, key, brs) == m);
    } else {
        assert(r.push(x)[0] == r[0]);
        assert(brs.push(b)[0] == brs[0]);
        assert(r.push(x).skip(1) =~= r.skip(1).push(x));
        assert(brs.push(b).skip(1) =~= brs.skip(1).push(b));
        assert(kl_recipients_m(m, r.push(x), key, brs.push(b)) == kl_recipients_m(
            kl_recipient_m(m, r[0].0, r[0].1, key, brs[0]),
            r.skip(1).push(x),
            key,
            brs.skip(1).push(b),
        ));
        lemma_kl_recipients_snoc(
            kl_recipient_m(m, r[0].0, r[0].1, key, brs[0]),
            r.skip(1),
            key,
            brs.skip(1),
            x,
            b,
        );
        assert(kl_recipients_m(m, r, key, brs) == kl_recipients_m(
            kl_recipient_m(m, r[0].0, r[0].1, key, brs[0]),
            r.skip(1),
            key,
            brs.skip(1),
        ));
    }
}

/// The whole Keyload, as the wrap interpreter runs it.
pub open spec fn keyload_wrap_m(
    m: WrapM,
    stored: SpState,
    link: Seq<u8>,
    nonce: Seq<u8>,
    key: Seq<u8>,
    recips: Seq<(IdV, Seq<u8>)>,
    brs: Seq<(Seq<u8>, Seq<u8>)>,
    sig_sk: Seq<u8>,
) -> WrapM {
    let m1 = wm_join(m, stored, link);
    let m2 = wm_absorb(m1, nonce);
    let f1 = wm_absorb_size(m2, recips.len());
    let f2 = kl_recipients_m(f1, recips, key, brs);
    let f3 = wm_commit(f2);
    let f4 = wm_squeeze_ext(f3, HASH_SIG_SIZE as nat);
    let m3 = WrapM { sp: m2.sp, out: f4.out };
    let m4 = wm_absorb_ext(m3, key);
    let g1 = wm_absorb_ext(m4, sp_squeeze(f3.sp, HASH_SIG_SIZE as nat).1);
    let g2 = ed_sign_m(g1, sig_sk);
    let m5 = WrapM { sp: m4.sp, out: g2.out };
    wm_commit(m5)
}

/// What ties the ghost branch data to the ephemeral secrets the wrap drew:
/// for each X25519 recipient, the branch's first component is the ephemeral
/// public key, and whenever the recipient's material is the public key of
/// some secret scalar, the branch's second component is the key agreement of
/// the two scalars.
pub open spec fn kl_branches_of(
    recips: Seq<(IdV, Seq<u8>)>,
    ephs: Seq<Seq<u8>>,
    brs: Seq<(Seq<u8>, Seq<u8>)>,
) -> bool {
    &&& brs.len() == recips.len()
    &&& ephs.len() == recips.len()
    &&& forall|i: int|
        0 <= i < recips.len() && recips[i].0 is Ed ==> (#[trigger] brs[i]).0 == x25519_pub(
            ephs[i],
        ) && brs[i].0.len() == 32 && brs[i].1.len() == 32 && (forall|other: Seq<u8>|
            recips[i].1 == x25519_pub(other) ==> brs[i].1 == x25519_shared(ephs[i], other))
}

/// Every recipient entry a Keyload accepts: a well-formed pre-shared-key or
/// Ed25519 identifier with 32 bytes of wrapping material.
pub open spec fn kl_recips_wf(recips: Seq<(IdV, Seq<u8>)>) -> bool {
    forall|i: int|
        0 <= i < recips.len() ==> idv_wf((#[trigger] recips[i]).0) && !(recips[i].0 is Did)
            && recips[i].1.len() == 32
}

/// Wire width of one recipient's forked branch.
pub open spec fn kl_branch_size(id: IdV) -> nat {
    match id {
        IdV::Psk(p) => PSK_BRANCH_SIZE as nat,
        IdV::Ed(p) => X25519_BRANCH_SIZE as nat,
        IdV::Did(p) => 0,
    }
}

/// Wire width of the recipient list.
pub open spec fn kl_recips_sizeof(recips: Seq<(IdV, Seq<u8>)>) -> nat
    decreases recips.len(),
{
    if recips.len() == 0 {
        0
    } else {
        id_sizeof(recips[0].0) + kl_branch_size(recips[0].0) + kl_recips_sizeof(recips.skip(1))
    }
}

/// Wire width of a whole Keyload.
pub open spec fn keyload_sizeof(recips: Seq<(IdV, Seq<u8>)>) -> nat {
    (NONCE_SIZE as nat) + 1 + size_num_bytes(recips.len()) + kl_recips_sizeof(recips) + (
    ED25519_SIG_SIZE as nat)
}

/// The list width splits at any point.
pub proof fn lemma_kl_recips_sizeof_split(recips: Seq<(IdV, Seq<u8>)>, i: int)
    requires
        0 <= i <= recips.len(),
    ensures
        kl_recips_sizeof(recips) == kl_recips_sizeof(recips.take(i)) + kl_recips_sizeof(
            recips.skip(i),
        ),
    decreases i,
{
    if i == 0 {
        assert(recips.take(0) =~= Seq::<(IdV, Seq<u8>)>::empty());
        assert(recips.skip(0) =~= recips);
    } else {
        lemma_kl_recips_sizeof_split(recips.skip(1), i - 1);
        assert(recips.take(i)[0] == recips[0]);
        assert(recips.take(i).skip(1) =~= recips.skip(1).take(i - 1));
        assert(recips.skip(1).skip(i - 1) =~= recips.skip(i));
    }
}

/// The Keyload content on the wrap side: the link to join, the nonce, the
/// session key, the recipients with their wrapping material, and the author's
/// signing key.
pub struct ContentWrap {
    /// The previous message this Keyload joins.
    pub link: MsgId,
    /// The 16-byte nonce absorbed before the recipient list.
    pub nonce: Vec<u8>,
    /// The 32-byte session key to distribute.
    pub key: Vec<u8>,
    /// Each recipient's identifier and wrapping material: the pre-shared key
    /// for a `PskId`, the static X25519 public key for an Ed25519 holder.
    pub keys: Vec<(Identifier, Vec<u8>)>,
    /// The author's Ed25519 signing key.
    pub sig_sk: Vec<u8>,
}

impl ContentWrap {
    /// The recipients as the model sees them.
    pub open spec fn recips_v(&self) -> Seq<(IdV, Seq<u8>)> {
        self.keys@.map_values(|e: (Identifier, Vec<u8>)| (e.0@, e.1@))
    }

    pub open spec fn wf(&self) -> bool {
        &&& self.link.wf()
        &&& self.nonce@.len() == NONCE_SIZE
        &&& self.key@.len() == KEY_SIZE
        &&& self.sig_sk@.len() == 32
        &&& forall|i: int|
            0 <= i < self.recips_v().len() ==> idv_wf(#[trigger] self.recips_v()[i].0)
                && !(self.recips_v()[i].0 is Did) && self.recips_v()[i].1.len() == 32
    }

    /// A Keyload with the given fields; it exists exactly when the widths are
    /// right and every recipient is a pre-shared key or an Ed25519 holder
    /// with 32 bytes of wrapping material.
    pub fn new(
        link: MsgId,
        nonce: Vec<u8>,
        key: Vec<u8>,
        keys: Vec<(Identifier, Vec<u8>)>,
        sig_sk: Vec<u8>,
    ) -> (r: Result<ContentWrap, Error>)
        ensures
            match r {
                Ok(c) => c.wf() && c.link@ == link@ && c.nonce@ == nonce@ && c.key@ == key@
                    && c.sig_sk@ == sig_sk@ && c.recips_v() == keys@.map_values(
                    |e: (Identifier, Vec<u8>)| (e.0@, e.1@),
                ),
                Err(e) => e == Error::GuardFailed && !(link@.len() == crate::msgid::MSGID_SIZE
                    && nonce@.len() == NONCE_SIZE && key@.len() == KEY_SIZE && sig_sk@.len() == 32
                    && kl_recips_wf(
                    keys@.map_values(|e: (Identifier, Vec<u8>)| (e.0@, e.1@)),
                )),
            },
    {
        let ghost rv = keys@.map_values(|e: (Identifier, Vec<u8>)| (e.0@, e.1@));
        if link.as_bytes().len() != crate::msgid::MSGID_SIZE || nonce.len() != NONCE_SIZE
            || key.len() != KEY_SIZE || sig_sk.len() != 32 {
            return Err(Error::GuardFailed);
        }
        let mut i: usize = 0;
        while i < keys.len()
            invariant
                i <= rv.len(),
                rv == keys@.map_values(|e: (Identifier, Vec<u8>)| (e.0@, e.1@)),
                rv.len() == keys@.len(),
                forall|j: int|
                    0 <= j < i ==> idv_wf((#[trigger] rv[j]).0) && !(rv[j].0 is Did)
                        && rv[j].1.len() == 32,
            decreases keys@.len() - i,
        {
            let entry = &keys[i];
            proof {
                assert(rv[i as int] == (keys@[i as int].0@, keys@[i as int].1@));
            }
            let ok = match &entry.0 {
                Identifier::Ed25519PublicKey(pk) => pk.len() == 32,
                Identifier::PskId(id) => id.len() == 16,
                Identifier::DID(uri) => false,
            };
            if !ok || entry.1.len() != 32 {
                proof {
                    assert(!(idv_wf(rv[i as int].0) && !(rv[i as int].0 is Did) && rv[
                        i as int].1.len() == 32));
                    assert(!kl_recips_wf(rv));
                }
                return Err(Error::GuardFailed);
            }
            i = i + 1;
        }
        proof {
            assert(kl_recips_wf(rv));
        }
        let c = ContentWrap { link, nonce, key, keys, sig_sk };
        proof {
            assert(c.recips_v() == rv);
            assert forall|j: int| 0 <= j < c.recips_v().len() implies idv_wf(
                #[trigger] c.recips_v()[j].0,
            ) && !(c.recips_v()[j].0 is Did) && c.recips_v()[j].1.len() == 32 by {
                assert(idv_wf((rv[j]).0) && !(rv[j].0 is Did) && rv[j].1.len() == 32);
            }
        }
        Ok(c)
    }

    /// Count the Keyload's wire bytes.
    pub fn sizeof(&self, ctx: &mut SizeofCtx)
        requires
            self.wf(),
            old(ctx)@ + keyload_sizeof(self.recips_v()) <= u64::MAX,
        ensures
            final(ctx)@ == old(ctx)@ + keyload_sizeof(self.recips_v()),
    {
        let ghost r = self.recips_v();
        ctx.absorb(self.nonce.as_slice());
        ctx.size_field(self.keys.len() as u64);
        let ghost base = ctx@;
        proof {
            assert(r.take(0) =~= Seq::<(IdV, Seq<u8>)>::empty());
            assert(r.skip(0) =~= r);
        }
        let mut i: usize = 0;
        while i < self.keys.len()
            invariant
                self.wf(),
                i <= r.len(),
                r == self.recips_v(),
                r.len() == self.keys@.len(),
                ctx@ == base + kl_recips_sizeof(r.take(i as int)),
                ctx@ + kl_recips_sizeof(r.skip(i as int)) + ED25519_SIG_SIZE <= u64::MAX,
            decreases r.len() - i,
        {
            proof {
                assert(r.skip(i as int)[0] == r[i as int]);
                assert(r.skip(i as int).skip(1) =~= r.skip(i as int + 1));
                assert(kl_recips_sizeof(r.skip(i as int)) == id_sizeof(r[i as int].0)
                    + kl_branch_size(r[i as int].0) + kl_recips_sizeof(r.skip(i as int + 1)));
                lemma_kl_recips_sizeof_split(r.take(i as int + 1), i as int);
                assert(r.take(i as int + 1).take(i as int) =~= r.take(i as int));
                assert(r.take(i as int + 1).skip(i as int) =~= seq![r[i as int]]);
                assert(seq![r[i as int]][0] == r[i as int]);
                assert(seq![r[i as int]].skip(1) =~= Seq::<(IdV, Seq<u8>)>::empty());
                assert(kl_recips_sizeof(Seq::<(IdV, Seq<u8>)>::empty()) == 0);
                assert(kl_recips_sizeof(seq![r[i as int]]) == id_sizeof(r[i as int].0)
                    + kl_branch_size(r[i as int].0));
                assert(idv_wf(self.recips_v()[i as int].0));
                assert(r[i as int] == (self.keys@[i as int].0@, self.keys@[i as int].1@));
            }
            let entry = &self.keys[i];
            entry.0.sizeof(ctx);
            match &entry.0 {
                Identifier::PskId(p) => {
                    ctx.absorb_ext();
                    ctx.commit();
                    ctx.mask(self.key.as_slice());
                },
                Identifier::Ed25519PublicKey(p) => {
                    let eph_budget = [0u8; 32];
                    ctx.absorb(eph_budget.as_slice());
                    ctx.absorb_ext();
                    ctx.commit();
                    ctx.mask(self.key.as_slice());
                },
                Identifier::DID(p) => {
                    proof {
                        assert(false);
                    }
                },
            }
            i = i + 1;
        }
        proof {
            assert(r.take(r.len() as int) =~= r);
            assert(r.skip(r.len() as int) =~= Seq::<(IdV, Seq<u8>)>::empty());
        }
        ctx.absorb_ext();
        ctx.commit();
        ctx.squeeze_ext();
        ctx.absorb_ext();
        ctx.absorb_ext();
        ctx.squeeze_ext();
        let sig_budget = [0u8; 64];
        ctx.absorb(sig_budget.as_slice());
        ctx.commit();
    }

    /// Serialize the Keyload under caller-drawn ephemeral secrets, one for
    /// each recipient (only the X25519 branches use theirs). Fails exactly
    /// when no sponge is stored for the link.
    pub fn wrap_with(&self, store: &LinkStore, ephs: &Vec<Vec<u8>>, ctx: &mut WrapCtx) -> (r:
        Result<(), Error>)
        requires
            self.wf(),
            old(ctx).wf(),
            store.wf(),
            ephs@.len() == self.keys@.len(),
            forall|i: int| 0 <= i < ephs@.len() ==> (#[trigger] ephs@[i])@.len() == 32,
        ensures
            final(ctx).wf(),
            match r {
                Ok(u) => ls_find(store@, self.link@) is Some && (exists|
                    brs: Seq<(Seq<u8>, Seq<u8>)>,
                |
                    #![auto]
                    kl_branches_of(
                        self.recips_v(),
                        ephs@.map_values(|v: Vec<u8>| v@),
                        brs,
                    ) && final(ctx)@ == keyload_wrap_m(
                        old(ctx)@,
                        ls_find(store@, self.link@).unwrap(),
                        self.link@,
                        self.nonce@,
                        self.key@,
                        self.recips_v(),
                        brs,
                        self.sig_sk@,
                    )),
                Err(e) => ls_find(store@, self.link@) is None && e == Error::GuardFailed
                    && final(ctx)@ == old(ctx)@,
            },
    {
        let ghost m0 = ctx@;
        let ghost r = self.recips_v();
        let stored = match store.lookup(&self.link) {
            Some(s) => s,
            None => {
                return Err(Error::GuardFailed);
            },
        };
        ctx.join(&stored, self.link.as_bytes());
        ctx.absorb(self.nonce.as_slice());
        let ghost m2 = ctx@;
        let saved1 = ctx.sponge_fork();
        ctx.absorb_size(self.keys.len() as u64);
        let ghost f1 = ctx@;
        let ghost mut brs: Seq<(Seq<u8>, Seq<u8>)> = Seq::empty();
        let mut i: usize = 0;
        while i < self.keys.len()
            invariant
                self.wf(),
                ctx.wf(),
                i <= r.len(),
                r == self.recips_v(),
                r.len() == self.keys@.len(),
                ephs@.len() == self.keys@.len(),
                forall|j: int| 0 <= j < ephs@.len() ==> (#[trigger] ephs@[j])@.len() == 32,
                brs.len() == i,
                self.key@.len() == KEY_SIZE,
                ctx@ == kl_recipients_m(f1, r.take(i as int), self.key@, brs),
                kl_branches_of(
                    r.take(i as int),
                    ephs@.map_values(|v: Vec<u8>| v@).take(i as int),
                    brs,
                ),
            decreases r.len() - i,
        {
            let ghost prev = ctx@;
            let ghost brs_prev = brs;
            let entry = &self.keys[i];
            proof {
                assert(idv_wf(self.recips_v()[i as int].0));
                assert(!(self.recips_v()[i as int].0 is Did));
                assert(self.recips_v()[i as int].1.len() == 32);
                assert(self.recips_v()[i as int] == (self.keys@[i as int].0@, self.keys@[
                    i as int].1@));
                assert(r[i as int] == (entry.0@, entry.1@));
            }
            entry.0.wrap(ctx);
            let ghost mid = ctx@;
            let saved = ctx.sponge_fork();
            match &entry.0 {
                Identifier::PskId(p) => {
                    ctx.absorb_ext(entry.1.as_slice());
                    ctx.commit();
                    ctx.mask(self.key.as_slice());
                    proof {
                        brs = brs.push((Seq::empty(), Seq::empty()));
                    }
                },
                Identifier::Ed25519PublicKey(p) => {
                    ctx.x25519(ephs[i].as_slice(), entry.1.as_slice(), self.key.as_slice());
                    proof {
                        let esk = ephs@[i as int]@;
                        let sh = choose|sh: Seq<u8>|
                            #![auto]
                            sh.len() == 32 && ctx@ == wm_x25519(mid, x25519_pub(esk), sh, self.key@)
                                && (forall|other: Seq<u8>|
                                entry.1@ == x25519_pub(other) ==> sh == x25519_shared(esk, other));
                        brs = brs.push((x25519_pub(esk), sh));
                    }
                },
                Identifier::DID(p) => {
                    proof {
                        assert(false);
                    }
                },
            }
            ctx.sponge_restore(saved);
            proof {
                let b = brs.last();
                assert(ctx@ == kl_recipient_m(prev, r[i as int].0, r[i as int].1, self.key@, b));
                lemma_kl_recipients_snoc(f1, r.take(i as int), self.key@, brs_prev, r[i as int], b);
                assert(r.take(i as int + 1) =~= r.take(i as int).push(r[i as int]));
                assert(brs == brs_prev.push(b));
                let ev = ephs@.map_values(|v: Vec<u8>| v@);
                assert(ev.take(i as int + 1) =~= ev.take(i as int).push(ev[i as int]));
                assert forall|j: int|
                    0 <= j < i + 1 && r.take(i as int + 1)[j].0 is Ed implies (#[trigger] brs[j]).0
                    == x25519_pub(ev.take(i as int + 1)[j]) && brs[j].0.len() == 32
                    && brs[j].1.len() == 32 && (forall|
                    other: Seq<u8>,
                |
                    r.take(i as int + 1)[j].1 == x25519_pub(other) ==> brs[j].1 == x25519_shared(
                        ev.take(i as int + 1)[j],
                        other,
                    )) by {
                    if j < i {
                        assert(kl_branches_of(r.take(i as int), ev.take(i as int), brs_prev));
                        assert(r.take(i as int)[j] == r.take(i as int + 1)[j]);
                        assert(brs[j] == brs_prev[j]);
                    }
                }
            }
            i = i + 1;
        }
        proof {
            assert(r.take(r.len() as int) =~= r);
            assert(ephs@.map_values(|v: Vec<u8>| v@).take(r.len() as int) =~= ephs@.map_values(
                |v: Vec<u8>| v@,
            ));
        }
        ctx.commit();
        let ghost f3 = ctx@;
        let id_hash = ctx.squeeze_ext(HASH_SIG_SIZE);
        ctx.sponge_restore(saved1);
        proof {
            assert(saved1@ == m2.sp);
        }
        ctx.absorb_ext(self.key.as_slice());
        let ghost m4 = ctx@;
        let saved2 = ctx.sponge_fork();
        ctx.absorb_ext(id_hash.as_slice());
        ed_sign(ctx, self.sig_sk.as_slice());
        ctx.sponge_restore(saved2);
        ctx.commit();
        proof {
            assert(id_hash@ == sp_squeeze(f3.sp, HASH_SIG_SIZE as nat).1);
            let ev = ephs@.map_values(|v: Vec<u8>| v@);
            assert(kl_branches_of(r, ev, brs));
            let m1 = wm_join(m0, stored@, self.link@);
            let m2c = wm_absorb(m1, self.nonce@);
            assert(m2 == m2c);
            let f1c = wm_absorb_size(m2c, r.len());
            assert(f1 == f1c);
            let f2c = kl_recipients_m(f1c, r, self.key@, brs);
            let f3c = wm_commit(f2c);
            assert(f3 == f3c);
            let f4c = wm_squeeze_ext(f3c, HASH_SIG_SIZE as nat);
            let m3c = WrapM { sp: m2c.sp, out: f4c.out };
            let m4c = wm_absorb_ext(m3c, self.key@);
            assert(m4 == m4c);
            let g1c = wm_absorb_ext(m4c, sp_squeeze(f3c.sp, HASH_SIG_SIZE as nat).1);
            let g2c = ed_sign_m(g1c, self.sig_sk@);
            let m5c = WrapM { sp: m4c.sp, out: g2c.out };
            assert(ctx@ == wm_commit(m5c));
            assert(ctx@ == keyload_wrap_m(
                m0,
                stored@,
                self.link@,
                self.nonce@,
                self.key@,
                r,
                brs,
                self.sig_sk@,
            ));
            assert(ls_find(store@, self.link@) == Some(stored@));
            assert(ls_find(store@, self.link@).unwrap() == stored@);
            assert(exists|brs2: Seq<(Seq<u8>, Seq<u8>)>|
                #![auto]
                kl_branches_of(self.recips_v(), ephs@.map_values(|v: Vec<u8>| v@), brs2) && ctx@
                    == keyload_wrap_m(
                    m0,
                    ls_find(store@, self.link@).unwrap(),
                    self.link@,
                    self.nonce@,
                    self.key@,
                    self.recips_v(),
                    brs2,
                    self.sig_sk@,
                )) by {
                assert(kl_branches_of(self.recips_v(), ephs@.map_values(|v: Vec<u8>| v@), brs)
                    && ctx@ == keyload_wrap_m(
                    m0,
                    ls_find(store@, self.link@).unwrap(),
                    self.link@,
                    self.nonce@,
                    self.key@,
                    self.recips_v(),
                    brs,
                    self.sig_sk@,
                ));
            }
        }
        Ok(())
    }

    /// Serialize the Keyload, drawing a fresh ephemeral secret for each
    /// recipient from the system randomness source. It fails only when no
    /// sponge is stored for the link, or when that source fails while a
    /// recipient's ephemeral is drawn; with the link stored and nothing to
    /// draw it succeeds.
    pub fn wrap(&self, store: &LinkStore, ctx: &mut WrapCtx) -> (r: Result<(), Error>)
        requires
            self.wf(),
            old(ctx).wf(),
            store.wf(),
        ensures
            final(ctx).wf(),
            ls_find(store@, self.link@) is Some && self.keys@.len() == 0 ==> r is Ok,
            match r {
                Ok(u) => ls_find(store@, self.link@) is Some && (exists|
                    ephs: Seq<Seq<u8>>,
                    brs: Seq<(Seq<u8>, Seq<u8>)>,
                |
                    #![auto]
                    kl_branches_of(self.recips_v(), ephs, brs) && final(ctx)@ == keyload_wrap_m(
                        old(ctx)@,
                        ls_find(store@, self.link@).unwrap(),
                        self.link@,
                        self.nonce@,
                        self.key@,
                        self.recips_v(),
                        brs,
                        self.sig_sk@,
                    )),
                Err(e) => e == Error::GuardFailed && final(ctx)@ == old(ctx)@ && (ls_find(
                    store@,
                    self.link@,
                ) is None || self.keys@.len() > 0),
            },
    {
        let mut ephs: Vec<Vec<u8>> = Vec::new();
        let mut i: usize = 0;
        while i < self.keys.len()
            invariant
                ephs@.len() == i,
                i <= self.keys@.len(),
                forall|j: int| 0 <= j < i ==> (#[trigger] ephs@[j])@.len() == 32,
                ctx.wf(),
                ctx@ == old(ctx)@,
            decreases self.keys@.len() - i,
        {
            match x25519_generate_secret() {
                Some(esk) => {
                    ephs.push(esk);
                },
                None => {
                    return Err(Error::GuardFailed);
                },
            }
            i = i + 1;
        }
        let ghost m0 = ctx@;
        match self.wrap_with(store, &ephs, ctx) {
            Ok(u) => {
                proof {
                    let ev = ephs@.map_values(|v: Vec<u8>| v@);
                    let brs = choose|brs: Seq<(Seq<u8>, Seq<u8>)>|
                        #![auto]
                        kl_branches_of(self.recips_v(), ev, brs) && ctx@ == keyload_wrap_m(
                            m0,
                            ls_find(store@, self.link@).unwrap(),
                            self.link@,
                            self.nonce@,
                            self.key@,
                            self.recips_v(),
                            brs,
                            self.sig_sk@,
                        );
                    assert(exists|ephs2: Seq<Seq<u8>>, brs2: Seq<(Seq<u8>, Seq<u8>)>|
                        #![auto]
                        kl_branches_of(self.recips_v(), ephs2, brs2) && ctx@ == keyload_wrap_m(
                            m0,
                            ls_find(store@, self.link@).unwrap(),
                            self.link@,
                            self.nonce@,
                            self.key@,
                            self.recips_v(),
                            brs2,
                            self.sig_sk@,
                        )) by {
                        assert(kl_branches_of(self.recips_v(), ev, brs) && ctx@ == keyload_wrap_m(
                            m0,
                            ls_find(store@, self.link@).unwrap(),
                            self.link@,
                            self.nonce@,
                            self.key@,
                            self.recips_v(),
                            brs,
                            self.sig_sk@,
                        ));
                    }
                }
                Ok(())
            },
            Err(e) => Err(e),
        }
    }
}



/// Whether every value in a key-exchange store is a 32-byte secret scalar.
pub open spec fn kv_wf(entries: Seq<(IdV, Seq<u8>)>) -> bool {
    forall|i: int| 0 <= i < entries.len() ==> (#[trigger] entries[i]).1.len() == 32
}

pub proof fn lemma_kv_find_wf(entries: Seq<(IdV, Seq<u8>)>, id: IdV)
    requires
        kv_wf(entries),
        kv_find(entries, id) is Some,
    ensures
        kv_find(entries, id).unwrap().len() == 32,
    decreases entries.len(),
{
    if entries.len() > 0 {
        if entries.last().0 == id {
            assert(entries[entries.len() - 1].1.len() == 32);
        } else {
            assert(kv_wf(entries.drop_last())) by {
                assert(forall|i: int|
                    0 <= i < entries.len() - 1 ==> (#[trigger] entries.drop_last()[i])
                        == entries[i]);
            }
            lemma_kv_find_wf(entries.drop_last(), id);
        }
    }
}

/// One recipient as the unwrap interpreter runs it. The identifier is parsed,
/// the branch runs on a fork, and the sponge is back to the parent state on
/// exit. `sh` is the shared secret the receiver derives in a live X25519
/// branch; the other branches ignore it.
pub open spec fn kl_unwrap_recipient(
    m: UnwrapM,
    psks: Seq<(IdV, Seq<u8>)>,
    sks: Seq<(IdV, Seq<u8>)>,
    sh: Seq<u8>,
) -> Result<(UnwrapM, IdV, Option<Seq<u8>>), Error> {
    match id_parse(m) {
        Err(e) => Err(e),
        Ok(t1) => {
            let m1 = t1.0;
            let id = t1.1;
            match id {
                IdV::Psk(p) => match kv_find(psks, id) {
                    Some(psk) => match um_mask(
                        um_commit(um_absorb_ext(m1, psk)),
                        KEY_SIZE as nat,
                    ) {
                        Err(e) => Err(e),
                        Ok(t) => Ok(
                            (UnwrapM { sp: m1.sp, inp: m1.inp, cur: t.0.cur }, id, Some(t.1)),
                        ),
                    },
                    None => match um_skip(m1, PSK_BRANCH_SIZE as nat) {
                        Err(e) => Err(e),
                        Ok(t) => Ok((t.0, id, None::<Seq<u8>>)),
                    },
                },
                IdV::Ed(p) => match kv_find(sks, id) {
                    Some(sk) => match um_absorb(m1, 32) {
                        Err(e) => Err(e),
                        Ok(tepk) => match um_mask(
                            um_commit(um_absorb_ext(tepk.0, sh)),
                            KEY_SIZE as nat,
                        ) {
                            Err(e) => Err(e),
                            Ok(t) => Ok(
                                (
                                    UnwrapM { sp: m1.sp, inp: m1.inp, cur: t.0.cur },
                                    id,
                                    Some(t.1),
                                ),
                            ),
                        },
                    },
                    None => match um_skip(m1, X25519_BRANCH_SIZE as nat) {
                        Err(e) => Err(e),
                        Ok(t) => Ok((t.0, id, None::<Seq<u8>>)),
                    },
                },
                IdV::Did(p) => Err(Error::UnknownVariant(2)),
            }
        },
    }
}

/// What a live X25519 branch's shared secret satisfies at this position: it
/// is 32 bytes, and whenever the ephemeral key on the wire is the public key
/// of some scalar, it is the key agreement of that scalar with the stored
/// secret.
pub open spec fn kl_sh_ok(m: UnwrapM, sks: Seq<(IdV, Seq<u8>)>, sh: Seq<u8>) -> bool {
    match id_parse(m) {
        Ok(t1) => match t1.1 {
            IdV::Ed(p) => match kv_find(sks, t1.1) {
                Some(sk) => match um_absorb(t1.0, 32) {
                    Ok(tepk) => sh.len() == 32 && (forall|other: Seq<u8>|
                        tepk.1 == x25519_pub(other) ==> sh == x25519_shared(sk, other)),
                    Err(e) => true,
                },
                None => true,
            },
            _ => true,
        },
        Err(e) => true,
    }
}

/// The recipient list as the unwrap interpreter runs it: identifiers in
/// order, and the session key of the last branch whose material was found.
pub open spec fn kl_unwrap_recipients(
    m: UnwrapM,
    psks: Seq<(IdV, Seq<u8>)>,
    sks: Seq<(IdV, Seq<u8>)>,
    n: nat,
    shs: Seq<Seq<u8>>,
) -> Result<(UnwrapM, Seq<IdV>, Option<Seq<u8>>), Error>
    decreases n,
{
    if n == 0 {
        Ok((m, Seq::empty(), None::<Seq<u8>>))
    } else {
        match kl_unwrap_recipient(m, psks, sks, shs[0]) {
            Err(e) => Err(e),
            Ok(t) => match kl_unwrap_recipients(t.0, psks, sks, (n - 1) as nat, shs.skip(1)) {
                Err(e) => Err(e),
                Ok(t2) => Ok(
                    (
                        t2.0,
                        seq![t.1] + t2.1,
                        if t2.2 is Some {
                            t2.2
                        } else {
                            t.2
                        },
                    ),
                ),
            },
        }
    }
}

/// Every shared secret in `shs` satisfies its branch's condition, as far as
/// the run succeeds.
pub open spec fn kl_shs_ok(
    m: UnwrapM,
    psks: Seq<(IdV, Seq<u8>)>,
    sks: Seq<(IdV, Seq<u8>)>,
    n: nat,
    shs: Seq<Seq<u8>>,
) -> bool
    decreases n,
{
    if n == 0 {
        true
    } else {
        match kl_unwrap_recipient(m, psks, sks, shs[0]) {
            Ok(t) => kl_sh_ok(m, sks, shs[0]) && kl_shs_ok(
                t.0,
                psks,
                sks,
                (n - 1) as nat,
                shs.skip(1),
            ),
            Err(e) => true,
        }
    }
}

/// The recipient public key one branch would leave behind: the identifier
/// payload of an X25519 branch whose secret scalar is stored.
pub open spec fn kl_step_pk(m: UnwrapM, sks: Seq<(IdV, Seq<u8>)>) -> Option<Seq<u8>> {
    match id_parse(m) {
        Ok(t1) => match t1.1 {
            IdV::Ed(p) => if kv_find(sks, t1.1) is Some {
                Some(p)
            } else {
                None::<Seq<u8>>
            },
            _ => None::<Seq<u8>>,
        },
        Err(e) => None::<Seq<u8>>,
    }
}

/// The recipient public key the whole list leaves behind: that of the last
/// live X25519 branch, if any.
pub open spec fn kl_unwrap_pk(
    m: UnwrapM,
    psks: Seq<(IdV, Seq<u8>)>,
    sks: Seq<(IdV, Seq<u8>)>,
    n: nat,
    shs: Seq<Seq<u8>>,
) -> Option<Seq<u8>>
    decreases n,
{
    if n == 0 {
        None::<Seq<u8>>
    } else {
        match kl_unwrap_recipient(m, psks, sks, shs[0]) {
            Err(e) => None::<Seq<u8>>,
            Ok(t) => {
                let rest = kl_unwrap_pk(t.0, psks, sks, (n - 1) as nat, shs.skip(1));
                if rest is Some {
                    rest
                } else {
                    kl_step_pk(m, sks)
                }
            },
        }
    }
}

/// Appending one recipient to a run that succeeded so far.
pub proof fn lemma_kl_unwrap_recipients_snoc(
    m: UnwrapM,
    psks: Seq<(IdV, Seq<u8>)>,
    sks: Seq<(IdV, Seq<u8>)>,
    n: nat,
    shs: Seq<Seq<u8>>,
    s: Seq<u8>,
)
    requires
        shs.len() == n,
        kl_unwrap_recipients(m, psks, sks, n, shs) is Ok,
        kl_shs_ok(m, psks, sks, n, shs),
        kl_sh_ok(kl_unwrap_recipients(m, psks, sks, n, shs).unwrap().0, sks, s),
    ensures
        kl_unwrap_recipients(m, psks, sks, n + 1, shs.push(s)) == (match kl_unwrap_recipient(
            kl_unwrap_recipients(m, psks, sks, n, shs).unwrap().0,
            psks,
            sks,
            s,
        ) {
            Err(e) => Err::<(UnwrapM, Seq<IdV>, Option<Seq<u8>>), Error>(e),
            Ok(u) => Ok(
                (
                    u.0,
                    kl_unwrap_recipients(m, psks, sks, n, shs).unwrap().1.push(u.1),
                    if u.2 is Some {
                        u.2
                    } else {
                        kl_unwrap_recipients(m, psks, sks, n, shs).unwrap().2
                    },
                ),
            ),
        }),
        kl_shs_ok(m, psks, sks, n + 1, shs.push(s)),
        kl_unwrap_recipient(
            kl_unwrap_recipients(m, psks, sks, n, shs).unwrap().0,
            psks,
            sks,
            s,
        ) is Ok ==> kl_unwrap_pk(m, psks, sks, n + 1, shs.push(s)) == (if kl_step_pk(
            kl_unwrap_recipients(m, psks, sks, n, shs).unwrap().0,
            sks,
        ) is Some {
            kl_step_pk(kl_unwrap_recipients(m, psks, sks, n, shs).unwrap().0, sks)
        } else {
            kl_unwrap_pk(m, psks, sks, n, shs)
        }),
    decreases n,
{
    if n == 0 {
        assert(shs.push(s)[0] == s);
        assert(shs.push(s).skip(1) =~= Seq::<Seq<u8>>::empty());
        assert(kl_unwrap_recipients(m, psks, sks, 0, shs) == Ok::<
            (UnwrapM, Seq<IdV>, Option<Seq<u8>>),
            Error,
        >((m, Seq::<IdV>::empty(), None::<Seq<u8>>)));
        assert(kl_unwrap_pk(m, psks, sks, 0, shs) is None);
        match kl_unwrap_recipient(m, psks, sks, s) {
            Err(e) => {
                assert(kl_unwrap_recipients(m, psks, sks, 1, shs.push(s)) == Err::<
                    (UnwrapM, Seq<IdV>, Option<Seq<u8>>),
                    Error,
                >(e));
            },
            Ok(u) => {
                assert(kl_unwrap_recipients(u.0, psks, sks, 0, shs.push(s).skip(1)) == Ok::<
                    (UnwrapM, Seq<IdV>, Option<Seq<u8>>),
                    Error,
                >((u.0, Seq::<IdV>::empty(), None::<Seq<u8>>)));
                assert(seq![u.1] + Seq::<IdV>::empty() =~= Seq::<IdV>::empty().push(u.1));
                assert(kl_shs_ok(u.0, psks, sks, 0, shs.push(s).skip(1)));
                assert(kl_unwrap_pk(u.0, psks, sks, 0, shs.push(s).skip(1)) is None);
                assert(kl_unwrap_pk(m, psks, sks, 1, shs.push(s)) == kl_step_pk(m, sks));
            },
        }
    } else {
        assert(shs.push(s)[0] == shs[0]);
        assert(shs.push(s).skip(1) =~= shs.skip(1).push(s));
        assert(kl_unwrap_recipient(m, psks, sks, shs[0]) is Ok);
        let t = kl_unwrap_recipient(m, psks, sks, shs[0]).unwrap();
        assert(kl_unwrap_recipients(t.0, psks, sks, (n - 1) as nat, shs.skip(1)) is Ok);
        assert(kl_shs_ok(t.0, psks, sks, (n - 1) as nat, shs.skip(1)));
        let rest = kl_unwrap_recipients(t.0, psks, sks, (n - 1) as nat, shs.skip(1)).unwrap();
        let prev = kl_unwrap_recipients(m, psks, sks, n, shs).unwrap();
        assert(prev == (rest.0, seq![t.1] + rest.1, if rest.2 is Some {
            rest.2
        } else {
            t.2
        }));
        lemma_kl_unwrap_recipients_snoc(t.0, psks, sks, (n - 1) as nat, shs.skip(1), s);
        assert(kl_unwrap_recipients(m, psks, sks, n + 1, shs.push(s)) == (match
            kl_unwrap_recipients(t.0, psks, sks, n as nat, shs.skip(1).push(s)) {
            Err(e) => Err::<(UnwrapM, Seq<IdV>, Option<Seq<u8>>), Error>(e),
            Ok(t2) => Ok(
                (
                    t2.0,
                    seq![t.1] + t2.1,
                    if t2.2 is Some {
                        t2.2
                    } else {
                        t.2
                    },
                ),
            ),
        }));
        match kl_unwrap_recipient(rest.0, psks, sks, s) {
            Err(e) => {},
            Ok(u) => {
                assert(seq![t.1] + rest.1.push(u.1) =~= (seq![t.1] + rest.1).push(u.1));
                assert(kl_unwrap_pk(m, psks, sks, n + 1, shs.push(s)) == ({
                    let r2 = kl_unwrap_pk(t.0, psks, sks, n as nat, shs.skip(1).push(s));
                    if r2 is Some {
                        r2
                    } else {
                        kl_step_pk(m, sks)
                    }
                }));
                assert(kl_unwrap_pk(m, psks, sks, n, shs) == ({
                    let r3 = kl_unwrap_pk(t.0, psks, sks, (n - 1) as nat, shs.skip(1));
                    if r3 is Some {
                        r3
                    } else {
                        kl_step_pk(m, sks)
                    }
                }));
            },
        }
    }
}

/// A run that fails at step `j` fails the whole list, whatever stands after
/// that step in `shs`.
pub proof fn lemma_kl_extend_err(
    m: UnwrapM,
    psks: Seq<(IdV, Seq<u8>)>,
    sks: Seq<(IdV, Seq<u8>)>,
    j: nat,
    n: nat,
    shs: Seq<Seq<u8>>,
    e: Error,
)
    requires
        j < n,
        shs.len() == n,
        kl_unwrap_recipients(m, psks, sks, j, shs.take(j as int)) is Ok,
        kl_shs_ok(m, psks, sks, j, shs.take(j as int)),
        kl_unwrap_recipient(
            kl_unwrap_recipients(m, psks, sks, j, shs.take(j as int)).unwrap().0,
            psks,
            sks,
            shs[j as int],
        ) == Err::<(UnwrapM, IdV, Option<Seq<u8>>), Error>(e),
    ensures
        kl_unwrap_recipients(m, psks, sks, n, shs) == Err::<
            (UnwrapM, Seq<IdV>, Option<Seq<u8>>),
            Error,
        >(e),
        kl_shs_ok(m, psks, sks, n, shs),
    decreases j,
{
    if j == 0 {
        assert(shs.take(0) =~= Seq::<Seq<u8>>::empty());
        assert(kl_unwrap_recipient(m, psks, sks, shs[0]) == Err::<
            (UnwrapM, IdV, Option<Seq<u8>>),
            Error,
        >(e));
    } else {
        assert(shs.take(j as int)[0] == shs[0]);
        assert(shs.take(j as int).skip(1) =~= shs.skip(1).take(j as int - 1));
        assert(shs.skip(1)[j as int - 1] == shs[j as int]);
        assert(shs.skip(1).len() == n - 1);
        let t = kl_unwrap_recipient(m, psks, sks, shs[0]).unwrap();
        lemma_kl_extend_err(t.0, psks, sks, (j - 1) as nat, (n - 1) as nat, shs.skip(1), e);
    }
}

/// The whole Keyload, as the unwrap interpreter runs it: the final context,
/// the nonce, the identifiers seen, and the recovered session key if any
/// branch's material was at hand. The outer signature is checked only when a
/// key was recovered; its absence is for the caller to judge.
pub open spec fn keyload_unwrap_m(
    m: UnwrapM,
    stored: SpState,
    link: Seq<u8>,
    psks: Seq<(IdV, Seq<u8>)>,
    sks: Seq<(IdV, Seq<u8>)>,
    sig_pk: Seq<u8>,
    shs: Seq<Seq<u8>>,
) -> Result<(UnwrapM, Seq<u8>, Seq<IdV>, Option<Seq<u8>>), Error> {
    let m1 = um_join(m, stored, link);
    match um_absorb(m1, NONCE_SIZE as nat) {
        Err(e) => Err(e),
        Ok(t_nonce) => match um_absorb_size(t_nonce.0) {
            Err(e) => Err(e),
            Ok(t_n) => match kl_unwrap_recipients(t_n.0, psks, sks, t_n.1, shs) {
                Err(e) => Err(e),
                Ok(t_r) => {
                    let f3 = um_commit(t_r.0);
                    let id_hash = um_squeeze_ext(f3, HASH_SIG_SIZE as nat).1;
                    let m3 = UnwrapM { sp: t_nonce.0.sp, inp: m.inp, cur: t_r.0.cur };
                    match t_r.2 {
                        Some(key) => {
                            let m4 = um_absorb_ext(m3, key);
                            let g1 = um_absorb_ext(m4, id_hash);
                            match ed_verify_m(g1, sig_pk) {
                                Err(e) => Err(e),
                                Ok(g2) => {
                                    let m5 = UnwrapM { sp: m4.sp, inp: m.inp, cur: g2.cur };
                                    Ok((um_commit(m5), t_nonce.1, t_r.1, Some(key)))
                                },
                            }
                        },
                        None => Ok((m3, t_nonce.1, t_r.1, None::<Seq<u8>>)),
                    }
                },
            },
        },
    }
}

/// Whether `shs` covers the run over this input with these stores: one entry
/// per recipient announced on the wire, each satisfying its branch as far as
/// the run succeeds.
pub open spec fn kl_run_ok(
    m: UnwrapM,
    stored: SpState,
    link: Seq<u8>,
    psks: Seq<(IdV, Seq<u8>)>,
    sks: Seq<(IdV, Seq<u8>)>,
    shs: Seq<Seq<u8>>,
) -> bool {
    let m1 = um_join(m, stored, link);
    match um_absorb(m1, NONCE_SIZE as nat) {
        Err(e) => true,
        Ok(t_nonce) => match um_absorb_size(t_nonce.0) {
            Err(e) => true,
            Ok(t_n) => shs.len() == t_n.1 && kl_shs_ok(t_n.0, psks, sks, t_n.1, shs),
        },
    }
}

/// The recipient public key the whole parse leaves behind, under `shs`.
pub open spec fn kl_run_pk(
    m: UnwrapM,
    stored: SpState,
    link: Seq<u8>,
    psks: Seq<(IdV, Seq<u8>)>,
    sks: Seq<(IdV, Seq<u8>)>,
    shs: Seq<Seq<u8>>,
) -> Option<Seq<u8>> {
    let m1 = um_join(m, stored, link);
    match um_absorb(m1, NONCE_SIZE as nat) {
        Err(e) => None::<Seq<u8>>,
        Ok(t_nonce) => match um_absorb_size(t_nonce.0) {
            Err(e) => None::<Seq<u8>>,
            Ok(t_n) => kl_unwrap_pk(t_n.0, psks, sks, t_n.1, shs),
        },
    }
}

/// The Keyload content on the unwrap side: the local stores, and what the
/// parse recovered.
pub struct ContentUnwrap {
    /// The link this Keyload joined.
    pub link: MsgId,
    /// The nonce read off the wire.
    pub nonce: Vec<u8>,
    psk_store: IdStore,
    ke_sk_store: IdStore,
    /// The identifier bytes of the X25519 branch that yielded the key, when
    /// one did.
    pub ke_pk: Vec<u8>,
    /// Every recipient identifier that appeared, in wire order.
    pub key_ids: Vec<Identifier>,
    /// The recovered session key, if any branch's material was at hand.
    pub key: Option<Vec<u8>>,
    sig_pk: Vec<u8>,
}

impl ContentUnwrap {
    pub closed spec fn psks_view(&self) -> Seq<(IdV, Seq<u8>)> {
        self.psk_store@
    }

    pub closed spec fn sks_view(&self) -> Seq<(IdV, Seq<u8>)> {
        self.ke_sk_store@
    }

    pub closed spec fn sig_pk_view(&self) -> Seq<u8> {
        self.sig_pk@
    }

    pub closed spec fn nonce_view(&self) -> Seq<u8> {
        self.nonce@
    }

    pub closed spec fn link_view(&self) -> Seq<u8> {
        self.link@
    }

    pub closed spec fn ke_pk_view(&self) -> Seq<u8> {
        self.ke_pk@
    }

    pub closed spec fn key_ids_view(&self) -> Seq<IdV> {
        self.key_ids@.map_values(|id: Identifier| id@)
    }

    pub closed spec fn key_view(&self) -> Option<Seq<u8>> {
        match self.key {
            Some(k) => Some(k@),
            None => None::<Seq<u8>>,
        }
    }

    pub open spec fn wf(&self) -> bool {
        self.sig_pk_view().len() == 32 && kv_wf(self.sks_view())
    }

    /// A fresh unwrapper over the given stores and the author's public key;
    /// the key-exchange store must hold 32-byte secret scalars. The link,
    /// nonce and recipient key start as zeros of their wire widths; the
    /// stores are taken in unchanged.
    pub fn new(psk_store: IdStore, ke_sk_store: IdStore, sig_pk: Vec<u8>) -> (r: Result<
        ContentUnwrap,
        Error,
    >)
        requires
            kv_wf(ke_sk_store@),
        ensures
            match r {
                Ok(c) => sig_pk@.len() == 32 && c.wf() && c.psks_view() == psk_store@
                    && c.sks_view() == ke_sk_store@ && c.sig_pk_view() == sig_pk@ && c.key_view()
                    is None && c.key_ids_view() =~= Seq::<IdV>::empty() && c.link_view()
                    == Seq::new(crate::msgid::MSGID_SIZE as nat, |i: int| 0u8) && c.nonce_view()
                    == Seq::new(NONCE_SIZE as nat, |i: int| 0u8) && c.ke_pk_view() == Seq::new(
                    32,
                    |i: int| 0u8,
                ),
                Err(e) => sig_pk@.len() != 32 && e == Error::GuardFailed,
            },
    {
        if sig_pk.len() != 32 {
            return Err(Error::GuardFailed);
        }
        let link = match MsgId::new(crate::bytes::zero_bytes(crate::msgid::MSGID_SIZE)) {
            Ok(l) => l,
            Err(e) => {
                proof {
                    assert(false);
                }
                return Err(e);
            },
        };
        Ok(
            ContentUnwrap {
                link,
                nonce: crate::bytes::zero_bytes(NONCE_SIZE),
                psk_store,
                ke_sk_store,
                ke_pk: crate::bytes::zero_bytes(32),
                key_ids: Vec::new(),
                key: None,
                sig_pk,
            },
        )
    }
}


/// What a successful Keyload unwrap promises: some covering `shs` under
/// which the model run yields exactly the final context, nonce, identifier
/// list and recovered key.
pub open spec fn kl_unwrap_post_ok(
    m0: UnwrapM,
    store_v: Seq<(Seq<u8>, SpState)>,
    link: Seq<u8>,
    psks: Seq<(IdV, Seq<u8>)>,
    sks: Seq<(IdV, Seq<u8>)>,
    sig_pk: Seq<u8>,
    m_fin: UnwrapM,
    nonce: Seq<u8>,
    ids: Seq<IdV>,
    key: Option<Seq<u8>>,
    pk_old: Seq<u8>,
    pk_new: Seq<u8>,
) -> bool {
    ls_find(store_v, link) is Some && (exists|shs: Seq<Seq<u8>>|
        #![auto]
        kl_run_ok(m0, ls_find(store_v, link).unwrap(), link, psks, sks, shs)
            && keyload_unwrap_m(
            m0,
            ls_find(store_v, link).unwrap(),
            link,
            psks,
            sks,
            sig_pk,
            shs,
        ) == Ok::<(UnwrapM, Seq<u8>, Seq<IdV>, Option<Seq<u8>>), Error>((m_fin, nonce, ids, key))
            && (match kl_run_pk(m0, ls_find(store_v, link).unwrap(), link, psks, sks, shs) {
            Some(p) => pk_new == p,
            None => pk_new == pk_old,
        }))
}

/// What a failed Keyload unwrap promises: either no sponge was stored for
/// the link, or some covering `shs` under which the model run fails with the
/// same error.
pub open spec fn kl_unwrap_post_err(
    m0: UnwrapM,
    store_v: Seq<(Seq<u8>, SpState)>,
    link: Seq<u8>,
    psks: Seq<(IdV, Seq<u8>)>,
    sks: Seq<(IdV, Seq<u8>)>,
    sig_pk: Seq<u8>,
    e: Error,
) -> bool {
    ||| (ls_find(store_v, link) is None && e == Error::GuardFailed)
    ||| (ls_find(store_v, link) is Some && (exists|shs: Seq<Seq<u8>>|
        #![auto]
        kl_run_ok(m0, ls_find(store_v, link).unwrap(), link, psks, sks, shs)
            && keyload_unwrap_m(
            m0,
            ls_find(store_v, link).unwrap(),
            link,
            psks,
            sks,
            sig_pk,
            shs,
        ) == Err::<(UnwrapM, Seq<u8>, Seq<IdV>, Option<Seq<u8>>), Error>(e)))
}

/// The error witness: a run whose fixed prefix parsed and whose recipient
/// list fails at the next branch fails the whole parse with that error,
/// under `shs` padded past the failure.
proof fn lemma_kl_err_witness(
    m0: UnwrapM,
    store_v: Seq<(Seq<u8>, SpState)>,
    stored: SpState,
    link: Seq<u8>,
    psks: Seq<(IdV, Seq<u8>)>,
    sks: Seq<(IdV, Seq<u8>)>,
    sig_pk: Seq<u8>,
    shs_j: Seq<Seq<u8>>,
    s: Seq<u8>,
    e: Error,
)
    requires
        ls_find(store_v, link) == Some(stored),
        um_absorb(um_join(m0, stored, link), NONCE_SIZE as nat) is Ok,
        um_absorb_size(
            um_absorb(um_join(m0, stored, link), NONCE_SIZE as nat).unwrap().0,
        ) is Ok,
        ({
            let t_n = um_absorb_size(
                um_absorb(um_join(m0, stored, link), NONCE_SIZE as nat).unwrap().0,
            ).unwrap();
            &&& shs_j.len() < t_n.1
            &&& kl_unwrap_recipients(t_n.0, psks, sks, shs_j.len(), shs_j) is Ok
            &&& kl_shs_ok(t_n.0, psks, sks, shs_j.len(), shs_j)
            &&& kl_unwrap_recipient(
                kl_unwrap_recipients(t_n.0, psks, sks, shs_j.len(), shs_j).unwrap().0,
                psks,
                sks,
                s,
            ) == Err::<(UnwrapM, IdV, Option<Seq<u8>>), Error>(e)
        }),
    ensures
        kl_unwrap_post_err(m0, store_v, link, psks, sks, sig_pk, e),
{
    let t_n = um_absorb_size(
        um_absorb(um_join(m0, stored, link), NONCE_SIZE as nat).unwrap().0,
    ).unwrap();
    let mf = t_n.0;
    let n = t_n.1;
    let j = shs_j.len();
    let shs = shs_j.push(s) + Seq::new((n - j - 1) as nat, |k: int| Seq::<u8>::empty());
    assert(shs.len() == n);
    assert(shs.take(j as int) =~= shs_j);
    assert(shs[j as int] == s);
    lemma_kl_extend_err(mf, psks, sks, j, n, shs, e);
    assert(ls_find(store_v, link).unwrap() == stored);
    assert(kl_run_ok(m0, ls_find(store_v, link).unwrap(), link, psks, sks, shs)
        && keyload_unwrap_m(
        m0,
        ls_find(store_v, link).unwrap(),
        link,
        psks,
        sks,
        sig_pk,
        shs,
    ) == Err::<(UnwrapM, Seq<u8>, Seq<IdV>, Option<Seq<u8>>), Error>(e));
}

impl ContentUnwrap {
    /// Parse a Keyload joined to `link`, recovering the session key from any
    /// branch whose material the stores hold; dead branches are drained so
    /// later ones stay aligned. Fails with `GuardFailed` when no sponge is
    /// stored for the link; otherwise exactly as the model runs.
    pub fn unwrap(&mut self, store: &LinkStore, link: &MsgId, ctx: &mut UnwrapCtx) -> (r: Result<
        (),
        Error,
    >)
        requires
            old(self).wf(),
            old(ctx).wf(),
            store.wf(),
            link.wf(),
        ensures
            final(ctx).wf(),
            final(self).wf(),
            final(self).psks_view() == old(self).psks_view(),
            final(self).sks_view() == old(self).sks_view(),
            final(self).sig_pk_view() == old(self).sig_pk_view(),
            match r {
                Ok(u) => final(self).link_view() == link@ && kl_unwrap_post_ok(
                    old(ctx)@,
                    store@,
                    link@,
                    old(self).psks_view(),
                    old(self).sks_view(),
                    old(self).sig_pk_view(),
                    final(ctx)@,
                    final(self).nonce_view(),
                    final(self).key_ids_view(),
                    final(self).key_view(),
                    old(self).ke_pk_view(),
                    final(self).ke_pk_view(),
                ),
                Err(e) => kl_unwrap_post_err(
                    old(ctx)@,
                    store@,
                    link@,
                    old(self).psks_view(),
                    old(self).sks_view(),
                    old(self).sig_pk_view(),
                    e,
                ),
            },
    {
        let ghost m0 = ctx@;
        let ghost psks = self.psks_view();
        let ghost sks = self.sks_view();
        let ghost sig0 = self.sig_pk_view();
        let ghost ke_pk0 = self.ke_pk_view();
        let stored = match store.lookup(link) {
            Some(v) => v,
            None => {
                return Err(Error::GuardFailed);
            },
        };
        self.key = None;
        self.key_ids = Vec::new();
        self.link = link.duplicate();
        ctx.join(&stored, link.as_bytes());
        let ghost m1 = ctx@;
        let nonce = match ctx.absorb_n(NONCE_SIZE) {
            Ok(v) => v,
            Err(e) => {
                proof {
                    let shs = Seq::<Seq<u8>>::empty();
                    assert(ls_find(store@, link@).unwrap() == stored@);
                    assert(kl_run_ok(m0, ls_find(store@, link@).unwrap(), link@, psks, sks, shs)
                        && keyload_unwrap_m(
                        m0,
                        ls_find(store@, link@).unwrap(),
                        link@,
                        psks,
                        sks,
                        sig0,
                        shs,
                    ) == Err::<(UnwrapM, Seq<u8>, Seq<IdV>, Option<Seq<u8>>), Error>(e));
                }
                return Err(e);
            },
        };
        self.nonce = nonce;
        let ghost m2 = ctx@;
        let ghost nonce0 = self.nonce@;
        let saved1 = ctx.sponge_fork();
        let n = match ctx.absorb_size() {
            Ok(v) => v,
            Err(e) => {
                proof {
                    let shs = Seq::<Seq<u8>>::empty();
                    assert(ls_find(store@, link@).unwrap() == stored@);
                    assert(kl_run_ok(m0, ls_find(store@, link@).unwrap(), link@, psks, sks, shs)
                        && keyload_unwrap_m(
                        m0,
                        ls_find(store@, link@).unwrap(),
                        link@,
                        psks,
                        sks,
                        sig0,
                        shs,
                    ) == Err::<(UnwrapM, Seq<u8>, Seq<IdV>, Option<Seq<u8>>), Error>(e));
                }
                return Err(e);
            },
        };
        let ghost mf = ctx@;
        let ghost mut shs: Seq<Seq<u8>> = Seq::empty();
        proof {
            assert(self.key_ids_view() =~= Seq::<IdV>::empty());
            assert(kl_unwrap_recipients(mf, psks, sks, 0, shs) == Ok::<
                (UnwrapM, Seq<IdV>, Option<Seq<u8>>),
                Error,
            >((mf, Seq::<IdV>::empty(), None::<Seq<u8>>)));
        }
        let mut count: u64 = 0;
        while count < n
            invariant
                self.wf(),
                ctx.wf(),
                count <= n,
                shs.len() == count,
                ctx@.inp == mf.inp,
                self.psks_view() == psks,
                self.sks_view() == sks,
                self.sig_pk_view() == sig0,
                self.nonce@ == nonce0,
                self.link@ == link@,
                ke_pk0 == old(self).ke_pk_view(),
                match kl_unwrap_pk(mf, psks, sks, count as nat, shs) {
                    Some(p) => self.ke_pk@ == p,
                    None => self.ke_pk@ == ke_pk0,
                },
                kl_shs_ok(mf, psks, sks, count as nat, shs),
                kl_unwrap_recipients(mf, psks, sks, count as nat, shs) == Ok::<
                    (UnwrapM, Seq<IdV>, Option<Seq<u8>>),
                    Error,
                >((ctx@, self.key_ids_view(), self.key_view())),
                m0 == old(ctx)@,
                psks == old(self).psks_view(),
                sks == old(self).sks_view(),
                sig0 == old(self).sig_pk_view(),
                ls_find(store@, link@) == Some(stored@),
                um_absorb(um_join(m0, stored@, link@), NONCE_SIZE as nat) == Ok::<
                    (UnwrapM, Seq<u8>),
                    Error,
                >((m2, nonce0)),
                um_absorb_size(m2) == Ok::<(UnwrapM, nat), Error>((mf, n as nat)),
            decreases n - count,
        {
            let ghost prev = ctx@;
            let ghost ids_prev = self.key_ids_view();
            let ghost key_prev = self.key_view();
            let ghost ke_pk_prev = self.ke_pk@;
            let ghost shs_prev = shs;
            let ghost sh_empty = Seq::<u8>::empty();
            let id = match Identifier::unwrap_from(ctx) {
                Ok(v) => v,
                Err(e) => {
                    proof {
                        assert(kl_unwrap_recipient(prev, psks, sks, sh_empty) == Err::<
                            (UnwrapM, IdV, Option<Seq<u8>>),
                            Error,
                        >(e));
                        lemma_kl_err_witness(
                            m0, store@, stored@, link@, psks, sks, sig0, shs, sh_empty, e);
                    }
                    return Err(e);
                },
            };
            let ghost m_id = ctx@;
            let saved = ctx.sponge_fork();
            let ghost mut sh_step: Seq<u8> = Seq::empty();
            match &id {
                Identifier::PskId(p) => {
                    match self.psk_store.lookup(&id) {
                        Some(psk) => {
                            ctx.absorb_ext(psk.as_slice());
                            ctx.commit();
                            let key = match ctx.mask_n(KEY_SIZE) {
                                Ok(v) => v,
                                Err(e) => {
                                    proof {
                                        assert(kl_unwrap_recipient(prev, psks, sks, sh_empty)
                                            == Err::<(UnwrapM, IdV, Option<Seq<u8>>), Error>(e));
                                        lemma_kl_err_witness(
                                            m0, store@, stored@, link@, psks, sks, sig0, shs, sh_empty, e);
                                    }
                                    return Err(e);
                                },
                            };
                            self.key = Some(key);
                        },
                        None => {
                            match ctx.skip_n(PSK_BRANCH_SIZE) {
                                Ok(v) => {},
                                Err(e) => {
                                    proof {
                                        assert(kl_unwrap_recipient(prev, psks, sks, sh_empty)
                                            == Err::<(UnwrapM, IdV, Option<Seq<u8>>), Error>(e));
                                        lemma_kl_err_witness(
                                            m0, store@, stored@, link@, psks, sks, sig0, shs, sh_empty, e);
                                    }
                                    return Err(e);
                                },
                            }
                        },
                    }
                },
                Identifier::Ed25519PublicKey(pk) => {
                    match self.ke_sk_store.lookup(&id) {
                        Some(sk) => {
                            proof {
                                lemma_kv_find_wf(sks, id@);
                            }
                            let key = match ctx.x25519(sk.as_slice()) {
                                Ok(v) => v,
                                Err(e) => {
                                    proof {
                                        assert(kl_unwrap_recipient(prev, psks, sks, sh_empty)
                                            == Err::<(UnwrapM, IdV, Option<Seq<u8>>), Error>(e));
                                        lemma_kl_err_witness(
                                            m0, store@, stored@, link@, psks, sks, sig0, shs, sh_empty, e);
                                    }
                                    return Err(e);
                                },
                            };
                            proof {
                                let t1 = um_absorb(m_id, 32).unwrap();
                                sh_step = choose|sh: Seq<u8>|
                                    #![auto]
                                    sh.len() == 32 && um_mask(
                                        um_commit(um_absorb_ext(t1.0, sh)),
                                        32,
                                    ) == Ok::<(UnwrapM, Seq<u8>), Error>((ctx@, key@)) && (forall|
                                        other: Seq<u8>,
                                    |
                                        t1.1 == x25519_pub(other) ==> sh == x25519_shared(
                                            sk@,
                                            other,
                                        ));
                            }
                            self.key = Some(key);
                            self.ke_pk = vstd::slice::slice_to_vec(pk.as_slice());
                        },
                        None => {
                            match ctx.skip_n(X25519_BRANCH_SIZE) {
                                Ok(v) => {},
                                Err(e) => {
                                    proof {
                                        assert(kl_unwrap_recipient(prev, psks, sks, sh_empty)
                                            == Err::<(UnwrapM, IdV, Option<Seq<u8>>), Error>(e));
                                        lemma_kl_err_witness(
                                            m0, store@, stored@, link@, psks, sks, sig0, shs, sh_empty, e);
                                    }
                                    return Err(e);
                                },
                            }
                        },
                    }
                },
                Identifier::DID(uri) => {
                    proof {
                        assert(kl_unwrap_recipient(prev, psks, sks, sh_empty) == Err::<
                            (UnwrapM, IdV, Option<Seq<u8>>),
                            Error,
                        >(Error::UnknownVariant(2)));
                        lemma_kl_err_witness(
                            m0,
                            store@,
                            stored@,
                            link@,
                            psks,
                            sks,
                            sig0,
                            shs,
                            sh_empty,
                            Error::UnknownVariant(2),
                        );
                    }
                    return Err(Error::UnknownVariant(2));
                },
            }
            ctx.sponge_restore(saved);
            self.key_ids.push(id);
            proof {
                let b = self.key_ids@.last();
                assert(self.key_ids_view() =~= ids_prev.push(b@));
                assert(kl_sh_ok(prev, sks, sh_step));
                assert(kl_unwrap_recipient(prev, psks, sks, sh_step) == Ok::<
                    (UnwrapM, IdV, Option<Seq<u8>>),
                    Error,
                >((ctx@, b@, if self.key_view() == key_prev {
                    None::<Seq<u8>>
                } else {
                    self.key_view()
                })) || kl_unwrap_recipient(prev, psks, sks, sh_step) == Ok::<
                    (UnwrapM, IdV, Option<Seq<u8>>),
                    Error,
                >((ctx@, b@, self.key_view())));
                assert(kl_step_pk(prev, sks) is Some ==> self.ke_pk@ == kl_step_pk(
                    prev,
                    sks,
                ).unwrap());
                assert(kl_step_pk(prev, sks) is None ==> self.ke_pk@ == ke_pk_prev);
                lemma_kl_unwrap_recipients_snoc(mf, psks, sks, count as nat, shs, sh_step);
                shs = shs.push(sh_step);
            }
            count = count + 1;
        }
        ctx.commit();
        let id_hash = ctx.squeeze_ext(HASH_SIG_SIZE);
        ctx.sponge_restore(saved1);
        proof {
            assert(shs.len() == n as nat);
        }
        let ghost t_r = kl_unwrap_recipients(mf, psks, sks, n as nat, shs).unwrap();
        let ghost f3 = um_commit(t_r.0);
        let ghost m3 = ctx@;
        let has_key = match &self.key {
            Some(k) => true,
            None => false,
        };
        if has_key {
            let key = match &self.key {
                Some(k) => vstd::slice::slice_to_vec(k.as_slice()),
                None => {
                    proof {
                        assert(false);
                    }
                    Vec::new()
                },
            };
            ctx.absorb_ext(key.as_slice());
            let ghost m4 = ctx@;
            let saved2 = ctx.sponge_fork();
            ctx.absorb_ext(id_hash.as_slice());
            match ed_verify(ctx, self.sig_pk.as_slice()) {
                Ok(u) => {},
                Err(e) => {
                    proof {
                        assert(ls_find(store@, link@).unwrap() == stored@);
                        assert(kl_run_ok(m0, ls_find(store@, link@).unwrap(), link@, psks, sks,
                            shs) && keyload_unwrap_m(
                            m0,
                            ls_find(store@, link@).unwrap(),
                            link@,
                            psks,
                            sks,
                            sig0,
                            shs,
                        ) == Err::<(UnwrapM, Seq<u8>, Seq<IdV>, Option<Seq<u8>>), Error>(e));
                    }
                    return Err(e);
                },
            }
            ctx.sponge_restore(saved2);
            ctx.commit();
            proof {
                assert(ls_find(store@, link@).unwrap() == stored@);
                assert(kl_run_pk(m0, stored@, link@, psks, sks, shs) == kl_unwrap_pk(
                    mf,
                    psks,
                    sks,
                    n as nat,
                    shs,
                ));
                assert(kl_run_ok(m0, ls_find(store@, link@).unwrap(), link@, psks, sks, shs)
                    && keyload_unwrap_m(
                    m0,
                    ls_find(store@, link@).unwrap(),
                    link@,
                    psks,
                    sks,
                    sig0,
                    shs,
                ) == Ok::<(UnwrapM, Seq<u8>, Seq<IdV>, Option<Seq<u8>>), Error>(
                    (ctx@, self.nonce@, self.key_ids_view(), self.key_view()),
                ) && (match kl_run_pk(m0, ls_find(store@, link@).unwrap(), link@, psks, sks, shs) {
                    Some(p) => self.ke_pk@ == p,
                    None => self.ke_pk@ == ke_pk0,
                }));
            }
            Ok(())
        } else {
            proof {
                assert(ls_find(store@, link@).unwrap() == stored@);
                assert(kl_run_pk(m0, stored@, link@, psks, sks, shs) == kl_unwrap_pk(
                    mf,
                    psks,
                    sks,
                    n as nat,
                    shs,
                ));
                assert(kl_run_ok(m0, ls_find(store@, link@).unwrap(), link@, psks, sks, shs)
                    && keyload_unwrap_m(
                    m0,
                    ls_find(store@, link@).unwrap(),
                    link@,
                    psks,
                    sks,
                    sig0,
                    shs,
                ) == Ok::<(UnwrapM, Seq<u8>, Seq<IdV>, Option<Seq<u8>>), Error>(
                    (ctx@, self.nonce@, self.key_ids_view(), self.key_view()),
                ) && (match kl_run_pk(m0, ls_find(store@, link@).unwrap(), link@, psks, sks, shs) {
                    Some(p) => self.ke_pk@ == p,
                    None => self.ke_pk@ == ke_pk0,
                }));
            }
            Ok(())
        }
    }
}


/// What the ghost branch data of a wrap satisfies once the ephemeral secrets
/// are forgotten: each X25519 branch carries the public key of some ephemeral
/// scalar and the key agreement of that scalar with whoever owns the
/// recipient's material.
pub open spec fn kl_branch_ok(rec: (IdV, Seq<u8>), br: (Seq<u8>, Seq<u8>), esk: Seq<u8>) -> bool {
    &&& br.0 == x25519_pub(esk)
    &&& br.0.len() == 32
    &&& br.1.len() == 32
    &&& forall|other: Seq<u8>| rec.1 == x25519_pub(other) ==> br.1 == x25519_shared(esk, other)
}

/// The receiver holds exactly the material this recipient was wrapped under:
/// the same pre-shared key, or the secret scalar behind the X25519 public
/// key.
pub open spec fn kl_recipient_covered(
    rec: (IdV, Seq<u8>),
    psks: Seq<(IdV, Seq<u8>)>,
    sks: Seq<(IdV, Seq<u8>)>,
) -> bool {
    match rec.0 {
        IdV::Psk(p) => kv_find(psks, rec.0) == Some(rec.1),
        IdV::Ed(p) => match kv_find(sks, rec.0) {
            Some(rsk) => rec.1 == x25519_pub(rsk),
            None => false,
        },
        IdV::Did(p) => false,
    }
}

/// The receiver holds nothing for this recipient.
pub open spec fn kl_recipient_absent(
    rec: (IdV, Seq<u8>),
    psks: Seq<(IdV, Seq<u8>)>,
    sks: Seq<(IdV, Seq<u8>)>,
) -> bool {
    match rec.0 {
        IdV::Psk(p) => kv_find(psks, rec.0) is None,
        IdV::Ed(p) => kv_find(sks, rec.0) is None,
        IdV::Did(p) => true,
    }
}

/// For every recipient the receiver either holds the matching material or
/// none at all.
pub open spec fn kl_stores_consistent(
    recips: Seq<(IdV, Seq<u8>)>,
    psks: Seq<(IdV, Seq<u8>)>,
    sks: Seq<(IdV, Seq<u8>)>,
) -> bool {
    forall|i: int|
        0 <= i < recips.len() ==> kl_recipient_covered(#[trigger] recips[i], psks, sks)
            || kl_recipient_absent(recips[i], psks, sks)
}

/// Whether any recipient's material is at hand.
pub open spec fn kl_any_covered(
    recips: Seq<(IdV, Seq<u8>)>,
    psks: Seq<(IdV, Seq<u8>)>,
    sks: Seq<(IdV, Seq<u8>)>,
) -> bool {
    exists|i: int| 0 <= i < recips.len() && kl_recipient_covered(#[trigger] recips[i], psks, sks)
}

/// The recipient public key an unwrap is owed: that of the last X25519
/// recipient whose secret scalar is stored, if any.
pub open spec fn kl_expected_pk(
    recips: Seq<(IdV, Seq<u8>)>,
    sks: Seq<(IdV, Seq<u8>)>,
) -> Option<Seq<u8>>
    decreases recips.len(),
{
    if recips.len() == 0 {
        None::<Seq<u8>>
    } else {
        let rest = kl_expected_pk(recips.skip(1), sks);
        if rest is Some {
            rest
        } else {
            match recips[0].0 {
                IdV::Ed(p) => if kv_find(sks, recips[0].0) is Some {
                    Some(p)
                } else {
                    None::<Seq<u8>>
                },
                _ => None::<Seq<u8>>,
            }
        }
    }
}

/// Round trip of one recipient branch: parsing what the wrap emitted, from
/// the same sponge state, always yields the identifier and drains the branch;
/// a covered recipient recovers a key, and exactly the session key when the
/// receiver's shared secret satisfies its branch condition; an absent one is
/// left with none.
pub proof fn lemma_kl_recipient_round_trip(
    mw: WrapM,
    rec: (IdV, Seq<u8>),
    key: Seq<u8>,
    br: (Seq<u8>, Seq<u8>),
    esk: Seq<u8>,
    m: UnwrapM,
    psks: Seq<(IdV, Seq<u8>)>,
    sks: Seq<(IdV, Seq<u8>)>,
    sh: Seq<u8>,
)
    requires
        idv_wf(rec.0),
        !(rec.0 is Did),
        rec.1.len() == 32,
        key.len() == 32,
        rec.0 is Ed ==> kl_branch_ok(rec, br, esk),
        kl_recipient_covered(rec, psks, sks) || kl_recipient_absent(rec, psks, sks),
        m.sp == mw.sp,
        0 <= m.cur,
        m.cur + kl_recipient_m(
            WrapM { sp: mw.sp, out: Seq::<u8>::empty() },
            rec.0,
            rec.1,
            key,
            br,
        ).out.len() <= m.inp.len(),
        m.inp.subrange(
            m.cur,
            m.cur + kl_recipient_m(
                WrapM { sp: mw.sp, out: Seq::<u8>::empty() },
                rec.0,
                rec.1,
                key,
                br,
            ).out.len(),
        ) == kl_recipient_m(
            WrapM { sp: mw.sp, out: Seq::<u8>::empty() },
            rec.0,
            rec.1,
            key,
            br,
        ).out,
    ensures
        kl_unwrap_recipient(m, psks, sks, sh) is Ok,
        kl_unwrap_recipient(m, psks, sks, sh).unwrap().0 == (UnwrapM {
            sp: kl_recipient_m(
                WrapM { sp: mw.sp, out: Seq::<u8>::empty() },
                rec.0,
                rec.1,
                key,
                br,
            ).sp,
            inp: m.inp,
            cur: m.cur + kl_recipient_m(
                WrapM { sp: mw.sp, out: Seq::<u8>::empty() },
                rec.0,
                rec.1,
                key,
                br,
            ).out.len(),
        }),
        kl_unwrap_recipient(m, psks, sks, sh).unwrap().1 == rec.0,
        kl_recipient_covered(rec, psks, sks) ==> kl_unwrap_recipient(
            m,
            psks,
            sks,
            sh,
        ).unwrap().2 is Some,
        !kl_recipient_covered(rec, psks, sks) ==> kl_unwrap_recipient(
            m,
            psks,
            sks,
            sh,
        ).unwrap().2 is None,
        kl_recipient_covered(rec, psks, sks) && kl_sh_ok(m, sks, sh) ==> kl_unwrap_recipient(
            m,
            psks,
            sks,
            sh,
        ).unwrap().2 == Some(key),
{
    let e0 = WrapM { sp: mw.sp, out: Seq::<u8>::empty() };
    let w = kl_recipient_m(e0, rec.0, rec.1, key, br).out;
    let idw = id_wire(rec.0);
    let mid = wm_mask(e0, idw);
    crate::sponge::lemma_sp_encrypt_len(mw.sp, idw);
    let c_id = crate::sponge::sp_encrypt(mw.sp, idw).1;
    let s1 = crate::sponge::sp_encrypt(mw.sp, idw).0;
    match rec.0 {
        IdV::Psk(p) => {
            // wire: the masked identifier, then the key masked from the
            // committed pre-shared-key absorption
            let sb = crate::sponge::sp_commit(crate::sponge::sp_absorb(s1, rec.1));
            let c_key = crate::sponge::sp_encrypt(sb, key).1;
            crate::sponge::lemma_sp_encrypt_len(sb, key);
            assert(w =~= c_id + c_key);
            crate::unwrapctx::lemma_plain_segments(m, c_id, c_key);
            crate::identifier::lemma_id_round_trip(m, rec.0);
            let m1 = UnwrapM { sp: s1, inp: m.inp, cur: m.cur + idw.len() };
            match kv_find(psks, rec.0) {
                Some(psk) => {
                    assert(psk == rec.1);
                    let m1b = um_commit(um_absorb_ext(m1, rec.1));
                    assert(m1b.sp == sb);
                    assert(m.inp.subrange(m1b.cur, m1b.cur + 32) == c_key);
                    crate::unwrapctx::lemma_mask_step(m1b, key);
                },
                None => {
                    crate::unwrapctx::lemma_skip_step(m1, c_key);
                },
            }
        },
        IdV::Ed(p) => {
            let epk = br.0;
            assert(epk.len() == 32);
            let s2 = crate::sponge::sp_absorb(s1, epk);
            let sb = crate::sponge::sp_commit(crate::sponge::sp_absorb(s2, br.1));
            let c_key = crate::sponge::sp_encrypt(sb, key).1;
            crate::sponge::lemma_sp_encrypt_len(sb, key);
            assert(w =~= c_id + (epk + c_key));
            crate::unwrapctx::lemma_plain_segments(m, c_id, epk + c_key);
            crate::identifier::lemma_id_round_trip(m, rec.0);
            let m1 = UnwrapM { sp: s1, inp: m.inp, cur: m.cur + idw.len() };
            crate::unwrapctx::lemma_plain_segments(m1, epk, c_key);
            match kv_find(sks, rec.0) {
                Some(rsk) => {
                    assert(rec.1 == x25519_pub(rsk));
                    crate::unwrapctx::lemma_absorb_step(m1, epk);
                    let m2 = UnwrapM { sp: s2, inp: m.inp, cur: m1.cur + 32 };
                    let m2b = um_commit(um_absorb_ext(m2, sh));
                    // the branch drains whatever the shared secret was
                    assert(m2b.cur == m2.cur);
                    assert(crate::unwrapctx::um_take(m2b, 32) is Ok);
                    assert(um_mask(m2b, 32) is Ok);
                    crate::sponge::lemma_sp_decrypt_len(
                        m2b.sp,
                        m.inp.subrange(m2b.cur, m2b.cur + 32),
                    );
                    if kl_sh_ok(m, sks, sh) {
                        // the receiver's shared secret equals the sender's
                        assert(um_absorb(m1, 32).unwrap().1 == epk);
                        assert(sh == x25519_shared(rsk, esk));
                        assert(br.1 == x25519_shared(esk, rsk));
                        crate::crypto_ops::lemma_x25519_shared_sym(esk, rsk);
                        assert(sh == br.1);
                        let m2c = um_commit(um_absorb_ext(m2, br.1));
                        assert(m2c.sp == sb);
                        assert(m.inp.subrange(m2c.cur, m2c.cur + 32) == c_key);
                        crate::unwrapctx::lemma_mask_step(m2c, key);
                    }
                },
                None => {
                    assert(m.inp.subrange(m1.cur, m1.cur + 64) =~= epk + c_key);
                    crate::unwrapctx::lemma_skip_step(m1, epk + c_key);
                },
            }
        },
        IdV::Did(p) => {},
    }
}

/// The identifiers of a recipient list, in order.
pub open spec fn kl_ids(recips: Seq<(IdV, Seq<u8>)>) -> Seq<IdV> {
    recips.map_values(|r: (IdV, Seq<u8>)| r.0)
}

/// The recipient list drives the sponge independently of what was emitted
/// before, and appends its own wire bytes.
pub proof fn lemma_kl_recipients_out(
    m: WrapM,
    r: Seq<(IdV, Seq<u8>)>,
    key: Seq<u8>,
    brs: Seq<(Seq<u8>, Seq<u8>)>,
)
    ensures
        kl_recipients_m(m, r, key, brs).sp == kl_recipients_m(
            WrapM { sp: m.sp, out: Seq::<u8>::empty() },
            r,
            key,
            brs,
        ).sp,
        kl_recipients_m(m, r, key, brs).out == m.out + kl_recipients_m(
            WrapM { sp: m.sp, out: Seq::<u8>::empty() },
            r,
            key,
            brs,
        ).out,
    decreases r.len(),
{
    let e0 = WrapM { sp: m.sp, out: Seq::<u8>::empty() };
    if r.len() == 0 {
        assert(m.out + Seq::<u8>::empty() =~= m.out);
    } else {
        let b1 = kl_recipient_m(m, r[0].0, r[0].1, key, brs[0]);
        let a1 = kl_recipient_m(e0, r[0].0, r[0].1, key, brs[0]);
        assert(b1.sp == a1.sp);
        assert(b1.out =~= m.out + a1.out) by {
            match r[0].0 {
                IdV::Psk(p) => {},
                IdV::Ed(p) => {},
                IdV::Did(p) => {},
            }
        }
        lemma_kl_recipients_out(b1, r.skip(1), key, brs.skip(1));
        lemma_kl_recipients_out(a1, r.skip(1), key, brs.skip(1));
        let bw = kl_recipients_m(
            WrapM { sp: b1.sp, out: Seq::<u8>::empty() },
            r.skip(1),
            key,
            brs.skip(1),
        );
        assert(kl_recipients_m(m, r, key, brs).out == b1.out + bw.out);
        assert(kl_recipients_m(e0, r, key, brs).out == a1.out + bw.out);
        assert(m.out + (a1.out + bw.out) =~= (m.out + a1.out) + bw.out);
    }
}

/// Round trip of the whole recipient list: the unwrap sees every identifier
/// in order, ends on the wrap's sponge, and recovers exactly the session key
/// when at least one recipient's material is at hand, nothing otherwise.
pub proof fn lemma_kl_recipients_round_trip(
    mw: WrapM,
    recips: Seq<(IdV, Seq<u8>)>,
    key: Seq<u8>,
    brs: Seq<(Seq<u8>, Seq<u8>)>,
    ephs: Seq<Seq<u8>>,
    m: UnwrapM,
    psks: Seq<(IdV, Seq<u8>)>,
    sks: Seq<(IdV, Seq<u8>)>,
    shs: Seq<Seq<u8>>,
)
    requires
        forall|i: int|
            0 <= i < recips.len() ==> idv_wf(#[trigger] recips[i].0) && !(recips[i].0 is Did)
                && recips[i].1.len() == 32,
        key.len() == 32,
        kl_branches_of(recips, ephs, brs),
        kl_stores_consistent(recips, psks, sks),
        m.sp == mw.sp,
        0 <= m.cur,
        shs.len() == recips.len(),
        kl_shs_ok(m, psks, sks, recips.len(), shs),
        m.cur + kl_recipients_m(
            WrapM { sp: mw.sp, out: Seq::<u8>::empty() },
            recips,
            key,
            brs,
        ).out.len() <= m.inp.len(),
        m.inp.subrange(
            m.cur,
            m.cur + kl_recipients_m(
                WrapM { sp: mw.sp, out: Seq::<u8>::empty() },
                recips,
                key,
                brs,
            ).out.len(),
        ) == kl_recipients_m(WrapM { sp: mw.sp, out: Seq::<u8>::empty() }, recips, key, brs).out,
    ensures
        kl_unwrap_recipients(m, psks, sks, recips.len(), shs) == Ok::<
            (UnwrapM, Seq<IdV>, Option<Seq<u8>>),
            Error,
        >(
            (
                UnwrapM {
                    sp: kl_recipients_m(
                        WrapM { sp: mw.sp, out: Seq::<u8>::empty() },
                        recips,
                        key,
                        brs,
                    ).sp,
                    inp: m.inp,
                    cur: m.cur + kl_recipients_m(
                        WrapM { sp: mw.sp, out: Seq::<u8>::empty() },
                        recips,
                        key,
                        brs,
                    ).out.len(),
                },
                kl_ids(recips),
                if kl_any_covered(recips, psks, sks) {
                    Some(key)
                } else {
                    None::<Seq<u8>>
                },
            ),
        ),
        kl_unwrap_pk(m, psks, sks, recips.len(), shs) == kl_expected_pk(recips, sks),
    decreases recips.len(),
{
    let e0 = WrapM { sp: mw.sp, out: Seq::<u8>::empty() };
    let wfull = kl_recipients_m(e0, recips, key, brs).out;
    if recips.len() == 0 {
        assert(kl_ids(recips) =~= Seq::<IdV>::empty());
        assert(!kl_any_covered(recips, psks, sks));
        assert(kl_unwrap_pk(m, psks, sks, 0, shs) is None);
    } else {
        let rec = recips[0];
        let br = brs[0];
        let a1 = kl_recipient_m(e0, rec.0, rec.1, key, br);
        let seg0 = a1.out;
        lemma_kl_recipients_out(a1, recips.skip(1), key, brs.skip(1));
        let e1 = WrapM { sp: a1.sp, out: Seq::<u8>::empty() };
        let wrest = kl_recipients_m(e1, recips.skip(1), key, brs.skip(1)).out;
        assert(wfull =~= seg0 + wrest);
        crate::unwrapctx::lemma_plain_segments(m, seg0, wrest);
        // the head branch
        assert(kl_branch_ok(rec, br, ephs[0]) || !(rec.0 is Ed)) by {
            if rec.0 is Ed {
                assert(brs[0].0 == x25519_pub(ephs[0]) && brs[0].0.len() == 32 && brs[0].1.len()
                    == 32 && (forall|other: Seq<u8>|
                    recips[0].1 == x25519_pub(other) ==> brs[0].1 == x25519_shared(
                        ephs[0],
                        other,
                    )));
            }
        }
        assert(kl_recipient_covered(rec, psks, sks) || kl_recipient_absent(rec, psks, sks));
        lemma_kl_recipient_round_trip(mw, rec, key, br, ephs[0], m, psks, sks, shs[0]);
        let step = kl_unwrap_recipient(m, psks, sks, shs[0]).unwrap();
        let m1 = step.0;
        // the tail
        assert(kl_shs_ok(m1, psks, sks, (recips.len() - 1) as nat, shs.skip(1)));
        assert(kl_sh_ok(m, sks, shs[0]));
        assert(m1.sp == a1.sp);
        assert(m1.cur == m.cur + seg0.len());
        assert(m.inp.subrange(m1.cur, m1.cur + wrest.len() as int) == wrest);
        assert forall|i: int|
            0 <= i < recips.skip(1).len() implies idv_wf(#[trigger] recips.skip(1)[i].0) && !(
        recips.skip(1)[i].0 is Did) && recips.skip(1)[i].1.len() == 32 by {
            assert(recips.skip(1)[i] == recips[i + 1]);
            assert(idv_wf(recips[i + 1].0));
        }
        assert(kl_branches_of(recips.skip(1), ephs.skip(1), brs.skip(1))) by {
            assert forall|i: int|
                0 <= i < recips.skip(1).len() && recips.skip(1)[i].0 is Ed implies (
            #[trigger] brs.skip(1)[i]).0 == x25519_pub(ephs.skip(1)[i]) && brs.skip(1)[i].0.len()
                == 32 && brs.skip(1)[i].1.len() == 32 && (forall|other: Seq<u8>|
                recips.skip(1)[i].1 == x25519_pub(other) ==> brs.skip(1)[i].1 == x25519_shared(
                    ephs.skip(1)[i],
                    other,
                )) by {
                assert(recips.skip(1)[i] == recips[i + 1]);
                assert(brs.skip(1)[i] == brs[i + 1]);
                assert(ephs.skip(1)[i] == ephs[i + 1]);
                assert((brs[i + 1]).0 == x25519_pub(ephs[i + 1]) && brs[i + 1].0.len() == 32
                    && brs[i + 1].1.len() == 32 && (forall|other: Seq<u8>|
                    recips[i + 1].1 == x25519_pub(other) ==> brs[i + 1].1 == x25519_shared(
                        ephs[i + 1],
                        other,
                    )));
            }
        }
        assert(kl_stores_consistent(recips.skip(1), psks, sks)) by {
            assert forall|i: int|
                0 <= i < recips.skip(1).len() implies kl_recipient_covered(
                #[trigger] recips.skip(1)[i],
                psks,
                sks,
            ) || kl_recipient_absent(recips.skip(1)[i], psks, sks) by {
                assert(recips.skip(1)[i] == recips[i + 1]);
                assert(kl_recipient_covered(recips[i + 1], psks, sks) || kl_recipient_absent(
                    recips[i + 1],
                    psks,
                    sks,
                ));
            }
        }
        lemma_kl_recipients_round_trip(
            WrapM { sp: a1.sp, out: mw.out },
            recips.skip(1),
            key,
            brs.skip(1),
            ephs.skip(1),
            m1,
            psks,
            sks,
            shs.skip(1),
        );
        // the recipient key the head branch leaves behind
        assert(id_parse(m) is Ok && id_parse(m).unwrap().1 == rec.0) by {
            match id_parse(m) {
                Err(e) => {
                    assert(kl_unwrap_recipient(m, psks, sks, shs[0]) is Err);
                },
                Ok(t1) => {},
            }
        }
        assert(kl_step_pk(m, sks) == (match rec.0 {
            IdV::Ed(p) => if kv_find(sks, rec.0) is Some {
                Some(p)
            } else {
                None::<Seq<u8>>
            },
            _ => None::<Seq<u8>>,
        }));
        assert(kl_unwrap_pk(m, psks, sks, recips.len(), shs) == ({
            let rest = kl_unwrap_pk(m1, psks, sks, (recips.len() - 1) as nat, shs.skip(1));
            if rest is Some {
                rest
            } else {
                kl_step_pk(m, sks)
            }
        }));
        // assemble the combined result
        assert(kl_ids(recips) =~= seq![rec.0] + kl_ids(recips.skip(1)));
        assert(kl_any_covered(recips, psks, sks) <==> (kl_recipient_covered(rec, psks, sks)
            || kl_any_covered(recips.skip(1), psks, sks))) by {
            if kl_any_covered(recips.skip(1), psks, sks) {
                let i = choose|i: int|
                    0 <= i < recips.skip(1).len() && kl_recipient_covered(
                        #[trigger] recips.skip(1)[i],
                        psks,
                        sks,
                    );
                assert(recips.skip(1)[i] == recips[i + 1]);
                assert(kl_recipient_covered(recips[i + 1], psks, sks));
            }
            if kl_any_covered(recips, psks, sks) {
                let i = choose|i: int|
                    0 <= i < recips.len() && kl_recipient_covered(
                        #[trigger] recips[i],
                        psks,
                        sks,
                    );
                if i > 0 {
                    assert(recips.skip(1)[i - 1] == recips[i]);
                    assert(kl_recipient_covered(recips.skip(1)[i - 1], psks, sks));
                }
            }
        }
    }
}


/// The bytes one Keyload puts on the wire, as a function of the stored sponge
/// it joins; what was emitted before and the wrap context's own sponge play
/// no part.
pub open spec fn keyload_wire(
    stored: SpState,
    link: Seq<u8>,
    nonce: Seq<u8>,
    key: Seq<u8>,
    recips: Seq<(IdV, Seq<u8>)>,
    brs: Seq<(Seq<u8>, Seq<u8>)>,
    sig_sk: Seq<u8>,
) -> Seq<u8> {
    keyload_wrap_m(
        WrapM { sp: stored, out: Seq::<u8>::empty() },
        stored,
        link,
        nonce,
        key,
        recips,
        brs,
        sig_sk,
    ).out
}

/// Wrapping a Keyload appends its wire bytes to whatever was emitted before.
pub proof fn lemma_keyload_wrap_out(
    m: WrapM,
    stored: SpState,
    link: Seq<u8>,
    nonce: Seq<u8>,
    key: Seq<u8>,
    recips: Seq<(IdV, Seq<u8>)>,
    brs: Seq<(Seq<u8>, Seq<u8>)>,
    sig_sk: Seq<u8>,
)
    ensures
        keyload_wrap_m(m, stored, link, nonce, key, recips, brs, sig_sk).sp == keyload_wrap_m(
            WrapM { sp: stored, out: Seq::<u8>::empty() },
            stored,
            link,
            nonce,
            key,
            recips,
            brs,
            sig_sk,
        ).sp,
        keyload_wrap_m(m, stored, link, nonce, key, recips, brs, sig_sk).out == m.out
            + keyload_wire(stored, link, nonce, key, recips, brs, sig_sk),
{
    let a0 = WrapM { sp: stored, out: Seq::<u8>::empty() };
    let b1 = wm_join(m, stored, link);
    let a1 = wm_join(a0, stored, link);
    assert(b1.out =~= m.out + a1.out);
    let b2 = wm_absorb(b1, nonce);
    let a2 = wm_absorb(a1, nonce);
    assert(b2.out =~= m.out + a2.out);
    let bf1 = wm_absorb_size(b2, recips.len());
    let af1 = wm_absorb_size(a2, recips.len());
    assert(bf1.out =~= m.out + af1.out);
    let bf2 = kl_recipients_m(bf1, recips, key, brs);
    let af2 = kl_recipients_m(af1, recips, key, brs);
    lemma_kl_recipients_out(bf1, recips, key, brs);
    lemma_kl_recipients_out(af1, recips, key, brs);
    assert(bf2.sp == af2.sp);
    assert(bf2.out =~= m.out + af2.out);
    let bf4 = wm_squeeze_ext(wm_commit(bf2), HASH_SIG_SIZE as nat);
    let af4 = wm_squeeze_ext(wm_commit(af2), HASH_SIG_SIZE as nat);
    let bm4 = wm_absorb_ext(WrapM { sp: b2.sp, out: bf4.out }, key);
    let am4 = wm_absorb_ext(WrapM { sp: a2.sp, out: af4.out }, key);
    let bg1 = wm_absorb_ext(bm4, sp_squeeze(wm_commit(bf2).sp, HASH_SIG_SIZE as nat).1);
    let ag1 = wm_absorb_ext(am4, sp_squeeze(wm_commit(af2).sp, HASH_SIG_SIZE as nat).1);
    let bg2 = ed_sign_m(bg1, sig_sk);
    let ag2 = ed_sign_m(ag1, sig_sk);
    assert(bg2.out =~= m.out + ag2.out);
}

/// Round trip of a whole Keyload: parsing what a wrap emitted, against the
/// same stored sponge, sees the nonce and every identifier; with any
/// recipient's material at hand it recovers exactly the session key, checks
/// the author's signature, and ends on the wrap's committed sponge; with none
/// it stops before the signature with no key.
pub proof fn lemma_keyload_round_trip(
    stored: SpState,
    link: Seq<u8>,
    nonce: Seq<u8>,
    key: Seq<u8>,
    recips: Seq<(IdV, Seq<u8>)>,
    brs: Seq<(Seq<u8>, Seq<u8>)>,
    ephs: Seq<Seq<u8>>,
    sig_sk: Seq<u8>,
    m: UnwrapM,
    psks: Seq<(IdV, Seq<u8>)>,
    sks: Seq<(IdV, Seq<u8>)>,
    shs: Seq<Seq<u8>>,
)
    requires
        nonce.len() == NONCE_SIZE,
        key.len() == KEY_SIZE,
        sig_sk.len() == 32,
        forall|i: int|
            0 <= i < recips.len() ==> idv_wf(#[trigger] recips[i].0) && !(recips[i].0 is Did)
                && recips[i].1.len() == 32,
        recips.len() < crate::size::pow256(8),
        kl_branches_of(recips, ephs, brs),
        kl_stores_consistent(recips, psks, sks),
        0 <= m.cur,
        m.cur + keyload_wire(stored, link, nonce, key, recips, brs, sig_sk).len() <= m.inp.len(),
        m.inp.subrange(
            m.cur,
            m.cur + keyload_wire(stored, link, nonce, key, recips, brs, sig_sk).len(),
        ) == keyload_wire(stored, link, nonce, key, recips, brs, sig_sk),
        kl_run_ok(m, stored, link, psks, sks, shs),
    ensures
        keyload_unwrap_m(
            m,
            stored,
            link,
            psks,
            sks,
            crate::crypto_ops::ed25519_pub(sig_sk),
            shs,
        ) == Ok::<(UnwrapM, Seq<u8>, Seq<IdV>, Option<Seq<u8>>), Error>(
            (
                if kl_any_covered(recips, psks, sks) {
                    UnwrapM {
                        sp: keyload_wrap_m(
                            WrapM { sp: stored, out: Seq::<u8>::empty() },
                            stored,
                            link,
                            nonce,
                            key,
                            recips,
                            brs,
                            sig_sk,
                        ).sp,
                        inp: m.inp,
                        cur: m.cur + keyload_wire(
                            stored,
                            link,
                            nonce,
                            key,
                            recips,
                            brs,
                            sig_sk,
                        ).len(),
                    }
                } else {
                    UnwrapM {
                        sp: crate::sponge::sp_absorb(
                            crate::sponge::sp_absorb(stored, link),
                            nonce,
                        ),
                        inp: m.inp,
                        cur: m.cur + keyload_wire(
                            stored,
                            link,
                            nonce,
                            key,
                            recips,
                            brs,
                            sig_sk,
                        ).len() - ED25519_SIG_SIZE,
                    }
                },
                nonce,
                kl_ids(recips),
                if kl_any_covered(recips, psks, sks) {
                    Some(key)
                } else {
                    None::<Seq<u8>>
                },
            ),
        ),
        kl_run_pk(m, stored, link, psks, sks, shs) == kl_expected_pk(recips, sks),
{
    let a0 = WrapM { sp: stored, out: Seq::<u8>::empty() };
    let w = keyload_wire(stored, link, nonce, key, recips, brs, sig_sk);
    let a1 = wm_join(a0, stored, link);
    let a2 = wm_absorb(a1, nonce);
    let sw = crate::size::size_wire(recips.len());
    let af1 = wm_absorb_size(a2, recips.len());
    let af2 = kl_recipients_m(af1, recips, key, brs);
    let af3 = wm_commit(af2);
    let digest = sp_squeeze(af3.sp, HASH_SIG_SIZE as nat).1;
    let am4 = wm_absorb_ext(WrapM { sp: a2.sp, out: wm_squeeze_ext(af3, HASH_SIG_SIZE as nat).out }, key);
    let ag1 = wm_absorb_ext(am4, digest);
    let sig = crate::crypto_ops::ed25519_sig64(
        sig_sk,
        sp_squeeze(ag1.sp, HASH_SIG_SIZE as nat).1,
    );
    crate::size::lemma_size_round_trip(recips.len(), Seq::<u8>::empty());
    crate::size::lemma_be_bytes_len(recips.len(), crate::size::size_num_bytes(recips.len()));
    lemma_kl_recipients_out(af1, recips, key, brs);
    let e1 = WrapM { sp: af1.sp, out: Seq::<u8>::empty() };
    let wr = kl_recipients_m(e1, recips, key, brs).out;
    assert(sig.len() == ED25519_SIG_SIZE);
    assert(w =~= nonce + (sw + (wr + sig)));
    // walk the parse
    let m1 = um_join(m, stored, link);
    assert(m1.sp == a1.sp);
    crate::unwrapctx::lemma_plain_segments(m1, nonce, sw + (wr + sig));
    crate::unwrapctx::lemma_absorb_step(m1, nonce);
    let m2 = UnwrapM { sp: a2.sp, inp: m.inp, cur: m.cur + NONCE_SIZE };
    assert(um_absorb(m1, NONCE_SIZE as nat) == Ok::<(UnwrapM, Seq<u8>), Error>((m2, nonce)));
    crate::unwrapctx::lemma_plain_segments(m2, sw, wr + sig);
    crate::unwrapctx::lemma_absorb_size_step(m2, recips.len());
    let mf = UnwrapM { sp: af1.sp, inp: m.inp, cur: m2.cur + sw.len() };
    assert(um_absorb_size(m2) == Ok::<(UnwrapM, nat), Error>((mf, recips.len())));
    assert(shs.len() == recips.len());
    assert(kl_shs_ok(mf, psks, sks, recips.len(), shs));
    crate::unwrapctx::lemma_plain_segments(mf, wr, sig);
    lemma_kl_recipients_round_trip(
        WrapM { sp: af1.sp, out: a0.out },
        recips,
        key,
        brs,
        ephs,
        mf,
        psks,
        sks,
        shs,
    );
    let m_end = UnwrapM { sp: af2.sp, inp: m.inp, cur: mf.cur + wr.len() };
    assert(kl_unwrap_recipients(mf, psks, sks, recips.len(), shs) == Ok::<
        (UnwrapM, Seq<IdV>, Option<Seq<u8>>),
        Error,
    >(
        (
            m_end,
            kl_ids(recips),
            if kl_any_covered(recips, psks, sks) {
                Some(key)
            } else {
                None::<Seq<u8>>
            },
        ),
    )) by {
        assert(kl_recipients_m(e1, recips, key, brs).sp == af2.sp);
    }
    assert(kl_run_pk(m, stored, link, psks, sks, shs) == kl_unwrap_pk(
        mf,
        psks,
        sks,
        recips.len(),
        shs,
    ));
    let f3u = um_commit(m_end);
    assert(f3u.sp == af3.sp);
    let m3 = UnwrapM { sp: m2.sp, inp: m.inp, cur: m_end.cur };
    if kl_any_covered(recips, psks, sks) {
        let m4 = um_absorb_ext(m3, key);
        assert(m4.sp == am4.sp);
        let g1 = um_absorb_ext(m4, sp_squeeze(f3u.sp, HASH_SIG_SIZE as nat).1);
        assert(g1.sp == ag1.sp);
        assert(m.inp.subrange(g1.cur, g1.cur + ED25519_SIG_SIZE as int) == sig);
        crate::identity::lemma_ed_verify_of_sign(g1, sig_sk);
        assert(m_end.cur + ED25519_SIG_SIZE == m.cur + w.len());
    } else {
        assert(m3.sp == crate::sponge::sp_absorb(crate::sponge::sp_absorb(stored, link), nonce));
        assert(m_end.cur == m.cur + w.len() - ED25519_SIG_SIZE);
    }
}

/// The recipient list emits exactly its byte budget.
pub proof fn lemma_kl_recipients_wire_len(
    s: SpState,
    recips: Seq<(IdV, Seq<u8>)>,
    key: Seq<u8>,
    brs: Seq<(Seq<u8>, Seq<u8>)>,
    ephs: Seq<Seq<u8>>,
)
    requires
        key.len() == KEY_SIZE,
        kl_branches_of(recips, ephs, brs),
        forall|i: int|
            0 <= i < recips.len() ==> idv_wf(#[trigger] recips[i].0) && !(recips[i].0 is Did),
    ensures
        kl_recipients_m(
            WrapM { sp: s, out: Seq::<u8>::empty() },
            recips,
            key,
            brs,
        ).out.len() == kl_recips_sizeof(recips),
    decreases recips.len(),
{
    let e0 = WrapM { sp: s, out: Seq::<u8>::empty() };
    if recips.len() == 0 {
    } else {
        let rec = recips[0];
        let br = brs[0];
        let a1 = kl_recipient_m(e0, rec.0, rec.1, key, br);
        assert(a1.out.len() == id_sizeof(rec.0) + kl_branch_size(rec.0)) by {
            crate::sponge::lemma_sp_encrypt_len(s, id_wire(rec.0));
            crate::identifier::lemma_id_wire_len(rec.0);
            let s1 = crate::sponge::sp_encrypt(s, id_wire(rec.0)).0;
            match rec.0 {
                IdV::Psk(p) => {
                    crate::sponge::lemma_sp_encrypt_len(
                        crate::sponge::sp_commit(crate::sponge::sp_absorb(s1, rec.1)),
                        key,
                    );
                },
                IdV::Ed(p) => {
                    crate::sponge::lemma_sp_encrypt_len(
                        crate::sponge::sp_commit(
                            crate::sponge::sp_absorb(crate::sponge::sp_absorb(s1, br.0), br.1),
                        ),
                        key,
                    );
                },
                IdV::Did(p) => {},
            }
        }
        assert(kl_branches_of(recips.skip(1), ephs.skip(1), brs.skip(1))) by {
            assert forall|i: int|
                0 <= i < recips.skip(1).len() && recips.skip(1)[i].0 is Ed implies (
            #[trigger] brs.skip(1)[i]).0 == x25519_pub(ephs.skip(1)[i]) && brs.skip(1)[i].0.len()
                == 32 && brs.skip(1)[i].1.len() == 32 && (forall|other: Seq<u8>|
                recips.skip(1)[i].1 == x25519_pub(other) ==> brs.skip(1)[i].1 == x25519_shared(
                    ephs.skip(1)[i],
                    other,
                )) by {
                assert(recips.skip(1)[i] == recips[i + 1]);
                assert(brs.skip(1)[i] == brs[i + 1]);
                assert(ephs.skip(1)[i] == ephs[i + 1]);
                assert((brs[i + 1]).0 == x25519_pub(ephs[i + 1]) && brs[i + 1].0.len() == 32
                    && brs[i + 1].1.len() == 32 && (forall|other: Seq<u8>|
                    recips[i + 1].1 == x25519_pub(other) ==> brs[i + 1].1 == x25519_shared(
                        ephs[i + 1],
                        other,
                    )));
            }
        }
        assert forall|i: int|
            0 <= i < recips.skip(1).len() implies idv_wf(#[trigger] recips.skip(1)[i].0) && !(
        recips.skip(1)[i].0 is Did) by {
            assert(recips.skip(1)[i] == recips[i + 1]);
            assert(idv_wf(recips[i + 1].0));
        }
        lemma_kl_recipients_wire_len(a1.sp, recips.skip(1), key, brs.skip(1), ephs.skip(1));
        lemma_kl_recipients_out(a1, recips.skip(1), key, brs.skip(1));
    }
}

/// Sizeof exactness for the Keyload: the counter's budget equals the number
/// of bytes the wrap emits.
pub proof fn lemma_keyload_sizeof_exact(
    stored: SpState,
    link: Seq<u8>,
    nonce: Seq<u8>,
    key: Seq<u8>,
    recips: Seq<(IdV, Seq<u8>)>,
    brs: Seq<(Seq<u8>, Seq<u8>)>,
    ephs: Seq<Seq<u8>>,
    sig_sk: Seq<u8>,
)
    requires
        nonce.len() == NONCE_SIZE,
        key.len() == KEY_SIZE,
        kl_branches_of(recips, ephs, brs),
        forall|i: int|
            0 <= i < recips.len() ==> idv_wf(#[trigger] recips[i].0) && !(recips[i].0 is Did),
    ensures
        keyload_wire(stored, link, nonce, key, recips, brs, sig_sk).len() == keyload_sizeof(
            recips,
        ),
{
    let a0 = WrapM { sp: stored, out: Seq::<u8>::empty() };
    let a1 = wm_join(a0, stored, link);
    let a2 = wm_absorb(a1, nonce);
    let af1 = wm_absorb_size(a2, recips.len());
    let af2 = kl_recipients_m(af1, recips, key, brs);
    let af3 = wm_commit(af2);
    let digest = sp_squeeze(af3.sp, HASH_SIG_SIZE as nat).1;
    let am4 = wm_absorb_ext(
        WrapM { sp: a2.sp, out: wm_squeeze_ext(af3, HASH_SIG_SIZE as nat).out },
        key,
    );
    let ag1 = wm_absorb_ext(am4, digest);
    crate::size::lemma_be_bytes_len(recips.len(), crate::size::size_num_bytes(recips.len()));
    lemma_kl_recipients_out(af1, recips, key, brs);
    lemma_kl_recipients_wire_len(af1.sp, recips, key, brs, ephs);
    assert(crate::crypto_ops::ed25519_sig64(
        sig_sk,
        sp_squeeze(ag1.sp, HASH_SIG_SIZE as nat).1,
    ).len() == 64);
}

} // verus!
