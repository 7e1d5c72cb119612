//! The unwrap context: one pass that parses a message while feeding the
//! sponge, decrypting masked fields and checking squeezed tags.

use vstd::prelude::*;
use crate::error::Error;
use crate::size::{size_decode, size_decode_val, size_parse};
use crate::sponge::{
    sp_absorb, sp_commit, sp_decrypt, sp_encrypt, sp_init, sp_squeeze, sp_wf, SpState, Spongos,
};

verus! {

/// Model of an unwrap context: the sponge, the whole input, and the cursor.
pub ghost struct UnwrapM {
    pub sp: SpState,
    pub inp: Seq<u8>,
    pub cur: int,
}

pub open spec fn um_wf(m: UnwrapM) -> bool {
    sp_wf(m.sp) && 0 <= m.cur <= m.inp.len()
}

/// The input bytes not yet consumed.
pub open spec fn um_remaining(m: UnwrapM) -> Seq<u8> {
    m.inp.subrange(m.cur, m.inp.len() as int)
}

/// Consume `n` bytes from the stream.
pub open spec fn um_take(m: UnwrapM, n: nat) -> Result<(UnwrapM, Seq<u8>), Error> {
    if m.cur + n <= m.inp.len() {
        Ok(
            (
                UnwrapM { sp: m.sp, inp: m.inp, cur: m.cur + n },
                m.inp.subrange(m.cur, m.cur + n),
            ),
        )
    } else {
        Err(Error::StreamExhausted)
    }
}

/// `absorb`: read `n` plain bytes and mix them into the sponge.
pub open spec fn um_absorb(m: UnwrapM, n: nat) -> Result<(UnwrapM, Seq<u8>), Error> {
    match um_take(m, n) {
        Ok(t) => Ok((UnwrapM { sp: sp_absorb(t.0.sp, t.1), ..t.0 }, t.1)),
        Err(e) => Err(e),
    }
}

/// `mask`: read `n` cipher bytes and decrypt them against the sponge.
pub open spec fn um_mask(m: UnwrapM, n: nat) -> Result<(UnwrapM, Seq<u8>), Error> {
    match um_take(m, n) {
        Ok(t) => Ok(
            (
                UnwrapM { sp: sp_decrypt(t.0.sp, t.1).0, ..t.0 },
                sp_decrypt(t.0.sp, t.1).1,
            ),
        ),
        Err(e) => Err(e),
    }
}

/// `skip`: read `n` plain bytes without touching the sponge.
pub open spec fn um_skip(m: UnwrapM, n: nat) -> Result<(UnwrapM, Seq<u8>), Error> {
    um_take(m, n)
}

/// `absorb(external)`: mix caller-known bytes into the sponge; no read.
pub open spec fn um_absorb_ext(m: UnwrapM, x: Seq<u8>) -> UnwrapM {
    UnwrapM { sp: sp_absorb(m.sp, x), ..m }
}

pub open spec fn um_commit(m: UnwrapM) -> UnwrapM {
    UnwrapM { sp: sp_commit(m.sp), ..m }
}

/// `squeeze(external)`: derive `n` bytes for the caller; no read.
pub open spec fn um_squeeze_ext(m: UnwrapM, n: nat) -> (UnwrapM, Seq<u8>) {
    (UnwrapM { sp: sp_squeeze(m.sp, n).0, ..m }, sp_squeeze(m.sp, n).1)
}

/// `squeeze` of a wire tag: read `n` bytes and compare them with the
/// `n` bytes the sponge derives.
pub open spec fn um_squeeze_check(m: UnwrapM, n: nat) -> Result<UnwrapM, Error> {
    match um_take(m, n) {
        Ok(t) => if t.1 == sp_squeeze(m.sp, n).1 {
            Ok(UnwrapM { sp: sp_squeeze(m.sp, n).0, ..t.0 })
        } else {
            Err(Error::MacMismatch)
        },
        Err(e) => Err(e),
    }
}

/// `absorb(Size)`: parse the varint and absorb its wire bytes.
pub open spec fn um_absorb_size(m: UnwrapM) -> Result<(UnwrapM, nat), Error> {
    match size_parse(um_remaining(m)) {
        Ok(v) => Ok(
            (
                UnwrapM {
                    sp: sp_absorb(m.sp, um_remaining(m).take(v.1 as int)),
                    inp: m.inp,
                    cur: m.cur + v.1,
                },
                v.0,
            ),
        ),
        Err(e) => Err(e),
    }
}

/// `mask(Size)`: decrypt the count byte, then that many value bytes.
pub open spec fn um_mask_size(m: UnwrapM) -> Result<(UnwrapM, nat), Error> {
    match um_mask(m, 1) {
        Err(e) => Err(e),
        Ok(t1) => {
            let k = t1.1[0] as nat;
            if k > 8 {
                Err(Error::GuardFailed)
            } else {
                match um_mask(t1.0, k) {
                    Err(e) => Err(e),
                    Ok(t2) => Ok((t2.0, size_decode_val(t2.1))),
                }
            }
        },
    }
}

/// `skip(Size)`: parse the varint without touching the sponge.
pub open spec fn um_skip_size(m: UnwrapM) -> Result<(UnwrapM, nat), Error> {
    match size_parse(um_remaining(m)) {
        Ok(v) => Ok((UnwrapM { sp: m.sp, inp: m.inp, cur: m.cur + v.1 }, v.0)),
        Err(e) => Err(e),
    }
}

/// `join`: resume from a stored sponge and bind the link; no read.
pub open spec fn um_join(m: UnwrapM, stored: SpState, link: Seq<u8>) -> UnwrapM {
    UnwrapM { sp: sp_absorb(stored, link), ..m }
}

/// Reading plain bytes that stand at the cursor absorbs exactly them.
pub proof fn lemma_absorb_step(m: UnwrapM, x: Seq<u8>)
    requires
        0 <= m.cur,
        m.cur + x.len() <= m.inp.len(),
        m.inp.subrange(m.cur, m.cur + x.len()) == x,
    ensures
        um_absorb(m, x.len()) == Ok::<(UnwrapM, Seq<u8>), Error>(
            (UnwrapM { sp: sp_absorb(m.sp, x), inp: m.inp, cur: m.cur + x.len() }, x),
        ),
{
}

/// Skipping bytes that stand at the cursor yields exactly them.
pub proof fn lemma_skip_step(m: UnwrapM, x: Seq<u8>)
    requires
        0 <= m.cur,
        m.cur + x.len() <= m.inp.len(),
        m.inp.subrange(m.cur, m.cur + x.len()) == x,
    ensures
        um_skip(m, x.len()) == Ok::<(UnwrapM, Seq<u8>), Error>(
            (UnwrapM { sp: m.sp, inp: m.inp, cur: m.cur + x.len() }, x),
        ),
{
}

/// Decrypting a ciphertext that was encrypted from the same sponge state
/// yields the plaintext and the encrypting sponge.
pub proof fn lemma_mask_step(m: UnwrapM, p: Seq<u8>)
    requires
        0 <= m.cur,
        m.cur + p.len() <= m.inp.len(),
        m.inp.subrange(m.cur, m.cur + p.len()) == sp_encrypt(m.sp, p).1,
    ensures
        um_mask(m, p.len()) == Ok::<(UnwrapM, Seq<u8>), Error>(
            (
                UnwrapM {
                    sp: crate::sponge::sp_encrypt(m.sp, p).0,
                    inp: m.inp,
                    cur: m.cur + p.len(),
                },
                p,
            ),
        ),
{
    crate::sponge::lemma_sp_encrypt_len(m.sp, p);
    crate::sponge::lemma_sp_mask_duality(m.sp, p);
}

/// A squeezed tag read back from the same sponge state matches.
pub proof fn lemma_squeeze_check_step(m: UnwrapM, n: nat)
    requires
        0 <= m.cur,
        m.cur + n <= m.inp.len(),
        m.inp.subrange(m.cur, m.cur + n) == sp_squeeze(m.sp, n).1,
    ensures
        um_squeeze_check(m, n) == Ok::<UnwrapM, Error>(
            UnwrapM { sp: sp_squeeze(m.sp, n).0, inp: m.inp, cur: m.cur + n },
        ),
{
    crate::sponge::lemma_sp_squeeze_raw_len(sp_commit(m.sp), n);
}

/// An absorbed `Size` field at the cursor parses to its value.
pub proof fn lemma_absorb_size_step(m: UnwrapM, n: nat)
    requires
        0 <= m.cur,
        n < crate::size::pow256(8),
        m.cur + crate::size::size_wire(n).len() <= m.inp.len(),
        m.inp.subrange(m.cur, m.cur + crate::size::size_wire(n).len()) == crate::size::size_wire(
            n,
        ),
    ensures
        um_absorb_size(m) == Ok::<(UnwrapM, nat), Error>(
            (
                UnwrapM {
                    sp: sp_absorb(m.sp, crate::size::size_wire(n)),
                    inp: m.inp,
                    cur: m.cur + crate::size::size_wire(n).len(),
                },
                n,
            ),
        ),
{
    let w = crate::size::size_wire(n);
    let rest = m.inp.subrange(m.cur + w.len(), m.inp.len() as int);
    assert(um_remaining(m) =~= w + rest);
    crate::size::lemma_size_round_trip(n, rest);
    assert(um_remaining(m).take(w.len() as int) =~= w);
}

/// A skipped `Size` field at the cursor parses to its value.
pub proof fn lemma_skip_size_step(m: UnwrapM, n: nat)
    requires
        0 <= m.cur,
        n < crate::size::pow256(8),
        m.cur + crate::size::size_wire(n).len() <= m.inp.len(),
        m.inp.subrange(m.cur, m.cur + crate::size::size_wire(n).len()) == crate::size::size_wire(
            n,
        ),
    ensures
        um_skip_size(m) == Ok::<(UnwrapM, nat), Error>(
            (
                UnwrapM {
                    sp: m.sp,
                    inp: m.inp,
                    cur: m.cur + crate::size::size_wire(n).len(),
                },
                n,
            ),
        ),
{
    let w = crate::size::size_wire(n);
    let rest = m.inp.subrange(m.cur + w.len(), m.inp.len() as int);
    assert(um_remaining(m) =~= w + rest);
    crate::size::lemma_size_round_trip(n, rest);
}

/// A masked `Size` field whose ciphertext was encrypted from the same sponge
/// state parses to its value.
pub proof fn lemma_mask_size_step(m: UnwrapM, n: nat)
    requires
        0 <= m.cur,
        n < crate::size::pow256(8),
        m.cur + crate::size::size_wire(n).len() <= m.inp.len(),
        m.inp.subrange(m.cur, m.cur + crate::size::size_wire(n).len()) == crate::sponge::sp_encrypt(
            m.sp,
            crate::size::size_wire(n),
        ).1,
    ensures
        um_mask_size(m) == Ok::<(UnwrapM, nat), Error>(
            (
                UnwrapM {
                    sp: crate::sponge::sp_encrypt(m.sp, crate::size::size_wire(n)).0,
                    inp: m.inp,
                    cur: m.cur + crate::size::size_wire(n).len(),
                },
                n,
            ),
        ),
{
    let w = crate::size::size_wire(n);
    let k = crate::size::size_num_bytes(n);
    crate::size::lemma_pow256_8();
    crate::size::lemma_num_bytes_le(n, 8);
    crate::size::lemma_be_bytes_len(n, k);
    let head = seq![k as u8];
    let tail = crate::size::size_be_bytes(n, k);
    assert(w == head + tail);
    crate::sponge::lemma_sp_encrypt_append(m.sp, head, tail);
    crate::sponge::lemma_sp_encrypt_len(m.sp, head);
    crate::sponge::lemma_sp_encrypt_len(m.sp, w);
    let c_head = sp_encrypt(m.sp, head).1;
    let s1 = sp_encrypt(m.sp, head).0;
    let c_tail = sp_encrypt(s1, tail).1;
    assert(m.inp.subrange(m.cur, m.cur + 1) =~= c_head);
    lemma_mask_step(m, head);
    let m1 = UnwrapM { sp: s1, inp: m.inp, cur: m.cur + 1 };
    crate::sponge::lemma_sp_encrypt_len(s1, tail);
    assert(sp_encrypt(m.sp, w).1 == c_head + c_tail);
    assert(c_head.len() == 1);
    assert(c_tail.len() == k);
    assert(w.len() == 1 + k);
    assert forall|i: int| 0 <= i < k implies m.inp[m1.cur + i] == c_tail[i] by {
        assert(m.inp.subrange(m.cur, m.cur + w.len())[1 + i] == m.inp[m.cur + 1 + i]);
        assert((c_head + c_tail)[1 + i] == c_tail[i]);
    }
    assert(m.inp.subrange(m1.cur, m1.cur + k as int) =~= c_tail);
    lemma_mask_step(m1, tail);
    crate::size::lemma_num_bytes_bound(n);
    crate::size::lemma_be_decode(n, k);
}

/// What one `x25519` unwrap step guarantees when it succeeds: the ephemeral
/// public key was read, some 32-byte shared secret was absorbed, and whenever
/// that public key is the image of a secret scalar, the shared secret is the
/// key agreement of that scalar with the receiver's.
pub open spec fn x25519_unwrap_ok(m0: UnwrapM, m1: UnwrapM, rsk: Seq<u8>, key: Seq<u8>) -> bool {
    match um_absorb(m0, 32) {
        Err(e) => false,
        Ok(t1) => exists|sh: Seq<u8>|
            #![auto]
            sh.len() == 32 && um_mask(um_commit(um_absorb_ext(t1.0, sh)), 32) == Ok::<
                (UnwrapM, Seq<u8>),
                Error,
            >((m1, key)) && (forall|other: Seq<u8>|
                t1.1 == crate::crypto_ops::x25519_pub(other)
                    ==> sh == crate::crypto_ops::x25519_shared(rsk, other)),
    }
}

/// Which error one `x25519` unwrap step may leave: the read of the ephemeral
/// key or the read of the masked payload ran out of input.
pub open spec fn x25519_unwrap_err(m0: UnwrapM, e: Error) -> bool {
    match um_absorb(m0, 32) {
        Err(e2) => e == e2,
        Ok(t1) => um_take(t1.0, 32) == Err::<(UnwrapM, Seq<u8>), Error>(e),
    }
}

/// Splitting one masked write into two segments: where the ciphertext of a
/// concatenation stands at the cursor, each part's ciphertext stands at its
/// own offset.
pub proof fn lemma_mask_segments(m: UnwrapM, x: Seq<u8>, y: Seq<u8>)
    requires
        0 <= m.cur,
        m.cur + x.len() + y.len() <= m.inp.len(),
        m.inp.subrange(m.cur, m.cur + x.len() + y.len()) == sp_encrypt(m.sp, x + y).1,
    ensures
        m.inp.subrange(m.cur, m.cur + x.len()) == sp_encrypt(m.sp, x).1,
        m.inp.subrange(m.cur + x.len(), m.cur + x.len() + y.len()) == sp_encrypt(
            sp_encrypt(m.sp, x).0,
            y,
        ).1,
{
    crate::sponge::lemma_sp_encrypt_append(m.sp, x, y);
    crate::sponge::lemma_sp_encrypt_len(m.sp, x);
    crate::sponge::lemma_sp_encrypt_len(sp_encrypt(m.sp, x).0, y);
    let cx = sp_encrypt(m.sp, x).1;
    let cy = sp_encrypt(sp_encrypt(m.sp, x).0, y).1;
    assert(sp_encrypt(m.sp, x + y).1 == cx + cy);
    assert forall|i: int| 0 <= i < x.len() implies m.inp[m.cur + i] == cx[i] by {
        assert(m.inp.subrange(m.cur, m.cur + x.len() + y.len())[i] == m.inp[m.cur + i]);
        assert((cx + cy)[i] == cx[i]);
    }
    assert(m.inp.subrange(m.cur, m.cur + x.len()) =~= cx);
    assert forall|i: int| 0 <= i < y.len() implies m.inp[m.cur + x.len() + i] == cy[i] by {
        assert(m.inp.subrange(m.cur, m.cur + x.len() + y.len())[x.len() + i] == m.inp[m.cur
            + x.len() + i]);
        assert((cx + cy)[x.len() + i] == cy[i]);
    }
    assert(m.inp.subrange(m.cur + x.len(), m.cur + x.len() + y.len()) =~= cy);
}

/// Splitting plain bytes at the cursor into two segments.
pub proof fn lemma_plain_segments(m: UnwrapM, x: Seq<u8>, y: Seq<u8>)
    requires
        0 <= m.cur,
        m.cur + x.len() + y.len() <= m.inp.len(),
        m.inp.subrange(m.cur, m.cur + x.len() + y.len()) == x + y,
    ensures
        m.inp.subrange(m.cur, m.cur + x.len()) == x,
        m.inp.subrange(m.cur + x.len(), m.cur + x.len() + y.len()) == y,
{
    assert forall|i: int| 0 <= i < x.len() implies m.inp[m.cur + i] == x[i] by {
        assert(m.inp.subrange(m.cur, m.cur + x.len() + y.len())[i] == m.inp[m.cur + i]);
        assert((x + y)[i] == x[i]);
    }
    assert(m.inp.subrange(m.cur, m.cur + x.len()) =~= x);
    assert forall|i: int| 0 <= i < y.len() implies m.inp[m.cur + x.len() + i] == y[i] by {
        assert(m.inp.subrange(m.cur, m.cur + x.len() + y.len())[x.len() + i] == m.inp[m.cur
            + x.len() + i]);
        assert((x + y)[x.len() + i] == y[i]);
    }
    assert(m.inp.subrange(m.cur + x.len(), m.cur + x.len() + y.len()) =~= y);
}

/// An unwrap context: a sponge in lockstep with an input stream.
pub struct UnwrapCtx {
    spongos: Spongos,
    inp: Vec<u8>,
    cur: usize,
}

impl View for UnwrapCtx {
    type V = UnwrapM;

    closed spec fn view(&self) -> UnwrapM {
        UnwrapM { sp: self.spongos@, inp: self.inp@, cur: self.cur as int }
    }
}

impl UnwrapCtx {
    pub open spec fn wf(&self) -> bool {
        um_wf(self@)
    }

    /// A fresh context over the given input bytes.
    pub fn new(inp: Vec<u8>) -> (r: UnwrapCtx)
        ensures
            r.wf(),
            r@ == (UnwrapM { sp: sp_init(), inp: inp@, cur: 0 }),
    {
        UnwrapCtx { spongos: Spongos::init(), inp, cur: 0 }
    }

    /// Resume from the sponge stored for a prior message and bind the link.
    pub fn join(&mut self, stored: &Spongos, link: &[u8])
        requires
            old(self).wf(),
            stored.wf(),
        ensures
            final(self).wf(),
            final(self)@ == um_join(old(self)@, stored@, link@),
    {
        self.spongos = stored.fork();
        self.spongos.absorb(link);
    }

    /// The bytes still to be read.
    fn take_n(&mut self, n: usize) -> (r: Result<Vec<u8>, Error>)
        requires
            old(self).wf(),
        ensures
            final(self).wf(),
            final(self)@.inp == old(self)@.inp,
            final(self)@.sp == old(self)@.sp,
            match r {
                Ok(v) => um_take(old(self)@, n as nat) == Ok::<(UnwrapM, Seq<u8>), Error>(
                    (final(self)@, v@),
                ),
                Err(e) => um_take(old(self)@, n as nat) == Err::<(UnwrapM, Seq<u8>), Error>(e)
                    && final(self)@ == old(self)@,
            },
    {
        if n > self.inp.len() - self.cur {
            return Err(Error::StreamExhausted);
        }
        let field = vstd::slice::slice_subrange(self.inp.as_slice(), self.cur, self.cur + n);
        let v = vstd::slice::slice_to_vec(field);
        self.cur = self.cur + n;
        Ok(v)
    }

    pub fn absorb_n(&mut self, n: usize) -> (r: Result<Vec<u8>, Error>)
        requires
            old(self).wf(),
        ensures
            final(self).wf(),
            final(self)@.inp == old(self)@.inp,
            match r {
                Ok(v) => um_absorb(old(self)@, n as nat) == Ok::<(UnwrapM, Seq<u8>), Error>(
                    (final(self)@, v@),
                ),
                Err(e) => um_absorb(old(self)@, n as nat) == Err::<(UnwrapM, Seq<u8>), Error>(e)
                    && final(self)@ == old(self)@,
            },
    {
        match self.take_n(n) {
            Ok(v) => {
                self.spongos.absorb(v.as_slice());
                Ok(v)
            },
            Err(e) => Err(e),
        }
    }

    pub fn absorb_u8(&mut self) -> (r: Result<u8, Error>)
        requires
            old(self).wf(),
        ensures
            final(self).wf(),
            final(self)@.inp == old(self)@.inp,
            match r {
                Ok(b) => um_absorb(old(self)@, 1) == Ok::<(UnwrapM, Seq<u8>), Error>(
                    (final(self)@, seq![b]),
                ),
                Err(e) => um_absorb(old(self)@, 1) == Err::<(UnwrapM, Seq<u8>), Error>(e)
                    && final(self)@ == old(self)@,
            },
    {
        match self.absorb_n(1) {
            Ok(v) => {
                let b = v[0];
                proof {
                    assert(v@ =~= seq![b]);
                }
                Ok(b)
            },
            Err(e) => Err(e),
        }
    }

    pub fn mask_n(&mut self, n: usize) -> (r: Result<Vec<u8>, Error>)
        requires
            old(self).wf(),
        ensures
            final(self).wf(),
            final(self)@.inp == old(self)@.inp,
            match r {
                Ok(v) => um_mask(old(self)@, n as nat) == Ok::<(UnwrapM, Seq<u8>), Error>(
                    (final(self)@, v@),
                ),
                Err(e) => um_mask(old(self)@, n as nat) == Err::<(UnwrapM, Seq<u8>), Error>(e)
                    && final(self)@ == old(self)@,
            },
    {
        match self.take_n(n) {
            Ok(v) => Ok(self.spongos.decrypt(v.as_slice())),
            Err(e) => Err(e),
        }
    }

    pub fn mask_u8(&mut self) -> (r: Result<u8, Error>)
        requires
            old(self).wf(),
        ensures
            final(self).wf(),
            final(self)@.inp == old(self)@.inp,
            match r {
                Ok(b) => um_mask(old(self)@, 1) == Ok::<(UnwrapM, Seq<u8>), Error>(
                    (final(self)@, seq![b]),
                ),
                Err(e) => um_mask(old(self)@, 1) == Err::<(UnwrapM, Seq<u8>), Error>(e)
                    && final(self)@ == old(self)@,
            },
    {
        let ghost m0 = self@;
        match self.mask_n(1) {
            Ok(v) => {
                proof {
                    crate::sponge::lemma_sp_decrypt_len(m0.sp, m0.inp.subrange(m0.cur, m0.cur + 1));
                }
                let b = v[0];
                proof {
                    assert(v@ =~= seq![b]);
                }
                Ok(b)
            },
            Err(e) => Err(e),
        }
    }

    pub fn skip_n(&mut self, n: usize) -> (r: Result<Vec<u8>, Error>)
        requires
            old(self).wf(),
        ensures
            final(self).wf(),
            final(self)@.inp == old(self)@.inp,
            final(self)@.sp == old(self)@.sp,
            match r {
                Ok(v) => um_skip(old(self)@, n as nat) == Ok::<(UnwrapM, Seq<u8>), Error>(
                    (final(self)@, v@),
                ),
                Err(e) => um_skip(old(self)@, n as nat) == Err::<(UnwrapM, Seq<u8>), Error>(e)
                    && final(self)@ == old(self)@,
            },
    {
        self.take_n(n)
    }

    pub fn absorb_ext(&mut self, x: &[u8])
        requires
            old(self).wf(),
        ensures
            final(self).wf(),
            final(self)@ == um_absorb_ext(old(self)@, x@),
    {
        self.spongos.absorb(x);
    }

    pub fn absorb_ext_u8(&mut self, b: u8)
        requires
            old(self).wf(),
        ensures
            final(self).wf(),
            final(self)@ == um_absorb_ext(old(self)@, seq![b]),
    {
        let one = [b];
        proof {
            assert(one@ =~= seq![b]);
        }
        self.absorb_ext(one.as_slice());
    }

    pub fn commit(&mut self)
        requires
            old(self).wf(),
        ensures
            final(self).wf(),
            final(self)@ == um_commit(old(self)@),
    {
        self.spongos.commit();
    }

    /// Squeeze `n` bytes for the caller, off the wire.
    pub fn squeeze_ext(&mut self, n: usize) -> (r: Vec<u8>)
        requires
            old(self).wf(),
        ensures
            final(self).wf(),
            final(self)@ == um_squeeze_ext(old(self)@, n as nat).0,
            r@ == um_squeeze_ext(old(self)@, n as nat).1,
    {
        self.spongos.squeeze(n)
    }

    /// Read an `n`-byte tag and hold it against the squeezed one.
    pub fn squeeze_check(&mut self, n: usize) -> (r: Result<(), Error>)
        requires
            old(self).wf(),
        ensures
            final(self).wf(),
            final(self)@.inp == old(self)@.inp,
            match r {
                Ok(u) => um_squeeze_check(old(self)@, n as nat) == Ok::<UnwrapM, Error>(
                    final(self)@,
                ),
                Err(e) => um_squeeze_check(old(self)@, n as nat) == Err::<UnwrapM, Error>(e),
            },
    {
        let ghost m0 = self@;
        let wire = match self.take_n(n) {
            Ok(v) => v,
            Err(e) => {
                return Err(e);
            },
        };
        let tag = self.spongos.squeeze(n);
        if crate::bytes::bytes_eq(wire.as_slice(), tag.as_slice()) {
            Ok(())
        } else {
            Err(Error::MacMismatch)
        }
    }

    /// Parse and absorb a `Size` field; the value fits in eight bytes by the
    /// form of the encoding.
    pub fn absorb_size(&mut self) -> (r: Result<u64, Error>)
        requires
            old(self).wf(),
        ensures
            final(self).wf(),
            final(self)@.inp == old(self)@.inp,
            match r {
                Ok(v) => um_absorb_size(old(self)@) == Ok::<(UnwrapM, nat), Error>(
                    (final(self)@, v as nat),
                ),
                Err(e) => um_absorb_size(old(self)@) == Err::<(UnwrapM, nat), Error>(e)
                    && final(self)@ == old(self)@,
            },
    {
        let ghost m0 = self@;
        let rem = vstd::slice::slice_subrange(self.inp.as_slice(), self.cur, self.inp.len());
        let (v, used) = match size_decode(rem) {
            Ok(p) => p,
            Err(e) => {
                return Err(e);
            },
        };
        match self.absorb_n(used) {
            Ok(got) => {
                proof {
                    assert(um_remaining(m0).take(used as int) =~= m0.inp.subrange(
                        m0.cur,
                        m0.cur + used as int,
                    ));
                }
                Ok(v)
            },
            Err(e) => {
                proof {
                    assert(false);
                }
                Err(e)
            },
        }
    }

    /// Decrypt and parse a masked `Size` field.
    pub fn mask_size(&mut self) -> (r: Result<u64, Error>)
        requires
            old(self).wf(),
        ensures
            final(self).wf(),
            final(self)@.inp == old(self)@.inp,
            match r {
                Ok(v) => um_mask_size(old(self)@) == Ok::<(UnwrapM, nat), Error>(
                    (final(self)@, v as nat),
                ),
                Err(e) => um_mask_size(old(self)@) == Err::<(UnwrapM, nat), Error>(e),
            },
    {
        let k = match self.mask_u8() {
            Ok(b) => b,
            Err(e) => {
                return Err(e);
            },
        };
        if k > 8 {
            return Err(Error::GuardFailed);
        }
        let ghost m1 = self@;
        match self.mask_n(k as usize) {
            Ok(v) => {
                proof {
                    crate::sponge::lemma_sp_decrypt_len(
                        m1.sp,
                        m1.inp.subrange(m1.cur, m1.cur + k as int),
                    );
                }
                let val = crate::size::size_be_decode(v.as_slice());
                Ok(val)
            },
            Err(e) => Err(e),
        }
    }

    /// Parse a `Size` field without touching the sponge.
    pub fn skip_size(&mut self) -> (r: Result<u64, Error>)
        requires
            old(self).wf(),
        ensures
            final(self).wf(),
            final(self)@.inp == old(self)@.inp,
            final(self)@.sp == old(self)@.sp,
            match r {
                Ok(v) => um_skip_size(old(self)@) == Ok::<(UnwrapM, nat), Error>(
                    (final(self)@, v as nat),
                ),
                Err(e) => um_skip_size(old(self)@) == Err::<(UnwrapM, nat), Error>(e)
                    && final(self)@ == old(self)@,
            },
    {
        let rem = vstd::slice::slice_subrange(self.inp.as_slice(), self.cur, self.inp.len());
        let (v, used) = match size_decode(rem) {
            Ok(p) => p,
            Err(e) => {
                return Err(e);
            },
        };
        match self.skip_n(used) {
            Ok(got) => Ok(v),
            Err(e) => {
                proof {
                    assert(false);
                }
                Err(e)
            },
        }
    }

    /// The `x25519` operator: read the ephemeral public key, derive the
    /// shared secret with the receiver's secret scalar, and unmask the key.
    pub fn x25519(&mut self, rsk: &[u8]) -> (r: Result<Vec<u8>, Error>)
        requires
            old(self).wf(),
            rsk@.len() == 32,
        ensures
            final(self).wf(),
            final(self)@.inp == old(self)@.inp,
            match r {
                Ok(key) => key@.len() == 32 && x25519_unwrap_ok(
                    old(self)@,
                    final(self)@,
                    rsk@,
                    key@,
                ),
                Err(e) => x25519_unwrap_err(old(self)@, e),
            },
    {
        let ghost m0 = self@;
        let epk = match self.absorb_n(32) {
            Ok(v) => v,
            Err(e) => {
                return Err(e);
            },
        };
        let shared = crate::crypto_ops::x25519_diffie_hellman(rsk, epk.as_slice());
        self.absorb_ext(shared.as_slice());
        self.commit();
        let ghost m2 = self@;
        match self.mask_n(32) {
            Ok(key) => {
                proof {
                    crate::sponge::lemma_sp_decrypt_len(
                        m2.sp,
                        m2.inp.subrange(m2.cur, m2.cur + 32),
                    );
                    let sh = shared@;
                    let t1 = um_absorb(m0, 32).unwrap();
                    assert(sh.len() == 32 && um_mask(um_commit(um_absorb_ext(t1.0, sh)), 32)
                        == Ok::<(UnwrapM, Seq<u8>), Error>((self@, key@)) && (forall|
                        other: Seq<u8>,
                    |
                        t1.1 == crate::crypto_ops::x25519_pub(other)
                            ==> sh == crate::crypto_ops::x25519_shared(rsk@, other)));
                }
                Ok(key)
            },
            Err(e) => Err(e),
        }
    }

    /// A copy of the sponge, for a `fork` section.
    pub fn sponge_fork(&self) -> (r: Spongos)
        requires
            self.wf(),
        ensures
            r.wf(),
            r@ == self@.sp,
    {
        self.spongos.fork()
    }

    /// Leave a `fork` section: restore the sponge saved at its start.
    pub fn sponge_restore(&mut self, saved: Spongos)
        requires
            old(self).wf(),
            saved.wf(),
        ensures
            final(self).wf(),
            final(self)@ == (UnwrapM { sp: saved@, inp: old(self)@.inp, cur: old(self)@.cur }),
            final(self)@.cur == old(self)@.cur,
    {
        self.spongos = saved;
    }

    /// How many input bytes are still unread.
    pub fn remaining_len(&self) -> (r: usize)
        requires
            self.wf(),
        ensures
            r == self@.inp.len() - self@.cur,
    {
        self.inp.len() - self.cur
    }

    /// How many input bytes were consumed so far.
    pub fn consumed(&self) -> (r: usize)
        ensures
            r == self@.cur,
    {
        self.cur
    }

    /// The final sponge, for the caller to store.
    pub fn into_sponge(self) -> (r: Spongos)
        ensures
            r@ == self@.sp,
            self.wf() ==> r.wf(),
    {
        self.spongos
    }
}

} // verus!
