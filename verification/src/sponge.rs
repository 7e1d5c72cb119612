//! Duplex sponge ("Spongos") over the Keccak-f[1600] permutation.
//!
//! The state is 200 bytes; the first `RATE` bytes are the outer part that
//! absorbs input and yields output, the rest is the hidden capacity. Every
//! operation is modelled byte for byte by a spec function over `SpState`, so
//! that the codecs built on top can be proved against an exact model.

use vstd::prelude::*;
use vstd::slice::slice_to_vec;

verus! {

/// Width of the whole sponge state in bytes.
pub const STATE_SIZE: usize = 200;

/// Width of the outer (rate) part in bytes.
pub const RATE: usize = 168;

/// The Keccak-f[1600] permutation as a function of the 200 state bytes
/// (25 lanes of 8 bytes each, little-endian within a lane).
pub uninterp spec fn keccak_f1600(s: Seq<u8>) -> Seq<u8>;

/// Relies on keccak::f1600: one application of the Keccak-f[1600] permutation,
/// a pure function of the 25-lane state.
#[verifier::external_body]
fn permute(state: &mut Vec<u8>)
    requires
        old(state)@.len() == STATE_SIZE,
    ensures
        final(state)@ == keccak_f1600(old(state)@),
        final(state)@.len() == STATE_SIZE,
{
    let mut lanes = [0u64; 25];
    for i in 0..25 {
        let mut lane = [0u8; 8];
        lane.copy_from_slice(&state[i * 8..i * 8 + 8]);
        lanes[i] = u64::from_le_bytes(lane);
    }
    keccak::f1600(&mut lanes);
    for i in 0..25 {
        let lane = lanes[i].to_le_bytes();
        state[i * 8..i * 8 + 8].copy_from_slice(&lane);
    }
}

/// Mathematical model of a sponge: the state bytes and the outer cursor.
pub ghost struct SpState {
    pub bytes: Seq<u8>,
    pub pos: int,
}

/// A well-formed model: full state width, cursor inside the outer part.
pub open spec fn sp_wf(s: SpState) -> bool {
    s.bytes.len() == STATE_SIZE && 0 <= s.pos < RATE
}

/// The all-zero initial sponge.
pub open spec fn sp_init() -> SpState {
    SpState { bytes: Seq::new(STATE_SIZE as nat, |i: int| 0u8), pos: 0 }
}

/// Advance the cursor past one processed byte; permute at the rate boundary.
pub open spec fn sp_advance(bytes: Seq<u8>, pos: int) -> SpState {
    if pos + 1 == RATE {
        SpState { bytes: keccak_f1600(bytes), pos: 0 }
    } else {
        SpState { bytes, pos: pos + 1 }
    }
}

/// Absorb one byte: XOR it into the outer part.
pub open spec fn sp_absorb1(s: SpState, b: u8) -> SpState {
    sp_advance(s.bytes.update(s.pos, s.bytes[s.pos] ^ b), s.pos)
}

/// Absorb a byte string, front to back.
pub open spec fn sp_absorb(s: SpState, x: Seq<u8>) -> SpState
    decreases x.len(),
{
    if x.len() == 0 {
        s
    } else {
        sp_absorb(sp_absorb1(s, x.first()), x.drop_first())
    }
}

/// Encrypt one byte: ciphertext is plaintext XOR outer; outer becomes the
/// plaintext.
pub open spec fn sp_encrypt1(s: SpState, p: u8) -> (SpState, u8) {
    (sp_advance(s.bytes.update(s.pos, p), s.pos), p ^ s.bytes[s.pos])
}

/// Encrypt a byte string; yields the new state and the ciphertext.
pub open spec fn sp_encrypt(s: SpState, p: Seq<u8>) -> (SpState, Seq<u8>)
    decreases p.len(),
{
    if p.len() == 0 {
        (s, Seq::empty())
    } else {
        let first = sp_encrypt1(s, p.first());
        let rest = sp_encrypt(first.0, p.drop_first());
        (rest.0, seq![first.1] + rest.1)
    }
}

/// Decrypt one byte: plaintext is ciphertext XOR outer; outer becomes the
/// plaintext.
pub open spec fn sp_decrypt1(s: SpState, c: u8) -> (SpState, u8) {
    (sp_advance(s.bytes.update(s.pos, c ^ s.bytes[s.pos]), s.pos), c ^ s.bytes[s.pos])
}

/// Decrypt a byte string; yields the new state and the plaintext.
pub open spec fn sp_decrypt(s: SpState, c: Seq<u8>) -> (SpState, Seq<u8>)
    decreases c.len(),
{
    if c.len() == 0 {
        (s, Seq::empty())
    } else {
        let first = sp_decrypt1(s, c.first());
        let rest = sp_decrypt(first.0, c.drop_first());
        (rest.0, seq![first.1] + rest.1)
    }
}

/// Mix the outer part into the hidden part: permute unless nothing was
/// processed since the last boundary.
pub open spec fn sp_commit(s: SpState) -> SpState {
    if s.pos == 0 {
        s
    } else {
        SpState { bytes: keccak_f1600(s.bytes), pos: 0 }
    }
}

/// Emit one pseudo-random byte from the outer part.
pub open spec fn sp_squeeze1(s: SpState) -> (SpState, u8) {
    (sp_advance(s.bytes, s.pos), s.bytes[s.pos])
}

/// Emit `n` bytes without the implicit commit.
pub open spec fn sp_squeeze_raw(s: SpState, n: nat) -> (SpState, Seq<u8>)
    decreases n,
{
    if n == 0 {
        (s, Seq::empty())
    } else {
        let first = sp_squeeze1(s);
        let rest = sp_squeeze_raw(first.0, (n - 1) as nat);
        (rest.0, seq![first.1] + rest.1)
    }
}

/// Squeeze `n` bytes: an implicit commit, then output from the outer part.
pub open spec fn sp_squeeze(s: SpState, n: nat) -> (SpState, Seq<u8>) {
    sp_squeeze_raw(sp_commit(s), n)
}

pub proof fn lemma_sp_absorb_snoc(s: SpState, x: Seq<u8>, b: u8)
    ensures
        sp_absorb(s, x.push(b)) == sp_absorb1(sp_absorb(s, x), b),
    decreases x.len(),
{
    if x.len() == 0 {
        assert(x.push(b).len() == 1);
        assert(x.push(b).first() == b);
        assert(x.push(b).drop_first() =~= Seq::<u8>::empty());
        assert(sp_absorb(s, x.push(b)) == sp_absorb(sp_absorb1(s, b), x.push(b).drop_first()));
        assert(sp_absorb(sp_absorb1(s, b), Seq::<u8>::empty()) == sp_absorb1(s, b));
        assert(sp_absorb(s, x) == s);
    } else {
        assert(x.push(b).first() == x.first());
        assert(x.push(b).drop_first() =~= x.drop_first().push(b));
        assert(sp_absorb(s, x.push(b)) == sp_absorb(
            sp_absorb1(s, x.first()),
            x.drop_first().push(b),
        ));
        lemma_sp_absorb_snoc(sp_absorb1(s, x.first()), x.drop_first(), b);
        assert(sp_absorb(s, x) == sp_absorb(sp_absorb1(s, x.first()), x.drop_first()));
    }
}

pub proof fn lemma_sp_encrypt_snoc(s: SpState, p: Seq<u8>, b: u8)
    ensures
        sp_encrypt(s, p.push(b)).0 == sp_encrypt1(sp_encrypt(s, p).0, b).0,
        sp_encrypt(s, p.push(b)).1 == sp_encrypt(s, p).1.push(sp_encrypt1(sp_encrypt(s, p).0, b).1),
    decreases p.len(),
{
    if p.len() == 0 {
        assert(p.push(b).first() == b);
        assert(p.push(b).drop_first() =~= Seq::<u8>::empty());
        assert(sp_encrypt(s, p.push(b)) == (
            sp_encrypt(sp_encrypt1(s, b).0, Seq::<u8>::empty()).0,
            seq![sp_encrypt1(s, b).1] + sp_encrypt(sp_encrypt1(s, b).0, Seq::<u8>::empty()).1,
        ));
        assert(sp_encrypt(s, p) == (s, Seq::<u8>::empty()));
        assert(seq![sp_encrypt1(s, b).1] + Seq::<u8>::empty() =~= Seq::<u8>::empty().push(
            sp_encrypt1(s, b).1,
        ));
    } else {
        assert(p.push(b).first() == p.first());
        assert(p.push(b).drop_first() =~= p.drop_first().push(b));
        let s1 = sp_encrypt1(s, p.first());
        assert(sp_encrypt(s, p.push(b)) == (
            sp_encrypt(s1.0, p.drop_first().push(b)).0,
            seq![s1.1] + sp_encrypt(s1.0, p.drop_first().push(b)).1,
        ));
        lemma_sp_encrypt_snoc(s1.0, p.drop_first(), b);
        assert(sp_encrypt(s, p) == (
            sp_encrypt(s1.0, p.drop_first()).0,
            seq![s1.1] + sp_encrypt(s1.0, p.drop_first()).1,
        ));
        assert(seq![s1.1] + sp_encrypt(s1.0, p.drop_first()).1.push(
            sp_encrypt1(sp_encrypt(s, p).0, b).1,
        ) =~= (seq![s1.1] + sp_encrypt(s1.0, p.drop_first()).1).push(
            sp_encrypt1(sp_encrypt(s, p).0, b).1,
        ));
    }
}

pub proof fn lemma_sp_decrypt_snoc(s: SpState, c: Seq<u8>, b: u8)
    ensures
        sp_decrypt(s, c.push(b)).0 == sp_decrypt1(sp_decrypt(s, c).0, b).0,
        sp_decrypt(s, c.push(b)).1 == sp_decrypt(s, c).1.push(sp_decrypt1(sp_decrypt(s, c).0, b).1),
    decreases c.len(),
{
    if c.len() == 0 {
        assert(c.push(b).first() == b);
        assert(c.push(b).drop_first() =~= Seq::<u8>::empty());
        assert(sp_decrypt(s, c.push(b)) == (
            sp_decrypt(sp_decrypt1(s, b).0, Seq::<u8>::empty()).0,
            seq![sp_decrypt1(s, b).1] + sp_decrypt(sp_decrypt1(s, b).0, Seq::<u8>::empty()).1,
        ));
        assert(sp_decrypt(s, c) == (s, Seq::<u8>::empty()));
        assert(seq![sp_decrypt1(s, b).1] + Seq::<u8>::empty() =~= Seq::<u8>::empty().push(
            sp_decrypt1(s, b).1,
        ));
    } else {
        assert(c.push(b).first() == c.first());
        assert(c.push(b).drop_first() =~= c.drop_first().push(b));
        let s1 = sp_decrypt1(s, c.first());
        assert(sp_decrypt(s, c.push(b)) == (
            sp_decrypt(s1.0, c.drop_first().push(b)).0,
            seq![s1.1] + sp_decrypt(s1.0, c.drop_first().push(b)).1,
        ));
        lemma_sp_decrypt_snoc(s1.0, c.drop_first(), b);
        assert(sp_decrypt(s, c) == (
            sp_decrypt(s1.0, c.drop_first()).0,
            seq![s1.1] + sp_decrypt(s1.0, c.drop_first()).1,
        ));
        assert(seq![s1.1] + sp_decrypt(s1.0, c.drop_first()).1.push(
            sp_decrypt1(sp_decrypt(s, c).0, b).1,
        ) =~= (seq![s1.1] + sp_decrypt(s1.0, c.drop_first()).1).push(
            sp_decrypt1(sp_decrypt(s, c).0, b).1,
        ));
    }
}

pub proof fn lemma_sp_squeeze_raw_snoc(s: SpState, n: nat)
    ensures
        sp_squeeze_raw(s, n + 1).0 == sp_squeeze1(sp_squeeze_raw(s, n).0).0,
        sp_squeeze_raw(s, n + 1).1 == sp_squeeze_raw(s, n).1.push(
            sp_squeeze1(sp_squeeze_raw(s, n).0).1,
        ),
    decreases n,
{
    if n == 0 {
        assert(sp_squeeze_raw(s, 1) == (
            sp_squeeze_raw(sp_squeeze1(s).0, 0).0,
            seq![sp_squeeze1(s).1] + sp_squeeze_raw(sp_squeeze1(s).0, 0).1,
        ));
        assert(sp_squeeze_raw(s, 0) == (s, Seq::<u8>::empty()));
        assert(seq![sp_squeeze1(s).1] + Seq::<u8>::empty() =~= Seq::<u8>::empty().push(
            sp_squeeze1(s).1,
        ));
    } else {
        let s1 = sp_squeeze1(s);
        assert(sp_squeeze_raw(s, n + 1) == (
            sp_squeeze_raw(s1.0, n).0,
            seq![s1.1] + sp_squeeze_raw(s1.0, n).1,
        ));
        lemma_sp_squeeze_raw_snoc(s1.0, (n - 1) as nat);
        assert(sp_squeeze_raw(s, n) == (
            sp_squeeze_raw(s1.0, (n - 1) as nat).0,
            seq![s1.1] + sp_squeeze_raw(s1.0, (n - 1) as nat).1,
        ));
        assert(seq![s1.1] + sp_squeeze_raw(s1.0, (n - 1) as nat).1.push(
            sp_squeeze1(sp_squeeze_raw(s, n).0).1,
        ) =~= (seq![s1.1] + sp_squeeze_raw(s1.0, (n - 1) as nat).1).push(
            sp_squeeze1(sp_squeeze_raw(s, n).0).1,
        ));
    }
}

/// Absorbing a concatenation is absorbing its parts in order.
pub proof fn lemma_sp_absorb_append(s: SpState, x: Seq<u8>, y: Seq<u8>)
    ensures
        sp_absorb(s, x + y) == sp_absorb(sp_absorb(s, x), y),
    decreases x.len(),
{
    if x.len() == 0 {
        assert(x + y =~= y);
    } else {
        assert((x + y).first() == x.first());
        assert((x + y).drop_first() =~= x.drop_first() + y);
        lemma_sp_absorb_append(sp_absorb1(s, x.first()), x.drop_first(), y);
    }
}

/// Encrypting a concatenation is encrypting its parts in order.
pub proof fn lemma_sp_encrypt_append(s: SpState, x: Seq<u8>, y: Seq<u8>)
    ensures
        sp_encrypt(s, x + y).0 == sp_encrypt(sp_encrypt(s, x).0, y).0,
        sp_encrypt(s, x + y).1 == sp_encrypt(s, x).1 + sp_encrypt(sp_encrypt(s, x).0, y).1,
    decreases x.len(),
{
    if x.len() == 0 {
        assert(x + y =~= y);
        assert(sp_encrypt(s, x).1 + sp_encrypt(sp_encrypt(s, x).0, y).1 =~= sp_encrypt(s, y).1);
    } else {
        assert((x + y).first() == x.first());
        assert((x + y).drop_first() =~= x.drop_first() + y);
        let s1 = sp_encrypt1(s, x.first());
        lemma_sp_encrypt_append(s1.0, x.drop_first(), y);
        assert(seq![s1.1] + (sp_encrypt(s1.0, x.drop_first()).1 + sp_encrypt(
            sp_encrypt(s, x).0,
            y,
        ).1) =~= (seq![s1.1] + sp_encrypt(s1.0, x.drop_first()).1) + sp_encrypt(
            sp_encrypt(s, x).0,
            y,
        ).1);
    }
}

/// Decrypting what was encrypted from the same state returns the plaintext
/// and leaves both sponges in the same state.
pub proof fn lemma_sp_mask_duality(s: SpState, p: Seq<u8>)
    ensures
        sp_decrypt(s, sp_encrypt(s, p).1).0 == sp_encrypt(s, p).0,
        sp_decrypt(s, sp_encrypt(s, p).1).1 == p,
    decreases p.len(),
{
    if p.len() == 0 {
        assert(sp_decrypt(s, sp_encrypt(s, p).1).1 =~= p);
    } else {
        let b = p.first();
        let o = s.bytes[s.pos];
        assert((b ^ o) ^ o == b) by (bit_vector);
        let c = sp_encrypt(s, p).1;
        assert(c == seq![sp_encrypt1(s, b).1] + sp_encrypt(sp_encrypt1(s, b).0, p.drop_first()).1);
        assert(c.first() == b ^ o);
        assert(c.drop_first() =~= sp_encrypt(sp_encrypt1(s, b).0, p.drop_first()).1);
        assert(sp_decrypt1(s, c.first()).0 == sp_encrypt1(s, b).0);
        assert(sp_decrypt1(s, c.first()).1 == b);
        lemma_sp_mask_duality(sp_encrypt1(s, b).0, p.drop_first());
        assert(seq![b] + sp_decrypt(sp_encrypt1(s, b).0, c.drop_first()).1 =~= p);
    }
}

pub proof fn lemma_sp_encrypt_len(s: SpState, p: Seq<u8>)
    ensures
        sp_encrypt(s, p).1.len() == p.len(),
    decreases p.len(),
{
    if p.len() > 0 {
        lemma_sp_encrypt_len(sp_encrypt1(s, p.first()).0, p.drop_first());
    }
}

pub proof fn lemma_sp_decrypt_len(s: SpState, c: Seq<u8>)
    ensures
        sp_decrypt(s, c).1.len() == c.len(),
    decreases c.len(),
{
    if c.len() > 0 {
        lemma_sp_decrypt_len(sp_decrypt1(s, c.first()).0, c.drop_first());
    }
}

pub proof fn lemma_sp_squeeze_raw_len(s: SpState, n: nat)
    ensures
        sp_squeeze_raw(s, n).1.len() == n,
    decreases n,
{
    if n > 0 {
        lemma_sp_squeeze_raw_len(sp_squeeze1(s).0, (n - 1) as nat);
    }
}

/// A duplex sponge state.
pub struct Spongos {
    state: Vec<u8>,
    pos: usize,
}

impl View for Spongos {
    type V = SpState;

    closed spec fn view(&self) -> SpState {
        SpState { bytes: self.state@, pos: self.pos as int }
    }
}

impl Spongos {
    /// The state is full width and the cursor is inside the outer part.
    pub open spec fn wf(&self) -> bool {
        sp_wf(self@)
    }

    /// A fresh, all-zero sponge.
    pub fn init() -> (r: Spongos)
        ensures
            r.wf(),
            r@ == sp_init(),
    {
        let mut state: Vec<u8> = Vec::new();
        let mut i: usize = 0;
        while i < STATE_SIZE
            invariant
                i <= STATE_SIZE,
                state@ =~= Seq::new(i as nat, |j: int| 0u8),
            decreases STATE_SIZE - i,
        {
            state.push(0u8);
            proof {
                assert(state@ =~= Seq::new((i + 1) as nat, |j: int| 0u8));
            }
            i = i + 1;
        }
        proof {
            assert(state@ =~= sp_init().bytes);
        }
        Spongos { state, pos: 0 }
    }

    /// A deep copy: operations on the copy leave this sponge untouched.
    pub fn fork(&self) -> (r: Spongos)
        ensures
            r@ == self@,
            self.wf() ==> r.wf(),
    {
        Spongos { state: slice_to_vec(self.state.as_slice()), pos: self.pos }
    }

    /// XOR the bytes into the outer part, permuting at each rate boundary.
    pub fn absorb(&mut self, x: &[u8])
        requires
            old(self).wf(),
        ensures
            final(self).wf(),
            final(self)@ == sp_absorb(old(self)@, x@),
    {
        let ghost s0 = self@;
        let mut i: usize = 0;
        while i < x.len()
            invariant
                self.wf(),
                i <= x@.len(),
                self@ == sp_absorb(s0, x@.take(i as int)),
            decreases x@.len() - i,
        {
            proof {
                lemma_sp_absorb_snoc(s0, x@.take(i as int), x@[i as int]);
                assert(x@.take(i as int + 1) =~= x@.take(i as int).push(x@[i as int]));
            }
            let b = x[i];
            let mixed = self.state[self.pos] ^ b;
            self.state[self.pos] = mixed;
            self.pos = self.pos + 1;
            if self.pos == RATE {
                permute(&mut self.state);
                self.pos = 0;
            }
            i = i + 1;
        }
        proof {
            assert(x@.take(x@.len() as int) =~= x@);
        }
    }

    /// Encrypt the bytes against the outer part; the outer part keeps the
    /// plaintext.
    pub fn encrypt(&mut self, plain: &[u8]) -> (r: Vec<u8>)
        requires
            old(self).wf(),
        ensures
            final(self).wf(),
            final(self)@ == sp_encrypt(old(self)@, plain@).0,
            r@ == sp_encrypt(old(self)@, plain@).1,
    {
        let ghost s0 = self@;
        let mut out: Vec<u8> = Vec::new();
        let mut i: usize = 0;
        while i < plain.len()
            invariant
                self.wf(),
                i <= plain@.len(),
                self@ == sp_encrypt(s0, plain@.take(i as int)).0,
                out@ == sp_encrypt(s0, plain@.take(i as int)).1,
            decreases plain@.len() - i,
        {
            proof {
                lemma_sp_encrypt_snoc(s0, plain@.take(i as int), plain@[i as int]);
                assert(plain@.take(i as int + 1) =~= plain@.take(i as int).push(plain@[i as int]));
            }
            let p = plain[i];
            let c = p ^ self.state[self.pos];
            self.state[self.pos] = p;
            out.push(c);
            self.pos = self.pos + 1;
            if self.pos == RATE {
                permute(&mut self.state);
                self.pos = 0;
            }
            i = i + 1;
        }
        proof {
            assert(plain@.take(plain@.len() as int) =~= plain@);
        }
        out
    }

    /// Decrypt the bytes against the outer part; the outer part keeps the
    /// plaintext.
    pub fn decrypt(&mut self, cipher: &[u8]) -> (r: Vec<u8>)
        requires
            old(self).wf(),
        ensures
            final(self).wf(),
            final(self)@ == sp_decrypt(old(self)@, cipher@).0,
            r@ == sp_decrypt(old(self)@, cipher@).1,
    {
        let ghost s0 = self@;
        let mut out: Vec<u8> = Vec::new();
        let mut i: usize = 0;
        while i < cipher.len()
            invariant
                self.wf(),
                i <= cipher@.len(),
                self@ == sp_decrypt(s0, cipher@.take(i as int)).0,
                out@ == sp_decrypt(s0, cipher@.take(i as int)).1,
            decreases cipher@.len() - i,
        {
            proof {
                lemma_sp_decrypt_snoc(s0, cipher@.take(i as int), cipher@[i as int]);
                assert(cipher@.take(i as int + 1) =~= cipher@.take(i as int).push(
                    cipher@[i as int],
                ));
            }
            let c = cipher[i];
            let p = c ^ self.state[self.pos];
            self.state[self.pos] = p;
            out.push(p);
            self.pos = self.pos + 1;
            if self.pos == RATE {
                permute(&mut self.state);
                self.pos = 0;
            }
            i = i + 1;
        }
        proof {
            assert(cipher@.take(cipher@.len() as int) =~= cipher@);
        }
        out
    }

    /// Mix the outer part into the hidden part and reset the cursor.
    pub fn commit(&mut self)
        requires
            old(self).wf(),
        ensures
            final(self).wf(),
            final(self)@ == sp_commit(old(self)@),
    {
        if self.pos > 0 {
            permute(&mut self.state);
            self.pos = 0;
        }
    }

    /// Squeeze `n` pseudo-random bytes (with the implicit commit).
    pub fn squeeze(&mut self, n: usize) -> (r: Vec<u8>)
        requires
            old(self).wf(),
        ensures
            final(self).wf(),
            final(self)@ == sp_squeeze(old(self)@, n as nat).0,
            r@ == sp_squeeze(old(self)@, n as nat).1,
    {
        self.commit();
        let ghost s0 = self@;
        let mut out: Vec<u8> = Vec::new();
        let mut i: usize = 0;
        while i < n
            invariant
                self.wf(),
                i <= n,
                self@ == sp_squeeze_raw(s0, i as nat).0,
                out@ == sp_squeeze_raw(s0, i as nat).1,
            decreases n - i,
        {
            proof {
                lemma_sp_squeeze_raw_snoc(s0, i as nat);
            }
            let b = self.state[self.pos];
            out.push(b);
            self.pos = self.pos + 1;
            if self.pos == RATE {
                permute(&mut self.state);
                self.pos = 0;
            }
            i = i + 1;
        }
        out
    }
}

} // verus!
