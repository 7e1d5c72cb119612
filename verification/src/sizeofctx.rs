//! The sizeof context: the third interpreter of a codec script. It runs the
//! same operators as wrap and unwrap but only counts the bytes a wrap would
//! emit, so the caller can budget the output buffer exactly.

use vstd::prelude::*;
use crate::size::{size_num_bytes, lemma_num_bytes_le, lemma_pow256_8};

verus! {

/// A byte counter driven by the codec operators.
pub struct SizeofCtx {
    size: u64,
}

impl View for SizeofCtx {
    type V = int;

    closed spec fn view(&self) -> int {
        self.size as int
    }
}

impl SizeofCtx {
    pub fn new() -> (r: SizeofCtx)
        ensures
            r@ == 0,
    {
        SizeofCtx { size: 0 }
    }

    /// `absorb`: the bytes go on the wire in clear.
    pub fn absorb(&mut self, x: &[u8])
        requires
            old(self)@ + x@.len() <= u64::MAX,
        ensures
            final(self)@ == old(self)@ + x@.len(),
    {
        self.size = self.size + (x.len() as u64);
    }

    pub fn absorb_u8(&mut self)
        requires
            old(self)@ + 1 <= u64::MAX,
        ensures
            final(self)@ == old(self)@ + 1,
    {
        self.size = self.size + 1;
    }

    /// `absorb(external)`: nothing on the wire.
    pub fn absorb_ext(&mut self)
        ensures
            final(self)@ == old(self)@,
    {
    }

    /// `mask`: one cipher byte per plaintext byte.
    pub fn mask(&mut self, x: &[u8])
        requires
            old(self)@ + x@.len() <= u64::MAX,
        ensures
            final(self)@ == old(self)@ + x@.len(),
    {
        self.size = self.size + (x.len() as u64);
    }

    pub fn mask_u8(&mut self)
        requires
            old(self)@ + 1 <= u64::MAX,
        ensures
            final(self)@ == old(self)@ + 1,
    {
        self.size = self.size + 1;
    }

    /// `skip`: the bytes go on the wire.
    pub fn skip(&mut self, x: &[u8])
        requires
            old(self)@ + x@.len() <= u64::MAX,
        ensures
            final(self)@ == old(self)@ + x@.len(),
    {
        self.size = self.size + (x.len() as u64);
    }

    /// A `Size(n)` field in any of its absorbed, masked or skipped forms.
    pub fn size_field(&mut self, n: u64)
        requires
            old(self)@ + 1 + size_num_bytes(n as nat) <= u64::MAX,
        ensures
            final(self)@ == old(self)@ + 1 + size_num_bytes(n as nat),
    {
        proof {
            lemma_pow256_8();
            lemma_num_bytes_le(n as nat, 8);
        }
        let k = crate::size::size_num_bytes_exec(n);
        self.size = self.size + 1 + (k as u64);
    }

    /// `commit`: nothing on the wire.
    pub fn commit(&mut self)
        ensures
            final(self)@ == old(self)@,
    {
    }

    /// `squeeze` of a wire tag: `n` bytes on the wire.
    pub fn squeeze_emit(&mut self, n: usize)
        requires
            old(self)@ + n <= u64::MAX,
        ensures
            final(self)@ == old(self)@ + n,
    {
        self.size = self.size + (n as u64);
    }

    /// `squeeze(external)`, `join`, `fork`: nothing on the wire.
    pub fn squeeze_ext(&mut self)
        ensures
            final(self)@ == old(self)@,
    {
    }

    /// The byte count so far.
    pub fn size(&self) -> (r: u64)
        ensures
            r as int == self@,
    {
        self.size
    }
}

} // verus!
