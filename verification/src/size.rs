//! The `Size` varint: one count byte giving the number of significant bytes
//! (0 through 8), followed by that many big-endian bytes of the value.

use vstd::prelude::*;
use crate::error::Error;

verus! {

/// 256 to the power `k`.
pub open spec fn pow256(k: nat) -> nat
    decreases k,
{
    if k == 0 {
        1
    } else {
        256 * pow256((k - 1) as nat)
    }
}

/// Number of significant bytes of `n`: 0 for 0, else one more than for
/// `n / 256`.
pub open spec fn size_num_bytes(n: nat) -> nat
    decreases n,
{
    if n == 0 {
        0
    } else {
        1 + size_num_bytes(n / 256)
    }
}

/// The `k` low-order bytes of `n`, big-endian.
pub open spec fn size_be_bytes(n: nat, k: nat) -> Seq<u8>
    decreases k,
{
    if k == 0 {
        Seq::empty()
    } else {
        size_be_bytes(n / 256, (k - 1) as nat).push((n % 256) as u8)
    }
}

/// The wire form of `Size(n)`: count byte, then the significant bytes.
pub open spec fn size_wire(n: nat) -> Seq<u8> {
    seq![size_num_bytes(n) as u8] + size_be_bytes(n, size_num_bytes(n))
}

/// The value of a big-endian byte string.
pub open spec fn size_decode_val(bytes: Seq<u8>) -> nat
    decreases bytes.len(),
{
    if bytes.len() == 0 {
        0
    } else {
        size_decode_val(bytes.drop_last()) * 256 + bytes.last() as nat
    }
}

/// Parse a `Size` from the front of `bytes`: the value and how many bytes the
/// field took.
pub open spec fn size_parse(bytes: Seq<u8>) -> Result<(nat, nat), Error> {
    if bytes.len() < 1 {
        Err(Error::StreamExhausted)
    } else {
        let k = bytes[0] as nat;
        if k > 8 {
            Err(Error::GuardFailed)
        } else if bytes.len() < 1 + k {
            Err(Error::StreamExhausted)
        } else {
            Ok((size_decode_val(bytes.subrange(1, 1 + k as int)), (1 + k) as nat))
        }
    }
}

pub proof fn lemma_pow256_pos(k: nat)
    ensures
        pow256(k) >= 1,
    decreases k,
{
    if k > 0 {
        lemma_pow256_pos((k - 1) as nat);
    }
}

/// `size_num_bytes(n)` bytes are enough to hold `n`.
pub proof fn lemma_num_bytes_bound(n: nat)
    ensures
        n < pow256(size_num_bytes(n)),
    decreases n,
{
    if n == 0 {
    } else {
        lemma_num_bytes_bound(n / 256);
        let k = size_num_bytes(n / 256);
        assert(n / 256 + 1 <= pow256(k));
        assert(n < 256 * (n / 256 + 1)) by (nonlinear_arith);
        assert(256 * (n / 256 + 1) <= 256 * pow256(k)) by (nonlinear_arith)
            requires
                n / 256 + 1 <= pow256(k),
        ;
    }
}

/// `size_num_bytes(n)` is the least such count.
pub proof fn lemma_num_bytes_le(n: nat, k: nat)
    requires
        n < pow256(k),
    ensures
        size_num_bytes(n) <= k,
    decreases k,
{
    if n == 0 {
    } else if k == 0 {
    } else {
        assert(n / 256 < pow256((k - 1) as nat)) by (nonlinear_arith)
            requires
                n < 256 * pow256((k - 1) as nat),
        ;
        lemma_num_bytes_le(n / 256, (k - 1) as nat);
    }
}

/// For a positive value the top byte of the minimal encoding is non-zero:
/// one byte fewer does not suffice.
pub proof fn lemma_num_bytes_minimal(n: nat)
    requires
        n > 0,
    ensures
        pow256((size_num_bytes(n) - 1) as nat) <= n,
    decreases n,
{
    if n / 256 == 0 {
        assert(size_num_bytes(n / 256) == 0);
        assert(size_num_bytes(n) == 1);
        lemma_pow256_pos(0);
    } else {
        lemma_num_bytes_minimal(n / 256);
        let k = size_num_bytes(n / 256);
        assert(size_num_bytes(n) == 1 + k);
        assert(k >= 1);
        assert(pow256(k) == 256 * pow256((k - 1) as nat));
        assert(pow256((k - 1) as nat) <= n / 256);
        assert(256 * pow256((k - 1) as nat) <= 256 * (n / 256)) by (nonlinear_arith)
            requires
                pow256((k - 1) as nat) <= n / 256,
        ;
        assert(256 * (n / 256) <= n) by (nonlinear_arith);
    }
}

pub proof fn lemma_be_bytes_len(n: nat, k: nat)
    ensures
        size_be_bytes(n, k).len() == k,
    decreases k,
{
    if k > 0 {
        lemma_be_bytes_len(n / 256, (k - 1) as nat);
    }
}

/// Decoding the big-endian bytes of `n` gives back `n`.
pub proof fn lemma_be_decode(n: nat, k: nat)
    requires
        n < pow256(k),
    ensures
        size_decode_val(size_be_bytes(n, k)) == n,
    decreases k,
{
    if k == 0 {
    } else {
        let tail = size_be_bytes(n / 256, (k - 1) as nat);
        assert(tail.push((n % 256) as u8).drop_last() =~= tail);
        assert(n / 256 < pow256((k - 1) as nat)) by (nonlinear_arith)
            requires
                n < 256 * pow256((k - 1) as nat),
        ;
        lemma_be_decode(n / 256, (k - 1) as nat);
        assert(size_decode_val(size_be_bytes(n, k)) == (n / 256) * 256 + n % 256);
        assert((n / 256) * 256 + n % 256 == n) by (nonlinear_arith);
    }
}

/// A big-endian byte string of length `k` holds a value below 256^k.
pub proof fn lemma_decode_bound(bytes: Seq<u8>)
    ensures
        size_decode_val(bytes) < pow256(bytes.len()),
    decreases bytes.len(),
{
    if bytes.len() == 0 {
    } else {
        lemma_decode_bound(bytes.drop_last());
        let v = size_decode_val(bytes.drop_last());
        assert(v * 256 + bytes.last() < 256 * pow256((bytes.len() - 1) as nat)) by (nonlinear_arith)
            requires
                v < pow256((bytes.len() - 1) as nat),
                bytes.last() < 256,
        ;
    }
}

/// 256^8 written out: the bound of an eight-byte value.
pub proof fn lemma_pow256_8()
    ensures
        pow256(8) == 0x1_0000_0000_0000_0000,
{
    assert(pow256(0) == 1);
    assert(pow256(1) == 256);
    assert(pow256(2) == 0x1_0000);
    assert(pow256(3) == 0x100_0000);
    assert(pow256(4) == 0x1_0000_0000);
    assert(pow256(5) == 0x100_0000_0000);
    assert(pow256(6) == 0x1_0000_0000_0000);
    assert(pow256(7) == 0x100_0000_0000_0000);
}

/// Size codec round trip: parsing an encoding (with anything after it) gives
/// back the value and consumes exactly the encoding, whose length is one more
/// than the number of significant bytes.
pub proof fn lemma_size_round_trip(n: nat, rest: Seq<u8>)
    requires
        n < pow256(8),
    ensures
        size_wire(n).len() == 1 + size_num_bytes(n),
        size_parse(size_wire(n) + rest) == Ok::<(nat, nat), Error>(
            (n, size_wire(n).len() as nat),
        ),
{
    let k = size_num_bytes(n);
    lemma_num_bytes_le(n, 8);
    lemma_be_bytes_len(n, k);
    let w = size_wire(n) + rest;
    assert(w[0] == k as u8);
    assert(w.subrange(1, 1 + k as int) =~= size_be_bytes(n, k));
    lemma_num_bytes_bound(n);
    lemma_be_decode(n, k);
}

/// The encoding's significant bytes, computed recursively as the model states
/// them.
fn size_be_encode(n: u64, k: usize) -> (r: Vec<u8>)
    ensures
        r@ == size_be_bytes(n as nat, k as nat),
    decreases k,
{
    if k == 0 {
        Vec::new()
    } else {
        let mut r = size_be_encode(n / 256, k - 1);
        r.push((n % 256) as u8);
        r
    }
}

/// Number of significant bytes of `n`.
pub fn size_num_bytes_exec(n: u64) -> (r: usize)
    ensures
        r as nat == size_num_bytes(n as nat),
        r <= 8,
{
    proof {
        lemma_pow256_8();
        lemma_num_bytes_le(n as nat, 8);
    }
    let mut m: u64 = n;
    let mut k: usize = 0;
    while m > 0
        invariant
            size_num_bytes(n as nat) == k + size_num_bytes(m as nat),
            size_num_bytes(n as nat) <= 8,
            k <= 8,
        decreases m,
    {
        proof {
            assert(size_num_bytes(m as nat) == 1 + size_num_bytes(m as nat / 256));
        }
        m = m / 256;
        k = k + 1;
    }
    k
}

/// Encode `Size(n)` to its wire bytes.
pub fn size_encode(n: u64) -> (r: Vec<u8>)
    ensures
        r@ == size_wire(n as nat),
{
    let k = size_num_bytes_exec(n);
    let mut r: Vec<u8> = Vec::new();
    r.push(k as u8);
    let mut tail = size_be_encode(n, k);
    r.append(&mut tail);
    proof {
        assert(r@ =~= size_wire(n as nat));
    }
    r
}

/// Decode a big-endian byte string of at most eight bytes.
pub(crate) fn size_be_decode(bytes: &[u8]) -> (r: u64)
    requires
        bytes@.len() <= 8,
    ensures
        r as nat == size_decode_val(bytes@),
{
    let ghost whole = bytes@;
    let mut acc: u64 = 0;
    let mut i: usize = 0;
    while i < bytes.len()
        invariant
            bytes@.len() <= 8,
            i <= bytes@.len(),
            acc as nat == size_decode_val(bytes@.take(i as int)),
            (acc as nat) < pow256(i as nat),
        decreases bytes@.len() - i,
    {
        proof {
            lemma_decode_bound(bytes@.take(i as int));
            assert(bytes@.take(i as int + 1).drop_last() =~= bytes@.take(i as int));
            assert((acc as nat) * 256 + bytes@[i as int] < pow256((i + 1) as nat)) by (
            nonlinear_arith)
                requires
                    (acc as nat) < pow256(i as nat),
                    bytes@[i as int] < 256,
                    pow256((i + 1) as nat) == 256 * pow256(i as nat),
            ;
            if i < 8 {
                lemma_pow256_le(i as nat + 1, 8);
            }
            lemma_pow256_8();
        }
        acc = acc * 256 + (bytes[i] as u64);
        i = i + 1;
    }
    proof {
        assert(bytes@.take(bytes@.len() as int) =~= bytes@);
    }
    acc
}

pub proof fn lemma_pow256_le(a: nat, b: nat)
    requires
        a <= b,
    ensures
        pow256(a) <= pow256(b),
    decreases b,
{
    if a < b && b > 0 {
        lemma_pow256_le(a, (b - 1) as nat);
        lemma_pow256_pos((b - 1) as nat);
    }
}

/// Decode a `Size` from the front of `bytes`: the value and the number of
/// bytes consumed, or the error that `size_parse` gives.
pub fn size_decode(bytes: &[u8]) -> (r: Result<(u64, usize), Error>)
    ensures
        match r {
            Ok(v) => size_parse(bytes@) == Ok::<(nat, nat), Error>(
                (v.0 as nat, v.1 as nat),
            ),
            Err(e) => size_parse(bytes@) == Err::<(nat, nat), Error>(e),
        },
{
    if bytes.len() < 1 {
        return Err(Error::StreamExhausted);
    }
    let k = bytes[0] as usize;
    if k > 8 {
        return Err(Error::GuardFailed);
    }
    if bytes.len() < 1 + k {
        return Err(Error::StreamExhausted);
    }
    let field = vstd::slice::slice_subrange(bytes, 1, 1 + k);
    let v = size_be_decode(field);
    Ok((v, 1 + k))
}

} // verus!
