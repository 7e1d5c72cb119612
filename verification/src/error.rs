use vstd::prelude::*;

verus! {

/// Errors surfaced by the codec. The first failure short-circuits a wrap or
/// unwrap script and poisons its context.
#[derive(Clone, Copy, Debug, PartialEq, Eq, Structural)]
pub enum Error {
    /// An input stream ran out of bytes.
    StreamExhausted,
    /// A parsed header had non-zero reserved bits.
    ReservedBitsSet,
    /// The version byte was not recognized.
    VersionMismatch,
    /// The frame-type byte was not the header frame identifier.
    FrameTypeMismatch,
    /// A guard condition of a codec script was violated.
    GuardFailed,
    /// A squeezed authentication tag differed from the tag on the wire.
    MacMismatch,
    /// An Ed25519 signature did not verify.
    SignatureInvalid,
    /// A variant tag outside the known identifier or identity kinds.
    UnknownVariant(u8),
}

} // verus!
