//! Sponge-driven message codec for a branching group-messaging channel.
//!
//! A duplex sponge (`sponge`) drives a declarative binary serialization
//! vocabulary (`wrapctx`, `unwrapctx`, `sizeofctx`): one operator script both
//! frames and authenticates a message. On top of it sit the header codec
//! (`hdf`), the multi-recipient key-distribution codec (`keyload`), and the
//! identity types that name publishers and recipients.

pub mod bytes;
pub mod crypto_ops;
pub mod error;
pub mod hdf;
pub mod identifier;
pub mod identity;
pub mod keyload;
pub mod linkstore;
pub mod msgid;
pub mod size;
pub mod sizeofctx;
pub mod sponge;
pub mod topic;
pub mod unwrapctx;
pub mod unwrapped;
pub mod wrapctx;
