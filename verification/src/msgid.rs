//! Opaque fixed-width message identifiers. A channel address is composed by
//! the application layer; the codec treats a link as these twelve bytes.

use vstd::prelude::*;
use crate::error::Error;

verus! {

/// Width of a message identifier in bytes.
pub const MSGID_SIZE: usize = 12;

/// A content-addressed link to a prior message.
pub struct MsgId {
    bytes: Vec<u8>,
}

impl View for MsgId {
    type V = Seq<u8>;

    closed spec fn view(&self) -> Seq<u8> {
        self.bytes@
    }
}

impl MsgId {
    pub open spec fn wf(&self) -> bool {
        self@.len() == MSGID_SIZE
    }

    /// A message identifier from its twelve bytes.
    pub fn new(bytes: Vec<u8>) -> (r: Result<MsgId, Error>)
        ensures
            match r {
                Ok(id) => bytes@.len() == MSGID_SIZE && id@ == bytes@ && id.wf(),
                Err(e) => bytes@.len() != MSGID_SIZE && e == Error::GuardFailed,
            },
    {
        if bytes.len() == MSGID_SIZE {
            Ok(MsgId { bytes })
        } else {
            Err(Error::GuardFailed)
        }
    }

    pub fn as_bytes(&self) -> (r: &[u8])
        ensures
            r@ == self@,
    {
        self.bytes.as_slice()
    }

    /// A copy with the same bytes.
    pub fn duplicate(&self) -> (r: MsgId)
        ensures
            r@ == self@,
    {
        MsgId { bytes: vstd::slice::slice_to_vec(self.bytes.as_slice()) }
    }

    pub fn eq_id(&self, other: &MsgId) -> (r: bool)
        ensures
            r <==> self@ == other@,
    {
        crate::bytes::bytes_eq(self.bytes.as_slice(), other.bytes.as_slice())
    }
}

} // verus!
