//! Branch topics: a UTF-8 name and its fixed 16-byte sponge digest.

use vstd::prelude::*;
use vstd::utf8::{encode_utf8, valid_utf8};
use crate::error::Error;
use crate::sponge::{sp_absorb, sp_init, sp_squeeze, Spongos};

verus! {

/// Width of a topic hash in bytes.
pub const TOPIC_HASH_SIZE: usize = 16;

/// The sponge digest of a byte string: absorb it into a fresh sponge and
/// squeeze sixteen bytes.
pub open spec fn topic_hash_of(bytes: Seq<u8>) -> Seq<u8> {
    sp_squeeze(sp_absorb(sp_init(), bytes), TOPIC_HASH_SIZE as nat).1
}

/// A UTF-8 branch name.
pub struct Topic {
    name: String,
}

impl View for Topic {
    type V = Seq<char>;

    closed spec fn view(&self) -> Seq<char> {
        self.name@
    }
}

impl Topic {
    /// The UTF-8 bytes of the name.
    pub open spec fn spec_bytes(&self) -> Seq<u8> {
        encode_utf8(self@)
    }

    pub fn new(t: String) -> (r: Topic)
        ensures
            r@ == t@,
    {
        Topic { name: t }
    }

    /// Relies on String::from_utf8 of std: it succeeds exactly on valid UTF-8
    /// and the string then holds those bytes.
    #[verifier::external_body]
    fn string_from_utf8(t: Vec<u8>) -> (r: Option<String>)
        ensures
            r is Some <==> valid_utf8(t@),
            r is Some ==> encode_utf8(r.unwrap()@) == t@,
    {
        String::from_utf8(t).ok()
    }

    /// A topic from raw bytes; rejects what is not UTF-8.
    pub fn try_from_bytes(t: Vec<u8>) -> (r: Result<Topic, Error>)
        ensures
            match r {
                Ok(topic) => valid_utf8(t@) && topic.spec_bytes() == t@,
                Err(e) => !valid_utf8(t@) && e == Error::GuardFailed,
            },
    {
        match Self::string_from_utf8(t) {
            Some(name) => Ok(Topic { name }),
            None => Err(Error::GuardFailed),
        }
    }

    /// The UTF-8 bytes of the name.
    pub fn as_bytes(&self) -> (r: &[u8])
        ensures
            r@ == self.spec_bytes(),
    {
        self.name.as_str().as_bytes()
    }
}

/// The fixed-width sponge digest of a topic.
pub struct TopicHash {
    hash: Vec<u8>,
}

impl View for TopicHash {
    type V = Seq<u8>;

    closed spec fn view(&self) -> Seq<u8> {
        self.hash@
    }
}

impl TopicHash {
    pub open spec fn wf(&self) -> bool {
        self@.len() == TOPIC_HASH_SIZE
    }

    /// Digest a topic name.
    pub fn of_topic(topic: &Topic) -> (r: TopicHash)
        ensures
            r@ == topic_hash_of(topic.spec_bytes()),
            r.wf(),
    {
        let mut sponge = Spongos::init();
        sponge.absorb(topic.as_bytes());
        let hash = sponge.squeeze(TOPIC_HASH_SIZE);
        proof {
            crate::sponge::lemma_sp_squeeze_raw_len(
                crate::sponge::sp_commit(sp_absorb(sp_init(), topic.spec_bytes())),
                TOPIC_HASH_SIZE as nat,
            );
        }
        TopicHash { hash }
    }

    /// A hash from its sixteen bytes, for a header parsed off the wire.
    pub fn from_bytes(hash: Vec<u8>) -> (r: Result<TopicHash, Error>)
        ensures
            match r {
                Ok(h) => hash@.len() == TOPIC_HASH_SIZE && h@ == hash@ && h.wf(),
                Err(e) => hash@.len() != TOPIC_HASH_SIZE && e == Error::GuardFailed,
            },
    {
        if hash.len() == TOPIC_HASH_SIZE {
            Ok(TopicHash { hash })
        } else {
            Err(Error::GuardFailed)
        }
    }

    pub fn as_bytes(&self) -> (r: &[u8])
        ensures
            r@ == self@,
    {
        self.hash.as_slice()
    }

    /// A copy with the same bytes.
    pub fn duplicate(&self) -> (r: TopicHash)
        ensures
            r@ == self@,
    {
        TopicHash { hash: vstd::slice::slice_to_vec(self.hash.as_slice()) }
    }
}

} // verus!
