//! The store of sponge states kept per message link. A `join` resumes the
//! sponge stored for a link; after a message is wrapped or unwrapped the
//! caller commits the new sponge under the message's own link.

use vstd::prelude::*;
use crate::msgid::{MsgId, MSGID_SIZE};
use crate::sponge::{sp_wf, SpState, Spongos};

verus! {

/// What a stored entry looks like to the model: the link bytes and the
/// sponge state.
pub open spec fn ls_entry(e: (MsgId, Spongos)) -> (Seq<u8>, SpState) {
    (e.0@, e.1@)
}

/// The most recently stored sponge for a link, if any.
pub open spec fn ls_find(entries: Seq<(Seq<u8>, SpState)>, link: Seq<u8>) -> Option<SpState>
    decreases entries.len(),
{
    if entries.len() == 0 {
        None
    } else if entries.last().0 == link {
        Some(entries.last().1)
    } else {
        ls_find(entries.drop_last(), link)
    }
}

/// A store from message links to the sponge state each message left behind.
pub struct LinkStore {
    entries: Vec<(MsgId, Spongos)>,
}

impl View for LinkStore {
    type V = Seq<(Seq<u8>, SpState)>;

    closed spec fn view(&self) -> Seq<(Seq<u8>, SpState)> {
        self.entries@.map_values(|e: (MsgId, Spongos)| ls_entry(e))
    }
}

impl LinkStore {
    pub open spec fn wf(&self) -> bool {
        forall|i: int|
            0 <= i < self@.len() ==> sp_wf(#[trigger] self@[i].1) && self@[i].0.len() == MSGID_SIZE
    }

    pub fn new() -> (r: LinkStore)
        ensures
            r.wf(),
            r@ =~= Seq::<(Seq<u8>, SpState)>::empty(),
    {
        LinkStore { entries: Vec::new() }
    }

    /// Store the sponge a message left, under that message's link.
    pub fn update(&mut self, link: MsgId, sponge: Spongos)
        requires
            old(self).wf(),
            link.wf(),
            sponge.wf(),
        ensures
            final(self).wf(),
            final(self)@ == old(self)@.push((link@, sponge@)),
    {
        let ghost before = self@;
        self.entries.push((link, sponge));
        proof {
            assert(self@ =~= before.push((link@, sponge@)));
        }
    }

    /// The sponge stored for a link, as a fresh copy.
    pub fn lookup(&self, link: &MsgId) -> (r: Option<Spongos>)
        requires
            self.wf(),
        ensures
            match r {
                Some(s) => ls_find(self@, link@) == Some(s@) && s.wf(),
                None => ls_find(self@, link@) is None,
            },
    {
        let mut i: usize = self.entries.len();
        proof {
            assert(self@.take(i as int) =~= self@);
        }
        while i > 0
            invariant
                self.wf(),
                i <= self@.len(),
                ls_find(self@, link@) == ls_find(self@.take(i as int), link@),
            decreases i,
        {
            let entry = &self.entries[i - 1];
            proof {
                assert(self@.take(i as int).last() == self@[i - 1]);
                assert(self@.take(i as int).drop_last() =~= self@.take(i as int - 1));
            }
            if entry.0.eq_id(link) {
                return Some(entry.1.fork());
            }
            i = i - 1;
        }
        None
    }
}

} // verus!
