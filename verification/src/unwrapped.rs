//! The result of unwrapping a message: its link, its content, and the sponge
//! it left behind. Committing stores that sponge under the link so the next
//! message can `join` it.

use vstd::prelude::*;
use crate::linkstore::LinkStore;
use crate::msgid::MsgId;
use crate::sponge::{sp_commit, Spongos};

verus! {

/// A message after unwrapping, not yet committed to the link store.
pub struct UnwrappedMessage<Content> {
    pub link: MsgId,
    pub content: Content,
    pub spongos: Spongos,
}

impl<Content> UnwrappedMessage<Content> {
    /// Commit the sponge this message left under the message's link, and hand
    /// the content to the caller.
    pub fn commit(self, store: &mut LinkStore) -> (r: Content)
        requires
            old(store).wf(),
            self.link.wf(),
            self.spongos.wf(),
        ensures
            final(store).wf(),
            final(store)@ == old(store)@.push((self.link@, sp_commit(self.spongos@))),
            r == self.content,
    {
        let UnwrappedMessage { link, content, spongos } = self;
        let mut sponge = spongos;
        sponge.commit();
        store.update(link, sponge);
        content
    }
}

} // verus!
