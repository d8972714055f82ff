//! The broker's handle on a peer in its flag-less form: only the sending
//! half of the peer's channel, which a refused send leaves as it was.

use vstd::prelude::*;

use crate::peer::{open_channel, ChannelSender, Forward};

verus! {

/// The handle on one peer that keeps only the sending half of the channel
/// whose receiving half feeds that peer's connection.
pub struct Peer {
    sender: ChannelSender,
}

impl Peer {
    /// The channel this peer's messages go to.
    pub closed spec fn channel(&self) -> int {
        self.sender.channel()
    }

    /// Every message sent to this peer, oldest first, accepted or not.
    pub closed spec fn handed(&self) -> Seq<Seq<char>> {
        self.sender.handed()
    }

    /// The messages this peer's channel has accepted, oldest first.
    pub closed spec fn delivered(&self) -> Seq<Seq<char>> {
        self.sender.accepted()
    }

    /// Returns a new handle to send messages to a peer, and the `Forward`
    /// that forwards those messages on the peer's connection: both halves of
    /// one new, empty channel.
    pub fn new() -> (res: (Peer, Forward))
        ensures
            res.0.handed() == Seq::<Seq<char>>::empty(),
            res.0.delivered() == Seq::<Seq<char>>::empty(),
            res.1.channel() == res.0.channel(),
    {
        let (sender, receiver) = open_channel();
        (Peer { sender }, Forward::from_receiver(receiver))
    }

    /// Sends a message on this peer's channel. Nothing is reported: a
    /// message the channel refuses (the peer's connection is gone) is
    /// dropped, and the peer stays as it was but for the message handed over.
    pub fn send(&mut self, msg: String)
        ensures
            final(self).channel() == old(self).channel(),
            final(self).handed() == old(self).handed().push(msg@),
            final(self).delivered() == old(self).delivered().push(msg@) || final(self).delivered()
                == old(self).delivered(),
    {
        match self.sender.send(msg) {
            Ok(()) => {},
            Err(_) => {},
        }
    }
}

} // verus!
