use vstd::prelude::*;

use tokio::sync::mpsc::{error::SendError, UnboundedReceiver, UnboundedSender};

verus! {

#[verifier::external_type_specification]
#[verifier::external_body]
#[verifier::reject_recursive_types(T)]
pub struct ExUnboundedSender<T>(UnboundedSender<T>);

#[verifier::external_type_specification]
#[verifier::external_body]
#[verifier::reject_recursive_types(T)]
pub struct ExUnboundedReceiver<T>(UnboundedReceiver<T>);

#[verifier::external_type_specification]
#[verifier::external_body]
#[verifier::reject_recursive_types(T)]
pub struct ExSendError<T>(SendError<T>);

/// The sending half of a channel of lines, with what it was handed so far.
pub struct ChannelSender {
    tx: UnboundedSender<String>,
    /// Which channel this is: the receiving half made with it has the same.
    channel: Ghost<int>,
    /// Every message handed to `send`, oldest first, whatever the answer.
    handed: Ghost<Seq<Seq<char>>>,
    /// The messages the channel accepted (queued for its receiving half),
    /// oldest first.
    accepted: Ghost<Seq<Seq<char>>>,
}

/// The receiving half of a channel of lines.
pub struct ChannelReceiver {
    rx: UnboundedReceiver<String>,
    /// Which channel this is: the sending half made with it has the same.
    channel: Ghost<int>,
}

impl ChannelSender {
    pub closed spec fn channel(&self) -> int {
        self.channel@
    }

    pub closed spec fn handed(&self) -> Seq<Seq<char>> {
        self.handed@
    }

    pub closed spec fn accepted(&self) -> Seq<Seq<char>> {
        self.accepted@
    }

    /// Calls `UnboundedSender::send`, which queues the message for the
    /// receiving half and returns `Ok` while that half is alive, and hands
    /// the message back in an error once it is closed or dropped. The message
    /// is handed to the channel either way; it is queued (accepted) exactly
    /// when the call returns `Ok`. Which of the two happens depends on the
    /// receiving half, which nothing here can see. (The call aborts the
    /// process only when the channel already holds about `usize::MAX / 2`
    /// messages, which memory rules out.)
    #[verifier::external_body]
    pub(crate) fn send(&mut self, msg: String) -> (res: Result<(), SendError<String>>)
        ensures
            final(self).channel() == old(self).channel(),
            final(self).handed() == old(self).handed().push(msg@),
            res is Ok ==> final(self).accepted() == old(self).accepted().push(msg@),
            res is Err ==> final(self).accepted() == old(self).accepted(),
    {
        self.tx.send(msg)
    }
}

impl ChannelReceiver {
    pub closed spec fn channel(&self) -> int {
        self.channel@
    }
}

/// Calls `tokio::sync::mpsc::unbounded_channel`, which creates a new, empty
/// channel and returns its sending and receiving halves: they belong to the
/// same channel, and nothing has been handed to it yet.
#[verifier::external_body]
pub(crate) fn open_channel() -> (res: (ChannelSender, ChannelReceiver))
    ensures
        res.0.channel() == res.1.channel(),
        res.0.handed() == Seq::<Seq<char>>::empty(),
        res.0.accepted() == Seq::<Seq<char>>::empty(),
{
    let (tx, rx) = tokio::sync::mpsc::unbounded_channel();
    (
        ChannelSender { tx, channel: Ghost(0), handed: Ghost(Seq::empty()), accepted: Ghost(Seq::empty()) },
        ChannelReceiver { rx, channel: Ghost(0) },
    )
}

/// The handle the broker keeps for one connected peer: the sending half of
/// the channel whose receiving half feeds that peer's connection.
pub struct Peer {
    sender: ChannelSender,
    is_connected: bool,
}

/// The receiving half of a peer's channel: what the connection task forwards
/// to the peer's socket.
pub struct Forward {
    receiver: ChannelReceiver,
}

impl Peer {
    /// Whether every send on this peer's channel so far was accepted.
    pub closed spec fn connected(&self) -> bool {
        self.is_connected
    }

    /// The channel this peer's messages go to.
    pub closed spec fn channel(&self) -> int {
        self.sender.channel()
    }

    /// Every message sent to this peer, oldest first, accepted or not.
    pub closed spec fn handed(&self) -> Seq<Seq<char>> {
        self.sender.handed()
    }

    /// The messages this peer's channel has accepted, oldest first.
    pub closed spec fn delivered(&self) -> Seq<Seq<char>> {
        self.sender.accepted()
    }

    /// The peer's invariant: it is connected exactly while its channel has
    /// accepted every message sent to it; once a send has been refused, it
    /// has fewer messages delivered than sent.
    pub open spec fn wf(&self) -> bool {
        &&& self.connected() ==> self.delivered() == self.handed()
        &&& !self.connected() ==> self.delivered().len() < self.handed().len()
    }

    /// Returns a new handle to send messages to a peer, and the `Forward`
    /// that forwards those messages on the peer's connection: both halves of
    /// one new, empty channel.
    pub fn new() -> (res: (Peer, Forward))
        ensures
            res.0.wf(),
            res.0.connected(),
            res.0.handed() == Seq::<Seq<char>>::empty(),
            res.0.delivered() == Seq::<Seq<char>>::empty(),
            res.1.channel() == res.0.channel(),
    {
        let (sender, receiver) = open_channel();
        (Peer { sender, is_connected: true }, Forward { receiver })
    }

    /// Sends a message on this peer's channel. When the channel refuses it
    /// (the peer's connection is gone), the peer is marked disconnected.
    pub fn send(&mut self, msg: String)
        ensures
            final(self).channel() == old(self).channel(),
            final(self).handed() == old(self).handed().push(msg@),
            ({
                ||| final(self).connected() == old(self).connected()
                    && final(self).delivered() == old(self).delivered().push(msg@)
                ||| !final(self).connected() && final(self).delivered() == old(self).delivered()
            }),
            old(self).wf() ==> final(self).wf(),
    {
        let accepted = match self.sender.send(msg) {
            Ok(()) => true,
            Err(_) => false,
        };
        self.record_send(accepted);
    }

    /// Records the channel's answer to a send: a refused message marks the
    /// peer disconnected; an accepted one leaves the mark as it was.
    fn record_send(&mut self, accepted: bool)
        ensures
            final(self).connected() == (old(self).connected() && accepted),
            final(self).channel() == old(self).channel(),
            final(self).handed() == old(self).handed(),
            final(self).delivered() == old(self).delivered(),
    {
        if !accepted {
            self.is_connected = false;
        }
    }

    /// Whether every send on this peer's channel so far was accepted.
    pub fn is_connected(&self) -> (b: bool)
        ensures
            b == self.connected(),
    {
        self.is_connected
    }
}

impl Forward {
    /// Wraps the receiving half of a peer's channel.
    pub(crate) fn from_receiver(receiver: ChannelReceiver) -> (fwd: Forward)
        ensures
            fwd.channel() == receiver.channel(),
    {
        Forward { receiver }
    }

    /// The channel whose messages this `Forward` receives.
    pub closed spec fn channel(&self) -> int {
        self.receiver.channel()
    }

    /// The receiving half of the peer's channel that this `Forward` holds:
    /// the one `Peer::new` made together with the peer's sending half.
    pub closed spec fn receiver(&self) -> UnboundedReceiver<String> {
        self.receiver.rx
    }

    /// Hands over the receiving half, for the task that writes the peer's
    /// messages to its connection.
    pub fn into_receiver(self) -> (rx: UnboundedReceiver<String>)
        ensures
            rx == self.receiver(),
    {
        self.receiver.rx
    }
}

} // verus!
