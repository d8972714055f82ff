use vstd::prelude::*;

use crate::addr::PeerAddr;
use crate::message::{joined_message, joined_text, left_message, left_text, said_message, said_text};
use crate::peer::Forward;
use crate::server::Server;
use crate::table::{broadcast_outcome, with_peer, without_peer};

verus! {

/// Where a connection stands.
enum SessionState {
    /// Connected; the first line, the username, has not arrived yet.
    AwaitingName,
    /// The peer has sent its username and is in the chat.
    Joined { name: String },
    /// The connection is done with: it ended, or failed before a username.
    Closed,
}

/// Where a connection stands, as the contracts see it.
pub enum Phase {
    AwaitingName,
    Joined { name: Seq<char> },
    Closed,
}

/// One connection to the broker: the peer's address, its address as the
/// announcements write it, and where the connection stands.
pub struct Session {
    addr: PeerAddr,
    addr_text: String,
    state: SessionState,
}

/// What the connection's reader produced next.
pub enum LineEvent {
    /// A line.
    Line(String),
    /// A line that could not be read.
    Error,
    /// The peer closed the connection.
    End,
}

/// What the task that serves the connection does next.
pub enum SessionStep {
    /// Read the next line.
    Continue,
    /// The peer has joined: start forwarding what its channel receives to
    /// its connection, then read the next line.
    Joined(Forward),
    /// Stop serving the connection.
    Finished,
}

impl Session {
    pub closed spec fn addr(&self) -> PeerAddr {
        self.addr
    }

    pub closed spec fn addr_text(&self) -> Seq<char> {
        self.addr_text@
    }

    pub closed spec fn phase(&self) -> Phase {
        match &self.state {
            SessionState::AwaitingName => Phase::AwaitingName,
            SessionState::Joined { name } => Phase::Joined { name: name@ },
            SessionState::Closed => Phase::Closed,
        }
    }

    /// A connection from `addr` (written `addr_text`) that has sent nothing yet.
    pub fn new(addr: PeerAddr, addr_text: String) -> (session: Session)
        ensures
            session.addr() == addr,
            session.addr_text() == addr_text@,
            session.phase() == Phase::AwaitingName,
    {
        Session { addr, addr_text, state: SessionState::AwaitingName }
    }

    /// Whether the username has yet to arrive.
    pub fn is_awaiting_name(&self) -> (b: bool)
        ensures
            b == (self.phase() == Phase::AwaitingName),
    {
        match &self.state {
            SessionState::AwaitingName => true,
            _ => false,
        }
    }

    /// Whether the connection is done with.
    pub fn is_closed(&self) -> (b: bool)
        ensures
            b == (self.phase() == Phase::Closed),
    {
        match &self.state {
            SessionState::Closed => true,
            _ => false,
        }
    }
}

/// The phase a connection moves to on an event.
pub open spec fn next_phase(phase: Phase, event: LineEvent) -> Phase {
    match (phase, event) {
        (Phase::AwaitingName, LineEvent::Line(name)) => Phase::Joined { name: name@ },
        (Phase::AwaitingName, _) => Phase::Closed,
        (Phase::Joined { name }, LineEvent::End) => Phase::Closed,
        (Phase::Joined { name }, _) => Phase::Joined { name },
        (Phase::Closed, _) => Phase::Closed,
    }
}

/// How the peer table changes on an event of the connection from `addr`
/// (written `addr_text`) that the serving task is answered with `step`: the
/// username adds the peer, fed by the channel of the `Forward` handed back,
/// and announces it; a
/// line is relayed to the others as `"{name}: {line}"`; the end announces
/// the departure and removes the peer; nothing else changes the table.
pub open spec fn table_step(
    phase: Phase,
    event: LineEvent,
    step: SessionStep,
    addr: PeerAddr,
    addr_text: Seq<char>,
    before: Seq<crate::table::PeerRecord>,
    after: Seq<crate::table::PeerRecord>,
) -> bool {
    match (phase, event) {
        (Phase::AwaitingName, LineEvent::Line(name)) => match step {
            SessionStep::Joined(fwd) => broadcast_outcome(
                with_peer(before, addr, fwd.channel()),
                after,
                addr,
                joined_text(name@, addr_text),
            ),
            _ => false,
        },
        (Phase::Joined { name }, LineEvent::Line(line)) => broadcast_outcome(
            before,
            after,
            addr,
            said_text(name, line@),
        ),
        (Phase::Joined { name }, LineEvent::End) => exists|mid: Seq<crate::table::PeerRecord>|
            broadcast_outcome(before, mid, addr, left_text(name, addr_text)) && after
                == #[trigger] without_peer(mid, addr),
        _ => after == before,
    }
}

/// What the serving task is told to do on an event.
pub open spec fn step_matches(phase: Phase, event: LineEvent, step: SessionStep) -> bool {
    match (phase, event) {
        (Phase::AwaitingName, LineEvent::Line(_)) => step is Joined,
        (Phase::Joined { name }, LineEvent::End) => step is Finished,
        (Phase::Joined { name }, _) => step is Continue,
        _ => step is Finished,
    }
}

impl Server {
    /// Serves one event of a connection: the first line is the peer's
    /// username, which adds the peer to the table and announces it to the
    /// others; each later line is relayed to the others; a line that cannot
    /// be read is skipped; the end of the connection announces the departure
    /// and removes the peer. A connection that fails or ends before sending
    /// a username is closed without a trace.
    pub fn serve_event(&mut self, session: &mut Session, event: LineEvent) -> (step: SessionStep)
        requires
            old(self).wf(),
        ensures
            final(self).wf(),
            final(session).addr() == old(session).addr(),
            final(session).addr_text() == old(session).addr_text(),
            final(session).phase() == next_phase(old(session).phase(), event),
            step_matches(old(session).phase(), event, step),
            table_step(
                old(session).phase(),
                event,
                step,
                old(session).addr(),
                old(session).addr_text(),
                old(self)@,
                final(self)@,
            ),
    {
        let mut state = SessionState::Closed;
        std::mem::swap(&mut state, &mut session.state);
        match state {
            SessionState::AwaitingName => {
                match event {
                    LineEvent::Line(name) => {
                        let fwd = self.add_peer(session.addr);
                        let msg = joined_message(name.as_str(), session.addr_text.as_str());
                        self.broadcast(session.addr, msg);
                        session.state = SessionState::Joined { name };
                        SessionStep::Joined(fwd)
                    },
                    _ => SessionStep::Finished,
                }
            },
            SessionState::Joined { name } => {
                match event {
                    LineEvent::Line(line) => {
                        let msg = said_message(name.as_str(), line.as_str());
                        self.broadcast(session.addr, msg);
                        session.state = SessionState::Joined { name };
                        SessionStep::Continue
                    },
                    LineEvent::Error => {
                        session.state = SessionState::Joined { name };
                        SessionStep::Continue
                    },
                    LineEvent::End => {
                        let msg = left_message(name.as_str(), session.addr_text.as_str());
                        self.broadcast(session.addr, msg);
                        self.remove_peer(session.addr);
                        SessionStep::Finished
                    },
                }
            },
            SessionState::Closed => SessionStep::Finished,
        }
    }
}

} // verus!
