//! A newline-delimited, multi-user chat protocol.
//!
//! - `codec`: the wire format, one UTF-8 line per frame, each ended by `\n`;
//! - `peer`: the broker's handle on one peer, the sending half of the
//!   channel that feeds the peer's connection, with a mark for a refused
//!   send; `simple`: the same handle without that mark;
//! - `table` and `server`: the broker's peer table, keyed by address, and
//!   its operations (add, remove, broadcast to everyone but the sender);
//! - `session`: what each line of a connection means (the username first,
//!   then chat messages, then the departure);
//! - `client`: what the client does with a received or a typed line;
//! - `laws` and `framing`: what holds across these operations.

mod addr;
mod client;
mod codec;
mod framing;
mod laws;
mod message;
mod peer;
mod server;
mod session;
pub mod simple;
mod table;
mod text_laws;

pub use addr::PeerAddr;
pub use client::{client_action, shown_text, ClientAction, ClientEvent};
pub use codec::{
    after_frame, encode_line, first_newline, first_newline_at, frame_bytes, frame_content,
    has_final_line, has_newline, read_as, strip_cr, LineError, LineReader, CARRIAGE_RETURN, NEWLINE,
};
pub use framing::law_frame_roundtrip;
pub use text_laws::{
    law_joined_text_keeps_name_and_addr, law_left_text_keeps_name_and_addr,
    law_said_text_keeps_name_and_line, law_shown_text_keeps_line,
};
pub use laws::{
    law_add_keeps_invariant, law_add_then_remove, law_broadcast_keeps_invariant,
    law_broadcast_reaches_others, law_broadcast_spares_sender, law_join_adds_peer,
    law_broadcast_drops_only_refused, law_leave_removes_peer, law_peer_connected_iff_all_delivered,
    law_remove_forgets, law_remove_keeps_others,
};
pub use message::{joined_message, joined_text, left_message, left_text, said_message, said_text};
pub use peer::{Forward, Peer};
pub use server::{entry_record, entry_records, Server};
pub use session::{
    next_phase, step_matches, table_step, LineEvent, Phase, Session, SessionStep,
};
pub use table::{
    addr_index, all_connected, all_delivered, broadcast_outcome, broadcast_split, connected_only,
    delivered_to_others, disconnected_only,
    distinct_addrs, fresh_record, has_addr, sent_once, with_peer, without_peer, PeerRecord,
};
