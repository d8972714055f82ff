use vstd::prelude::*;

verus! {

/// What the broker tells the other peers when `name`, connected from the
/// address written `addr`, joins: `"{name} ({addr}) joined the chat!"`.
pub open spec fn joined_text(name: Seq<char>, addr: Seq<char>) -> Seq<char> {
    name + " ("@ + addr + ") joined the chat!"@
}

/// What the broker tells the other peers when `name` says `line`:
/// `"{name}: {line}"`.
pub open spec fn said_text(name: Seq<char>, line: Seq<char>) -> Seq<char> {
    name + ": "@ + line
}

/// What the broker tells the other peers when `name`, connected from the
/// address written `addr`, leaves: `"{name} ({addr}) left the chat!"`.
pub open spec fn left_text(name: Seq<char>, addr: Seq<char>) -> Seq<char> {
    name + " ("@ + addr + ") left the chat!"@
}

/// Builds the announcement that a peer joined the chat.
pub fn joined_message(name: &str, addr: &str) -> (msg: String)
    ensures
        msg@ == joined_text(name@, addr@),
{
    let mut msg = name.to_owned();
    msg.append(" (");
    msg.append(addr);
    msg.append(") joined the chat!");
    msg
}

/// Builds the line the broker relays when a peer says something.
pub fn said_message(name: &str, line: &str) -> (msg: String)
    ensures
        msg@ == said_text(name@, line@),
{
    let mut msg = name.to_owned();
    msg.append(": ");
    msg.append(line);
    msg
}

/// Builds the announcement that a peer left the chat.
pub fn left_message(name: &str, addr: &str) -> (msg: String)
    ensures
        msg@ == left_text(name@, addr@),
{
    let mut msg = name.to_owned();
    msg.append(" (");
    msg.append(addr);
    msg.append(") left the chat!");
    msg
}

} // verus!
