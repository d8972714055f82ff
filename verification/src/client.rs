use vstd::prelude::*;

verus! {

/// What the client saw next.
pub enum ClientEvent {
    /// A line from the server.
    Received(String),
    /// A line the user typed.
    Input(String),
}

/// What the client does about it.
pub enum ClientAction {
    /// Show this line to the user.
    Print(String),
    /// Send this line to the server.
    Send(String),
}

/// How a line from the server is shown: `"> {line}"`.
pub open spec fn shown_text(line: Seq<char>) -> Seq<char> {
    "> "@ + line
}

/// The client's answer to an event: a line from the server is shown to the
/// user with a `"> "` prefix; a line the user typed is sent to the server
/// as it is.
pub fn client_action(event: ClientEvent) -> (action: ClientAction)
    ensures
        match event {
            ClientEvent::Received(line) => action matches ClientAction::Print(shown) && shown@
                == shown_text(line@),
            ClientEvent::Input(line) => action matches ClientAction::Send(sent) && sent@ == line@,
        },
{
    match event {
        ClientEvent::Received(line) => {
            let mut shown = "> ".to_owned();
            shown.append(line.as_str());
            ClientAction::Print(shown)
        },
        ClientEvent::Input(line) => ClientAction::Send(line),
    }
}

} // verus!
