use chat::{
    client_action, encode_line, joined_message, left_message, said_message, ClientAction,
    ClientEvent, LineError, LineEvent, LineReader, Peer, PeerAddr, Server, Session, SessionStep,
};
use tokio::sync::mpsc::UnboundedReceiver;

fn v4(a: u8, b: u8, c: u8, d: u8, port: u16) -> PeerAddr {
    PeerAddr::V4 { ip: u32::from_be_bytes([a, b, c, d]), port }
}

fn drain(rx: &mut UnboundedReceiver<String>) -> Vec<String> {
    let mut got = Vec::new();
    while let Ok(msg) = rx.try_recv() {
        got.push(msg);
    }
    got
}

fn join(server: &mut Server, session: &mut Session, name: &str) -> UnboundedReceiver<String> {
    match server.serve_event(session, LineEvent::Line(name.to_string())) {
        SessionStep::Joined(fwd) => fwd.into_receiver(),
        _ => panic!("the first line did not join the peer"),
    }
}

#[test]
fn announcements_have_the_protocol_wording() {
    assert_eq!(
        joined_message("alice", "127.0.0.1:5000"),
        "alice (127.0.0.1:5000) joined the chat!"
    );
    assert_eq!(said_message("alice", "hello there"), "alice: hello there");
    assert_eq!(said_message("bob", ""), "bob: ");
    assert_eq!(left_message("alice", "[::1]:42"), "alice ([::1]:42) left the chat!");
}

#[test]
fn client_shows_received_lines_and_sends_typed_ones() {
    match client_action(ClientEvent::Received("alice: hi".to_string())) {
        ClientAction::Print(s) => assert_eq!(s, "> alice: hi"),
        ClientAction::Send(_) => panic!("a received line must be shown"),
    }
    match client_action(ClientEvent::Input("hello".to_string())) {
        ClientAction::Send(s) => assert_eq!(s, "hello"),
        ClientAction::Print(_) => panic!("a typed line must be sent"),
    }
}

#[test]
fn encode_line_appends_bytes_and_newline() {
    let mut out = Vec::new();
    encode_line("hi", &mut out);
    assert_eq!(out, b"hi\n".to_vec());
    encode_line("h\u{e9}", &mut out);
    assert_eq!(out, vec![b'h', b'i', b'\n', b'h', 0xc3, 0xa9, b'\n']);
    encode_line("", &mut out);
    assert_eq!(out.last(), Some(&b'\n'));
    assert_eq!(out.len(), 8);
}

#[test]
fn reader_waits_for_a_newline() {
    let mut reader = LineReader::new();
    reader.push_bytes(b"abc");
    assert_eq!(reader.next_line(), None);
    reader.push_bytes(b"\r\ndef\nxy");
    assert_eq!(reader.next_line(), Some(Ok("abc".to_string())));
    assert_eq!(reader.next_line(), Some(Ok("def".to_string())));
    assert_eq!(reader.next_line(), None);
    reader.push_bytes(b"z\n");
    assert_eq!(reader.next_line(), Some(Ok("xyz".to_string())));
    assert_eq!(reader.next_line(), None);
}

#[test]
fn reader_reports_bad_utf8_and_goes_on() {
    let mut reader = LineReader::new();
    reader.push_bytes(&[0xff, 0xfe, b'\n', b'o', b'k', b'\n']);
    assert_eq!(reader.next_line(), Some(Err(LineError::InvalidUtf8)));
    assert_eq!(reader.next_line(), Some(Ok("ok".to_string())));
    assert_eq!(reader.next_line(), None);
}

#[test]
fn reader_keeps_empty_lines_and_inner_carriage_returns() {
    let mut reader = LineReader::new();
    reader.push_bytes(b"\n\r\na\rb\n");
    assert_eq!(reader.next_line(), Some(Ok(String::new())));
    assert_eq!(reader.next_line(), Some(Ok(String::new())));
    assert_eq!(reader.next_line(), Some(Ok("a\rb".to_string())));
}

#[test]
fn reader_reads_the_unterminated_tail_at_the_end() {
    let mut reader = LineReader::new();
    reader.push_bytes(b"one\ntwo\r");
    assert_eq!(reader.finish_line(), Some(Ok("one".to_string())));
    assert_eq!(reader.finish_line(), Some(Ok("two".to_string())));
    assert_eq!(reader.finish_line(), None);

    let mut reader = LineReader::new();
    reader.push_bytes(b"\r");
    assert_eq!(reader.finish_line(), None);

    let mut reader = LineReader::new();
    assert_eq!(reader.finish_line(), None);

    let mut reader = LineReader::new();
    reader.push_bytes(&[0xc3]);
    assert_eq!(reader.finish_line(), Some(Err(LineError::InvalidUtf8)));
    assert_eq!(reader.finish_line(), None);
}

#[test]
fn encoded_lines_read_back() {
    let lines = ["hello", "", "gr\u{fc}\u{df}e \u{1f600}", "tab\there"];
    let mut wire = Vec::new();
    for line in lines.iter() {
        encode_line(line, &mut wire);
    }
    let mut reader = LineReader::new();
    reader.push_bytes(&wire);
    for line in lines.iter() {
        assert_eq!(reader.next_line(), Some(Ok(line.to_string())));
    }
    assert_eq!(reader.next_line(), None);
}

#[test]
fn peer_send_reaches_its_channel() {
    let (mut peer, fwd) = Peer::new();
    assert!(peer.is_connected());
    let mut rx = fwd.into_receiver();
    peer.send("first".to_string());
    peer.send("second".to_string());
    assert!(peer.is_connected());
    assert_eq!(drain(&mut rx), vec!["first".to_string(), "second".to_string()]);
}

#[test]
fn peer_is_disconnected_once_its_channel_is_gone() {
    let (mut peer, fwd) = Peer::new();
    drop(fwd);
    peer.send("lost".to_string());
    assert!(!peer.is_connected());
    peer.send("lost again".to_string());
    assert!(!peer.is_connected());
}

#[test]
fn broadcast_skips_the_sender_and_drops_the_gone() {
    let mut server = Server::new();
    let a = v4(10, 0, 0, 1, 1000);
    let b = v4(10, 0, 0, 2, 1000);
    let c = v4(10, 0, 0, 3, 1000);
    let mut ra = server.add_peer(a).into_receiver();
    let mut rb = server.add_peer(b).into_receiver();
    let rc = server.add_peer(c).into_receiver();
    assert_eq!(server.peer_count(), 3);

    server.broadcast(a, "from a".to_string());
    assert!(drain(&mut ra).is_empty());
    assert_eq!(drain(&mut rb), vec!["from a".to_string()]);

    drop(rc);
    server.broadcast(b, "from b".to_string());
    assert_eq!(drain(&mut ra), vec!["from b".to_string()]);
    assert!(drain(&mut rb).is_empty());
    assert_eq!(server.peer_count(), 2);
    assert!(server.has_peer(a));
    assert!(server.has_peer(b));
    assert!(!server.has_peer(c));
}

#[test]
fn broadcast_from_an_outsider_reaches_everyone() {
    let mut server = Server::new();
    let a = v4(10, 0, 0, 1, 1);
    let b = v4(10, 0, 0, 1, 2);
    let mut ra = server.add_peer(a).into_receiver();
    let mut rb = server.add_peer(b).into_receiver();
    server.broadcast(v4(10, 0, 0, 1, 3), "hi".to_string());
    assert_eq!(drain(&mut ra), vec!["hi".to_string()]);
    assert_eq!(drain(&mut rb), vec!["hi".to_string()]);
}

#[test]
fn adding_an_address_twice_replaces_the_peer() {
    let mut server = Server::new();
    let a = PeerAddr::V6 { ip6: 1, port: 7000, flowinfo: 0, scope_id: 0 };
    let mut old_rx = server.add_peer(a).into_receiver();
    let mut new_rx = server.add_peer(a).into_receiver();
    assert_eq!(server.peer_count(), 1);
    server.broadcast(v4(1, 2, 3, 4, 5), "x".to_string());
    assert!(drain(&mut old_rx).is_empty());
    assert_eq!(drain(&mut new_rx), vec!["x".to_string()]);
}

#[test]
fn removing_forgets_only_that_peer() {
    let mut server = Server::new();
    let a = v4(127, 0, 0, 1, 1);
    let b = v4(127, 0, 0, 1, 2);
    let _ra = server.add_peer(a);
    let _rb = server.add_peer(b);
    server.remove_peer(a);
    assert!(!server.has_peer(a));
    assert!(server.has_peer(b));
    server.remove_peer(a);
    assert_eq!(server.peer_count(), 1);
}

#[test]
fn a_chat_session_from_join_to_leave() {
    let mut server = Server::new();
    let alice_addr = v4(127, 0, 0, 1, 5001);
    let bob_addr = v4(127, 0, 0, 1, 5002);
    let mut alice = Session::new(alice_addr, "127.0.0.1:5001".to_string());
    let mut bob = Session::new(bob_addr, "127.0.0.1:5002".to_string());

    let mut to_alice = join(&mut server, &mut alice, "alice");
    let mut to_bob = join(&mut server, &mut bob, "bob");
    assert_eq!(drain(&mut to_alice), vec!["bob (127.0.0.1:5002) joined the chat!".to_string()]);
    assert!(drain(&mut to_bob).is_empty());

    assert!(matches!(
        server.serve_event(&mut bob, LineEvent::Line("hi all".to_string())),
        SessionStep::Continue
    ));
    assert!(matches!(server.serve_event(&mut bob, LineEvent::Error), SessionStep::Continue));
    assert!(matches!(
        server.serve_event(&mut alice, LineEvent::Line("hey bob".to_string())),
        SessionStep::Continue
    ));
    assert_eq!(drain(&mut to_alice), vec!["bob: hi all".to_string()]);
    assert_eq!(drain(&mut to_bob), vec!["alice: hey bob".to_string()]);

    assert!(matches!(server.serve_event(&mut bob, LineEvent::End), SessionStep::Finished));
    assert!(bob.is_closed());
    assert!(!server.has_peer(bob_addr));
    assert!(server.has_peer(alice_addr));
    assert_eq!(drain(&mut to_alice), vec!["bob (127.0.0.1:5002) left the chat!".to_string()]);

    assert!(matches!(
        server.serve_event(&mut bob, LineEvent::Line("late".to_string())),
        SessionStep::Finished
    ));
    assert!(drain(&mut to_alice).is_empty());
}

#[test]
fn a_session_that_ends_before_its_name_leaves_no_trace() {
    let mut server = Server::new();
    let watcher = v4(1, 1, 1, 1, 1);
    let mut to_watcher = server.add_peer(watcher).into_receiver();

    let mut quiet = Session::new(v4(2, 2, 2, 2, 2), "2.2.2.2:2".to_string());
    assert!(matches!(server.serve_event(&mut quiet, LineEvent::End), SessionStep::Finished));
    assert!(quiet.is_closed());

    let mut broken = Session::new(v4(3, 3, 3, 3, 3), "3.3.3.3:3".to_string());
    assert!(matches!(server.serve_event(&mut broken, LineEvent::Error), SessionStep::Finished));
    assert!(broken.is_closed());

    assert_eq!(server.peer_count(), 1);
    assert!(drain(&mut to_watcher).is_empty());
}

#[test]
fn a_peer_whose_connection_is_gone_is_dropped_on_the_next_message() {
    let mut server = Server::new();
    let mut alice = Session::new(v4(9, 9, 9, 1, 1), "9.9.9.1:1".to_string());
    let mut bob = Session::new(v4(9, 9, 9, 2, 2), "9.9.9.2:2".to_string());
    let to_alice = join(&mut server, &mut alice, "alice");
    let mut to_bob = join(&mut server, &mut bob, "bob");
    drop(to_alice);
    server.serve_event(&mut bob, LineEvent::Line("anyone?".to_string()));
    assert_eq!(server.peer_count(), 1);
    assert!(drain(&mut to_bob).is_empty());
    assert!(matches!(server.serve_event(&mut alice, LineEvent::End), SessionStep::Finished));
    assert_eq!(drain(&mut to_bob), vec!["alice (9.9.9.1:1) left the chat!".to_string()]);
}

#[test]
fn a_flagless_peer_delivers_while_its_channel_lives() {
    let (mut peer, fwd) = chat::simple::Peer::new();
    let mut rx = fwd.into_receiver();
    peer.send("one".to_string());
    peer.send("two".to_string());
    assert_eq!(drain(&mut rx), vec!["one".to_string(), "two".to_string()]);
}

#[test]
fn a_flagless_peer_drops_messages_once_its_channel_is_gone() {
    let (mut peer, fwd) = chat::simple::Peer::new();
    drop(fwd);
    peer.send("lost".to_string());
    peer.send("lost again".to_string());
}

#[test]
fn retaining_connected_peers_keeps_a_healthy_table() {
    let mut server = Server::new();
    let a = v4(8, 8, 8, 8, 1);
    let b = v4(8, 8, 8, 8, 2);
    let mut ra = server.add_peer(a).into_receiver();
    let _rb = server.add_peer(b);
    server.retain_connected();
    assert_eq!(server.peer_count(), 2);
    server.broadcast(b, "still here".to_string());
    assert_eq!(drain(&mut ra), vec!["still here".to_string()]);
}
