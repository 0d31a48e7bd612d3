use ringkv::backlog::Request;
use ringkv::model::DropReason;
use ringkv::protocol::FrameError;
use ringkv::server::{Reaction, Server};
use ringkv::store::CommandKind;
use ringkv::token::{MessageState, Token};

/// Completes the standing accept with `fd` and returns the key of the new token.
fn accept(server: &mut Server, fd: i32) -> u64 {
    match server.on_completion(0, fd) {
        Reaction::Submit(Request::PollAdd { fd: polled, user_data }) => {
            assert_eq!(polled, fd);
            user_data
        }
        other => panic!("unexpected reaction to accept: {:?}", other),
    }
}

/// Completes the poll of `key` and returns the buffer and length of the read that follows.
fn readable(server: &mut Server, key: u64) -> (usize, usize) {
    match server.on_completion(key, 1) {
        Reaction::Submit(Request::Recv { buf_index, len, user_data, .. }) => {
            assert_eq!(user_data, key);
            (buf_index, len)
        }
        other => panic!("unexpected reaction to poll: {:?}", other),
    }
}

/// Writes `bytes` into buffer `buf` as a receive would and completes the read of `key`.
fn receive(server: &mut Server, key: u64, buf: usize, bytes: &[u8]) -> Reaction {
    server.buffer_mut(buf).unwrap()[..bytes.len()].copy_from_slice(bytes);
    server.on_completion(key, bytes.len() as i32)
}

/// Delivers one whole frame to the connection of `key`.
fn send_frame(server: &mut Server, fd: i32, key: u64, payload: &[u8]) {
    let (buf, len) = readable(server, key);
    assert_eq!(len, 4);
    let header = (payload.len() as u32).to_be_bytes();
    match receive(server, key, buf, &header) {
        Reaction::Submit(Request::Recv { fd: from, buf_index, len, user_data }) => {
            assert_eq!(from, fd);
            assert_eq!(buf_index, buf);
            assert_eq!(len, payload.len());
            assert_eq!(user_data, key);
        }
        other => panic!("unexpected reaction to header: {:?}", other),
    }
    match receive(server, key, buf, payload) {
        Reaction::Submit(Request::PollAdd { fd: polled, user_data }) => {
            assert_eq!(polled, fd);
            assert_eq!(user_data, key);
        }
        other => panic!("unexpected reaction to payload: {:?}", other),
    }
}

/// Runs a whole connection: accept, the frames, the terminating frame.
fn send_command(server: &mut Server, fd: i32, parts: &[&str]) -> Reaction {
    let key = accept(server, fd);
    for part in parts {
        send_frame(server, fd, key, part.as_bytes());
    }
    let (buf, _) = readable(server, key);
    receive(server, key, buf, &[0, 0, 0, 0])
}

#[test]
fn new_server_holds_only_the_accept_token() {
    let server = Server::new();
    assert_eq!(server.token(0), Some(Token::Accept));
    assert_eq!(server.token(1), None);
    assert_eq!(server.accept_request(), Request::Accept { user_data: 0 });
    assert_eq!(server.backlog_len(), 0);
    assert!(server.buffer(0).is_none());
    assert_eq!(server.lookup("a"), None);
}

#[test]
fn accept_creates_a_poll_token_in_header_phase() {
    let mut server = Server::new();
    let key = accept(&mut server, 7);
    assert_eq!(key, 1);
    assert_eq!(server.token(1), Some(Token::Poll { fd: 7, state: MessageState::Header }));
    assert_eq!(server.token(0), Some(Token::Accept));
    assert_eq!(server.token_of(7), Some(1));
}

#[test]
fn negative_accept_result_is_only_reported() {
    let mut server = Server::new();
    assert!(matches!(server.on_completion(0, -24), Reaction::AcceptFailed(-24)));
    assert_eq!(server.token(0), Some(Token::Accept));
    assert_eq!(server.token(1), None);
    assert_eq!(accept(&mut server, 7), 1);
}

#[test]
fn accept_of_a_live_identifier_is_rejected() {
    let mut server = Server::new();
    accept(&mut server, 7);
    assert!(matches!(server.on_completion(0, 7), Reaction::Rejected(7)));
    assert_eq!(server.token(2), None);
    assert_eq!(server.token_of(7), Some(1));
}

#[test]
fn completion_without_token_changes_nothing() {
    let mut server = Server::new();
    assert!(matches!(server.on_completion(5, 3), Reaction::Stale));
    assert!(matches!(server.on_completion(u64::MAX, 3), Reaction::Stale));
    assert_eq!(server.token(0), Some(Token::Accept));
    assert_eq!(server.token(1), None);
}

#[test]
fn poll_completion_starts_a_header_read() {
    let mut server = Server::new();
    let key = accept(&mut server, 7);
    let reaction = server.on_completion(key, 1);
    assert!(matches!(
        reaction,
        Reaction::Submit(Request::Recv { fd: 7, buf_index: 0, len: 4, user_data: 1 })
    ));
    assert_eq!(
        server.token(1),
        Some(Token::Read { fd: 7, buf_index: 0, state: MessageState::Header, want: 4 })
    );
    assert_eq!(server.buffer(0).unwrap().len(), 4101);
}

#[test]
fn header_keeps_the_buffer_for_the_payload() {
    let mut server = Server::new();
    let key = accept(&mut server, 7);
    let (buf, _) = readable(&mut server, key);
    let reaction = receive(&mut server, key, buf, &[0, 0, 0, 3]);
    assert!(matches!(
        reaction,
        Reaction::Submit(Request::Recv { fd: 7, buf_index: 0, len: 3, user_data: 1 })
    ));
    assert_eq!(
        server.token(1),
        Some(Token::Read { fd: 7, buf_index: 0, state: MessageState::Message, want: 3 })
    );
}

#[test]
fn payload_returns_the_buffer_and_polls_again() {
    let mut server = Server::new();
    let key = accept(&mut server, 7);
    send_frame(&mut server, 7, key, b"set");
    assert_eq!(server.token(1), Some(Token::Poll { fd: 7, state: MessageState::Header }));
    let other = accept(&mut server, 8);
    let (buf, _) = readable(&mut server, other);
    assert_eq!(buf, 0);
}

#[test]
fn set_command_stores_the_value() {
    let mut server = Server::new();
    match send_command(&mut server, 7, &["set", "a", "b"]) {
        Reaction::Closed { fd, outcome } => {
            assert_eq!(fd, 7);
            assert_eq!(outcome.kind, CommandKind::Assign);
            assert_eq!(outcome.value, None);
        }
        other => panic!("unexpected reaction: {:?}", other),
    }
    assert_eq!(server.lookup("a"), Some("b".to_string()));
    assert_eq!(server.token(1), None);
    assert_eq!(server.token_of(7), None);
}

#[test]
fn get_on_a_later_connection_sees_the_value() {
    let mut server = Server::new();
    send_command(&mut server, 7, &["set", "a", "b"]);
    match send_command(&mut server, 7, &["get", "a"]) {
        Reaction::Closed { fd, outcome } => {
            assert_eq!(fd, 7);
            assert_eq!(outcome.kind, CommandKind::Lookup);
            assert_eq!(outcome.value, Some("b".to_string()));
        }
        other => panic!("unexpected reaction: {:?}", other),
    }
    assert_eq!(server.lookup("a"), Some("b".to_string()));
}

#[test]
fn del_of_absent_key_through_a_connection() {
    let mut server = Server::new();
    send_command(&mut server, 7, &["set", "a", "b"]);
    match send_command(&mut server, 9, &["del", "zz"]) {
        Reaction::Closed { fd, outcome } => {
            assert_eq!(fd, 9);
            assert_eq!(outcome.kind, CommandKind::Delete);
            assert_eq!(outcome.value, None);
        }
        other => panic!("unexpected reaction: {:?}", other),
    }
    assert_eq!(server.lookup("a"), Some("b".to_string()));
}

#[test]
fn commands_do_not_leak_into_a_reused_identifier() {
    let mut server = Server::new();
    send_command(&mut server, 7, &["set", "a", "b"]);
    match send_command(&mut server, 7, &["del", "a"]) {
        Reaction::Closed { outcome, .. } => {
            assert_eq!(outcome.kind, CommandKind::Delete);
            assert_eq!(outcome.value, Some("b".to_string()));
        }
        other => panic!("unexpected reaction: {:?}", other),
    }
    assert_eq!(server.lookup("a"), None);
}

#[test]
fn zero_byte_read_runs_the_commands() {
    let mut server = Server::new();
    let key = accept(&mut server, 7);
    send_frame(&mut server, 7, key, b"set");
    send_frame(&mut server, 7, key, b"k");
    send_frame(&mut server, 7, key, b"v");
    readable(&mut server, key);
    match server.on_completion(key, 0) {
        Reaction::Closed { fd, outcome } => {
            assert_eq!(fd, 7);
            assert_eq!(outcome.kind, CommandKind::Assign);
        }
        other => panic!("unexpected reaction: {:?}", other),
    }
    assert_eq!(server.lookup("k"), Some("v".to_string()));
}

#[test]
fn connection_without_frames_is_malformed_and_harmless() {
    let mut server = Server::new();
    match send_command(&mut server, 7, &[]) {
        Reaction::Closed { fd, outcome } => {
            assert_eq!(fd, 7);
            assert_eq!(outcome.kind, CommandKind::Malformed);
        }
        other => panic!("unexpected reaction: {:?}", other),
    }
    assert_eq!(server.token(1), None);
}

#[test]
fn short_payload_is_dropped_without_dispatch() {
    let mut server = Server::new();
    send_command(&mut server, 5, &["set", "a", "old"]);
    let key = accept(&mut server, 7);
    send_frame(&mut server, 7, key, b"set");
    send_frame(&mut server, 7, key, b"a");
    let (buf, _) = readable(&mut server, key);
    assert!(matches!(
        receive(&mut server, key, buf, &[0, 0, 0, 5]),
        Reaction::Submit(Request::Recv { len: 5, .. })
    ));
    match receive(&mut server, key, buf, b"new") {
        Reaction::Dropped { fd, reason } => {
            assert_eq!(fd, 7);
            assert_eq!(reason, DropReason::Frame(FrameError::PayloadLength));
        }
        other => panic!("unexpected reaction: {:?}", other),
    }
    assert_eq!(server.lookup("a"), Some("old".to_string()));
    assert_eq!(server.token(key as usize), None);
    assert_eq!(server.token_of(7), None);
}

#[test]
fn short_header_is_dropped() {
    let mut server = Server::new();
    let key = accept(&mut server, 7);
    let (buf, _) = readable(&mut server, key);
    match receive(&mut server, key, buf, &[0, 0, 3]) {
        Reaction::Dropped { fd, reason } => {
            assert_eq!(fd, 7);
            assert_eq!(reason, DropReason::Frame(FrameError::HeaderLength));
        }
        other => panic!("unexpected reaction: {:?}", other),
    }
    assert_eq!(server.token_of(7), None);
}

#[test]
fn oversize_header_is_dropped() {
    let mut server = Server::new();
    let key = accept(&mut server, 7);
    let (buf, _) = readable(&mut server, key);
    match receive(&mut server, key, buf, &4097u32.to_be_bytes()) {
        Reaction::Dropped { fd, reason } => {
            assert_eq!(fd, 7);
            assert_eq!(reason, DropReason::Frame(FrameError::Oversize));
        }
        other => panic!("unexpected reaction: {:?}", other),
    }
}

#[test]
fn largest_frame_is_accepted() {
    let mut server = Server::new();
    let key = accept(&mut server, 7);
    let payload = vec![b'x'; 4096];
    send_frame(&mut server, 7, key, &payload);
    assert_eq!(server.token(1), Some(Token::Poll { fd: 7, state: MessageState::Header }));
}

#[test]
fn invalid_utf8_payload_is_dropped() {
    let mut server = Server::new();
    let key = accept(&mut server, 7);
    let (buf, _) = readable(&mut server, key);
    receive(&mut server, key, buf, &[0, 0, 0, 2]);
    match receive(&mut server, key, buf, &[0xc3, 0x28]) {
        Reaction::Dropped { fd, reason } => {
            assert_eq!(fd, 7);
            assert_eq!(reason, DropReason::Frame(FrameError::Utf8));
        }
        other => panic!("unexpected reaction: {:?}", other),
    }
}

#[test]
fn negative_result_tears_the_connection_down() {
    let mut server = Server::new();
    let key = accept(&mut server, 7);
    let (buf, _) = readable(&mut server, key);
    assert_eq!(buf, 0);
    match server.on_completion(key, -104) {
        Reaction::Dropped { fd, reason } => {
            assert_eq!(fd, 7);
            assert_eq!(reason, DropReason::Os(-104));
        }
        other => panic!("unexpected reaction: {:?}", other),
    }
    assert_eq!(server.token(1), None);
    let again = accept(&mut server, 8);
    assert_eq!(again, 1);
    assert!(matches!(server.on_completion(again, -9), Reaction::Dropped { fd: 8, .. }));
    let third = accept(&mut server, 9);
    let (reused, _) = readable(&mut server, third);
    assert_eq!(reused, 0);
}

#[test]
fn connections_interleave_with_their_own_tokens_and_buffers() {
    let mut server = Server::new();
    let a = accept(&mut server, 7);
    let b = accept(&mut server, 8);
    assert_ne!(a, b);
    let (buf_a, _) = readable(&mut server, a);
    let (buf_b, _) = readable(&mut server, b);
    assert_ne!(buf_a, buf_b);
    receive(&mut server, a, buf_a, &[0, 0, 0, 3]);
    receive(&mut server, b, buf_b, &[0, 0, 0, 3]);
    receive(&mut server, b, buf_b, b"del");
    receive(&mut server, a, buf_a, b"set");
    send_frame(&mut server, 7, a, b"k");
    send_frame(&mut server, 8, b, b"k");
    send_frame(&mut server, 7, a, b"v");
    let (buf, _) = readable(&mut server, a);
    assert!(matches!(
        receive(&mut server, a, buf, &[0, 0, 0, 0]),
        Reaction::Closed { fd: 7, .. }
    ));
    assert_eq!(server.lookup("k"), Some("v".to_string()));
    let (buf, _) = readable(&mut server, b);
    match receive(&mut server, b, buf, &[0, 0, 0, 0]) {
        Reaction::Closed { fd, outcome } => {
            assert_eq!(fd, 8);
            assert_eq!(outcome.kind, CommandKind::Delete);
            assert_eq!(outcome.value, Some("v".to_string()));
        }
        other => panic!("unexpected reaction: {:?}", other),
    }
    assert_eq!(server.lookup("k"), None);
}

#[test]
fn framed_stream_decodes_to_its_payloads_in_order() {
    let mut server = Server::new();
    let parts = ["set", "gr\u{fc}\u{df}e", "w\u{f6}rld \u{2603}"];
    assert!(matches!(send_command(&mut server, 3, &parts), Reaction::Closed { fd: 3, .. }));
    assert_eq!(server.lookup("gr\u{fc}\u{df}e"), Some("w\u{f6}rld \u{2603}".to_string()));
}

#[test]
fn deferred_requests_leave_in_order() {
    let mut server = Server::new();
    let a = Request::PollAdd { fd: 1, user_data: 1 };
    let b = Request::Recv { fd: 2, buf_index: 0, len: 4, user_data: 2 };
    let c = server.accept_request();
    server.defer(a);
    server.defer(b);
    server.defer(c);
    assert_eq!(server.backlog_len(), 3);
    assert_eq!(server.drain_backlog(0), vec![]);
    assert_eq!(server.drain_backlog(2), vec![a, b]);
    assert_eq!(server.backlog_len(), 1);
    assert_eq!(server.drain_backlog(5), vec![c]);
    assert_eq!(server.backlog_len(), 0);
}

#[test]
fn buffer_mut_of_unknown_buffer_is_none() {
    let mut server = Server::new();
    assert!(server.buffer_mut(0).is_none());
    let key = accept(&mut server, 7);
    let (buf, _) = readable(&mut server, key);
    assert!(server.buffer_mut(buf).is_some());
    assert!(server.buffer_mut(buf + 1).is_none());
}

#[test]
fn route_pushes_while_there_is_room_and_defers_otherwise() {
    let mut server = Server::new();
    let a = Request::PollAdd { fd: 1, user_data: 1 };
    let b = Request::PollAdd { fd: 2, user_data: 2 };
    assert!(server.route(a, 3));
    assert_eq!(server.backlog_len(), 0);
    assert!(!server.route(a, 0));
    assert!(!server.route(b, 0));
    assert_eq!(server.backlog_len(), 2);
    assert!(server.route(b, 1));
    assert_eq!(server.backlog_len(), 2);
    assert_eq!(server.drain_backlog(8), vec![a, b]);
}

#[test]
fn every_submitted_request_carries_the_key_of_its_token() {
    let mut server = Server::new();
    let key = accept(&mut server, 7);
    assert_eq!(server.token_of(7), Some(key as usize));
    let (buf, len) = readable(&mut server, key);
    assert_eq!(
        server.token(key as usize),
        Some(Token::Read { fd: 7, buf_index: buf, state: MessageState::Header, want: len })
    );
    match receive(&mut server, key, buf, &[0, 0, 0, 2]) {
        Reaction::Submit(Request::Recv { fd, buf_index, len, user_data }) => {
            assert_eq!(
                server.token(user_data as usize),
                Some(Token::Read { fd, buf_index, state: MessageState::Message, want: len })
            );
        }
        other => panic!("unexpected reaction: {:?}", other),
    }
}
