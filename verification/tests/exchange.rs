use cbor_socket::codec::{decode_response, encode_request, encode_response};
use cbor_socket::command::{select_mode, Invocation, Mode};
use cbor_socket::exchange::{
    receive_message, receive_response, respond, send_message, Progress, PAUSE_SECONDS,
};
use cbor_socket::message::{
    CborSocketExampleError, SocketMessage, SocketRequest, SocketResponse,
};
use cbor_socket::server::{server_step, spawn_socket, ServerAction, ServerEvent, ServerState};

fn pong_with_failure() -> SocketResponse {
    SocketResponse { message: SocketMessage::Pong, error: Some(CborSocketExampleError::StuffBroke) }
}

fn words(list: &[&str]) -> Vec<String> {
    list.iter().map(|w| w.to_string()).collect()
}

#[test]
fn handler_always_answers_pong_with_the_generic_failure() {
    assert_eq!(respond(&SocketRequest { message: SocketMessage::Ping }), pong_with_failure());
    assert_eq!(respond(&SocketRequest { message: SocketMessage::Pong }), pong_with_failure());
}

#[test]
fn client_sends_a_ping() {
    assert_eq!(send_message(), encode_request(&SocketRequest { message: SocketMessage::Ping }));
    assert_eq!(PAUSE_SECONDS, 3);
}

#[test]
fn exchange_is_complete() {
    let sent = send_message();
    let reply = match receive_message(&sent, false) {
        Progress::Ready(reply) => reply,
        other => panic!("no reply: {:?}", other),
    };
    assert_eq!(reply, encode_response(&pong_with_failure()));
    assert_eq!(receive_response(&reply, false), Progress::Ready(pong_with_failure()));
    assert_eq!(receive_response(&reply, true), Progress::Ready(pong_with_failure()));
    assert_eq!(decode_response(&reply), Ok((pong_with_failure(), reply.len())));
}

#[test]
fn handler_waits_for_the_rest_of_a_request() {
    let sent = send_message();
    for len in 0..sent.len() {
        assert_eq!(receive_message(&sent[..len], false), Progress::Wait);
    }
}

#[test]
fn handler_fails_when_the_stream_ends_early() {
    let sent = send_message();
    for len in 0..sent.len() {
        assert_eq!(
            receive_message(&sent[..len], true),
            Progress::Fail(CborSocketExampleError::CborSerializationError)
        );
    }
}

#[test]
fn handler_fails_on_malformed_bytes() {
    for closed in [false, true] {
        assert_eq!(
            receive_message(b"GET / HTTP/1.1\r\n", closed),
            Progress::Fail(CborSocketExampleError::CborSerializationError)
        );
    }
}

#[test]
fn client_waits_then_fails_when_the_stream_ends_early() {
    let reply = encode_response(&pong_with_failure());
    for len in 0..reply.len() {
        assert_eq!(receive_response(&reply[..len], false), Progress::Wait);
        assert_eq!(
            receive_response(&reply[..len], true),
            Progress::Fail(CborSocketExampleError::CborSerializationError)
        );
    }
    assert_eq!(
        receive_response(&[0x00], false),
        Progress::Fail(CborSocketExampleError::CborSerializationError)
    );
}

#[test]
fn client_reports_a_response_with_any_failure_inside() {
    let response = SocketResponse {
        message: SocketMessage::Ping,
        error: Some(CborSocketExampleError::IoError { message: "disk on fire".to_string() }),
    };
    let bytes = encode_response(&response);
    assert_eq!(receive_response(&bytes, false), Progress::Ready(response));
    let plain = SocketResponse { message: SocketMessage::Pong, error: None };
    assert_eq!(receive_response(&encode_response(&plain), false), Progress::Ready(plain));
}

#[test]
fn server_starts_by_looking_at_the_path() {
    assert_eq!(spawn_socket(), (ServerState::Init, ServerAction::Probe));
}

#[test]
fn server_removes_a_stale_socket_then_binds() {
    let (state, action) = server_step(ServerState::Init, ServerEvent::PathChecked { exists: true });
    assert_eq!((state, action), (ServerState::Removing, ServerAction::RemoveStale));
    let (state, action) = server_step(state, ServerEvent::Removed);
    assert_eq!((state, action), (ServerState::Binding, ServerAction::Bind));
    let (state, action) = server_step(state, ServerEvent::Bound);
    assert_eq!((state, action), (ServerState::Accepting, ServerAction::Accept));
}

#[test]
fn server_binds_at_once_on_a_free_path() {
    assert_eq!(
        server_step(ServerState::Init, ServerEvent::PathChecked { exists: false }),
        (ServerState::Binding, ServerAction::Bind)
    );
}

#[test]
fn server_keeps_accepting_after_a_handler_fails() {
    let (state, action) = server_step(ServerState::Accepting, ServerEvent::Accepted);
    assert_eq!((state, action), (ServerState::Accepting, ServerAction::Dispatch));
    let failed = Err(CborSocketExampleError::CborSerializationError);
    let (state, action) = server_step(state, ServerEvent::Handled { outcome: failed.clone() });
    assert_eq!((state, action), (ServerState::Accepting, ServerAction::Report { outcome: failed }));
    let (state, action) = server_step(state, ServerEvent::Accepted);
    assert_eq!((state, action), (ServerState::Accepting, ServerAction::Dispatch));
    let (state, action) = server_step(state, ServerEvent::Handled { outcome: Ok(()) });
    assert_eq!((state, action), (ServerState::Accepting, ServerAction::Report { outcome: Ok(()) }));
}

#[test]
fn server_accepts_again_while_a_handler_is_still_running() {
    let (state, action) = server_step(ServerState::Accepting, ServerEvent::Accepted);
    assert_eq!((state, action), (ServerState::Accepting, ServerAction::Dispatch));
    let (state, action) = server_step(state, ServerEvent::Accepted);
    assert_eq!((state, action), (ServerState::Accepting, ServerAction::Dispatch));
    let (state, action) = server_step(state, ServerEvent::Handled { outcome: Ok(()) });
    assert_eq!((state, action), (ServerState::Accepting, ServerAction::Report { outcome: Ok(()) }));
    let late = Err(CborSocketExampleError::from_io("broken pipe".to_string()));
    let (state, action) = server_step(state, ServerEvent::Handled { outcome: late.clone() });
    assert_eq!((state, action), (ServerState::Accepting, ServerAction::Report { outcome: late }));
}

#[test]
fn server_stops_on_an_accept_failure_and_hands_it_on() {
    let error = CborSocketExampleError::from_io("too many open files".to_string());
    assert_eq!(
        server_step(ServerState::Accepting, ServerEvent::AcceptFailed { error: error.clone() }),
        (ServerState::Stopped, ServerAction::Exit { outcome: Err(error) })
    );
    let from_std = CborSocketExampleError::from_io_error(&std::io::Error::from(
        std::io::ErrorKind::ConnectionAborted,
    ));
    let (state, action) = server_step(
        ServerState::Accepting,
        ServerEvent::AcceptFailed { error: from_std.clone() },
    );
    assert_eq!(state, ServerState::Stopped);
    assert_eq!(action, ServerAction::Exit { outcome: Err(from_std) });
    assert!(matches!(
        action,
        ServerAction::Exit { outcome: Err(CborSocketExampleError::IoError { .. }) }
    ));
}

#[test]
fn server_cannot_start_when_removing_or_binding_fails() {
    let failure = |text: &str| ServerAction::Exit {
        outcome: Err(CborSocketExampleError::IoError { message: text.to_string() }),
    };
    assert_eq!(
        server_step(
            ServerState::Removing,
            ServerEvent::Failed { error: CborSocketExampleError::from_io("permission denied".to_string()) }
        ),
        (ServerState::Stopped, failure("permission denied"))
    );
    assert_eq!(
        server_step(
            ServerState::Binding,
            ServerEvent::Failed { error: CborSocketExampleError::from_io("read-only".to_string()) }
        ),
        (ServerState::Stopped, failure("read-only"))
    );
}

#[test]
fn server_stops_with_the_generic_failure_on_an_event_out_of_turn() {
    let generic = ServerAction::Exit { outcome: Err(CborSocketExampleError::StuffBroke) };
    assert_eq!(
        server_step(ServerState::Init, ServerEvent::Accepted),
        (ServerState::Stopped, ServerAction::Exit { outcome: Err(CborSocketExampleError::StuffBroke) })
    );
    assert_eq!(server_step(ServerState::Stopped, ServerEvent::Bound), (ServerState::Stopped, generic));
}

#[test]
fn serve_and_connect_are_selected() {
    assert_eq!(
        select_mode(&words(&["prog", "serve", "/tmp/s.sock"])),
        Ok(Invocation { mode: Mode::Serve, socket_path: "/tmp/s.sock".to_string() })
    );
    assert_eq!(
        select_mode(&words(&["prog", "connect", "here"])),
        Ok(Invocation { mode: Mode::Connect, socket_path: "here".to_string() })
    );
}

#[test]
fn bad_invocations_are_the_generic_failure() {
    let generic = Err(CborSocketExampleError::StuffBroke);
    assert_eq!(select_mode(&words(&[])), generic);
    assert_eq!(select_mode(&words(&["prog"])), generic);
    assert_eq!(select_mode(&words(&["prog", "serve"])), generic);
    assert_eq!(select_mode(&words(&["prog", "connect"])), generic);
    assert_eq!(select_mode(&words(&["prog", "serve", "a", "b"])), generic);
    assert_eq!(select_mode(&words(&["prog", "listen", "a"])), generic);
    assert_eq!(select_mode(&words(&["prog", "Serve", "a"])), generic);
    assert_eq!(select_mode(&words(&["prog", "", "a"])), generic);
}

#[test]
fn io_errors_become_io_failures_with_their_debug_text() {
    let error = std::io::Error::new(std::io::ErrorKind::NotFound, "no such socket");
    let expected = format!("{:?}", error);
    assert_eq!(
        CborSocketExampleError::from_io_error(&error),
        CborSocketExampleError::IoError { message: expected }
    );
    let other = std::io::Error::from(std::io::ErrorKind::ConnectionRefused);
    assert!(matches!(
        CborSocketExampleError::from_io_error(&other),
        CborSocketExampleError::IoError { .. }
    ));
}

#[test]
fn server_stops_on_a_failure_out_of_turn() {
    assert_eq!(
        server_step(
            ServerState::Accepting,
            ServerEvent::Failed { error: CborSocketExampleError::from_io("late".to_string()) }
        ),
        (ServerState::Stopped, ServerAction::Exit { outcome: Err(CborSocketExampleError::StuffBroke) })
    );
}

#[test]
fn failures_describe_themselves() {
    assert_eq!(CborSocketExampleError::StuffBroke.describe(), "something bad happened");
    assert_eq!(
        CborSocketExampleError::CborSerializationError.describe(),
        "cbor serialization went wrong"
    );
    assert_eq!(
        CborSocketExampleError::from_io("x".to_string()),
        CborSocketExampleError::IoError { message: "x".to_string() }
    );
    assert_eq!(
        CborSocketExampleError::from_io("x".to_string()).describe(),
        "there was an io error"
    );
}
