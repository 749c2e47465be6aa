use pyvoy::asgi::websocket::{
    accepted_action, error_close_code, handshake_reply, handshake_step, parse_subprotocols,
    read_action, websocket_scope, ws_scheme, AcceptedAction, CodecError, EnvoyStream, HandshakeReply,
    HandshakeRound, ReadAction, StreamRead, WsBody, WsPhase, WsSendCallable, WsSendError,
    WsRequest, WsSendEvent, WsSendState,
};
use pyvoy::scope::HttpVersion;

fn h(n: &str, v: &str) -> (Vec<u8>, Vec<u8>) {
    (n.as_bytes().to_vec(), v.as_bytes().to_vec())
}

#[test]
fn handshake_reads_only_new_bytes() {
    let mut stream = EnvoyStream::new();
    stream.read_from_buffered(&vec![b"GET ".to_vec(), b"/ HT".to_vec()]);
    assert_eq!(stream.read_buffer, b"GET / HT".to_vec());
    stream.read_from_buffered(&vec![b"GET ".to_vec(), b"/ HT".to_vec(), b"TP/1.1".to_vec()]);
    assert_eq!(stream.read_buffer, b"GET / HTTP/1.1".to_vec());
    assert_eq!(stream.total_read, 14);
}

#[test]
fn stream_reads_and_writes() {
    let mut stream = EnvoyStream::new();
    assert!(matches!(stream.read(4), StreamRead::WouldBlock));
    assert_eq!(stream.read_from(&vec![b"abc".to_vec(), b"de".to_vec()]), 5);
    match stream.read(2) {
        StreamRead::Data(d) => assert_eq!(d, b"ab".to_vec()),
        _ => panic!("expected data"),
    }
    match stream.read(10) {
        StreamRead::Data(d) => assert_eq!(d, b"cde".to_vec()),
        _ => panic!("expected data"),
    }
    assert_eq!(stream.write(b"xy"), Some(2));
    assert_eq!(stream.write_to(), Some(b"xy".to_vec()));
    assert_eq!(stream.write_to(), None);
    stream.closed = true;
    assert!(matches!(stream.read(1), StreamRead::Eof));
    assert_eq!(stream.write(b"z"), None);
}

#[test]
fn send_callable_accepts_once_and_closes() {
    let mut send = WsSendCallable::new();
    assert_eq!(send.accept(&vec![h("X-A", "1")]), Ok(vec![h("x-a", "1")]));
    assert!(send.state == WsSendState::Accepted);
    assert_eq!(send.accept(&vec![]), Err(WsSendError::AlreadyAccepted));
    assert_eq!(send.send_message(), Ok(()));
    assert_eq!(send.close(None), Ok(1000));
    assert_eq!(send.send_message(), Err(WsSendError::Disconnected));
    assert_eq!(send.close(Some(4000)), Err(WsSendError::Disconnected));
}

#[test]
fn handshake_replies() {
    match handshake_reply(WsSendEvent::<u8>::Close { code: 4001, reason: String::from("bye") }) {
        HandshakeReply::Forbidden { close_code, close_reason } => {
            assert_eq!(close_code, 4001);
            assert_eq!(close_reason, "bye");
        }
        _ => panic!("expected a forbidden reply"),
    }
    match handshake_reply(WsSendEvent::<u8>::Exception) {
        HandshakeReply::Error { headers, body, close_code } => {
            assert_eq!(headers, vec![h("content-length", "21")]);
            assert_eq!(body, b"Internal Server Error".to_vec());
            assert_eq!(close_code, 1011);
        }
        _ => panic!("expected the error reply"),
    }
    match handshake_reply(WsSendEvent::Accept { subprotocol: Some(b"chat".to_vec()), headers: vec![h("x", "1")], future: 0u8 }) {
        HandshakeReply::Accept { headers } => {
            assert_eq!(headers, vec![h("sec-websocket-protocol", "chat"), h("x", "1")])
        }
        _ => panic!("expected acceptance"),
    }
    assert!(matches!(handshake_reply(WsSendEvent::<u8>::Abort), HandshakeReply::Abort));
}

#[test]
fn accepted_connection_actions() {
    let send = WsSendEvent::SendMessage { body: WsBody::Bytes(b"x".to_vec()), future: 1u8 };
    assert!(matches!(accepted_action(send, false), AcceptedAction::Send { future: 1, .. }));
    let late = WsSendEvent::SendMessage { body: WsBody::Text("t".to_string()), future: 2u8 };
    assert!(matches!(accepted_action(late, true), AcceptedAction::Ignore));
    assert!(matches!(accepted_action(WsSendEvent::<u8>::Exception, false), AcceptedAction::Close { code: 1011, .. }));
    assert!(matches!(accepted_action(WsSendEvent::<u8>::Abort, false), AcceptedAction::CloseConnection));
    assert!(matches!(accepted_action(WsSendEvent::<u8>::Abort, true), AcceptedAction::Ignore));
}

#[test]
fn codec_errors_close_with_their_codes() {
    assert_eq!(error_close_code(CodecError::Protocol), 1002);
    assert_eq!(error_close_code(CodecError::Utf8), 1007);
    assert_eq!(error_close_code(CodecError::Capacity), 1009);
    assert_eq!(error_close_code(CodecError::Other), 1011);
}

#[test]
fn subprotocols_are_split_and_trimmed() {
    let offered = parse_subprotocols(&vec![b"chat, superchat".to_vec(), b" , v2 ".to_vec(), vec![0xff]]);
    assert_eq!(offered, vec![b"chat".to_vec(), b"superchat".to_vec(), b"v2".to_vec()]);
    assert_eq!(ws_scheme(true), b"wss".to_vec());
    assert_eq!(ws_scheme(false), b"ws".to_vec());
}

#[test]
fn bytes_from_the_client_in_each_phase() {
    assert_eq!(read_action(WsPhase::StartHandshake), ReadAction::ReadHandshake);
    assert_eq!(read_action(WsPhase::FinishHandshake), ReadAction::AbortUnexpectedBody);
    assert_eq!(read_action(WsPhase::Accepted), ReadAction::ReadFrames);
    assert_eq!(read_action(WsPhase::NotWebSocket), ReadAction::PassThrough);
    assert_eq!(read_action(WsPhase::Done), ReadAction::Hold);
}

#[test]
fn handshake_rounds_decide_the_connection() {
    assert_eq!(handshake_step(HandshakeRound::WouldBlock), (WsPhase::StartHandshake, ReadAction::Hold));
    assert_eq!(
        handshake_step(HandshakeRound::Incomplete),
        (WsPhase::StartHandshake, ReadAction::ReadHandshake)
    );
    assert_eq!(
        handshake_step(HandshakeRound::Request { upgrade: false, tail_empty: true }),
        (WsPhase::NotWebSocket, ReadAction::PassThrough)
    );
    assert_eq!(
        handshake_step(HandshakeRound::Request { upgrade: true, tail_empty: false }),
        (WsPhase::NotWebSocket, ReadAction::AbortUnexpectedBody)
    );
    assert_eq!(
        handshake_step(HandshakeRound::Request { upgrade: true, tail_empty: true }),
        (WsPhase::FinishHandshake, ReadAction::StartApp)
    );
    assert_eq!(handshake_step(HandshakeRound::NotHandled), (WsPhase::NotWebSocket, ReadAction::PassThrough));
}

fn upgrade_request(is_ssl: bool, ssl_subject: Option<Vec<u8>>) -> WsRequest {
    WsRequest {
        http_version: HttpVersion::Http11,
        method: b"GET".to_vec(),
        raw_path: b"/chat?room=1".to_vec(),
        headers: vec![h("upgrade", "websocket")],
        remote_address: ("10.0.0.1:5555".to_string(), 5555),
        local_address: (String::new(), 0),
        is_ssl,
        ssl_subject,
    }
}

#[test]
fn websocket_scope_without_tls() {
    let scope = websocket_scope(upgrade_request(false, Some(b"CN=x".to_vec())));
    assert!(scope.http_version == HttpVersion::Http11);
    assert_eq!(scope.method, b"GET".to_vec());
    assert_eq!(scope.scheme, b"ws".to_vec());
    assert_eq!(scope.raw_path, b"/chat?room=1".to_vec());
    assert_eq!(scope.headers, vec![h("upgrade", "websocket")]);
    assert_eq!(scope.client, Some((b"10.0.0.1".to_vec(), 5555)));
    assert_eq!(scope.server, None);
    assert!(scope.tls_info.is_none());
}

#[test]
fn websocket_scope_with_tls_reports_the_subject_lossily() {
    let scope = websocket_scope(upgrade_request(true, Some(vec![b'C', b'N', b'=', 0xff])));
    assert_eq!(scope.scheme, b"wss".to_vec());
    let tls = scope.tls_info.expect("tls info");
    assert_eq!(tls.tls_version, 0);
    assert_eq!(tls.client_cert_name, Some("CN=\u{fffd}".as_bytes().to_vec()));
    let plain = websocket_scope(upgrade_request(true, None));
    assert!(plain.tls_info.expect("tls info").client_cert_name.is_none());
}
