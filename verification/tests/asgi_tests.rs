use pyvoy::asgi::content::{AnextOutcome, NotifyOutcome, ResponseContentState};
use pyvoy::asgi::scope::{asgi_version, empty_recv, handle_read, new_scope_dict, trailers_accepted, EmptyRecv};
use pyvoy::asgi::send::{
    AsgiBody, AsgiResponseStart, AsgiResponseWriter, AsgiSendError, AsgiTrailers, MessageKind,
    NextAsgiEvent, SendEvent, SendState, EVENT_ID_RESPONSE,
};
use pyvoy::eventbridge::EventBridge;
use pyvoy::response::ResponseAction;
use pyvoy::scope::{HttpVersion, Scope};
use pyvoy::transport::ResetReason;

fn h(n: &str, v: &str) -> (Vec<u8>, Vec<u8>) {
    (n.as_bytes().to_vec(), v.as_bytes().to_vec())
}

#[test]
fn send_expects_messages_in_protocol_order() {
    let state = SendState::new(true);
    assert_eq!(state.check_message(b"http.response.start"), Ok(()));
    assert_eq!(
        state.check_message(b"http.response.body"),
        Err(AsgiSendError::UnexpectedType { expected: MessageKind::ResponseStart })
    );
}

#[test]
fn a_full_response_with_trailers() {
    let mut state = SendState::new(true);
    let mut bridge: EventBridge<SendEvent<u32>> = EventBridge::new();
    assert_eq!(state.start(200, &vec![h("Content-Type", "text/plain")], true), Ok(()));
    assert!(state.next_event == NextAsgiEvent::Body { trailers: true });
    assert_eq!(state.check_message(b"http.response.body"), Ok(()));
    assert_eq!(state.body(&mut bridge, b"part".to_vec(), Some(1)), Some(EVENT_ID_RESPONSE));
    assert_eq!(state.body(&mut bridge, b"end".to_vec(), None), Some(EVENT_ID_RESPONSE));
    assert!(state.next_event == NextAsgiEvent::Trailers);
    assert_eq!(state.trailers(&mut bridge, &vec![h("grpc-status", "0")], false), Ok(Some(EVENT_ID_RESPONSE)));
    assert!(state.next_event == NextAsgiEvent::Done);
    assert_eq!(state.check_message(b"http.response.body"), Err(AsgiSendError::AfterCompletion));

    let events = bridge.take_all();
    assert_eq!(events.len(), 3);
    match &events[0] {
        SendEvent::Start(start, body) => {
            assert_eq!(start.status, 200);
            assert!(start.trailers);
            assert_eq!(start.headers, vec![h("content-type", "text/plain")]);
            assert_eq!(body.body, b"part".to_vec());
            assert_eq!(body.future, Some(1));
        }
        _ => panic!("expected the start"),
    }
    assert!(matches!(&events[1], SendEvent::Body(b) if b.future.is_none()));
    assert!(matches!(&events[2], SendEvent::Trailers(t) if !t.more_trailers));
}

#[test]
fn trailers_are_dropped_when_the_client_does_not_accept_them() {
    let mut state = SendState::new(false);
    let mut bridge: EventBridge<SendEvent<u32>> = EventBridge::new();
    state.start(200, &vec![], true).unwrap();
    state.body(&mut bridge, Vec::new(), None);
    assert_eq!(state.trailers(&mut bridge, &vec![h("bad name", "x")], false), Ok(None));
    let events = bridge.take_all();
    assert!(matches!(&events[0], SendEvent::Start(s, _) if !s.trailers));
}

#[test]
fn invalid_status_and_headers_are_refused() {
    let mut state = SendState::new(false);
    assert_eq!(state.start(99, &vec![], false), Err(AsgiSendError::InvalidStatus { status: 99 }));
    assert_eq!(state.start(1000, &vec![], false), Err(AsgiSendError::InvalidStatus { status: 1000 }));
    assert_eq!(state.start(200, &vec![h("bad name", "x")], false), Err(AsgiSendError::InvalidHeaderName));
    assert!(state.next_event == NextAsgiEvent::Start);
}

#[test]
fn a_closed_filter_disconnects_the_send_callable() {
    let mut state = SendState::new(false);
    let mut bridge: EventBridge<SendEvent<u32>> = EventBridge::new();
    bridge.close();
    state.start(200, &vec![], false).unwrap();
    assert_eq!(state.body(&mut bridge, b"x".to_vec(), Some(3)), None);
    assert!(state.closed);
    assert_eq!(state.check_message(b"http.response.body"), Err(AsgiSendError::Disconnected));
}

#[test]
fn writer_ends_the_stream_only_after_trailers() {
    let mut writer = AsgiResponseWriter::new();
    let start = AsgiResponseStart { status: 200, headers: vec![], trailers: true };
    let actions = writer.process_send_event(SendEvent::Start(start, AsgiBody { body: b"a".to_vec(), future: None::<u32> }));
    assert_eq!(actions.len(), 2);
    assert!(matches!(&actions[0], ResponseAction::SendHeaders { headers, end_stream: false } if headers == &vec![h(":status", "200")]));
    assert!(matches!(&actions[1], ResponseAction::SendData { end_stream: false, .. }));
    let more = writer.process_send_event(SendEvent::<u32>::Trailers(AsgiTrailers { headers: vec![h("a", "1")], more_trailers: true }));
    assert!(more.is_empty());
    let last = writer.process_send_event(SendEvent::<u32>::Trailers(AsgiTrailers { headers: vec![h("b", "2")], more_trailers: false }));
    assert!(matches!(&last[0], ResponseAction::SendTrailers { trailers } if trailers == &vec![h("a", "1"), h("b", "2")]));
}

#[test]
fn writer_completes_the_write_notification_first() {
    let mut writer = AsgiResponseWriter::new();
    let start = AsgiResponseStart { status: 204, headers: vec![], trailers: false };
    let actions = writer.process_send_event(SendEvent::Start(start, AsgiBody { body: Vec::new(), future: Some(9u32) }));
    assert!(matches!(actions[0], ResponseAction::CompleteWrite { handle: 9 }));
    let done = writer.process_send_event(SendEvent::Body(AsgiBody { body: Vec::new(), future: None::<u32> }));
    assert!(matches!(&done[0], ResponseAction::SendData { end_stream: true, .. }));
    let err = writer.process_send_event(SendEvent::<u32>::Exception);
    assert!(matches!(err[0], ResponseAction::SendErrorReply));
}

#[test]
fn asgi_scope_decodes_the_path() {
    let scope = Scope {
        http_version: HttpVersion::Http2,
        method: b"GET".to_vec(),
        scheme: b"http".to_vec(),
        raw_path: b"/a%2Fb%20c?q=%20".to_vec(),
        headers: vec![h("host", "example.com")],
        client: Some((b"1.2.3.4".to_vec(), 1234)),
        server: None,
        tls_info: None,
    };
    let s = new_scope_dict(&scope).unwrap();
    assert_eq!(s.path, b"/a/b c".to_vec());
    assert_eq!(s.raw_path, b"/a%2Fb%20c".to_vec());
    assert_eq!(s.query_string, b"q=%20".to_vec());
    assert_eq!(s.http_version, b"2".to_vec());
    assert_eq!(s.client, Some((b"1.2.3.4".to_vec(), 1234)));
    assert!(s.server.is_none());
    let bad = Scope { raw_path: b"/%FF".to_vec(), ..scope };
    assert!(new_scope_dict(&bad).is_none());
    assert_eq!(asgi_version(HttpVersion::Http10), b"1.0".to_vec());
}

#[test]
fn pending_receives_get_the_body_once() {
    let mut bridge: EventBridge<u32> = EventBridge::new();
    bridge.send(1).unwrap();
    bridge.send(2).unwrap();
    let plan = handle_read(false, &mut bridge, &Some(vec![b"ab".to_vec()]), &None);
    assert_eq!(plan.answers.len(), 2);
    assert_eq!(plan.answers[0].future, 1);
    assert_eq!(plan.answers[0].body, b"ab".to_vec());
    assert!(plan.answers[0].more_body);
    assert!(plan.answers[1].body.is_empty());
    assert_eq!(plan.drain_buffered, 2);
}

#[test]
fn receives_wait_while_no_body_and_the_request_is_open() {
    let mut bridge: EventBridge<u32> = EventBridge::new();
    bridge.send(1).unwrap();
    let plan = handle_read(false, &mut bridge, &None, &None);
    assert!(plan.answers.is_empty());
    assert!(!bridge.is_empty());
    let plan = handle_read(true, &mut bridge, &None, &None);
    assert_eq!(plan.answers.len(), 1);
    assert!(!plan.answers[0].more_body);
}

#[test]
fn empty_requests_and_trailer_acceptance() {
    assert!(empty_recv(true) == EmptyRecv::Disconnect);
    assert!(empty_recv(false) == EmptyRecv::EmptyRequest);
    assert!(trailers_accepted(Some(b"trailers")));
    assert!(!trailers_accepted(Some(b"gzip")));
    assert!(!trailers_accepted(None));
}

#[test]
fn response_content_delivers_data_in_order() {
    let mut content = ResponseContentState::new();
    assert!(!content.feed_response_data(b"ab", false));
    assert!(!content.feed_response_data(b"cd", false));
    match content.anext().1 {
        AnextOutcome::Chunk(c) => assert_eq!(c, b"abcd".to_vec()),
        _ => panic!("expected a chunk"),
    }
    assert!(matches!(content.anext().1, AnextOutcome::Wait));
    assert!(matches!(content.anext().1, AnextOutcome::Empty));
    assert!(content.feed_response_data(b"e", true));
    match content.notify().1 {
        NotifyOutcome::ResolveChunk(c) => assert_eq!(c, b"e".to_vec()),
        _ => panic!("expected a chunk"),
    }
    assert!(matches!(content.anext().1, AnextOutcome::Stop));
    assert!(!content.aclose());
}

#[test]
fn response_content_raises_resets_and_hands_over_trailers() {
    let mut content = ResponseContentState::new();
    content.has_trailer_sink = true;
    content.feed_response_trailers(&vec![h("X-T", "1"), h("bad name", "2")]);
    let (trailers, out) = content.anext();
    assert_eq!(trailers, Some(vec![h("x-t", "1")]));
    assert!(matches!(out, AnextOutcome::Stop));
    let mut other = ResponseContentState::new();
    assert!(other.aclose());
    other.reset(ResetReason::Remote);
    assert!(matches!(other.anext().1, AnextOutcome::RaiseReset(ResetReason::Remote)));
    other.set_exception();
    assert!(matches!(other.anext().1, AnextOutcome::RaiseException));
    assert!(other.take_exception());
    assert!(!other.take_exception());
}

#[test]
fn the_start_waits_for_the_first_of_three_chunks() {
    let mut state = SendState::new(false);
    let mut bridge: EventBridge<SendEvent<u32>> = EventBridge::new();
    assert_eq!(state.start(201, &vec![h("x-a", "1")], false), Ok(()));
    assert!(bridge.is_empty());
    assert_eq!(state.body(&mut bridge, b"one".to_vec(), Some(1)), Some(EVENT_ID_RESPONSE));
    assert_eq!(state.body(&mut bridge, b"two".to_vec(), Some(2)), Some(EVENT_ID_RESPONSE));
    assert_eq!(state.body(&mut bridge, b"three".to_vec(), None), Some(EVENT_ID_RESPONSE));
    let events = bridge.take_all();
    assert_eq!(events.len(), 3);
    assert!(matches!(&events[0], SendEvent::Start(s, b) if s.status == 201 && b.body == b"one".to_vec()));
    assert!(matches!(&events[1], SendEvent::Body(b) if b.body == b"two".to_vec() && b.future == Some(2)));
    assert!(matches!(&events[2], SendEvent::Body(b) if b.body == b"three".to_vec() && b.future.is_none()));
}

#[test]
fn trailers_over_three_events_go_out_once_in_order() {
    let mut writer = AsgiResponseWriter::new();
    let start = AsgiResponseStart { status: 200, headers: vec![], trailers: true };
    writer.process_send_event(SendEvent::Start(start, AsgiBody { body: Vec::new(), future: None::<u32> }));
    let first = writer.process_send_event(SendEvent::<u32>::Trailers(AsgiTrailers { headers: vec![h("a", "1")], more_trailers: true }));
    let second = writer.process_send_event(SendEvent::<u32>::Trailers(AsgiTrailers { headers: vec![h("b", "2"), h("c", "3")], more_trailers: true }));
    assert!(first.is_empty() && second.is_empty());
    let last = writer.process_send_event(SendEvent::<u32>::Trailers(AsgiTrailers { headers: vec![h("d", "4")], more_trailers: false }));
    assert_eq!(last.len(), 1);
    assert!(matches!(&last[0], ResponseAction::SendTrailers { trailers }
        if trailers == &vec![h("a", "1"), h("b", "2"), h("c", "3"), h("d", "4")]));
}
