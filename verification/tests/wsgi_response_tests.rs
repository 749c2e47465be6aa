use pyvoy::eventbridge::EventBridge;
use pyvoy::response::ResponseAction;
use pyvoy::wsgi::response::{
    body_plan, parse_status_line, start_response, BodyPlan, ResponseBodyEvent, ResponseEvent,
    ResponseSender, ResponseSenderEvent, ResponseStartEvent, ResponseWriter, SendError,
    StartResponseError, EVENT_ID_EXCEPTION, EVENT_ID_RESPONSE,
};

fn h(n: &str, v: &str) -> (Vec<u8>, Vec<u8>) {
    (n.as_bytes().to_vec(), v.as_bytes().to_vec())
}

fn start(status: u16) -> ResponseStartEvent {
    ResponseStartEvent { status, headers: vec![h("content-type", "text/plain")] }
}

fn body(b: &[u8], more: bool) -> ResponseBodyEvent {
    ResponseBodyEvent { body: b.to_vec(), more_body: more }
}

#[test]
fn start_is_sent_with_the_first_chunk() {
    let mut sender = ResponseSender::new();
    let mut bridge = EventBridge::new();
    assert_eq!(sender.send(&mut bridge, ResponseSenderEvent::Start(start(200)), false), Ok(None));
    assert!(bridge.is_empty());
    assert_eq!(
        sender.send(&mut bridge, ResponseSenderEvent::Body(body(b"hi", true)), false),
        Ok(Some(EVENT_ID_RESPONSE))
    );
    assert!(sender.headers_sent);
    assert_eq!(
        sender.send(&mut bridge, ResponseSenderEvent::Body(body(b"", false)), false),
        Ok(Some(EVENT_ID_RESPONSE))
    );
    let events = bridge.take_all();
    assert_eq!(events.len(), 2);
    assert!(matches!(&events[0], ResponseEvent::Start(s, b) if s.status == 200 && b.body == b"hi".to_vec() && b.more_body));
    assert!(matches!(&events[1], ResponseEvent::Body(b) if b.body.is_empty() && !b.more_body));
}

#[test]
fn start_response_twice_without_exc_info_is_refused() {
    let mut sender = ResponseSender::new();
    let mut bridge = EventBridge::new();
    sender.send(&mut bridge, ResponseSenderEvent::Start(start(200)), false).unwrap();
    assert_eq!(
        sender.send(&mut bridge, ResponseSenderEvent::Start(start(500)), false),
        Err(SendError::StartedTwice)
    );
    assert_eq!(sender.send(&mut bridge, ResponseSenderEvent::Start(start(500)), true), Ok(None));
    assert_eq!(sender.start_event.as_ref().unwrap().status, 500);
}

#[test]
fn start_response_again_after_headers_without_exc_info_is_refused() {
    let mut sender = ResponseSender::new();
    let mut bridge = EventBridge::new();
    sender.send(&mut bridge, ResponseSenderEvent::Start(start(200)), false).unwrap();
    sender.send(&mut bridge, ResponseSenderEvent::Body(body(b"x", true)), false).unwrap();
    assert_eq!(
        sender.send(&mut bridge, ResponseSenderEvent::Start(start(500)), false),
        Err(SendError::StartedTwice)
    );
    assert!(sender.start_event.is_none());
    assert_eq!(bridge.take_all().len(), 1);
}

#[test]
fn exc_info_after_headers_reraises() {
    let mut sender = ResponseSender::new();
    let mut bridge = EventBridge::new();
    sender.send(&mut bridge, ResponseSenderEvent::Start(start(200)), false).unwrap();
    sender.send(&mut bridge, ResponseSenderEvent::Body(body(b"x", true)), false).unwrap();
    assert_eq!(
        sender.send(&mut bridge, ResponseSenderEvent::Start(start(500)), true),
        Err(SendError::ReraiseExcInfo)
    );
}

#[test]
fn body_before_start_response_is_refused() {
    let mut sender = ResponseSender::new();
    let mut bridge = EventBridge::new();
    assert_eq!(
        sender.send(&mut bridge, ResponseSenderEvent::Body(body(b"x", false)), false),
        Err(SendError::NotStarted)
    );
    assert!(bridge.is_empty());
}

#[test]
fn failures_wake_the_filter_with_the_exception_event() {
    let mut sender = ResponseSender::new();
    let mut bridge = EventBridge::new();
    assert_eq!(sender.send(&mut bridge, ResponseSenderEvent::Exception, false), Ok(Some(EVENT_ID_EXCEPTION)));
    bridge.close();
    assert_eq!(sender.send(&mut bridge, ResponseSenderEvent::Exception, false), Ok(None));
}

#[test]
fn status_lines_are_read_like_rust_u16() {
    assert_eq!(parse_status_line(b"200 OK"), Some(200));
    assert_eq!(parse_status_line(b"404"), Some(404));
    assert_eq!(parse_status_line(b"+42 Weird"), Some(42));
    assert_eq!(parse_status_line(b"abc"), None);
    assert_eq!(parse_status_line(b"70000 Big"), None);
    assert_eq!(parse_status_line(b" 200"), None);
    assert_eq!(parse_status_line(b"+"), None);
}

#[test]
fn start_response_validates_headers_then_status() {
    let ok = start_response(b"201 Created", &vec![h("X-Id", "7")]).ok().unwrap();
    assert_eq!(ok.status, 201);
    assert_eq!(ok.headers, vec![h("x-id", "7")]);
    assert!(matches!(start_response(b"oops", &vec![h("bad name", "v")]), Err(StartResponseError::InvalidHeaderName)));
    assert!(matches!(
        start_response(b"200 OK", &vec![(b"x".to_vec(), vec![1u8])]),
        Err(StartResponseError::InvalidHeaderValue)
    ));
    assert!(matches!(start_response(b"OK", &vec![]), Err(StartResponseError::InvalidStatus)));
}

#[test]
fn response_iterable_plans() {
    assert!(body_plan(Some(0)) == BodyPlan::EmptyLast);
    assert!(body_plan(Some(1)) == BodyPlan::SingleLast);
    assert!(body_plan(Some(3)) == BodyPlan::Streamed);
    assert!(body_plan(None) == BodyPlan::Streamed);
}

#[test]
fn writer_sends_headers_alone_for_an_empty_last_chunk() {
    let mut writer = ResponseWriter { response_closed: false };
    let actions = writer.process_send_event(ResponseEvent::Start(start(204), body(b"", false)));
    assert_eq!(actions.len(), 1);
    match &actions[0] {
        ResponseAction::SendHeaders { headers, end_stream } => {
            assert!(*end_stream);
            assert_eq!(headers, &vec![h(":status", "204"), h("content-type", "text/plain")]);
        }
        _ => panic!("expected headers"),
    }
}

#[test]
fn writer_streams_chunks_and_notifies_the_application() {
    let mut writer = ResponseWriter { response_closed: false };
    let actions = writer.process_send_event(ResponseEvent::Start(start(200), body(b"ab", true)));
    assert_eq!(actions.len(), 3);
    assert!(matches!(actions[0], ResponseAction::NotifyWritten));
    assert!(matches!(&actions[1], ResponseAction::SendHeaders { end_stream: false, .. }));
    assert!(matches!(&actions[2], ResponseAction::SendData { body, end_stream: false } if body == &b"ab".to_vec()));
    let actions = writer.process_send_event(ResponseEvent::Body(body(b"c", false)));
    assert_eq!(actions.len(), 1);
    assert!(matches!(&actions[0], ResponseAction::SendData { body, end_stream: true } if body == &b"c".to_vec()));
}

#[test]
fn writer_sends_trailers_after_pending_headers() {
    let mut writer = ResponseWriter { response_closed: false };
    let actions = writer.process_send_event(ResponseEvent::Trailers(Some(start(200)), vec![h("grpc-status", "0")]));
    assert_eq!(actions.len(), 2);
    assert!(matches!(&actions[0], ResponseAction::SendHeaders { end_stream: false, .. }));
    assert!(matches!(&actions[1], ResponseAction::SendTrailers { trailers } if trailers == &vec![h("grpc-status", "0")]));
}

#[test]
fn writer_sends_the_error_reply_once() {
    let mut writer = ResponseWriter { response_closed: false };
    let first = writer.process_send_event(ResponseEvent::Exception);
    assert_eq!(first.len(), 1);
    assert!(matches!(first[0], ResponseAction::SendErrorReply));
    assert!(writer.process_send_event(ResponseEvent::Exception).is_empty());
}
