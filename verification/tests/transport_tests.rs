use pyvoy::transport::{
    build_outgoing_request, forward_event, map_reset_reason, on_application_reset,
    on_http_stream_reset, on_stream_complete, read_upstream_headers, reset_reason, start_stream,
    stream_data_events, ForwardEvent, ForwardInput, RequestError, ResetErrorKind, ResetReason,
    StreamResetReason, StreamTable, TransportState,
};
use pyvoy::transport::{
    body_step, response_headers, start_reply, stream_started, BodyStep, HeadersOutcome, StartOutcome,
    TransportResponse,
};

fn h(n: &str, v: &str) -> (Vec<u8>, Vec<u8>) {
    (n.as_bytes().to_vec(), v.as_bytes().to_vec())
}

#[test]
fn reset_reasons_map_to_errors() {
    assert_eq!(map_reset_reason(ResetReason::Local), (ResetErrorKind::ReadError, b"local stream reset".to_vec()));
    assert_eq!(map_reset_reason(ResetReason::Remote), (ResetErrorKind::ReadError, b"remote stream reset".to_vec()));
    assert_eq!(map_reset_reason(ResetReason::Protocol), (ResetErrorKind::ReadError, b"protocol error".to_vec()));
    assert_eq!(map_reset_reason(ResetReason::Connection), (ResetErrorKind::ConnectionError, b"connection error".to_vec()));
    assert_eq!(map_reset_reason(ResetReason::Overflow), (ResetErrorKind::ReadError, b"stream overflow".to_vec()));
    assert_eq!(
        map_reset_reason(ResetReason::ServerRequestDone),
        (ResetErrorKind::ReadError, b"server request completed before client response".to_vec())
    );
    assert_eq!(map_reset_reason(ResetReason::InvalidUpstream), (ResetErrorKind::ReadError, b"invalid upstream config".to_vec()));
}

#[test]
fn envoy_reset_reasons_are_grouped() {
    assert_eq!(reset_reason(StreamResetReason::LocalRefusedStreamReset), ResetReason::Local);
    assert_eq!(reset_reason(StreamResetReason::RemoteRefusedStreamReset), ResetReason::Remote);
    assert_eq!(reset_reason(StreamResetReason::ProtocolError), ResetReason::Protocol);
    assert_eq!(reset_reason(StreamResetReason::ConnectionTermination), ResetReason::Connection);
    assert_eq!(reset_reason(StreamResetReason::Overflow), ResetReason::Overflow);
}

#[test]
fn outgoing_requests_get_a_json_content_type_when_needed() {
    let r = build_outgoing_request(b"POST", "http://svc:8080/a/b?c=d", &vec![h("X-Trace", "1"), h("bad name", "x")], true).ok().unwrap();
    assert_eq!(r.method, b"POST".to_vec());
    assert_eq!(r.url.path_and_query, b"/a/b?c=d".to_vec());
    assert_eq!(r.url.scheme, b"http".to_vec());
    assert_eq!(r.url.authority, b"svc:8080".to_vec());
    assert_eq!(r.headers, vec![h("x-trace", "1"), h("content-type", "application/json")]);
    let r2 = build_outgoing_request(b"POST", "https://svc/", &vec![h("Content-Type", "text/plain")], true).ok().unwrap();
    assert_eq!(r2.headers, vec![h("content-type", "text/plain")]);
}

#[test]
fn outgoing_requests_need_a_method_then_a_url() {
    assert!(matches!(build_outgoing_request(b"BAD METHOD", "not a url", &vec![], false), Err(RequestError::InvalidMethod)));
    assert!(matches!(build_outgoing_request(b"GET", "not a url", &vec![], false), Err(RequestError::InvalidUrl)));
}

#[test]
fn upstream_streams_carry_pseudo_headers_and_length() {
    let r = build_outgoing_request(b"PUT", "https://svc:443/x", &vec![], false).ok().unwrap();
    let start = start_stream(&r, None, Some(12));
    assert_eq!(start.cluster, b"__pyvoy_default_upstream_https__".to_vec());
    assert!(start.end_stream);
    assert_eq!(
        start.headers,
        vec![
            h(":method", "PUT"),
            h(":path", "/x"),
            h(":scheme", "https"),
            h(":authority", "svc"),
            h("content-length", "12"),
        ]
    );
    let r2 = build_outgoing_request(b"GET", "http://svc/", &vec![h("content-length", "0")], false).ok().unwrap();
    let s2 = start_stream(&r2, Some(b"named"), Some(0));
    assert_eq!(s2.cluster, b"named".to_vec());
    assert_eq!(s2.headers.len(), 5);
    let s3 = start_stream(&r2, None, None);
    assert_eq!(s3.cluster, b"__pyvoy_default_upstream_http__".to_vec());
    assert!(!s3.end_stream);
}

#[test]
fn stream_table_tracks_live_streams() {
    let mut table: StreamTable<TransportState<&str, &str>> = StreamTable::new();
    table.insert(1, TransportState { response_tx: "one", exception: None });
    table.insert(2, TransportState { response_tx: "two", exception: None });
    assert!(table.contains(1));
    assert!(!table.contains(3));
    assert!(on_application_reset(&mut table, 2, Some("boom")));
    assert!(!on_application_reset(&mut table, 7, Some("lost")));
    let reset = on_http_stream_reset(&mut table, 2, StreamResetReason::LocalReset).unwrap();
    assert_eq!(reset, ("two", ResetReason::Local, Some("boom")));
    assert!(on_http_stream_reset(&mut table, 2, StreamResetReason::LocalReset).is_none());
    let done = on_stream_complete(&mut table);
    assert_eq!(done, vec![("one", ResetReason::ServerRequestDone, None)]);
    assert!(!table.contains(1));
}

#[test]
fn upstream_status_defaults_and_falls_back() {
    let (status, headers) = read_upstream_headers(&vec![h(":status", "404"), h("X-A", "b")]);
    assert_eq!(status, 404);
    assert_eq!(headers, vec![h("x-a", "b")]);
    assert_eq!(read_upstream_headers(&vec![]).0, 200);
    assert_eq!(read_upstream_headers(&vec![h(":status", "abc")]).0, 500);
}

#[test]
fn upstream_data_is_joined() {
    assert_eq!(stream_data_events(&vec![b"a".to_vec(), b"bc".to_vec()], true), (Some(b"abc".to_vec()), true));
    assert_eq!(stream_data_events(&vec![], false), (None, false));
}

#[test]
fn request_body_iteration_events() {
    assert!(matches!(forward_event::<u8>(4, ForwardInput::Cancelled), ForwardEvent::Reset { stream_handle: 4, exception: None }));
    assert!(matches!(forward_event(4, ForwardInput::Failed(9u8)), ForwardEvent::Reset { exception: Some(9), .. }));
    assert!(matches!(forward_event::<u8>(4, ForwardInput::Finished), ForwardEvent::SendData { end_stream: true, ref data, .. } if data.is_empty()));
    assert!(matches!(forward_event::<u8>(4, ForwardInput::Chunk(b"x".to_vec())), ForwardEvent::SendData { end_stream: false, .. }));
}

#[test]
fn waiting_for_stream_start() {
    assert!(matches!(stream_started::<String>(Some(TransportResponse::Started(9))), StartOutcome::Started(9)));
    match stream_started(Some(TransportResponse::Reset { reason: ResetReason::InvalidUpstream, exception: Some(String::from("e")) })) {
        StartOutcome::Failed { reason, exception } => {
            assert_eq!(reason, ResetReason::InvalidUpstream);
            assert_eq!(exception, Some(String::from("e")));
        }
        _ => panic!("expected a failure"),
    }
    assert!(matches!(stream_started::<String>(Some(TransportResponse::End)), StartOutcome::Closed));
    assert!(matches!(stream_started::<String>(None), StartOutcome::Closed));
}

#[test]
fn waiting_for_response_headers() {
    match response_headers::<String>(Some(TransportResponse::Headers { status: 201, headers: vec![h("a", "b")], end_stream: true })) {
        HeadersOutcome::Headers { status, headers, end_stream } => {
            assert_eq!(status, 201);
            assert_eq!(headers, vec![h("a", "b")]);
            assert!(end_stream);
        }
        _ => panic!("expected headers"),
    }
    assert!(matches!(
        response_headers::<String>(Some(TransportResponse::Reset { reason: ResetReason::Remote, exception: None })),
        HeadersOutcome::Failed { reason: ResetReason::Remote, exception: None }
    ));
    assert!(matches!(response_headers::<String>(Some(TransportResponse::Body(vec![1]))), HeadersOutcome::Closed));
    assert!(matches!(response_headers::<String>(None), HeadersOutcome::Closed));
}

#[test]
fn reading_response_body_steps() {
    match body_step::<String>(Some(TransportResponse::Body(b"abc".to_vec()))) {
        BodyStep::Chunk(c) => assert_eq!(c, b"abc".to_vec()),
        _ => panic!("expected a chunk"),
    }
    match body_step::<String>(Some(TransportResponse::Trailers(vec![h("grpc-status", "0")]))) {
        BodyStep::Done(Some(t)) => assert_eq!(t, vec![h("grpc-status", "0")]),
        _ => panic!("expected trailers"),
    }
    assert!(matches!(body_step::<String>(Some(TransportResponse::End)), BodyStep::Done(None)));
    assert!(matches!(body_step::<String>(Some(TransportResponse::Started(1))), BodyStep::Skip));
    assert!(matches!(
        body_step::<String>(None),
        BodyStep::Failed { reason: ResetReason::Local, exception: None }
    ));
    assert!(matches!(
        body_step::<String>(Some(TransportResponse::Reset { reason: ResetReason::Overflow, exception: None })),
        BodyStep::Failed { reason: ResetReason::Overflow, exception: None }
    ));
}

#[test]
fn a_refused_stream_start_is_reported_as_an_invalid_upstream() {
    assert!(matches!(start_reply::<String>(true, 42), TransportResponse::Started(42)));
    assert!(matches!(
        start_reply::<String>(false, 42),
        TransportResponse::Reset { reason: ResetReason::InvalidUpstream, exception: None }
    ));
    // What the application then sees of each reply.
    assert!(matches!(stream_started::<String>(Some(start_reply(true, 7))), StartOutcome::Started(7)));
    assert!(matches!(
        stream_started::<String>(Some(start_reply(false, 7))),
        StartOutcome::Failed { reason: ResetReason::InvalidUpstream, exception: None }
    ));
}
