use pyvoy::eventbridge::EventBridge;
use pyvoy::wsgi::filter::RequestReader;
use pyvoy::wsgi::input::{read_event, next_line, split_inclusive_lines, RequestInput, EVENT_ID_REQUEST};
use pyvoy::wsgi::types::{RequestBody, RequestReadEvent};

fn bufs(parts: &[&[u8]]) -> Option<Vec<Vec<u8>>> {
    Some(parts.iter().map(|p| p.to_vec()).collect())
}

fn reader_with(event: RequestReadEvent) -> (RequestReader, EventBridge<RequestReadEvent>) {
    let reader = RequestReader::new();
    let mut bridge = EventBridge::new();
    bridge.send(event).unwrap();
    (reader, bridge)
}

#[test]
fn sized_raw_read_takes_at_most_the_size() {
    let (mut reader, mut bridge) = reader_with(RequestReadEvent::Raw(5));
    let plan = reader.process_read(&mut bridge, &bufs(&[b"hel", b"lo wor"]), &bufs(&[b"ld"]));
    assert_eq!(plan.drain_buffered, 5);
    assert_eq!(plan.drain_received, 0);
    let sent = plan.send.expect("answered");
    assert_eq!(sent.body, b"hello".to_vec());
    assert!(!sent.closed);
    assert!(reader.pending_read == RequestReadEvent::Wait);
    assert!(bridge.is_empty());
}

#[test]
fn sized_raw_read_continues_into_received_body_and_reports_end() {
    let (mut reader, mut bridge) = reader_with(RequestReadEvent::Raw(10));
    reader.request_closed = true;
    let plan = reader.process_read(&mut bridge, &bufs(&[b"ab"]), &bufs(&[b"cd"]));
    assert_eq!(plan.drain_buffered, 2);
    assert_eq!(plan.drain_received, 2);
    let sent = plan.send.unwrap();
    assert_eq!(sent.body, b"abcd".to_vec());
    assert!(sent.closed);
}

#[test]
fn unsized_raw_read_collects_until_the_body_ends() {
    let (mut reader, mut bridge) = reader_with(RequestReadEvent::Raw(-1));
    let plan = reader.process_read(&mut bridge, &bufs(&[b"ab"]), &None);
    assert!(plan.send.is_none());
    assert_eq!(plan.drain_buffered, 2);
    assert_eq!(reader.read_buffer, b"ab".to_vec());
    assert!(reader.pending_read == RequestReadEvent::Raw(-1));
    reader.request_closed = true;
    let plan = reader.process_read(&mut bridge, &None, &bufs(&[b"cd"]));
    assert_eq!(plan.drain_received, 2);
    let sent = plan.send.unwrap();
    assert_eq!(sent.body, b"abcd".to_vec());
    assert!(sent.closed);
    assert!(reader.read_buffer.is_empty());
    assert!(reader.pending_read == RequestReadEvent::Wait);
}

#[test]
fn line_read_stops_after_the_newline() {
    let (mut reader, mut bridge) = reader_with(RequestReadEvent::Line(-1));
    let plan = reader.process_read(&mut bridge, &bufs(&[b"ab\ncd"]), &bufs(&[b"ef"]));
    assert_eq!(plan.drain_buffered, 3);
    assert_eq!(plan.drain_received, 0);
    let sent = plan.send.unwrap();
    assert_eq!(sent.body, b"ab\n".to_vec());
    assert!(!sent.closed);
}

#[test]
fn line_read_stops_at_its_size() {
    let (mut reader, mut bridge) = reader_with(RequestReadEvent::Line(2));
    let plan = reader.process_read(&mut bridge, &bufs(&[b"abcd"]), &None);
    assert_eq!(plan.drain_buffered, 2);
    assert_eq!(plan.send.unwrap().body, b"ab".to_vec());
}

#[test]
fn line_read_waits_for_more_then_finishes_with_the_body() {
    let (mut reader, mut bridge) = reader_with(RequestReadEvent::Line(-1));
    let plan = reader.process_read(&mut bridge, &bufs(&[b"ab"]), &None);
    assert!(plan.send.is_none());
    assert_eq!(plan.drain_buffered, 2);
    assert_eq!(reader.read_buffer, b"ab".to_vec());
    reader.request_closed = true;
    let plan = reader.process_read(&mut bridge, &None, &None);
    let sent = plan.send.unwrap();
    assert_eq!(sent.body, b"ab".to_vec());
    assert!(sent.closed);
}

#[test]
fn nothing_happens_without_body_while_open() {
    let (mut reader, mut bridge) = reader_with(RequestReadEvent::Raw(4));
    let plan = reader.process_read(&mut bridge, &None, &bufs(&[b""]));
    assert!(plan.send.is_none());
    assert_eq!(plan.drain_buffered + plan.drain_received, 0);
    assert!(reader.pending_read == RequestReadEvent::Raw(4));
}

#[test]
fn the_last_read_request_wins() {
    let mut reader = RequestReader::new();
    let mut bridge = EventBridge::new();
    bridge.send(RequestReadEvent::Raw(1)).unwrap();
    bridge.send(RequestReadEvent::Raw(3)).unwrap();
    let plan = reader.process_read(&mut bridge, &bufs(&[b"abcdef"]), &None);
    assert_eq!(plan.send.unwrap().body, b"abc".to_vec());
}

#[test]
fn line_scan_reports_how_many_bytes_it_took() {
    let mut reader = RequestReader::new();
    let (found, read) = reader.read_request_until_line_or_size(&vec![b"xy".to_vec(), b"z\nw".to_vec()], -1);
    assert!(found);
    assert_eq!(read, 4);
    assert_eq!(reader.read_buffer, b"xyz\n".to_vec());
    let mut other = RequestReader::new();
    let (found, read) = other.read_request_until_line_or_size(&vec![b"xy".to_vec()], -1);
    assert!(!found);
    assert_eq!(read, 2);
}

#[test]
fn read_sizes_map_to_read_events() {
    assert!(read_event(Some(0), false).is_none());
    assert!(read_event(None, false) == Some(RequestReadEvent::Raw(-1)));
    assert!(read_event(Some(8), false) == Some(RequestReadEvent::Raw(8)));
    assert!(read_event(None, true) == Some(RequestReadEvent::Line(-1)));
    assert!(read_event(Some(3), true) == Some(RequestReadEvent::Line(3)));
}

#[test]
fn input_stream_stops_asking_once_closed() {
    let mut input = RequestInput::new();
    let mut bridge = EventBridge::new();
    assert_eq!(input.start_read(&mut bridge, RequestReadEvent::Raw(2)), Some(Some(EVENT_ID_REQUEST)));
    let bytes = input.finish_read(RequestBody { body: b"hi".to_vec(), closed: true });
    assert_eq!(bytes, b"hi".to_vec());
    assert!(input.closed);
    assert_eq!(input.start_read(&mut bridge, RequestReadEvent::Raw(2)), None);
}

#[test]
fn readlines_keeps_newlines() {
    let lines = split_inclusive_lines(b"a\nbc\n\nd");
    assert_eq!(lines, vec![b"a\n".to_vec(), b"bc\n".to_vec(), b"\n".to_vec(), b"d".to_vec()]);
    assert!(split_inclusive_lines(b"").is_empty());
    assert_eq!(next_line(Vec::new()), None);
    assert_eq!(next_line(b"x\n".to_vec()), Some(b"x\n".to_vec()));
}
