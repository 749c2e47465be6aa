use pyvoy::body::{
    buffers_len, extend_from_buffers, extend_from_buffers_up_to, has_nonempty_buffer,
    has_request_body, read_request_body,
};

fn bufs(parts: &[&[u8]]) -> Option<Vec<Vec<u8>>> {
    Some(parts.iter().map(|p| p.to_vec()).collect())
}

#[test]
fn request_body_presence() {
    assert!(!has_request_body(&None, &None));
    assert!(!has_request_body(&bufs(&[b"", b""]), &None));
    assert!(has_request_body(&None, &bufs(&[b"", b"x"])));
    assert!(has_nonempty_buffer(&bufs(&[b"a"])));
    assert!(!has_nonempty_buffer(&bufs(&[])));
}

#[test]
fn buffers_length_and_extension() {
    let b = bufs(&[b"hel", b"", b"lo"]);
    assert_eq!(buffers_len(&b), 5);
    assert_eq!(buffers_len(&None), 0);
    let mut v = b"x".to_vec();
    assert_eq!(extend_from_buffers(&b, &mut v), 5);
    assert_eq!(v, b"xhello".to_vec());
}

#[test]
fn extension_up_to_a_limit() {
    let b = bufs(&[b"abc", b"def"]);
    let mut v = Vec::new();
    assert_eq!(extend_from_buffers_up_to(&b, 4, &mut v), 4);
    assert_eq!(v, b"abcd".to_vec());
    let mut w = Vec::new();
    assert_eq!(extend_from_buffers_up_to(&b, 100, &mut w), 6);
    assert_eq!(w, b"abcdef".to_vec());
    let mut z = Vec::new();
    assert_eq!(extend_from_buffers_up_to(&None, 3, &mut z), 0);
    assert!(z.is_empty());
}

#[test]
fn whole_body_read_takes_buffered_then_received() {
    let read = read_request_body(&bufs(&[b"ab"]), &bufs(&[b"cd", b"e"]));
    assert_eq!(read.body, b"abcde".to_vec());
    assert_eq!(read.drain_buffered, 2);
    assert_eq!(read.drain_received, 3);
}
