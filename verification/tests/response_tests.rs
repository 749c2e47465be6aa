use pyvoy::response::{clone_headers, error_reply, status_headers, Watermark};

#[test]
fn status_header_comes_first() {
    let hs = vec![(b"content-type".to_vec(), b"text/plain".to_vec())];
    assert_eq!(
        status_headers(404, &hs),
        vec![
            (b":status".to_vec(), b"404".to_vec()),
            (b"content-type".to_vec(), b"text/plain".to_vec())
        ]
    );
    assert_eq!(status_headers(200, &Vec::new()), vec![(b":status".to_vec(), b"200".to_vec())]);
}

#[test]
fn clone_headers_copies() {
    let hs = vec![(b"a".to_vec(), b"1".to_vec()), (b"b".to_vec(), b"2".to_vec())];
    assert_eq!(clone_headers(&hs), hs);
}

#[test]
fn error_reply_is_plain_500() {
    let r = error_reply();
    assert_eq!(r.status, 500);
    assert_eq!(
        r.headers,
        vec![
            (b"content-type".to_vec(), b"text/plain; charset=utf-8".to_vec()),
            (b"connection".to_vec(), b"close".to_vec())
        ]
    );
    assert_eq!(r.body, b"Internal Server Error".to_vec());
}

#[test]
fn watermark_levels() {
    let mut w = Watermark { level: 0 };
    assert!(w.may_write());
    w.above();
    w.above();
    assert!(!w.may_write());
    assert!(!w.below());
    assert!(w.below());
    assert!(w.may_write());
}
