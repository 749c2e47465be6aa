use pyvoy::headers::{
    extract_headers, find_first_value, read_request_headers, to_asgi_bytes, to_wsgi_string,
    HeaderError,
};
use pyvoy::scope::{
    address_to_scope, get_address, http_version_from_protocol, new_scope, prefix_before,
    split_raw_path, tls_version_code, HttpVersion, RequestAttributes,
};

fn h(n: &str, v: &str) -> (Vec<u8>, Vec<u8>) {
    (n.as_bytes().to_vec(), v.as_bytes().to_vec())
}

#[test]
fn wsgi_key_of_header_name() {
    assert_eq!(to_wsgi_string(b"x-custom-header"), b"HTTP_X_CUSTOM_HEADER".to_vec());
    assert_eq!(to_wsgi_string(b"content-type"), b"HTTP_CONTENT_TYPE".to_vec());
    assert_eq!(to_wsgi_string(b""), b"HTTP_".to_vec());
}

#[test]
fn asgi_name_is_unchanged() {
    assert_eq!(to_asgi_bytes(b"x-custom-header"), b"x-custom-header".to_vec());
}

#[test]
fn request_headers_are_split_from_pseudo_headers() {
    let envoy = vec![
        h(":method", "POST"),
        h(":scheme", "https"),
        h(":path", "/echo?x=1"),
        h(":authority", "example.com"),
        h("Content-Type", "text/plain"),
        h("x-forwarded-proto", "https"),
        h("bad name", "v"),
        h("accept", "*/*"),
    ];
    let info = read_request_headers(&envoy);
    assert_eq!(info.method, b"POST".to_vec());
    assert_eq!(info.scheme, b"https".to_vec());
    assert_eq!(info.raw_path, b"/echo?x=1".to_vec());
    assert_eq!(
        info.headers,
        vec![h("host", "example.com"), h("content-type", "text/plain"), h("accept", "*/*")]
    );
}

#[test]
fn request_headers_defaults() {
    let info = read_request_headers(&vec![h(":method", "BAD METHOD"), h("a", "b")]);
    assert_eq!(info.method, b"GET".to_vec());
    assert_eq!(info.scheme, b"http".to_vec());
    assert_eq!(info.raw_path, Vec::<u8>::new());
    assert_eq!(info.headers, vec![h("a", "b")]);
}

#[test]
fn extract_headers_validates_and_lowercases() {
    match extract_headers(&vec![h("X-One", "1"), h("two", "2")]) {
        Ok(hs) => assert_eq!(hs, vec![h("x-one", "1"), h("two", "2")]),
        Err(_) => panic!("valid headers refused"),
    }
    assert!(matches!(extract_headers(&vec![h("ok", "1"), h("bad name", "2")]), Err(HeaderError::InvalidName)));
    assert!(matches!(extract_headers(&vec![h("ok", "1\n")]), Err(HeaderError::InvalidValue)));
}

#[test]
fn first_value_lookup() {
    let hs = vec![h("a", "1"), h("b", "2"), h("a", "3")];
    assert_eq!(find_first_value(&hs, b"a"), Some(b"1".to_vec()));
    assert_eq!(find_first_value(&hs, b"c"), None);
}

#[test]
fn http_versions() {
    assert_eq!(http_version_from_protocol(&Some(b"HTTP/1.0".to_vec())), HttpVersion::Http10);
    assert_eq!(http_version_from_protocol(&Some(b"HTTP/2".to_vec())), HttpVersion::Http2);
    assert_eq!(http_version_from_protocol(&Some(b"HTTP/3".to_vec())), HttpVersion::Http3);
    assert_eq!(http_version_from_protocol(&Some(b"SPDY".to_vec())), HttpVersion::Http11);
    assert_eq!(http_version_from_protocol(&None), HttpVersion::Http11);
}

#[test]
fn tls_version_codes() {
    assert_eq!(tls_version_code(b"TLSv1.0"), 0x0301);
    assert_eq!(tls_version_code(b"TLSv1.2"), 0x0303);
    assert_eq!(tls_version_code(b"TLSv1.3"), 0x0304);
    assert_eq!(tls_version_code(b"SSLv3"), 0);
}

#[test]
fn addresses_drop_the_port() {
    assert_eq!(prefix_before(b"127.0.0.1:8080", b':'), b"127.0.0.1".to_vec());
    assert_eq!(
        get_address(&Some(b"10.0.0.1:443".to_vec()), Some(443)),
        Some((b"10.0.0.1".to_vec(), 443))
    );
    assert_eq!(get_address(&Some(b"10.0.0.1".to_vec()), None), None);
    assert_eq!(get_address(&None, Some(1)), None);
}

#[test]
fn address_to_scope_cases() {
    assert_eq!(
        address_to_scope((String::from("127.0.0.1:5555"), 5555)),
        Some((String::from("127.0.0.1"), 5555))
    );
    assert_eq!(
        address_to_scope((String::from("localhost"), 80)),
        Some((String::from("localhost"), 80))
    );
    assert_eq!(address_to_scope((String::new(), 80)), None);
}

#[test]
fn raw_path_splits_at_first_question_mark() {
    assert_eq!(split_raw_path(b"/a/b?x=1?y"), (b"/a/b".to_vec(), b"x=1?y".to_vec()));
    assert_eq!(split_raw_path(b"/plain"), (b"/plain".to_vec(), Vec::new()));
    assert_eq!(split_raw_path(b"?q"), (Vec::new(), b"q".to_vec()));
}

#[test]
fn scope_from_attributes() {
    let attrs = RequestAttributes {
        protocol: Some(b"HTTP/2".to_vec()),
        headers: vec![h(":path", "/p?q"), h(":authority", "svc"), h("x", "y")],
        source_address: Some(b"1.2.3.4:999".to_vec()),
        source_port: Some(999),
        destination_address: Some(b"5.6.7.8:80".to_vec()),
        destination_port: None,
        tls_version: Some(b"TLSv1.3".to_vec()),
        peer_certificate: Some(vec![0xff, 0xfe]),
    };
    let s = new_scope(&attrs);
    assert_eq!(s.http_version, HttpVersion::Http2);
    assert_eq!(s.method, b"GET".to_vec());
    assert_eq!(s.scheme, b"http".to_vec());
    assert_eq!(s.raw_path, b"/p?q".to_vec());
    assert_eq!(s.headers, vec![h("host", "svc"), h("x", "y")]);
    assert_eq!(s.client, Some((b"1.2.3.4".to_vec(), 999)));
    assert_eq!(s.server, None);
    let tls = s.tls_info.expect("tls info");
    assert_eq!(tls.tls_version, 0x0304);
    assert_eq!(tls.client_cert_name, Some(Vec::new()));
}

#[test]
fn invalid_scheme_falls_back_to_http() {
    let info = read_request_headers(&vec![h(":scheme", "no scheme"), h(":scheme", "wss")]);
    assert_eq!(info.scheme, b"wss".to_vec());
    let info = read_request_headers(&vec![h(":scheme", "https"), h(":scheme", "bad scheme!")]);
    assert_eq!(info.scheme, b"https".to_vec());
}
