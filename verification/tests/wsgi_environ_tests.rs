use pyvoy::scope::{HttpVersion, Scope, TlsInfo};
use pyvoy::wsgi::environ::{build_environ, header_entries, server_protocol, EnvironError};

fn h(n: &str, v: &str) -> (Vec<u8>, Vec<u8>) {
    (n.as_bytes().to_vec(), v.as_bytes().to_vec())
}

fn scope(raw_path: &str, headers: Vec<(Vec<u8>, Vec<u8>)>) -> Scope {
    Scope {
        http_version: HttpVersion::Http11,
        method: b"POST".to_vec(),
        scheme: b"https".to_vec(),
        raw_path: raw_path.as_bytes().to_vec(),
        headers,
        client: Some((b"10.0.0.2".to_vec(), 5555)),
        server: Some((b"10.0.0.1".to_vec(), 8080)),
        tls_info: Some(TlsInfo { tls_version: 0x0303, client_cert_name: Some(b"CN=client".to_vec()) }),
    }
}

#[test]
fn environ_decodes_path_below_root_and_keeps_query() {
    let s = scope("/app/foo%20bar?x=1&y=%41", vec![]);
    let env = match build_environ(&s, b"/app") {
        Ok(env) => env,
        Err(_) => panic!("expected an environ"),
    };
    assert_eq!(env.path_info, "/foo bar");
    assert_eq!(env.query_string, "x=1&y=%41");
    assert_eq!(env.request_method, b"POST".to_vec());
    assert_eq!(env.url_scheme, b"https".to_vec());
    assert_eq!(env.server_name, b"10.0.0.1".to_vec());
    assert_eq!(env.server_port, b"8080".to_vec());
    assert_eq!(env.server_protocol, b"HTTP/1.1".to_vec());
    assert_eq!(env.tls_version, Some(b"771".to_vec()));
    assert_eq!(env.tls_client_cert_name, Some(b"CN=client".to_vec()));
}

#[test]
fn environ_path_info_reads_bytes_as_latin1() {
    let s = scope("/caf%C3%A9", vec![]);
    let env = match build_environ(&s, b"") {
        Ok(env) => env,
        Err(_) => panic!("expected an environ"),
    };
    assert_eq!(env.path_info, "/caf\u{c3}\u{a9}");
}

#[test]
fn environ_refuses_a_path_outside_the_root() {
    let s = scope("/other/thing", vec![]);
    match build_environ(&s, b"/app") {
        Err(EnvironError::PathNotUnderRoot { decoded_path }) => {
            assert_eq!(decoded_path, b"/other/thing".to_vec())
        }
        _ => panic!("expected a root path error"),
    }
}

#[test]
fn environ_defaults_server_address() {
    let mut s = scope("/", vec![]);
    s.server = None;
    s.tls_info = None;
    let env = match build_environ(&s, b"") {
        Ok(env) => env,
        Err(_) => panic!("expected an environ"),
    };
    assert_eq!(env.server_name, b"localhost".to_vec());
    assert_eq!(env.server_port, b"0".to_vec());
    assert!(env.tls_version.is_none());
}

#[test]
fn environ_headers_join_repeats_and_special_case_content_headers() {
    let entries = header_entries(&vec![
        h("content-type", "text/plain"),
        h("x-custom", "1"),
        h("content-length", "5"),
        h("x-custom", "2"),
        h("x_custom", "3"),
        h("content-type", "application/json"),
    ])
    .unwrap();
    assert_eq!(
        entries,
        vec![
            h("CONTENT_TYPE", "application/json"),
            h("HTTP_X_CUSTOM", "1,2,3"),
            h("CONTENT_LENGTH", "5"),
        ]
    );
}

#[test]
fn environ_refuses_a_header_value_that_is_not_utf8() {
    let headers = vec![(b"x-bad".to_vec(), vec![0xff, 0xfe])];
    assert!(header_entries(&headers).is_none());
    let s = scope("/", headers);
    assert!(matches!(build_environ(&s, b""), Err(EnvironError::InvalidHeaderValue)));
}

#[test]
fn environ_joined_values_are_decoded_leniently() {
    let entries = header_entries(&vec![h("x-a", "ok"), (b"x-a".to_vec(), vec![0xff])]).unwrap();
    assert_eq!(entries, vec![(b"HTTP_X_A".to_vec(), "ok,\u{fffd}".as_bytes().to_vec())]);
}

#[test]
fn server_protocol_names() {
    assert_eq!(server_protocol(HttpVersion::Http10), b"HTTP/1.0".to_vec());
    assert_eq!(server_protocol(HttpVersion::Http2), b"HTTP/2".to_vec());
    assert_eq!(server_protocol(HttpVersion::Http3), b"HTTP/3".to_vec());
}
