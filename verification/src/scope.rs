//! The request scope: what Envoy tells about a request (protocol, headers,
//! addresses, TLS), and the path decoding shared by ASGI and WSGI.
use crate::headers::{read_request_headers, Header, HeadersInfo};
use crate::text::{ascii, bytes_eq, find_byte, first_index_of, to_vec};
use vstd::prelude::*;
use vstd::utf8::valid_utf8;

verus! {

/// The HTTP version of a request.
#[derive(Clone, Copy, PartialEq, Eq, Structural, Debug)]
pub enum HttpVersion {
    Http10,
    Http11,
    Http2,
    Http3,
}

/// The version named by Envoy's request protocol attribute; HTTP/1.1 when
/// absent or unknown.
pub open spec fn spec_http_version(protocol: Option<Seq<u8>>) -> HttpVersion {
    match protocol {
        Some(p) => if p == ascii(seq!['H', 'T', 'T', 'P', '/', '1', '.', '0']) {
            HttpVersion::Http10
        } else if p == ascii(seq!['H', 'T', 'T', 'P', '/', '1', '.', '1']) {
            HttpVersion::Http11
        } else if p == ascii(seq!['H', 'T', 'T', 'P', '/', '2']) {
            HttpVersion::Http2
        } else if p == ascii(seq!['H', 'T', 'T', 'P', '/', '3']) {
            HttpVersion::Http3
        } else {
            HttpVersion::Http11
        },
        None => HttpVersion::Http11,
    }
}

/// The HTTP version named by Envoy's request protocol attribute.
pub fn http_version_from_protocol(protocol: &Option<Vec<u8>>) -> (res: HttpVersion)
    ensures
        res == spec_http_version(
            match protocol {
                Some(p) => Some(p@),
                None => None,
            },
        ),
{
    proof {
        reveal_strlit("HTTP/1.0");
        reveal_strlit("HTTP/1.1");
        reveal_strlit("HTTP/2");
        reveal_strlit("HTTP/3");
    }
    let v10 = crate::text::ascii_vec("HTTP/1.0");
    let v11 = crate::text::ascii_vec("HTTP/1.1");
    let v2 = crate::text::ascii_vec("HTTP/2");
    let v3 = crate::text::ascii_vec("HTTP/3");
    assert(v10@ == ascii(seq!['H', 'T', 'T', 'P', '/', '1', '.', '0']));
    assert(v11@ == ascii(seq!['H', 'T', 'T', 'P', '/', '1', '.', '1']));
    assert(v2@ == ascii(seq!['H', 'T', 'T', 'P', '/', '2']));
    assert(v3@ == ascii(seq!['H', 'T', 'T', 'P', '/', '3']));
    match protocol {
        Some(p) => {
            if bytes_eq(p.as_slice(), v10.as_slice()) {
                HttpVersion::Http10
            } else if bytes_eq(p.as_slice(), v11.as_slice()) {
                HttpVersion::Http11
            } else if bytes_eq(p.as_slice(), v2.as_slice()) {
                HttpVersion::Http2
            } else if bytes_eq(p.as_slice(), v3.as_slice()) {
                HttpVersion::Http3
            } else {
                HttpVersion::Http11
            }
        },
        None => HttpVersion::Http11,
    }
}

/// A request's version is the one its protocol names, so that what the
/// applications are told names the protocol received: the WSGI
/// `SERVER_PROTOCOL` is Envoy's name of a known protocol (`HTTP/1.0`,
/// `HTTP/1.1`, `HTTP/2`, `HTTP/3`) and the ASGI `http_version` is that name
/// without `HTTP/`; any other name, or none, counts as HTTP/1.1.
pub proof fn law_version_names_protocol(p: Seq<u8>)
    ensures
        ({
            let known = p == ascii(seq!['H', 'T', 'T', 'P', '/', '1', '.', '0']) || p == ascii(
                seq!['H', 'T', 'T', 'P', '/', '1', '.', '1'],
            ) || p == ascii(seq!['H', 'T', 'T', 'P', '/', '2']) || p == ascii(
                seq!['H', 'T', 'T', 'P', '/', '3'],
            );
            &&& known ==> crate::wsgi::environ::spec_server_protocol(spec_http_version(Some(p))) == p
            &&& known ==> crate::asgi::scope::spec_asgi_version(spec_http_version(Some(p))) == p.skip(5)
            &&& !known ==> spec_http_version(Some(p)) == HttpVersion::Http11
        }),
        spec_http_version(None) == HttpVersion::Http11,
        spec_http_version(Some(ascii(seq!['H', 'T', 'T', 'P', '/', '1', '.', '0']))) != spec_http_version(
            Some(ascii(seq!['H', 'T', 'T', 'P', '/', '1', '.', '1'])),
        ),
{
    let v10 = ascii(seq!['H', 'T', 'T', 'P', '/', '1', '.', '0']);
    let v11 = ascii(seq!['H', 'T', 'T', 'P', '/', '1', '.', '1']);
    let v2 = ascii(seq!['H', 'T', 'T', 'P', '/', '2']);
    let v3 = ascii(seq!['H', 'T', 'T', 'P', '/', '3']);
    assert(v10[7] != v11[7]);
    assert(v10.len() != v2.len());
    assert(v10.len() != v3.len());
    assert(v11.len() != v2.len());
    assert(v11.len() != v3.len());
    assert(v2[5] != v3[5]);
    assert(v10.skip(5) =~= ascii(seq!['1', '.', '0']));
    assert(v11.skip(5) =~= ascii(seq!['1', '.', '1']));
    assert(v2.skip(5) =~= ascii(seq!['2']));
    assert(v3.skip(5) =~= ascii(seq!['3']));
}

/// The TLS version number (as in the TLS record layer) named by Envoy's
/// connection attribute, 0 when unknown.
pub open spec fn spec_tls_version(name: Seq<u8>) -> u16 {
    if name == ascii(seq!['T', 'L', 'S', 'v', '1', '.', '0']) {
        0x0301
    } else if name == ascii(seq!['T', 'L', 'S', 'v', '1', '.', '1']) {
        0x0302
    } else if name == ascii(seq!['T', 'L', 'S', 'v', '1', '.', '2']) {
        0x0303
    } else if name == ascii(seq!['T', 'L', 'S', 'v', '1', '.', '3']) {
        0x0304
    } else {
        0
    }
}

/// The TLS version number for Envoy's name of it.
pub fn tls_version_code(name: &[u8]) -> (res: u16)
    ensures
        res == spec_tls_version(name@),
{
    proof {
        reveal_strlit("TLSv1.0");
        reveal_strlit("TLSv1.1");
        reveal_strlit("TLSv1.2");
        reveal_strlit("TLSv1.3");
    }
    let t0 = crate::text::ascii_vec("TLSv1.0");
    let t1 = crate::text::ascii_vec("TLSv1.1");
    let t2 = crate::text::ascii_vec("TLSv1.2");
    let t3 = crate::text::ascii_vec("TLSv1.3");
    assert(t0@ == ascii(seq!['T', 'L', 'S', 'v', '1', '.', '0']));
    assert(t1@ == ascii(seq!['T', 'L', 'S', 'v', '1', '.', '1']));
    assert(t2@ == ascii(seq!['T', 'L', 'S', 'v', '1', '.', '2']));
    assert(t3@ == ascii(seq!['T', 'L', 'S', 'v', '1', '.', '3']));
    if bytes_eq(name, t0.as_slice()) {
        0x0301
    } else if bytes_eq(name, t1.as_slice()) {
        0x0302
    } else if bytes_eq(name, t2.as_slice()) {
        0x0303
    } else if bytes_eq(name, t3.as_slice()) {
        0x0304
    } else {
        0
    }
}

/// Checks UTF-8 with `std::str::from_utf8`, which accepts exactly the valid
/// UTF-8 byte strings.
#[verifier::external_body]
pub(crate) fn is_utf8(bytes: &[u8]) -> (res: bool)
    ensures
        res == valid_utf8(bytes@),
{
    std::str::from_utf8(bytes).is_ok()
}

/// The bytes before the first `b`, all of them when there is none.
pub open spec fn before_first(s: Seq<u8>, b: u8) -> Seq<u8> {
    s.take(first_index_of(s, b))
}

/// The bytes before the first `b`.
pub fn prefix_before(s: &[u8], b: u8) -> (res: Vec<u8>)
    ensures
        res@ == before_first(s@, b),
{
    let idx = find_byte(s, b);
    let mut out: Vec<u8> = Vec::new();
    let mut i: usize = 0;
    proof {
        crate::text::lemma_first_index_of(s@, b);
    }
    while i < idx
        invariant
            idx == first_index_of(s@, b),
            idx <= s@.len(),
            i <= idx,
            out@ == s@.take(i as int),
        decreases idx - i,
    {
        out.push(s[i]);
        proof {
            assert(s@.take(i + 1) =~= s@.take(i as int).push(s@[i as int]));
        }
        i = i + 1;
    }
    out
}

/// The host of an address attribute: the text before any colon, or nothing
/// when that is not valid UTF-8.
pub open spec fn address_host(address: Seq<u8>) -> Seq<u8> {
    let host = before_first(address, 58u8);
    if valid_utf8(host) {
        host
    } else {
        Seq::empty()
    }
}

/// An address and port from Envoy's attributes, present only when both are.
pub fn get_address(address: &Option<Vec<u8>>, port: Option<i64>) -> (res: Option<(Vec<u8>, i64)>)
    ensures
        match (address, port) {
            (Some(a), Some(p)) => res matches Some(r) && r.0@ == address_host(a@) && r.1 == p,
            _ => res is None,
        },
{
    match (address, port) {
        (Some(a), Some(p)) => {
            let host = prefix_before(a.as_slice(), 58u8);
            if is_utf8(host.as_slice()) {
                Some((host, p))
            } else {
                Some((Vec::new(), p))
            }
        },
        _ => None,
    }
}

/// The characters before the first colon, all of them when there is none.
pub open spec fn strip_port(s: Seq<char>) -> Seq<char>
    decreases s.len(),
{
    if s.len() == 0 || s[0] == ':' {
        Seq::empty()
    } else {
        seq![s[0]] + strip_port(s.drop_first())
    }
}

proof fn lemma_strip_port_take(s: Seq<char>, i: int)
    requires
        0 <= i <= s.len(),
        forall|k: int| 0 <= k < i ==> s[k] != ':',
        i == s.len() || s[i] == ':',
    ensures
        strip_port(s) == s.take(i),
    decreases s.len(),
{
    if s.len() > 0 && s[0] != ':' {
        assert forall|k: int| 0 <= k < i - 1 implies s.drop_first()[k] != ':' by {
            assert(s.drop_first()[k] == s[k + 1]);
        }
        if i < s.len() {
            assert(s.drop_first()[i - 1] == s[i]);
        }
        lemma_strip_port_take(s.drop_first(), i - 1);
        assert(seq![s[0]] + s.drop_first().take(i - 1) =~= s.take(i));
    } else {
        assert(s.take(i) =~= Seq::<char>::empty());
    }
}

/// Converts an address and port reported by Envoy into a scope address,
/// dropping any port suffix on the host; an empty address means no address.
pub fn address_to_scope(address: (String, u32)) -> (res: Option<(String, i64)>)
    ensures
        address.0@.len() == 0 ==> res is None,
        address.0@.len() > 0 ==> (res matches Some(r) && r.0@ == strip_port(address.0@) && r.1
            == address.1 as i64),
{
    let (host, port) = address;
    let s = host.as_str();
    let len = vstd::string::StrSliceExecFns::unicode_len(s);
    if len == 0 {
        return None;
    }
    let mut i: usize = 0;
    let mut found = false;
    while i < len && !found
        invariant
            len == s@.len(),
            i <= len,
            forall|k: int| 0 <= k < i ==> s@[k] != ':',
            found ==> i < len && s@[i as int] == ':',
        decreases len - i + (if found { 0int } else { 1int }),
    {
        if vstd::string::StrSliceExecFns::get_char(s, i) == ':' {
            found = true;
        } else {
            i = i + 1;
        }
    }
    proof {
        lemma_strip_port_take(s@, i as int);
    }
    let stripped = vstd::string::StrSliceExecFns::substring_char(s, 0, i);
    let out = <String as vstd::string::StringExecFns>::from_str(stripped);
    proof {
        assert(stripped@ =~= s@.take(i as int));
    }
    Some((out, port as i64))
}

/// TLS details of the downstream connection.
pub struct TlsInfo {
    /// The TLS version number, 0 when unknown.
    pub tls_version: u16,
    /// The subject of the client certificate, if one was presented.
    pub client_cert_name: Option<Vec<u8>>,
}

/// Everything the applications are told about a request.
pub struct Scope {
    pub http_version: HttpVersion,
    pub method: Vec<u8>,
    pub scheme: Vec<u8>,
    /// The full raw path, percent-encoded, with its query.
    pub raw_path: Vec<u8>,
    pub headers: Vec<Header>,
    pub client: Option<(Vec<u8>, i64)>,
    pub server: Option<(Vec<u8>, i64)>,
    pub tls_info: Option<TlsInfo>,
}

/// Envoy's attributes of a request, as read from the filter.
pub struct RequestAttributes {
    /// The request protocol, such as `HTTP/1.1`.
    pub protocol: Option<Vec<u8>>,
    /// The request headers, pseudo-headers included.
    pub headers: Vec<Header>,
    pub source_address: Option<Vec<u8>>,
    pub source_port: Option<i64>,
    pub destination_address: Option<Vec<u8>>,
    pub destination_port: Option<i64>,
    /// The TLS version name of the connection, absent without TLS.
    pub tls_version: Option<Vec<u8>>,
    /// The subject of the peer certificate.
    pub peer_certificate: Option<Vec<u8>>,
}

/// Builds the scope of a request from Envoy's attributes: the protocol
/// version, the headers (see `read_request_headers`), the client and server
/// addresses, and the TLS details when the connection uses TLS. A client
/// certificate subject that is not UTF-8 becomes empty.
pub fn new_scope(attrs: &RequestAttributes) -> (res: Scope)
    ensures
        res.http_version == spec_http_version(
            match attrs.protocol {
                Some(p) => Some(p@),
                None => None,
            },
        ),
        ({
            let info = read_request_headers_spec(attrs.headers@, res);
            info
        }),
        match (attrs.source_address, attrs.source_port) {
            (Some(a), Some(p)) => res.client matches Some(r) && r.0@ == address_host(a@) && r.1
                == p,
            _ => res.client is None,
        },
        match (attrs.destination_address, attrs.destination_port) {
            (Some(a), Some(p)) => res.server matches Some(r) && r.0@ == address_host(a@) && r.1
                == p,
            _ => res.server is None,
        },
        match attrs.tls_version {
            None => res.tls_info is None,
            Some(v) => res.tls_info matches Some(t) && t.tls_version == spec_tls_version(v@)
                && match attrs.peer_certificate {
                None => t.client_cert_name is None,
                Some(c) => t.client_cert_name matches Some(n) && n@ == (if valid_utf8(c@) {
                    c@
                } else {
                    Seq::empty()
                }),
            },
        },
{
    let http_version = http_version_from_protocol(&attrs.protocol);
    let HeadersInfo { headers, method, raw_path, scheme } = read_request_headers(&attrs.headers);
    let client = get_address(&attrs.source_address, attrs.source_port);
    let server = get_address(&attrs.destination_address, attrs.destination_port);
    let tls_info = match &attrs.tls_version {
        Some(v) => {
            let tls_version = tls_version_code(v.as_slice());
            let client_cert_name = match &attrs.peer_certificate {
                Some(c) => {
                    if is_utf8(c.as_slice()) {
                        Some(to_vec(c.as_slice()))
                    } else {
                        Some(Vec::new())
                    }
                },
                None => None,
            };
            Some(TlsInfo { tls_version, client_cert_name })
        },
        None => None,
    };
    Scope { http_version, method, scheme, raw_path, headers, client, server, tls_info }
}

/// The scope's method, scheme, raw path and headers are those that
/// `read_request_headers` reads from `hs`.
pub open spec fn read_request_headers_spec(hs: Seq<Header>, s: Scope) -> bool {
    let v = crate::headers::headers_view(hs);
    let rest = crate::headers::regular_headers(v);
    &&& crate::headers::headers_view(s.headers@) == match crate::headers::first_value(
        v,
        crate::headers::pseudo_authority(),
    ) {
        Some(a) => seq![crate::headers::host_header(a)] + rest,
        None => rest,
    }
    &&& s.method@ == crate::headers::last_accepted(
        v,
        crate::headers::pseudo_method(),
        |m: Seq<u8>| crate::headers::valid_method(m),
        ascii(seq!['G', 'E', 'T']),
    )
    &&& s.scheme@ == crate::headers::last_accepted(
        v,
        crate::headers::pseudo_scheme(),
        |m: Seq<u8>| crate::headers::valid_scheme(m),
        ascii(seq!['h', 't', 't', 'p']),
    )
    &&& s.raw_path@ == crate::headers::last_accepted(
        v,
        crate::headers::pseudo_path(),
        |m: Seq<u8>| true,
        Seq::empty(),
    )
}

/// A raw path split at its first `?`: the path before it, the query after.
pub open spec fn path_part(raw: Seq<u8>) -> Seq<u8> {
    raw.take(first_index_of(raw, 63u8))
}

pub open spec fn query_part(raw: Seq<u8>) -> Seq<u8> {
    let i = first_index_of(raw, 63u8);
    if i < raw.len() {
        raw.skip(i + 1)
    } else {
        Seq::empty()
    }
}

/// Splits a raw path into the path and the query string at its first `?`.
pub fn split_raw_path(raw: &[u8]) -> (res: (Vec<u8>, Vec<u8>))
    ensures
        res.0@ == path_part(raw@),
        res.1@ == query_part(raw@),
{
    let idx = find_byte(raw, 63u8);
    proof {
        crate::text::lemma_first_index_of(raw@, 63u8);
    }
    let mut path: Vec<u8> = Vec::new();
    let mut query: Vec<u8> = Vec::new();
    let mut i: usize = 0;
    while i < raw.len()
        invariant
            idx == first_index_of(raw@, 63u8),
            idx <= raw@.len(),
            i <= raw@.len(),
            path@ == raw@.take(if i < idx { i as int } else { idx as int }),
            query@ == (if i <= idx { Seq::empty() } else { raw@.subrange(idx + 1, i as int) }),
        decreases raw@.len() - i,
    {
        if i < idx {
            path.push(raw[i]);
            proof {
                assert(raw@.take(i + 1) =~= raw@.take(i as int).push(raw@[i as int]));
            }
        } else if i > idx {
            query.push(raw[i]);
            proof {
                assert(raw@.subrange(idx + 1, i + 1) =~= raw@.subrange(idx + 1, i as int).push(
                    raw@[i as int],
                ));
            }
        } else {
            proof {
                assert(raw@.subrange(idx + 1, i + 1) =~= Seq::<u8>::empty());
            }
        }
        i = i + 1;
    }
    proof {
        if idx < raw@.len() {
            assert(raw@.subrange(idx + 1, raw@.len() as int) =~= raw@.skip(idx + 1));
        }
    }
    (path, query)
}

/// Whether a byte is a hexadecimal digit.
pub open spec fn is_hex(b: u8) -> bool {
    (48 <= b <= 57) || (65 <= b <= 70) || (97 <= b <= 102)
}

/// The value of a hexadecimal digit.
pub open spec fn hex_value(b: u8) -> int {
    if 48 <= b <= 57 {
        b - 48
    } else if 65 <= b <= 70 {
        b - 55
    } else {
        b - 87
    }
}

/// Percent-decoding as done by `urlencoding::decode_binary`: `%` and two hex
/// digits become the byte they write; any other `%` stays as it is.
pub open spec fn percent_decode(s: Seq<u8>) -> Seq<u8>
    decreases s.len(),
{
    if s.len() == 0 {
        Seq::empty()
    } else if s[0] != 37 {
        seq![s[0]] + percent_decode(s.drop_first())
    } else if s.len() < 3 {
        s
    } else if is_hex(s[1]) && is_hex(s[2]) {
        seq![(hex_value(s[1]) * 16 + hex_value(s[2])) as u8] + percent_decode(s.skip(3))
    } else if is_hex(s[1]) {
        seq![37u8, s[1]] + percent_decode(s.skip(2))
    } else {
        seq![37u8] + percent_decode(s.drop_first())
    }
}

/// Percent-decodes a path with `urlencoding::decode_binary`.
#[verifier::external_body]
pub(crate) fn decode_binary(data: &[u8]) -> (res: Vec<u8>)
    ensures
        res@ == percent_decode(data@),
{
    urlencoding::decode_binary(data).into_owned()
}

/// Decodes Latin-1 with `encoding_rs::mem::decode_latin1`: each byte becomes
/// the character with that code point.
#[verifier::external_body]
pub(crate) fn decode_latin1(bytes: &[u8]) -> (res: String)
    ensures
        res@ == bytes@.map_values(|b: u8| b as char),
{
    encoding_rs::mem::decode_latin1(bytes).into_owned()
}

/// The path and query split off a raw path put back together give the raw
/// path: the path, then `?` and the query when the raw path had a `?`.
pub proof fn law_raw_path_split_joins(raw: Seq<u8>)
    ensures
        first_index_of(raw, 63u8) < raw.len() ==> raw == path_part(raw) + seq![63u8] + query_part(
            raw,
        ),
        first_index_of(raw, 63u8) == raw.len() ==> raw == path_part(raw) && query_part(raw).len()
            == 0,
{
    crate::text::lemma_first_index_of(raw, 63u8);
    let i = first_index_of(raw, 63u8);
    if i < raw.len() {
        assert(raw =~= raw.take(i) + seq![63u8] + raw.skip(i + 1));
    } else {
        assert(raw.take(i) =~= raw);
    }
}

/// Percent-decoding leaves text without `%` as it is.
pub proof fn law_decode_without_percent(s: Seq<u8>)
    requires
        forall|i: int| 0 <= i < s.len() ==> s[i] != 37u8,
    ensures
        percent_decode(s) == s,
    decreases s.len(),
{
    if s.len() > 0 {
        assert forall|i: int| 0 <= i < s.drop_first().len() implies s.drop_first()[i] != 37u8 by {
            assert(s.drop_first()[i] == s[i + 1]);
        }
        law_decode_without_percent(s.drop_first());
        assert(seq![s[0]] + s.drop_first() =~= s);
    }
}

} // verus!
