//! Outgoing HTTP requests made by applications through Envoy: building the
//! upstream request, buffering its response, and the errors of a reset.
use crate::headers::{
    decimal_int, format_decimal, header_name_from_bytes, header_value_from_bytes, headers_view,
    lower_name, method_from_bytes, valid_header_name, valid_header_value, valid_method, Header,
};
use crate::text::{append_bytes, ascii, ascii_vec, bytes_eq, to_vec};
use vstd::prelude::*;

verus! {

/// Why an upstream stream ended early.
#[derive(Clone, Copy, PartialEq, Eq, Structural, Debug)]
pub enum ResetReason {
    Local,
    Remote,
    Protocol,
    Connection,
    Overflow,
    /// The downstream request completed before the upstream response.
    ServerRequestDone,
    /// The upstream cluster could not be used.
    InvalidUpstream,
}

/// Envoy's reasons for resetting an upstream stream.
#[derive(Clone, Copy, PartialEq, Eq, Structural, Debug)]
pub enum StreamResetReason {
    LocalReset,
    LocalRefusedStreamReset,
    RemoteReset,
    RemoteRefusedStreamReset,
    ProtocolError,
    ConnectionFailure,
    ConnectionTermination,
    Overflow,
}

/// The reset reason reported to applications for Envoy's reason.
pub open spec fn spec_reset_reason(r: StreamResetReason) -> ResetReason {
    match r {
        StreamResetReason::LocalReset | StreamResetReason::LocalRefusedStreamReset => ResetReason::Local,
        StreamResetReason::RemoteReset | StreamResetReason::RemoteRefusedStreamReset => ResetReason::Remote,
        StreamResetReason::ProtocolError => ResetReason::Protocol,
        StreamResetReason::ConnectionFailure | StreamResetReason::ConnectionTermination => ResetReason::Connection,
        StreamResetReason::Overflow => ResetReason::Overflow,
    }
}

pub fn reset_reason(r: StreamResetReason) -> (res: ResetReason)
    ensures
        res == spec_reset_reason(r),
{
    match r {
        StreamResetReason::LocalReset | StreamResetReason::LocalRefusedStreamReset => ResetReason::Local,
        StreamResetReason::RemoteReset | StreamResetReason::RemoteRefusedStreamReset => ResetReason::Remote,
        StreamResetReason::ProtocolError => ResetReason::Protocol,
        StreamResetReason::ConnectionFailure | StreamResetReason::ConnectionTermination => ResetReason::Connection,
        StreamResetReason::Overflow => ResetReason::Overflow,
    }
}

/// Each of Envoy's reset reasons is reported for its own cause: resets on
/// this side as `Local`, by the peer as `Remote`, protocol errors as
/// `Protocol`, a connection that failed or ended as `Connection`, and an
/// overflow as `Overflow`; no Envoy reason is reported as the downstream
/// request finishing or an unusable cluster, and the reasons of different
/// causes are never reported alike.
pub proof fn law_reset_reason_causes(r: StreamResetReason, q: StreamResetReason)
    ensures
        spec_reset_reason(StreamResetReason::LocalReset) == ResetReason::Local,
        spec_reset_reason(StreamResetReason::LocalRefusedStreamReset) == ResetReason::Local,
        spec_reset_reason(StreamResetReason::RemoteReset) == ResetReason::Remote,
        spec_reset_reason(StreamResetReason::RemoteRefusedStreamReset) == ResetReason::Remote,
        spec_reset_reason(StreamResetReason::ProtocolError) == ResetReason::Protocol,
        spec_reset_reason(StreamResetReason::ConnectionFailure) == ResetReason::Connection,
        spec_reset_reason(StreamResetReason::ConnectionTermination) == ResetReason::Connection,
        spec_reset_reason(StreamResetReason::Overflow) == ResetReason::Overflow,
        spec_reset_reason(r) != ResetReason::ServerRequestDone,
        spec_reset_reason(r) != ResetReason::InvalidUpstream,
        (spec_reset_reason(r) == ResetReason::Connection) <==> (r == StreamResetReason::ConnectionFailure
            || r == StreamResetReason::ConnectionTermination),
        (spec_reset_reason(r) == ResetReason::Remote) <==> (r == StreamResetReason::RemoteReset
            || r == StreamResetReason::RemoteRefusedStreamReset),
        (spec_reset_reason(r) == ResetReason::Local) <==> (r == StreamResetReason::LocalReset
            || r == StreamResetReason::LocalRefusedStreamReset),
        spec_reset_reason(r) == spec_reset_reason(q) ==> (r == q || (r == StreamResetReason::LocalReset
            || r == StreamResetReason::LocalRefusedStreamReset) && (q == StreamResetReason::LocalReset
            || q == StreamResetReason::LocalRefusedStreamReset) || (r == StreamResetReason::RemoteReset
            || r == StreamResetReason::RemoteRefusedStreamReset) && (q == StreamResetReason::RemoteReset
            || q == StreamResetReason::RemoteRefusedStreamReset) || (r
            == StreamResetReason::ConnectionFailure || r == StreamResetReason::ConnectionTermination)
            && (q == StreamResetReason::ConnectionFailure || q
            == StreamResetReason::ConnectionTermination)),
        (spec_reset_error(spec_reset_reason(r)).0 == ResetErrorKind::ConnectionError) <==> (r
            == StreamResetReason::ConnectionFailure || r == StreamResetReason::ConnectionTermination),
{
}

/// The kind of exception raised for a reset.
#[derive(Clone, Copy, PartialEq, Eq, Structural, Debug)]
pub enum ResetErrorKind {
    /// The HTTP client's read error.
    ReadError,
    /// Python's `ConnectionError`.
    ConnectionError,
}

/// The exception raised for a reset: its kind and message.
pub open spec fn spec_reset_error(r: ResetReason) -> (ResetErrorKind, Seq<u8>) {
    match r {
        ResetReason::Local => (
            ResetErrorKind::ReadError,
            ascii(seq!['l', 'o', 'c', 'a', 'l', ' ', 's', 't', 'r', 'e', 'a', 'm', ' ', 'r', 'e', 's', 'e', 't']),
        ),
        ResetReason::Remote => (
            ResetErrorKind::ReadError,
            ascii(
                seq!['r', 'e', 'm', 'o', 't', 'e', ' ', 's', 't', 'r', 'e', 'a', 'm', ' ', 'r', 'e', 's', 'e', 't'],
            ),
        ),
        ResetReason::Protocol => (
            ResetErrorKind::ReadError,
            ascii(seq!['p', 'r', 'o', 't', 'o', 'c', 'o', 'l', ' ', 'e', 'r', 'r', 'o', 'r']),
        ),
        ResetReason::Connection => (
            ResetErrorKind::ConnectionError,
            ascii(seq!['c', 'o', 'n', 'n', 'e', 'c', 't', 'i', 'o', 'n', ' ', 'e', 'r', 'r', 'o', 'r']),
        ),
        ResetReason::Overflow => (
            ResetErrorKind::ReadError,
            ascii(seq!['s', 't', 'r', 'e', 'a', 'm', ' ', 'o', 'v', 'e', 'r', 'f', 'l', 'o', 'w']),
        ),
        ResetReason::ServerRequestDone => (
            ResetErrorKind::ReadError,
            ascii(
                seq![
                    's', 'e', 'r', 'v', 'e', 'r', ' ', 'r', 'e', 'q', 'u', 'e', 's', 't', ' ', 'c',
                    'o', 'm', 'p', 'l', 'e', 't', 'e', 'd', ' ', 'b', 'e', 'f', 'o', 'r', 'e', ' ',
                    'c', 'l', 'i', 'e', 'n', 't', ' ', 'r', 'e', 's', 'p', 'o', 'n', 's', 'e'
                ],
            ),
        ),
        ResetReason::InvalidUpstream => (
            ResetErrorKind::ReadError,
            ascii(
                seq![
                    'i', 'n', 'v', 'a', 'l', 'i', 'd', ' ', 'u', 'p', 's', 't', 'r', 'e', 'a', 'm',
                    ' ', 'c', 'o', 'n', 'f', 'i', 'g'
                ],
            ),
        ),
    }
}

/// The exception raised for a reset.
pub fn map_reset_reason(r: ResetReason) -> (res: (ResetErrorKind, Vec<u8>))
    ensures
        res.0 == spec_reset_error(r).0,
        res.1@ == spec_reset_error(r).1,
{
    proof {
        reveal_strlit("local stream reset");
        reveal_strlit("remote stream reset");
        reveal_strlit("protocol error");
        reveal_strlit("connection error");
        reveal_strlit("stream overflow");
        reveal_strlit("server request completed before client response");
        reveal_strlit("invalid upstream config");
    }
    match r {
        ResetReason::Local => (ResetErrorKind::ReadError, ascii_vec("local stream reset")),
        ResetReason::Remote => (ResetErrorKind::ReadError, ascii_vec("remote stream reset")),
        ResetReason::Protocol => (ResetErrorKind::ReadError, ascii_vec("protocol error")),
        ResetReason::Connection => (ResetErrorKind::ConnectionError, ascii_vec("connection error")),
        ResetReason::Overflow => (ResetErrorKind::ReadError, ascii_vec("stream overflow")),
        ResetReason::ServerRequestDone => (
            ResetErrorKind::ReadError,
            ascii_vec("server request completed before client response"),
        ),
        ResetReason::InvalidUpstream => (ResetErrorKind::ReadError, ascii_vec("invalid upstream config")),
    }
}

/// The parts of a parsed URL that make the upstream request: the path with
/// its query, the scheme, and the host with its port.
pub struct UrlParts {
    pub path_and_query: Vec<u8>,
    pub scheme: Vec<u8>,
    pub authority: Vec<u8>,
}

/// What `url::Url::parse` makes of a text: `None` when it is not a valid
/// URL, else the path and query, the scheme, and the authority.
pub uninterp spec fn parsed_url(s: Seq<char>) -> Option<(Seq<u8>, Seq<u8>, Seq<u8>)>;

pub open spec fn url_parts_view(u: Option<UrlParts>) -> Option<(Seq<u8>, Seq<u8>, Seq<u8>)> {
    match u {
        Some(p) => Some((p.path_and_query@, p.scheme@, p.authority@)),
        None => None,
    }
}

/// Parses a URL with `url::Url::parse`, taking the slices from before the
/// path to after the query, the scheme, and from before the host to after
/// the port.
#[verifier::external_body]
pub(crate) fn parse_url(s: &str) -> (res: Option<UrlParts>)
    ensures
        url_parts_view(res) == parsed_url(s@),
{
    match url::Url::parse(s) {
        Ok(url) => Some(
            UrlParts {
                path_and_query: url[url::Position::BeforePath..url::Position::AfterQuery].as_bytes().to_vec(),
                scheme: url.scheme().as_bytes().to_vec(),
                authority: url[url::Position::BeforeHost..url::Position::AfterPort].as_bytes().to_vec(),
            },
        ),
        Err(_) => None,
    }
}

/// A request an application asked to send upstream.
pub struct OutgoingRequest {
    pub method: Vec<u8>,
    pub url: UrlParts,
    /// The valid headers given, plus a JSON content type when asked for.
    pub headers: Vec<Header>,
}

/// Why a request could not be sent.
#[derive(PartialEq, Eq, Structural, Debug)]
pub enum RequestError {
    InvalidMethod,
    InvalidUrl,
}

pub open spec fn content_type_name() -> Seq<u8> {
    ascii(seq!['c', 'o', 'n', 't', 'e', 'n', 't', '-', 't', 'y', 'p', 'e'])
}

pub open spec fn json_type() -> Seq<u8> {
    ascii(seq!['a', 'p', 'p', 'l', 'i', 'c', 'a', 't', 'i', 'o', 'n', '/', 'j', 's', 'o', 'n'])
}

/// The valid pairs among `raw`, in order, with names in canonical form.
pub open spec fn valid_pairs(raw: Seq<(Seq<u8>, Seq<u8>)>) -> Seq<(Seq<u8>, Seq<u8>)>
    decreases raw.len(),
{
    if raw.len() == 0 {
        Seq::empty()
    } else {
        let rest = valid_pairs(raw.drop_last());
        let (n, v) = raw.last();
        if valid_header_name(n) && valid_header_value(v) {
            rest.push((lower_name(n), v))
        } else {
            rest
        }
    }
}

/// Whether some header is named `name`.
pub open spec fn has_header(hs: Seq<(Seq<u8>, Seq<u8>)>, name: Seq<u8>) -> bool {
    exists|i: int| 0 <= i < hs.len() && hs[i].0 == name
}

/// The headers of an outgoing request: the valid ones given, then
/// `content-type: application/json` when the body is JSON and no content
/// type was given.
pub open spec fn outgoing_headers(raw: Seq<(Seq<u8>, Seq<u8>)>, json: bool) -> Seq<
    (Seq<u8>, Seq<u8>),
> {
    let hs = valid_pairs(raw);
    if json && !has_header(hs, content_type_name()) {
        hs.push((content_type_name(), json_type()))
    } else {
        hs
    }
}

/// Keeps the valid headers of `raw`, returning them and whether one is
/// named `name`.
pub fn keep_valid_headers(raw: &Vec<Header>, name: &[u8]) -> (res: (Vec<Header>, bool))
    ensures
        headers_view(res.0@) == valid_pairs(headers_view(raw@)),
        res.1 == has_header(valid_pairs(headers_view(raw@)), name@),
{
    let ghost rv = headers_view(raw@);
    let mut out: Vec<Header> = Vec::new();
    let mut found = false;
    proof {
        assert(rv.take(0) =~= Seq::<(Seq<u8>, Seq<u8>)>::empty());
        assert(headers_view(out@) =~= Seq::<(Seq<u8>, Seq<u8>)>::empty());
    }
    let mut i: usize = 0;
    while i < raw.len()
        invariant
            i <= raw@.len(),
            rv == headers_view(raw@),
            headers_view(out@) == valid_pairs(rv.take(i as int)),
            found == has_header(headers_view(out@), name@),
        decreases raw@.len() - i,
    {
        proof {
            assert(rv.take(i + 1).drop_last() =~= rv.take(i as int));
            assert(rv.take(i + 1).last() == (raw@[i as int].0@, raw@[i as int].1@));
        }
        match (header_name_from_bytes(raw[i].0.as_slice()), header_value_from_bytes(raw[i].1.as_slice())) {
            (Some(n), Some(v)) => {
                let ghost prev = headers_view(out@);
                let is_name = bytes_eq(n.as_slice(), name);
                out.push((n, v));
                proof {
                    assert(headers_view(out@) =~= prev.push((lower_name(raw@[i as int].0@), raw@[i as int].1@)));
                    let now = headers_view(out@);
                    if found {
                        let j = choose|j: int| 0 <= j < prev.len() && prev[j].0 == name@;
                        assert(now[j] == prev[j]);
                    }
                    if is_name {
                        assert(now[now.len() - 1].0 == name@);
                    }
                    if has_header(now, name@) {
                        let j = choose|j: int| 0 <= j < now.len() && now[j].0 == name@;
                        if j < prev.len() {
                            assert(now[j] == prev[j]);
                        }
                    }
                }
                found = found || is_name;
            },
            _ => {},
        }
        i = i + 1;
    }
    proof {
        assert(rv.take(i as int) =~= rv);
    }
    (out, found)
}

/// Checks an application's request: the method must be valid, then the
/// URL; the headers are those of `outgoing_headers`.
pub fn build_outgoing_request(method: &[u8], url: &str, raw_headers: &Vec<Header>, json: bool) -> (res:
    Result<OutgoingRequest, RequestError>)
    ensures
        !valid_method(method@) ==> res == Err::<OutgoingRequest, RequestError>(RequestError::InvalidMethod),
        valid_method(method@) && parsed_url(url@) is None ==> res == Err::<OutgoingRequest, RequestError>(
            RequestError::InvalidUrl,
        ),
        valid_method(method@) && parsed_url(url@) is Some ==> (res matches Ok(r) && r.method@ == method@
            && url_parts_view(Some(r.url)) == parsed_url(url@) && headers_view(r.headers@)
            == outgoing_headers(headers_view(raw_headers@), json)),
{
    let method = match method_from_bytes(method) {
        Some(m) => m,
        None => {
            return Err(RequestError::InvalidMethod);
        },
    };
    let url = match parse_url(url) {
        Some(u) => u,
        None => {
            return Err(RequestError::InvalidUrl);
        },
    };
    proof {
        reveal_strlit("content-type");
        reveal_strlit("application/json");
    }
    let ct = ascii_vec("content-type");
    assert(ct@ == content_type_name());
    let (mut headers, has_content_type) = keep_valid_headers(raw_headers, ct.as_slice());
    if !has_content_type && json {
        let ghost prev = headers_view(headers@);
        let jt = ascii_vec("application/json");
        assert(jt@ == json_type());
        headers.push((ct, jt));
        proof {
            assert(headers_view(headers@) =~~= prev.push((content_type_name(), json_type())));
        }
    }
    Ok(OutgoingRequest { method, url, headers })
}

/// The cluster used when the application named none, by scheme.
pub open spec fn default_cluster(scheme: Seq<u8>) -> Seq<u8> {
    if scheme == ascii(seq!['h', 't', 't', 'p', 's']) {
        ascii(
            seq![
                '_', '_', 'p', 'y', 'v', 'o', 'y', '_', 'd', 'e', 'f', 'a', 'u', 'l', 't', '_', 'u',
                'p', 's', 't', 'r', 'e', 'a', 'm', '_', 'h', 't', 't', 'p', 's', '_', '_'
            ],
        )
    } else {
        ascii(
            seq![
                '_', '_', 'p', 'y', 'v', 'o', 'y', '_', 'd', 'e', 'f', 'a', 'u', 'l', 't', '_', 'u',
                'p', 's', 't', 'r', 'e', 'a', 'm', '_', 'h', 't', 't', 'p', '_', '_'
            ],
        )
    }
}

/// The upstream stream the filter starts for a request.
pub struct StreamStart {
    pub cluster: Vec<u8>,
    pub headers: Vec<Header>,
    /// Whether the request is complete with its headers and buffered body.
    pub end_stream: bool,
}

pub open spec fn pseudo(name: Seq<char>, value: Seq<u8>) -> (Seq<u8>, Seq<u8>) {
    (ascii(name), value)
}

/// The headers of the upstream stream: the request's headers, then the
/// `:method`, `:path`, `:scheme` and `:authority` pseudo-headers, then the
/// length of a buffered body when no `content-length` was given.
pub open spec fn stream_headers(
    headers: Seq<(Seq<u8>, Seq<u8>)>,
    method: Seq<u8>,
    url: (Seq<u8>, Seq<u8>, Seq<u8>),
    body_len: Option<nat>,
) -> Seq<(Seq<u8>, Seq<u8>)> {
    let base = headers + seq![
        pseudo(seq![':', 'm', 'e', 't', 'h', 'o', 'd'], method),
        pseudo(seq![':', 'p', 'a', 't', 'h'], url.0),
        pseudo(seq![':', 's', 'c', 'h', 'e', 'm', 'e'], url.1),
        pseudo(seq![':', 'a', 'u', 't', 'h', 'o', 'r', 'i', 't', 'y'], url.2),
    ];
    match body_len {
        Some(n) => if has_header(headers, ascii(seq!['c', 'o', 'n', 't', 'e', 'n', 't', '-', 'l', 'e', 'n', 'g', 't', 'h'])) {
            base
        } else {
            base.push(
                (
                    ascii(seq!['c', 'o', 'n', 't', 'e', 'n', 't', '-', 'l', 'e', 'n', 'g', 't', 'h']),
                    decimal_int(n as int),
                ),
            )
        },
        None => base,
    }
}

/// Plans the upstream stream of a request: its cluster (the given one, or
/// the default one for its scheme), its headers (see `stream_headers`), and
/// whether it ends with the buffered body.
pub fn start_stream(request: &OutgoingRequest, cluster: Option<&[u8]>, buffered_len: Option<usize>) -> (res:
    StreamStart)
    ensures
        res.cluster@ == match cluster {
            Some(c) => c@,
            None => default_cluster(request.url.scheme@),
        },
        headers_view(res.headers@) == stream_headers(
            headers_view(request.headers@),
            request.method@,
            (request.url.path_and_query@, request.url.scheme@, request.url.authority@),
            match buffered_len {
                Some(n) => Some(n as nat),
                None => None,
            },
        ),
        res.end_stream == buffered_len is Some,
{
    proof {
        reveal_strlit("content-length");
        reveal_strlit(":method");
        reveal_strlit(":path");
        reveal_strlit(":scheme");
        reveal_strlit(":authority");
        reveal_strlit("https");
        reveal_strlit("__pyvoy_default_upstream_https__");
        reveal_strlit("__pyvoy_default_upstream_http__");
    }
    let cl = ascii_vec("content-length");
    let has_content_length = contains_name(&request.headers, cl.as_slice());
    let mut headers = crate::response::clone_headers(&request.headers);
    let ghost given = headers_view(headers@);
    let ghost base = given + seq![
        pseudo(seq![':', 'm', 'e', 't', 'h', 'o', 'd'], request.method@),
        pseudo(seq![':', 'p', 'a', 't', 'h'], request.url.path_and_query@),
        pseudo(seq![':', 's', 'c', 'h', 'e', 'm', 'e'], request.url.scheme@),
        pseudo(seq![':', 'a', 'u', 't', 'h', 'o', 'r', 'i', 't', 'y'], request.url.authority@),
    ];
    let ghost cl_name = ascii(seq!['c', 'o', 'n', 't', 'e', 'n', 't', '-', 'l', 'e', 'n', 'g', 't', 'h']);
    assert(cl@ == cl_name);
    headers.push((ascii_vec(":method"), to_vec(request.method.as_slice())));
    headers.push((ascii_vec(":path"), to_vec(request.url.path_and_query.as_slice())));
    headers.push((ascii_vec(":scheme"), to_vec(request.url.scheme.as_slice())));
    headers.push((ascii_vec(":authority"), to_vec(request.url.authority.as_slice())));
    proof {
        assert(headers_view(headers@) =~~= given + seq![
            pseudo(seq![':', 'm', 'e', 't', 'h', 'o', 'd'], request.method@),
            pseudo(seq![':', 'p', 'a', 't', 'h'], request.url.path_and_query@),
            pseudo(seq![':', 's', 'c', 'h', 'e', 'm', 'e'], request.url.scheme@),
            pseudo(seq![':', 'a', 'u', 't', 'h', 'o', 'r', 'i', 't', 'y'], request.url.authority@),
        ]);
    }
    match buffered_len {
        Some(n) => {
            if !has_content_length {
                let ghost prev = headers_view(headers@);
                headers.push((cl, format_decimal(n as i128)));
                proof {
                    assert(headers_view(headers@) =~~= prev.push(
                        (
                            ascii(seq!['c', 'o', 'n', 't', 'e', 'n', 't', '-', 'l', 'e', 'n', 'g', 't', 'h']),
                            decimal_int(n as int),
                        ),
                    ));
                }
            }
        },
        None => {},
    }
    proof {
        let bl = match buffered_len {
            Some(n) => Some(n as nat),
            None => None,
        };
        assert(headers_view(headers@) =~~= stream_headers(
            headers_view(request.headers@),
            request.method@,
            (request.url.path_and_query@, request.url.scheme@, request.url.authority@),
            bl,
        ));
    }
    let https = ascii_vec("https");
    let default_https = ascii_vec("__pyvoy_default_upstream_https__");
    let default_http = ascii_vec("__pyvoy_default_upstream_http__");
    assert(https@ == ascii(seq!['h', 't', 't', 'p', 's']));
    assert(default_https@ == default_cluster(https@));
    let cluster = match cluster {
        Some(c) => to_vec(c),
        None => {
            if bytes_eq(request.url.scheme.as_slice(), https.as_slice()) {
                default_https
            } else {
                assert(default_http@ == default_cluster(request.url.scheme@));
                default_http
            }
        },
    };
    StreamStart { cluster, headers, end_stream: buffered_len.is_some() }
}

/// Whether some header of `hs` is named `name`.
pub fn contains_name(hs: &Vec<Header>, name: &[u8]) -> (res: bool)
    ensures
        res == has_header(headers_view(hs@), name@),
{
    let ghost v = headers_view(hs@);
    let mut i: usize = 0;
    while i < hs.len()
        invariant
            i <= hs@.len(),
            v == headers_view(hs@),
            forall|k: int| 0 <= k < i ==> v[k].0 != name@,
        decreases hs@.len() - i,
    {
        if bytes_eq(hs[i].0.as_slice(), name) {
            proof {
                assert(v[i as int].0 == name@);
            }
            return true;
        }
        i = i + 1;
    }
    false
}


/// The state the filter keeps for an upstream stream: where to deliver its
/// response (`S`), and the failure of the application's request body (`E`),
/// if any, to report when the stream resets.
pub struct TransportState<S, E> {
    pub response_tx: S,
    pub exception: Option<E>,
}

/// The position of the entry for `handle`, or the length.
pub open spec fn handle_index<T>(entries: Seq<(u64, T)>, handle: u64) -> int
    decreases entries.len(),
{
    if entries.len() == 0 || entries[0].0 == handle {
        0
    } else {
        1 + handle_index(entries.drop_first(), handle)
    }
}

proof fn lemma_handle_index<T>(entries: Seq<(u64, T)>, handle: u64, i: int)
    requires
        0 <= i <= entries.len(),
        forall|k: int| 0 <= k < i ==> entries[k].0 != handle,
        i < entries.len() ==> entries[i].0 == handle,
    ensures
        handle_index(entries, handle) == i,
    decreases entries.len(),
{
    if entries.len() > 0 && entries[0].0 != handle {
        assert forall|k: int| 0 <= k < i - 1 implies entries.drop_first()[k].0 != handle by {
            assert(entries.drop_first()[k] == entries[k + 1]);
        }
        if i < entries.len() {
            assert(entries.drop_first()[i - 1] == entries[i]);
        }
        lemma_handle_index(entries.drop_first(), handle, i - 1);
    }
}

/// Whether the handles of `entries` are all different.
pub open spec fn unique_handles<T>(entries: Seq<(u64, T)>) -> bool {
    forall|i: int, j: int| 0 <= i < j < entries.len() ==> entries[i].0 != entries[j].0
}

/// The live upstream streams of a request, by handle.
pub struct StreamTable<T> {
    entries: Vec<(u64, T)>,
}

impl<T> StreamTable<T> {
    /// The streams, in the order they were added; no handle twice.
    pub closed spec fn view(&self) -> Seq<(u64, T)> {
        self.entries@
    }

    #[verifier::type_invariant]
    spec fn handles_unique(&self) -> bool {
        unique_handles(self.entries@)
    }

    pub fn new() -> (res: Self)
        ensures
            res@.len() == 0,
    {
        StreamTable { entries: Vec::new() }
    }

    fn find(&self, handle: u64) -> (res: usize)
        ensures
            res == handle_index(self@, handle),
            res <= self@.len(),
            res < self@.len() ==> self@[res as int].0 == handle,
            forall|k: int| 0 <= k < res ==> self@[k].0 != handle,
    {
        let mut i: usize = 0;
        while i < self.entries.len()
            invariant
                i <= self.entries@.len(),
                forall|k: int| 0 <= k < i ==> self.entries@[k].0 != handle,
            decreases self.entries@.len() - i,
        {
            if self.entries[i].0 == handle {
                proof {
                    lemma_handle_index(self.entries@, handle, i as int);
                }
                return i;
            }
            i = i + 1;
        }
        proof {
            lemma_handle_index(self.entries@, handle, i as int);
        }
        i
    }

    /// Whether the stream is live.
    pub fn contains(&self, handle: u64) -> (res: bool)
        ensures
            res == (handle_index(self@, handle) < self@.len()),
    {
        self.find(handle) < self.entries.len()
    }

    /// Adds a stream, replacing an earlier one with the same handle.
    pub fn insert(&mut self, handle: u64, value: T)
        ensures
            ({
                let i = handle_index(old(self)@, handle);
                if i < old(self)@.len() {
                    final(self)@ == old(self)@.update(i, (handle, value))
                } else {
                    final(self)@ == old(self)@.push((handle, value))
                }
            }),
    {
        proof {
            use_type_invariant(&*self);
        }
        let i = self.find(handle);
        let mut entries: Vec<(u64, T)> = Vec::new();
        std::mem::swap(&mut entries, &mut self.entries);
        if i < entries.len() {
            entries.set(i, (handle, value));
        } else {
            entries.push((handle, value));
        }
        proof {
            assert(unique_handles(entries@));
        }
        self.entries = entries;
    }

    /// Removes a stream, returning its state when it was live.
    pub fn remove(&mut self, handle: u64) -> (res: Option<T>)
        ensures
            ({
                let i = handle_index(old(self)@, handle);
                if i < old(self)@.len() {
                    res == Some(old(self)@[i].1) && final(self)@ == old(self)@.remove(i)
                } else {
                    res is None && final(self)@ == old(self)@
                }
            }),
    {
        proof {
            use_type_invariant(&*self);
        }
        let i = self.find(handle);
        if i < self.entries.len() {
            let mut entries: Vec<(u64, T)> = Vec::new();
            std::mem::swap(&mut entries, &mut self.entries);
            let ghost before = entries@;
            let (_, value) = entries.remove(i);
            proof {
                assert(entries@ =~= before.remove(i as int));
                assert forall|a: int, b: int| 0 <= a < b < entries@.len() implies entries@[a].0 != entries@[b].0 by {
                    let a2 = if a < i { a } else { a + 1 };
                    let b2 = if b < i { b } else { b + 1 };
                    assert(entries@[a] == before[a2]);
                    assert(entries@[b] == before[b2]);
                }
            }
            self.entries = entries;
            Some(value)
        } else {
            None
        }
    }

    /// Removes every stream, returning them in order.
    pub fn drain(&mut self) -> (res: Vec<(u64, T)>)
        ensures
            res@ == old(self)@,
            final(self)@.len() == 0,
    {
        let mut entries: Vec<(u64, T)> = Vec::new();
        std::mem::swap(&mut entries, &mut self.entries);
        entries
    }
}

/// What the filter does with an upstream stream reset by Envoy: the stream
/// is forgotten and its response receives the reset, with the recorded
/// failure of the request body if any.
pub fn on_http_stream_reset<S, E>(
    table: &mut StreamTable<TransportState<S, E>>,
    handle: u64,
    reason: StreamResetReason,
) -> (res: Option<(S, ResetReason, Option<E>)>)
    ensures
        ({
            let i = handle_index(old(table)@, handle);
            if i < old(table)@.len() {
                &&& final(table)@ == old(table)@.remove(i)
                &&& res matches Some(r) && r.0 == old(table)@[i].1.response_tx && r.1
                    == spec_reset_reason(reason) && r.2 == old(table)@[i].1.exception
            } else {
                res is None && final(table)@ == old(table)@
            }
        }),
{
    match table.remove(handle) {
        Some(state) => Some((state.response_tx, reset_reason(reason), state.exception)),
        None => None,
    }
}

impl<S, E> StreamTable<TransportState<S, E>> {
    /// Records the failure of a live stream's request body; returns whether
    /// the stream is live.
    pub fn record_exception(&mut self, handle: u64, exception: E) -> (live: bool)
        ensures
            ({
                let i = handle_index(old(self)@, handle);
                &&& live == (i < old(self)@.len())
                &&& !live ==> final(self)@ == old(self)@
                &&& live ==> final(self)@ == old(self)@.update(
                    i,
                    (
                        handle,
                        TransportState {
                            response_tx: old(self)@[i].1.response_tx,
                            exception: Some(exception),
                        },
                    ),
                )
            }),
    {
        proof {
            use_type_invariant(&*self);
        }
        let i = self.find(handle);
        if i < self.entries.len() {
            let mut entries: Vec<(u64, TransportState<S, E>)> = Vec::new();
            std::mem::swap(&mut entries, &mut self.entries);
            let ghost before = entries@;
            let (h, state) = entries.remove(i);
            let updated = TransportState { response_tx: state.response_tx, exception: Some(exception) };
            entries.insert(i, (h, updated));
            proof {
                assert(entries@ =~= before.update(i as int, (handle, updated)));
                assert(unique_handles(entries@));
            }
            self.entries = entries;
            true
        } else {
            false
        }
    }
}

/// What the filter does when the application resets one of its streams:
/// when the stream is live, the failure of its request body (if given) is
/// recorded and Envoy is asked to reset it; returns whether it was live.
pub fn on_application_reset<S, E>(
    table: &mut StreamTable<TransportState<S, E>>,
    handle: u64,
    exception: Option<E>,
) -> (reset: bool)
    ensures
        ({
            let i = handle_index(old(table)@, handle);
            &&& reset == (i < old(table)@.len())
            &&& match exception {
                None => final(table)@ == old(table)@,
                Some(e) => if reset {
                    final(table)@ == old(table)@.update(
                        i,
                        (
                            handle,
                            TransportState {
                                response_tx: old(table)@[i].1.response_tx,
                                exception: Some(e),
                            },
                        ),
                    )
                } else {
                    final(table)@ == old(table)@
                },
            }
        }),
{
    match exception {
        Some(e) => table.record_exception(handle, e),
        None => table.contains(handle),
    }
}

/// What the filter does when the request completes: every live stream is
/// forgotten and its response receives a reset, with the recorded failure
/// of its request body if any.
pub fn on_stream_complete<S, E>(table: &mut StreamTable<TransportState<S, E>>) -> (res: Vec<
    (S, ResetReason, Option<E>),
>)
    ensures
        final(table)@.len() == 0,
        res@.len() == old(table)@.len(),
        forall|i: int|
            0 <= i < res@.len() ==> (#[trigger] res@[i]).0 == old(table)@[i].1.response_tx
                && res@[i].1 == ResetReason::ServerRequestDone && res@[i].2 == old(
                table,
            )@[i].1.exception,
{
    let mut all = table.drain();
    let ghost entries = all@;
    let mut out: Vec<(S, ResetReason, Option<E>)> = Vec::new();
    let mut i: usize = 0;
    let total = all.len();
    while all.len() > 0
        invariant
            entries.len() == total,
            i <= total,
            all@ == entries.skip(i as int),
            out@.len() == i,
            forall|k: int|
                0 <= k < i ==> (#[trigger] out@[k]).0 == entries[k].1.response_tx && out@[k].1
                    == ResetReason::ServerRequestDone && out@[k].2 == entries[k].1.exception,
        decreases all@.len(),
    {
        let (_, state) = all.remove(0);
        proof {
            assert(all@ =~= entries.skip(i + 1));
        }
        out.push((state.response_tx, ResetReason::ServerRequestDone, state.exception));
        i = i + 1;
    }
    out
}

/// The status and headers of an upstream response: `:status` (the last
/// one) gives the status, 200 when absent and 500 when invalid; the other
/// valid headers follow in order.
pub open spec fn upstream_status(hs: Seq<(Seq<u8>, Seq<u8>)>) -> u16
    decreases hs.len(),
{
    if hs.len() == 0 {
        200
    } else if hs.last().0 == crate::response::status_name() {
        if crate::headers::valid_status(hs.last().1) {
            crate::headers::status_value(hs.last().1) as u16
        } else {
            500
        }
    } else {
        upstream_status(hs.drop_last())
    }
}

pub open spec fn upstream_headers(hs: Seq<(Seq<u8>, Seq<u8>)>) -> Seq<(Seq<u8>, Seq<u8>)>
    decreases hs.len(),
{
    if hs.len() == 0 {
        Seq::empty()
    } else {
        let rest = upstream_headers(hs.drop_last());
        let (n, v) = hs.last();
        if n == crate::response::status_name() || !valid_header_name(n) || !valid_header_value(v) {
            rest
        } else {
            rest.push((lower_name(n), v))
        }
    }
}

/// Reads the status and headers of an upstream response.
pub fn read_upstream_headers(raw: &Vec<Header>) -> (res: (u16, Vec<Header>))
    ensures
        res.0 == upstream_status(headers_view(raw@)),
        headers_view(res.1@) == upstream_headers(headers_view(raw@)),
{
    proof {
        reveal_strlit(":status");
    }
    let status_key = ascii_vec(":status");
    let ghost rv = headers_view(raw@);
    let mut status: u16 = 200;
    let mut out: Vec<Header> = Vec::new();
    proof {
        assert(rv.take(0) =~= Seq::<(Seq<u8>, Seq<u8>)>::empty());
        assert(headers_view(out@) =~= Seq::<(Seq<u8>, Seq<u8>)>::empty());
    }
    let mut i: usize = 0;
    while i < raw.len()
        invariant
            i <= raw@.len(),
            rv == headers_view(raw@),
            status_key@ == crate::response::status_name(),
            status == upstream_status(rv.take(i as int)),
            headers_view(out@) == upstream_headers(rv.take(i as int)),
        decreases raw@.len() - i,
    {
        proof {
            assert(rv.take(i + 1).drop_last() =~= rv.take(i as int));
            assert(rv.take(i + 1).last() == (raw@[i as int].0@, raw@[i as int].1@));
        }
        if bytes_eq(raw[i].0.as_slice(), status_key.as_slice()) {
            status = match crate::headers::status_from_bytes(raw[i].1.as_slice()) {
                Some(code) => code,
                None => 500,
            };
        } else {
            match (header_name_from_bytes(raw[i].0.as_slice()), header_value_from_bytes(raw[i].1.as_slice())) {
                (Some(n), Some(v)) => {
                    let ghost prev = headers_view(out@);
                    out.push((n, v));
                    proof {
                        assert(headers_view(out@) =~= prev.push((lower_name(raw@[i as int].0@), raw@[i as int].1@)));
                    }
                },
                _ => {},
            }
        }
        i = i + 1;
    }
    proof {
        assert(rv.take(i as int) =~= rv);
    }
    (status, out)
}

/// What the response of an upstream stream receives for data from Envoy:
/// the data when there is any, then the end when it is the last.
pub fn stream_data_events(chunks: &Vec<Vec<u8>>, end_stream: bool) -> (res: (Option<Vec<u8>>, bool))
    requires
        crate::body::flat(chunks@).len() <= usize::MAX,
    ensures
        crate::body::flat(chunks@).len() == 0 ==> res.0 is None,
        crate::body::flat(chunks@).len() > 0 ==> (res.0 matches Some(b) && b@ == crate::body::flat(chunks@)),
        res.1 == end_stream,
{
    let mut body: Vec<u8> = Vec::new();
    crate::body::extend_from_chunks(chunks, &mut body);
    if body.len() > 0 {
        (Some(body), end_stream)
    } else {
        (None, end_stream)
    }
}
/// What the application's request body iteration produced for an upstream
/// stream.
pub enum ForwardInput<E> {
    /// The iteration was cancelled.
    Cancelled,
    /// The iteration failed with an exception.
    Failed(E),
    /// The iteration finished.
    Finished,
    /// A chunk of the body.
    Chunk(Vec<u8>),
}

/// What the filter is asked to do for an upstream stream.
pub enum ForwardEvent<E> {
    /// Sends data, ending the request when `end_stream`.
    SendData { stream_handle: u64, data: Vec<u8>, end_stream: bool },
    /// Resets the stream, recording the failure when given.
    Reset { stream_handle: u64, exception: Option<E> },
}

/// The event for what the request body iteration produced: a cancel resets
/// the stream, a failure resets it with the exception, the end sends empty
/// last data, a chunk is sent on.
pub fn forward_event<E>(stream_handle: u64, input: ForwardInput<E>) -> (res: ForwardEvent<E>)
    ensures
        match input {
            ForwardInput::Cancelled => res == ForwardEvent::<E>::Reset { stream_handle, exception: None },
            ForwardInput::Failed(e) => res == ForwardEvent::<E>::Reset { stream_handle, exception: Some(e) },
            ForwardInput::Finished => res matches ForwardEvent::SendData { stream_handle: h, data, end_stream }
                && h == stream_handle && data@.len() == 0 && end_stream,
            ForwardInput::Chunk(c) => res == ForwardEvent::<E>::SendData { stream_handle, data: c, end_stream: false },
        },
{
    match input {
        ForwardInput::Cancelled => ForwardEvent::Reset { stream_handle, exception: None },
        ForwardInput::Failed(e) => ForwardEvent::Reset { stream_handle, exception: Some(e) },
        ForwardInput::Finished => ForwardEvent::SendData { stream_handle, data: Vec::new(), end_stream: true },
        ForwardInput::Chunk(c) => ForwardEvent::SendData { stream_handle, data: c, end_stream: false },
    }
}

/// What the filter delivers to an application thread waiting on an
/// upstream stream: `Started` first, then `Headers`, body chunks, and an
/// `End`, `Trailers` or `Reset`. `E` is the recorded failure of the
/// application's request body.
pub enum TransportResponse<E> {
    Started(u64),
    Headers { status: u16, headers: Vec<Header>, end_stream: bool },
    Body(Vec<u8>),
    Trailers(Vec<Header>),
    End,
    Reset { reason: ResetReason, exception: Option<E> },
}

/// How waiting for an upstream stream to start ends.
pub enum StartOutcome<E> {
    /// The stream started with this handle.
    Started(u64),
    /// The stream could not start.
    Failed { reason: ResetReason, exception: Option<E> },
    /// The filter went away, or sent something out of order.
    Closed,
}

/// The outcome of waiting for the stream to start, for what was received
/// (`None` when the filter went away).
pub fn stream_started<E>(received: Option<TransportResponse<E>>) -> (res: StartOutcome<E>)
    ensures
        match received {
            Some(TransportResponse::Started(h)) => res == StartOutcome::<E>::Started(h),
            Some(TransportResponse::Reset { reason, exception }) => res == StartOutcome::<E>::Failed {
                reason,
                exception,
            },
            _ => res is Closed,
        },
{
    match received {
        Some(TransportResponse::Started(h)) => StartOutcome::Started(h),
        Some(TransportResponse::Reset { reason, exception }) => StartOutcome::Failed { reason, exception },
        _ => StartOutcome::Closed,
    }
}

/// What the filter tells the application after asking Envoy to start an
/// upstream stream: the stream's handle when Envoy accepted it, otherwise a
/// reset for an unusable upstream cluster, with no exception.
pub fn start_reply<E>(accepted: bool, stream_handle: u64) -> (res: TransportResponse<E>)
    ensures
        accepted ==> res == TransportResponse::<E>::Started(stream_handle),
        !accepted ==> res == (TransportResponse::<E>::Reset {
            reason: ResetReason::InvalidUpstream,
            exception: None,
        }),
{
    if accepted {
        TransportResponse::Started(stream_handle)
    } else {
        TransportResponse::Reset { reason: ResetReason::InvalidUpstream, exception: None }
    }
}

/// How waiting for the response headers ends.
pub enum HeadersOutcome<E> {
    /// The response started.
    Headers { status: u16, headers: Vec<Header>, end_stream: bool },
    /// The stream was reset first.
    Failed { reason: ResetReason, exception: Option<E> },
    /// The filter went away, or sent something out of order.
    Closed,
}

/// The outcome of waiting for the response headers, for what was received
/// (`None` when the filter went away).
pub fn response_headers<E>(received: Option<TransportResponse<E>>) -> (res: HeadersOutcome<E>)
    ensures
        match received {
            Some(TransportResponse::Headers { status, headers, end_stream }) => res
                == HeadersOutcome::<E>::Headers { status, headers, end_stream },
            Some(TransportResponse::Reset { reason, exception }) => res == HeadersOutcome::<E>::Failed {
                reason,
                exception,
            },
            _ => res is Closed,
        },
{
    match received {
        Some(TransportResponse::Headers { status, headers, end_stream }) => HeadersOutcome::Headers {
            status,
            headers,
            end_stream,
        },
        Some(TransportResponse::Reset { reason, exception }) => HeadersOutcome::Failed { reason, exception },
        _ => HeadersOutcome::Closed,
    }
}

/// One step of reading a response body.
pub enum BodyStep<E> {
    /// A chunk of the body.
    Chunk(Vec<u8>),
    /// The body ended, with its trailers when there are some.
    Done(Option<Vec<Header>>),
    /// The stream failed.
    Failed { reason: ResetReason, exception: Option<E> },
    /// Nothing for the body: wait for the next delivery.
    Skip,
}

/// The step for what was received while reading the body (`None` when the
/// filter went away, which counts as a local reset).
pub fn body_step<E>(received: Option<TransportResponse<E>>) -> (res: BodyStep<E>)
    ensures
        match received {
            Some(TransportResponse::Body(c)) => res == BodyStep::<E>::Chunk(c),
            Some(TransportResponse::Trailers(t)) => res == BodyStep::<E>::Done(Some(t)),
            Some(TransportResponse::End) => res == BodyStep::<E>::Done(None),
            Some(TransportResponse::Reset { reason, exception }) => res == BodyStep::<E>::Failed {
                reason,
                exception,
            },
            Some(_) => res is Skip,
            None => res == BodyStep::<E>::Failed { reason: ResetReason::Local, exception: None },
        },
{
    match received {
        Some(TransportResponse::Body(c)) => BodyStep::Chunk(c),
        Some(TransportResponse::Trailers(t)) => BodyStep::Done(Some(t)),
        Some(TransportResponse::End) => BodyStep::Done(None),
        Some(TransportResponse::Reset { reason, exception }) => BodyStep::Failed { reason, exception },
        Some(_) => BodyStep::Skip,
        None => BodyStep::Failed { reason: ResetReason::Local, exception: None },
    }
}

} // verus!
