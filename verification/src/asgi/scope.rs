//! The ASGI connection scope of an HTTP request, and the `receive` side.
use crate::body::{flat_opt, read_request_body, has_request_body};
use crate::eventbridge::{pending_or_nothing, EventBridge};
use crate::headers::{headers_view, Header};
use crate::response::clone_headers;
use crate::scope::{
    decode_binary, is_utf8, path_part, percent_decode, query_part, split_raw_path, HttpVersion,
    Scope, TlsInfo,
};
use crate::text::{ascii, ascii_vec, to_vec};
use vstd::prelude::*;
use vstd::utf8::valid_utf8;

verus! {

/// The `http_version` of a scope.
pub open spec fn spec_asgi_version(v: HttpVersion) -> Seq<u8> {
    match v {
        HttpVersion::Http10 => ascii(seq!['1', '.', '0']),
        HttpVersion::Http11 => ascii(seq!['1', '.', '1']),
        HttpVersion::Http2 => ascii(seq!['2']),
        HttpVersion::Http3 => ascii(seq!['3']),
    }
}

/// The `http_version` of a scope.
pub fn asgi_version(v: HttpVersion) -> (res: Vec<u8>)
    ensures
        res@ == spec_asgi_version(v),
{
    proof {
        reveal_strlit("1.0");
        reveal_strlit("1.1");
        reveal_strlit("2");
        reveal_strlit("3");
    }
    match v {
        HttpVersion::Http10 => ascii_vec("1.0"),
        HttpVersion::Http11 => ascii_vec("1.1"),
        HttpVersion::Http2 => ascii_vec("2"),
        HttpVersion::Http3 => ascii_vec("3"),
    }
}

/// The entries of an ASGI `http` scope that depend on the request.
pub struct AsgiHttpScope {
    pub http_version: Vec<u8>,
    pub method: Vec<u8>,
    pub scheme: Vec<u8>,
    /// The percent-decoded path, UTF-8.
    pub path: Vec<u8>,
    /// The path as received, before its query.
    pub raw_path: Vec<u8>,
    pub query_string: Vec<u8>,
    pub headers: Vec<Header>,
    pub client: Option<(Vec<u8>, i64)>,
    pub server: Option<(Vec<u8>, i64)>,
    /// The TLS extension: version and client certificate subject.
    pub tls: Option<(u16, Option<Vec<u8>>)>,
}

/// Builds the ASGI `http` scope of a request; fails when the decoded path
/// is not UTF-8.
pub fn new_scope_dict(scope: &Scope) -> (res: Option<AsgiHttpScope>)
    ensures
        ({
            let decoded = percent_decode(path_part(scope.raw_path@));
            match res {
                None => !valid_utf8(decoded),
                Some(s) => {
                    &&& valid_utf8(decoded)
                    &&& s.path@ == decoded
                    &&& s.raw_path@ == path_part(scope.raw_path@)
                    &&& s.query_string@ == query_part(scope.raw_path@)
                    &&& s.http_version@ == spec_asgi_version(scope.http_version)
                    &&& s.method@ == scope.method@
                    &&& s.scheme@ == scope.scheme@
                    &&& headers_view(s.headers@) == headers_view(scope.headers@)
                    &&& match scope.client {
                        Some(c) => s.client matches Some(x) && x.0@ == c.0@ && x.1 == c.1,
                        None => s.client is None,
                    }
                    &&& match scope.server {
                        Some(c) => s.server matches Some(x) && x.0@ == c.0@ && x.1 == c.1,
                        None => s.server is None,
                    }
                    &&& match scope.tls_info {
                        Some(t) => s.tls matches Some(x) && x.0 == t.tls_version && match t.client_cert_name {
                            Some(n) => x.1 matches Some(m) && m@ == n@,
                            None => x.1 is None,
                        },
                        None => s.tls is None,
                    }
                },
            }
        }),
{
    let (raw_path, query_string) = split_raw_path(scope.raw_path.as_slice());
    let path = decode_binary(raw_path.as_slice());
    if !is_utf8(path.as_slice()) {
        return None;
    }
    let client = match &scope.client {
        Some((a, p)) => Some((to_vec(a.as_slice()), *p)),
        None => None,
    };
    let server = match &scope.server {
        Some((a, p)) => Some((to_vec(a.as_slice()), *p)),
        None => None,
    };
    let tls = match &scope.tls_info {
        Some(t) => Some(
            (
                t.tls_version,
                match &t.client_cert_name {
                    Some(n) => Some(to_vec(n.as_slice())),
                    None => None,
                },
            ),
        ),
        None => None,
    };
    Some(
        AsgiHttpScope {
            http_version: asgi_version(scope.http_version),
            method: to_vec(scope.method.as_slice()),
            scheme: to_vec(scope.scheme.as_slice()),
            path,
            raw_path,
            query_string,
            headers: clone_headers(&scope.headers),
            client,
            server,
            tls,
        },
    )
}

/// An `http.request` message answered to a pending `receive`.
pub struct RecvAnswer<F> {
    /// The pending `receive`.
    pub future: F,
    pub body: Vec<u8>,
    pub more_body: bool,
}

/// What the filter does when request body may be read.
pub struct RecvPlan<F> {
    /// How many bytes to drain from the buffered body.
    pub drain_buffered: usize,
    /// How many bytes to drain from the just-received body.
    pub drain_received: usize,
    /// The answers to the pending `receive` calls, in order.
    pub answers: Vec<RecvAnswer<F>>,
}

/// Answers the pending `receive` calls once body is readable or the request
/// is finished: the first gets all readable body, the others get none; each
/// says whether more body may come. Nothing happens otherwise.
pub fn handle_read<F>(
    request_closed: bool,
    bridge: &mut EventBridge<F>,
    buffered: &Option<Vec<Vec<u8>>>,
    received: &Option<Vec<Vec<u8>>>,
) -> (res: RecvPlan<F>)
    requires
        flat_opt(*buffered).len() + flat_opt(*received).len() <= usize::MAX,
    ensures
        ({
            let all = flat_opt(*buffered) + flat_opt(*received);
            let pending = pending_or_nothing(old(bridge).view());
            if !request_closed && all.len() == 0 {
                &&& final(bridge).view() == old(bridge).view()
                &&& res.answers@.len() == 0
                &&& res.drain_buffered == 0
                &&& res.drain_received == 0
            } else {
                &&& final(bridge).view() == crate::eventbridge::drained(old(bridge).view())
                &&& res.answers@.len() == pending.len()
                &&& forall|i: int|
                    0 <= i < pending.len() ==> (#[trigger] res.answers@[i]).future == pending[i]
                        && res.answers@[i].more_body == !request_closed && res.answers@[i].body@
                        == (if i == 0 {
                        all
                    } else {
                        Seq::empty()
                    })
                &&& pending.len() > 0 ==> res.drain_buffered == flat_opt(*buffered).len()
                    && res.drain_received == flat_opt(*received).len()
                &&& pending.len() == 0 ==> res.drain_buffered == 0 && res.drain_received == 0
            }
        }),
{
    if !(request_closed || has_request_body(buffered, received)) {
        return RecvPlan { drain_buffered: 0, drain_received: 0, answers: Vec::new() };
    }
    let futures = bridge.take_all();
    let ghost pending = futures@;
    let mut answers: Vec<RecvAnswer<F>> = Vec::new();
    let mut drain_buffered: usize = 0;
    let mut drain_received: usize = 0;
    let mut first = true;
    let mut futures = futures;
    let total = futures.len();
    let mut i: usize = 0;
    while futures.len() > 0
        invariant
            i <= pending.len(),
            pending.len() == total,
            futures@ == pending.skip(i as int),
            answers@.len() == i,
            first == (i == 0),
            forall|j: int|
                0 <= j < i ==> (#[trigger] answers@[j]).future == pending[j]
                    && answers@[j].more_body == !request_closed && answers@[j].body@ == (if j
                    == 0 {
                    flat_opt(*buffered) + flat_opt(*received)
                } else {
                    Seq::empty()
                }),
            flat_opt(*buffered).len() + flat_opt(*received).len() <= usize::MAX,
            i == 0 ==> drain_buffered == 0 && drain_received == 0,
            i > 0 ==> drain_buffered == flat_opt(*buffered).len() && drain_received == flat_opt(
                *received,
            ).len(),
        decreases futures@.len(),
    {
        let f = futures.remove(0);
        proof {
            assert(f == pending[i as int]);
            assert(futures@ =~= pending.skip(i + 1));
        }
        if first {
            let read = read_request_body(buffered, received);
            drain_buffered = read.drain_buffered;
            drain_received = read.drain_received;
            answers.push(RecvAnswer { future: f, body: read.body, more_body: !request_closed });
            first = false;
        } else {
            answers.push(RecvAnswer { future: f, body: Vec::new(), more_body: !request_closed });
        }
        i = i + 1;
    }
    RecvPlan { drain_buffered, drain_received, answers }
}

/// What `receive` answers when the request had no body: a disconnect once
/// the response is closed, else an empty last `http.request`.
#[derive(PartialEq, Eq, Structural, Debug)]
pub enum EmptyRecv {
    Disconnect,
    EmptyRequest,
}

pub fn empty_recv(response_closed: bool) -> (res: EmptyRecv)
    ensures
        res == (if response_closed {
            EmptyRecv::Disconnect
        } else {
            EmptyRecv::EmptyRequest
        }),
{
    if response_closed {
        EmptyRecv::Disconnect
    } else {
        EmptyRecv::EmptyRequest
    }
}

/// Whether the client accepts response trailers: its `te` header is
/// exactly `trailers`.
pub fn trailers_accepted(te: Option<&[u8]>) -> (res: bool)
    ensures
        res == match te {
            Some(v) => v@ == ascii(seq!['t', 'r', 'a', 'i', 'l', 'e', 'r', 's']),
            None => false,
        },
{
    proof {
        reveal_strlit("trailers");
    }
    match te {
        Some(v) => {
            let t = ascii_vec("trailers");
            assert(t@ == ascii(seq!['t', 'r', 'a', 'i', 'l', 'e', 'r', 's']));
            crate::text::bytes_eq(v, t.as_slice())
        },
        None => false,
    }
}

} // verus!
