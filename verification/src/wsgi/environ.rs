//! The WSGI environ of a request (PEP 3333), built from its scope.
use crate::headers::{format_decimal, headers_view, wsgi_key, decimal_int, Header};
use crate::scope::{
    decode_binary, decode_latin1, is_utf8, path_part, percent_decode, query_part, split_raw_path,
    HttpVersion, Scope,
};
use crate::text::{append_bytes, ascii, ascii_vec, bytes_eq, to_vec};
use vstd::prelude::*;
use vstd::utf8::valid_utf8;

verus! {

/// What `String::from_utf8_lossy` makes of some bytes: valid UTF-8 stays as
/// it is, invalid sequences become replacement characters.
pub uninterp spec fn utf8_lossy(bytes: Seq<u8>) -> Seq<u8>;

/// Decodes UTF-8 with `String::from_utf8_lossy`, replacing invalid sequences;
/// valid UTF-8 comes back unchanged.
#[verifier::external_body]
pub(crate) fn from_utf8_lossy(bytes: &[u8]) -> (res: Vec<u8>)
    ensures
        res@ == utf8_lossy(bytes@),
        valid_utf8(bytes@) ==> res@ == bytes@,
{
    String::from_utf8_lossy(bytes).into_owned().into_bytes()
}

/// The position of the entry with key `k`, or the length when there is none.
pub open spec fn dict_find(d: Seq<(Seq<u8>, Seq<u8>)>, k: Seq<u8>) -> int
    decreases d.len(),
{
    if d.len() == 0 {
        0
    } else if d[0].0 == k {
        0
    } else {
        1 + dict_find(d.drop_first(), k)
    }
}

pub proof fn lemma_dict_find(d: Seq<(Seq<u8>, Seq<u8>)>, k: Seq<u8>)
    ensures
        0 <= dict_find(d, k) <= d.len(),
        dict_find(d, k) < d.len() ==> d[dict_find(d, k)].0 == k,
        forall|j: int| 0 <= j < dict_find(d, k) ==> d[j].0 != k,
    decreases d.len(),
{
    if d.len() > 0 && d[0].0 != k {
        lemma_dict_find(d.drop_first(), k);
        assert forall|j: int| 0 <= j < dict_find(d, k) implies d[j].0 != k by {
            if j > 0 {
                assert(d[j] == d.drop_first()[j - 1]);
            }
        }
    }
}

proof fn lemma_dict_find_unique(d: Seq<(Seq<u8>, Seq<u8>)>, k: Seq<u8>, i: int)
    requires
        0 <= i <= d.len(),
        forall|j: int| 0 <= j < i ==> d[j].0 != k,
        i < d.len() ==> d[i].0 == k,
    ensures
        dict_find(d, k) == i,
    decreases d.len(),
{
    if d.len() > 0 && d[0].0 != k {
        assert forall|j: int| 0 <= j < i - 1 implies d.drop_first()[j].0 != k by {
            assert(d.drop_first()[j] == d[j + 1]);
        }
        if i < d.len() {
            assert(d.drop_first()[i - 1] == d[i]);
        }
        lemma_dict_find_unique(d.drop_first(), k, i - 1);
    }
}

/// Sets key `k` to `v`: in place when present, at the end otherwise.
pub open spec fn dict_set(d: Seq<(Seq<u8>, Seq<u8>)>, k: Seq<u8>, v: Seq<u8>) -> Seq<
    (Seq<u8>, Seq<u8>),
> {
    let i = dict_find(d, k);
    if i < d.len() {
        d.update(i, (k, v))
    } else {
        d.push((k, v))
    }
}

pub open spec fn content_type_name() -> Seq<u8> {
    ascii(seq!['c', 'o', 'n', 't', 'e', 'n', 't', '-', 't', 'y', 'p', 'e'])
}

pub open spec fn content_length_name() -> Seq<u8> {
    ascii(seq!['c', 'o', 'n', 't', 'e', 'n', 't', '-', 'l', 'e', 'n', 'g', 't', 'h'])
}

pub open spec fn content_type_key() -> Seq<u8> {
    ascii(seq!['C', 'O', 'N', 'T', 'E', 'N', 'T', '_', 'T', 'Y', 'P', 'E'])
}

pub open spec fn content_length_key() -> Seq<u8> {
    ascii(seq!['C', 'O', 'N', 'T', 'E', 'N', 'T', '_', 'L', 'E', 'N', 'G', 'T', 'H'])
}

/// The environ entries of the request headers, in the order their keys
/// first appear: `content-type` and `content-length` set `CONTENT_TYPE` and
/// `CONTENT_LENGTH` (the last one wins); every other header sets `HTTP_` and
/// its name, repeated headers being joined with commas. `None` when a value
/// that starts an entry is not UTF-8 (values joined later are decoded
/// leniently).
pub open spec fn environ_headers(hs: Seq<(Seq<u8>, Seq<u8>)>) -> Option<
    Seq<(Seq<u8>, Seq<u8>)>,
>
    decreases hs.len(),
{
    if hs.len() == 0 {
        Some(Seq::empty())
    } else {
        match environ_headers(hs.drop_last()) {
            None => None,
            Some(d) => {
                let (n, v) = hs.last();
                if n == content_type_name() {
                    if valid_utf8(v) {
                        Some(dict_set(d, content_type_key(), v))
                    } else {
                        None
                    }
                } else if n == content_length_name() {
                    if valid_utf8(v) {
                        Some(dict_set(d, content_length_key(), v))
                    } else {
                        None
                    }
                } else {
                    let k = wsgi_key(n);
                    let i = dict_find(d, k);
                    if i < d.len() {
                        Some(d.update(i, (k, d[i].1 + seq![44u8] + utf8_lossy(v))))
                    } else if valid_utf8(v) {
                        Some(d.push((k, v)))
                    } else {
                        None
                    }
                }
            },
        }
    }
}

/// The value of the entry with key `k`, if any.
pub open spec fn dict_lookup(d: Seq<(Seq<u8>, Seq<u8>)>, k: Seq<u8>) -> Option<Seq<u8>> {
    let i = dict_find(d, k);
    if i < d.len() {
        Some(d[i].1)
    } else {
        None
    }
}

/// The value of the last header of `hs` named `name`, if any.
pub open spec fn last_value(hs: Seq<(Seq<u8>, Seq<u8>)>, name: Seq<u8>) -> Option<Seq<u8>>
    decreases hs.len(),
{
    if hs.len() == 0 {
        None
    } else if hs.last().0 == name {
        Some(hs.last().1)
    } else {
        last_value(hs.drop_last(), name)
    }
}

/// The values, in order and joined by commas, of the headers of `hs`
/// other than `content-type` and `content-length` whose environ key is `k`
/// (each after the first decoded leniently); `None` when there is none.
pub open spec fn joined_values(hs: Seq<(Seq<u8>, Seq<u8>)>, k: Seq<u8>) -> Option<Seq<u8>>
    decreases hs.len(),
{
    if hs.len() == 0 {
        None
    } else {
        let prev = joined_values(hs.drop_last(), k);
        let (n, v) = hs.last();
        if n != content_type_name() && n != content_length_name() && wsgi_key(n) == k {
            match prev {
                None => Some(v),
                Some(p) => Some(p + seq![44u8] + utf8_lossy(v)),
            }
        } else {
            prev
        }
    }
}

/// What the environ holds under key `k` for the headers `hs`.
pub open spec fn expected_entry(hs: Seq<(Seq<u8>, Seq<u8>)>, k: Seq<u8>) -> Option<Seq<u8>> {
    if k == content_type_key() {
        last_value(hs, content_type_name())
    } else if k == content_length_key() {
        last_value(hs, content_length_name())
    } else {
        joined_values(hs, k)
    }
}

/// Setting key `k1` (in place, or at the end) gives `k1` its new value and
/// leaves every other key as it was.
proof fn lemma_lookup_set(d: Seq<(Seq<u8>, Seq<u8>)>, k1: Seq<u8>, v: Seq<u8>, k: Seq<u8>)
    ensures
        dict_lookup(
            if dict_find(d, k1) < d.len() {
                d.update(dict_find(d, k1), (k1, v))
            } else {
                d.push((k1, v))
            },
            k,
        ) == (if k == k1 {
            Some(v)
        } else {
            dict_lookup(d, k)
        }),
{
    lemma_dict_find(d, k1);
    lemma_dict_find(d, k);
    let i = dict_find(d, k1);
    let f = dict_find(d, k);
    let d2 = if i < d.len() {
        d.update(i, (k1, v))
    } else {
        d.push((k1, v))
    };
    if k == k1 {
        assert forall|j: int| 0 <= j < i implies d2[j].0 != k by {
            assert(d2[j] == d[j]);
        }
        lemma_dict_find_unique(d2, k, i);
    } else if f < d.len() {
        assert(f != i || i == d.len());
        assert forall|j: int| 0 <= j < f implies d2[j].0 != k by {
            if j != i {
                assert(d2[j] == d[j]);
            }
        }
        assert(d2[f] == d[f]);
        lemma_dict_find_unique(d2, k, f);
    } else {
        assert forall|j: int| 0 <= j < d2.len() implies d2[j].0 != k by {
            if j < d.len() && j != i {
                assert(d2[j] == d[j]);
            }
        }
        lemma_dict_find_unique(d2, k, d2.len() as int);
    }
}

/// The environ keys of headers all start with `HTTP_`, so none is
/// `CONTENT_TYPE` or `CONTENT_LENGTH`.
proof fn lemma_wsgi_key_not_content(n: Seq<u8>)
    ensures
        wsgi_key(n) != content_type_key(),
        wsgi_key(n) != content_length_key(),
{
    assert(wsgi_key(n)[0] == 72u8);
    assert(content_type_key()[0] == 67u8);
    assert(content_length_key()[0] == 67u8);
}

/// How the request headers become environ entries, over a whole header
/// list: `CONTENT_TYPE` and `CONTENT_LENGTH` hold the last `content-type`
/// and `content-length` values, and every other key holds the values of
/// all headers with that key, in order, joined by commas (`x-a: 1` and
/// `x-a: 2` give `HTTP_X_A` the value `1,2`); no key holds anything else.
pub proof fn law_environ_headers_merge(hs: Seq<(Seq<u8>, Seq<u8>)>, k: Seq<u8>)
    requires
        environ_headers(hs) is Some,
    ensures
        dict_lookup(environ_headers(hs)->0, k) == expected_entry(hs, k),
    decreases hs.len(),
{
    if hs.len() == 0 {
    } else {
        let rest = hs.drop_last();
        law_environ_headers_merge(rest, k);
        let d0 = environ_headers(rest)->0;
        let (n, v) = hs.last();
        assert(content_type_name()[8] != content_length_name()[8]);
        assert(content_type_key()[8] != content_length_key()[8]);
        assert(environ_headers(rest) is Some);
        if n == content_type_name() {
            lemma_lookup_set(d0, content_type_key(), v, k);
            assert(last_value(hs, content_type_name()) == Some(v));
            assert(last_value(hs, content_length_name()) == last_value(rest, content_length_name()));
            assert(joined_values(hs, k) == joined_values(rest, k));
        } else if n == content_length_name() {
            lemma_lookup_set(d0, content_length_key(), v, k);
            assert(last_value(hs, content_length_name()) == Some(v));
            assert(last_value(hs, content_type_name()) == last_value(rest, content_type_name()));
            assert(joined_values(hs, k) == joined_values(rest, k));
        } else {
            let k1 = wsgi_key(n);
            lemma_wsgi_key_not_content(n);
            let i = dict_find(d0, k1);
            lemma_dict_find(d0, k1);
            law_environ_headers_merge(rest, k1);
            assert(last_value(hs, content_type_name()) == last_value(rest, content_type_name()));
            assert(last_value(hs, content_length_name()) == last_value(rest, content_length_name()));
            if i < d0.len() {
                lemma_lookup_set(d0, k1, d0[i].1 + seq![44u8] + utf8_lossy(v), k);
                assert(dict_lookup(d0, k1) == Some(d0[i].1));
            } else {
                lemma_lookup_set(d0, k1, v, k);
            }
            if k == k1 {
                assert(expected_entry(rest, k1) == joined_values(rest, k1));
            } else {
                assert(joined_values(hs, k) == joined_values(rest, k));
            }
        }
    }
}

/// The position of the entry with key `k` in `d`.
fn find_key(d: &Vec<Header>, k: &[u8]) -> (res: usize)
    ensures
        res == dict_find(headers_view(d@), k@),
{
    let ghost view = headers_view(d@);
    let mut i: usize = 0;
    while i < d.len()
        invariant
            i <= d@.len(),
            view == headers_view(d@),
            forall|j: int| 0 <= j < i ==> view[j].0 != k@,
        decreases d@.len() - i,
    {
        if bytes_eq(d[i].0.as_slice(), k) {
            proof {
                lemma_dict_find_unique(view, k@, i as int);
            }
            return i;
        }
        i = i + 1;
    }
    proof {
        lemma_dict_find_unique(view, k@, i as int);
    }
    i
}

/// Sets key `k` to `v` in `d`.
fn set_entry(d: &mut Vec<Header>, k: Vec<u8>, v: Vec<u8>)
    ensures
        headers_view(final(d)@) == dict_set(headers_view(old(d)@), k@, v@),
{
    let i = find_key(d, k.as_slice());
    let ghost before = headers_view(d@);
    if i < d.len() {
        d[i] = (k, v);
        proof {
            assert(headers_view(d@) =~= before.update(i as int, (k@, v@)));
        }
    } else {
        d.push((k, v));
        proof {
            assert(headers_view(d@) =~= before.push((k@, v@)));
        }
    }
}

/// The environ entries of the request headers (see `environ_headers`).
pub fn header_entries(headers: &Vec<Header>) -> (res: Option<Vec<Header>>)
    ensures
        match (res, environ_headers(headers_view(headers@))) {
            (Some(d), Some(e)) => headers_view(d@) == e,
            (None, None) => true,
            _ => false,
        },
{
    proof {
        reveal_strlit("content-type");
        reveal_strlit("content-length");
        reveal_strlit("CONTENT_TYPE");
        reveal_strlit("CONTENT_LENGTH");
    }
    let ghost hs = headers_view(headers@);
    let ct_name = ascii_vec("content-type");
    let cl_name = ascii_vec("content-length");
    let ct_key = ascii_vec("CONTENT_TYPE");
    let cl_key = ascii_vec("CONTENT_LENGTH");
    let mut d: Vec<Header> = Vec::new();
    proof {
        assert(hs.take(0) =~= Seq::<(Seq<u8>, Seq<u8>)>::empty());
        assert(headers_view(d@) =~= Seq::<(Seq<u8>, Seq<u8>)>::empty());
    }
    let mut i: usize = 0;
    while i < headers.len()
        invariant
            i <= headers@.len(),
            hs == headers_view(headers@),
            ct_name@ == content_type_name(),
            cl_name@ == content_length_name(),
            ct_key@ == content_type_key(),
            cl_key@ == content_length_key(),
            environ_headers(hs.take(i as int)) == Some(headers_view(d@)),
        decreases headers@.len() - i,
    {
        proof {
            assert(hs.take(i + 1).drop_last() =~= hs.take(i as int));
            assert(hs.take(i + 1).last() == (headers@[i as int].0@, headers@[i as int].1@));
        }
        let name = headers[i].0.as_slice();
        let value = headers[i].1.as_slice();
        if bytes_eq(name, ct_name.as_slice()) {
            if !is_utf8(value) {
                proof {
                    lemma_environ_error_stays(hs, i + 1);
                }
                return None;
            }
            set_entry(&mut d, to_vec(ct_key.as_slice()), to_vec(value));
        } else if bytes_eq(name, cl_name.as_slice()) {
            if !is_utf8(value) {
                proof {
                    lemma_environ_error_stays(hs, i + 1);
                }
                return None;
            }
            set_entry(&mut d, to_vec(cl_key.as_slice()), to_vec(value));
        } else {
            let key = crate::headers::to_wsgi_string(name);
            let idx = find_key(&d, key.as_slice());
            let ghost before = headers_view(d@);
            proof {
                lemma_dict_find(before, key@);
            }
            if idx < d.len() {
                let mut joined = to_vec(d[idx].1.as_slice());
                joined.push(44u8);
                let lossy = from_utf8_lossy(value);
                append_bytes(&mut joined, lossy.as_slice());
                proof {
                    assert(before[idx as int].1 == d@[idx as int].1@);
                    assert(joined@ =~= before[idx as int].1 + seq![44u8] + utf8_lossy(value@));
                }
                d[idx] = (key, joined);
                proof {
                    assert(headers_view(d@) =~= before.update(
                        idx as int,
                        (wsgi_key(name@), before[idx as int].1 + seq![44u8] + utf8_lossy(value@)),
                    ));
                }
            } else {
                if !is_utf8(value) {
                    proof {
                        lemma_environ_error_stays(hs, i + 1);
                    }
                    return None;
                }
                d.push((key, to_vec(value)));
                proof {
                    assert(headers_view(d@) =~= before.push((wsgi_key(name@), value@)));
                }
            }
        }
        i = i + 1;
    }
    proof {
        assert(hs.take(i as int) =~= hs);
    }
    Some(d)
}

/// Once the entries of a prefix fail, the entries of all headers fail.
proof fn lemma_environ_error_stays(hs: Seq<(Seq<u8>, Seq<u8>)>, i: int)
    requires
        0 <= i <= hs.len(),
        environ_headers(hs.take(i)) is None,
    ensures
        environ_headers(hs) is None,
    decreases hs.len() - i,
{
    if i < hs.len() {
        assert(hs.take(i + 1).drop_last() =~= hs.take(i));
        lemma_environ_error_stays(hs, i + 1);
    } else {
        assert(hs.take(i) =~= hs);
    }
}

/// The `SERVER_PROTOCOL` of an HTTP version.
pub open spec fn spec_server_protocol(v: HttpVersion) -> Seq<u8> {
    match v {
        HttpVersion::Http10 => ascii(seq!['H', 'T', 'T', 'P', '/', '1', '.', '0']),
        HttpVersion::Http11 => ascii(seq!['H', 'T', 'T', 'P', '/', '1', '.', '1']),
        HttpVersion::Http2 => ascii(seq!['H', 'T', 'T', 'P', '/', '2']),
        HttpVersion::Http3 => ascii(seq!['H', 'T', 'T', 'P', '/', '3']),
    }
}

/// The `SERVER_PROTOCOL` of an HTTP version.
pub fn server_protocol(v: HttpVersion) -> (res: Vec<u8>)
    ensures
        res@ == spec_server_protocol(v),
{
    proof {
        reveal_strlit("HTTP/1.0");
        reveal_strlit("HTTP/1.1");
        reveal_strlit("HTTP/2");
        reveal_strlit("HTTP/3");
    }
    match v {
        HttpVersion::Http10 => ascii_vec("HTTP/1.0"),
        HttpVersion::Http11 => ascii_vec("HTTP/1.1"),
        HttpVersion::Http2 => ascii_vec("HTTP/2"),
        HttpVersion::Http3 => ascii_vec("HTTP/3"),
    }
}

/// The WSGI environ of a request, less the constant entries (`SCRIPT_NAME`
/// is the root path; `wsgi.version`, the streams and the flags are fixed).
pub struct Environ {
    /// `REQUEST_METHOD`.
    pub request_method: Vec<u8>,
    /// `QUERY_STRING`: the query, each byte read as a Latin-1 character.
    pub query_string: String,
    /// `PATH_INFO`: the decoded path below the root path, read as Latin-1.
    pub path_info: String,
    /// `CONTENT_TYPE`, `CONTENT_LENGTH` and the `HTTP_` entries.
    pub headers: Vec<Header>,
    /// `SERVER_NAME`.
    pub server_name: Vec<u8>,
    /// `SERVER_PORT`.
    pub server_port: Vec<u8>,
    /// `SERVER_PROTOCOL`.
    pub server_protocol: Vec<u8>,
    /// `wsgi.url_scheme`.
    pub url_scheme: Vec<u8>,
    /// `wsgi.ext.tls.tls_version`, in decimal, on TLS connections.
    pub tls_version: Option<Vec<u8>>,
    /// `wsgi.ext.tls.client_cert_name`, when a client certificate was given.
    pub tls_client_cert_name: Option<Vec<u8>>,
}

/// Why a request cannot be handed to the WSGI application.
pub enum EnvironError {
    /// The decoded path does not start with the configured root path.
    PathNotUnderRoot { decoded_path: Vec<u8> },
    /// A header value that starts an entry is not UTF-8.
    InvalidHeaderValue,
}

/// Builds the environ of a request mounted at `root_path`: the query string
/// and the percent-decoded path (with the root path removed, which it must
/// start with) read as Latin-1, the header entries, the server address
/// (`localhost` and port `0` when unknown), the protocol, the scheme and the
/// TLS details.
pub fn build_environ(scope: &Scope, root_path: &[u8]) -> (res: Result<Environ, EnvironError>)
    ensures
        ({
            let decoded = percent_decode(path_part(scope.raw_path@));
            let under_root = root_path@.len() == 0 || (root_path@.len() <= decoded.len()
                && decoded.take(root_path@.len() as int) == root_path@);
            let entries = environ_headers(headers_view(scope.headers@));
            match res {
                Err(EnvironError::PathNotUnderRoot { decoded_path }) => !under_root
                    && decoded_path@ == decoded,
                Err(EnvironError::InvalidHeaderValue) => under_root && entries is None,
                Ok(env) => {
                    &&& under_root
                    &&& entries matches Some(e) && headers_view(env.headers@) == e
                    &&& env.request_method@ == scope.method@
                    &&& env.query_string@ == query_part(scope.raw_path@).map_values(
                        |b: u8| b as char,
                    )
                    &&& env.path_info@ == decoded.skip(root_path@.len() as int).map_values(
                        |b: u8| b as char,
                    )
                    &&& match scope.server {
                        Some((host, port)) => env.server_name@ == host@ && env.server_port@
                            == decimal_int(port as int),
                        None => env.server_name@ == ascii(
                            seq!['l', 'o', 'c', 'a', 'l', 'h', 'o', 's', 't'],
                        ) && env.server_port@ == ascii(seq!['0']),
                    }
                    &&& env.server_protocol@ == spec_server_protocol(scope.http_version)
                    &&& env.url_scheme@ == scope.scheme@
                    &&& match scope.tls_info {
                        Some(t) => env.tls_version matches Some(v) && v@ == decimal_int(
                            t.tls_version as int,
                        ) && match t.client_cert_name {
                            Some(c) => env.tls_client_cert_name matches Some(n) && n@ == c@,
                            None => env.tls_client_cert_name is None,
                        },
                        None => env.tls_version is None && env.tls_client_cert_name is None,
                    }
                },
            }
        }),
{
    let (path, query) = split_raw_path(scope.raw_path.as_slice());
    let query_string = decode_latin1(query.as_slice());
    let decoded = decode_binary(path.as_slice());
    let mut under_root = true;
    if root_path.len() > 0 {
        if root_path.len() <= decoded.len() {
            let mut i: usize = 0;
            while i < root_path.len()
                invariant
                    root_path@.len() <= decoded@.len(),
                    i <= root_path@.len(),
                    under_root == (forall|k: int| 0 <= k < i ==> decoded@[k] == root_path@[k]),
                decreases root_path@.len() - i,
            {
                if decoded[i] != root_path[i] {
                    under_root = false;
                }
                i = i + 1;
            }
            proof {
                if under_root {
                    assert(decoded@.take(root_path@.len() as int) =~= root_path@);
                } else {
                    if decoded@.take(root_path@.len() as int) == root_path@ {
                        assert(forall|k: int|
                            0 <= k < root_path@.len() ==> decoded@.take(
                                root_path@.len() as int,
                            )[k] == decoded@[k]);
                    }
                }
            }
        } else {
            under_root = false;
        }
    }
    if !under_root {
        return Err(EnvironError::PathNotUnderRoot { decoded_path: decoded });
    }
    let mut rest: Vec<u8> = Vec::new();
    let mut j: usize = root_path.len();
    while j < decoded.len()
        invariant
            root_path@.len() <= j <= decoded@.len(),
            rest@ == decoded@.subrange(root_path@.len() as int, j as int),
        decreases decoded@.len() - j,
    {
        rest.push(decoded[j]);
        proof {
            assert(decoded@.subrange(root_path@.len() as int, j + 1) =~= decoded@.subrange(
                root_path@.len() as int,
                j as int,
            ).push(decoded@[j as int]));
        }
        j = j + 1;
    }
    proof {
        assert(rest@ =~= decoded@.skip(root_path@.len() as int));
    }
    let path_info = decode_latin1(rest.as_slice());
    let headers = match header_entries(&scope.headers) {
        Some(h) => h,
        None => {
            return Err(EnvironError::InvalidHeaderValue);
        },
    };
    proof {
        reveal_strlit("localhost");
        reveal_strlit("0");
    }
    let (server_name, server_port) = match &scope.server {
        Some((host, port)) => (to_vec(host.as_slice()), format_decimal(*port as i128)),
        None => (ascii_vec("localhost"), ascii_vec("0")),
    };
    let (tls_version, tls_client_cert_name) = match &scope.tls_info {
        Some(t) => (
            Some(format_decimal(t.tls_version as i128)),
            match &t.client_cert_name {
                Some(c) => Some(to_vec(c.as_slice())),
                None => None,
            },
        ),
        None => (None, None),
    };
    Ok(
        Environ {
            request_method: to_vec(scope.method.as_slice()),
            query_string,
            path_info,
            headers,
            server_name,
            server_port,
            server_protocol: server_protocol(scope.http_version),
            url_scheme: to_vec(scope.scheme.as_slice()),
            tls_version,
            tls_client_cert_name,
        },
    )
}

} // verus!
