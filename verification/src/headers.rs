//! HTTP header names, values, methods and schemes as plain bytes, validated
//! by the `http` crate, and the request header list handed over by Envoy.
use crate::text::{ascii, ascii_vec, bytes_eq, to_vec};
use vstd::prelude::*;

verus! {

/// A token character of RFC 9110 (`tchar`).
pub open spec fn is_tchar(b: u8) -> bool {
    ||| b == 33
    ||| 35 <= b <= 39
    ||| b == 42
    ||| b == 43
    ||| b == 45
    ||| b == 46
    ||| 48 <= b <= 57
    ||| 65 <= b <= 90
    ||| 94 <= b <= 122
    ||| b == 124
    ||| b == 126
}

/// The byte with ASCII upper case letters turned to lower case.
pub open spec fn ascii_lower(b: u8) -> u8 {
    if 65 <= b <= 90 {
        (b + 32) as u8
    } else {
        b
    }
}

/// The byte with ASCII lower case letters turned to upper case.
pub open spec fn ascii_upper(b: u8) -> u8 {
    if 97 <= b <= 122 {
        (b - 32) as u8
    } else {
        b
    }
}

/// Bytes that form a header name: one to 65535 token characters.
pub open spec fn valid_header_name(s: Seq<u8>) -> bool {
    &&& 1 <= s.len() <= 65535
    &&& forall|i: int| 0 <= i < s.len() ==> is_tchar(#[trigger] s[i])
}

/// The canonical (lower case) form of a header name.
pub open spec fn lower_name(s: Seq<u8>) -> Seq<u8> {
    s.map_values(|b: u8| ascii_lower(b))
}

/// A byte allowed in a header value: visible ASCII, horizontal tab, or any
/// byte from 128 up.
pub open spec fn is_header_value_byte(b: u8) -> bool {
    (b >= 32 && b != 127) || b == 9
}

/// Bytes that form a header value.
pub open spec fn valid_header_value(s: Seq<u8>) -> bool {
    forall|i: int| 0 <= i < s.len() ==> is_header_value_byte(#[trigger] s[i])
}

/// Bytes that form a request method: one or more token characters.
pub open spec fn valid_method(s: Seq<u8>) -> bool {
    &&& s.len() >= 1
    &&& forall|i: int| 0 <= i < s.len() ==> is_tchar(#[trigger] s[i])
}

/// A byte allowed in a URI scheme other than `http` and `https`.
pub open spec fn is_scheme_byte(b: u8) -> bool {
    ||| b == 43
    ||| b == 45
    ||| b == 46
    ||| 48 <= b <= 57
    ||| 65 <= b <= 90
    ||| 97 <= b <= 122
    ||| b == 126
}

/// Bytes accepted as a URI scheme.
pub open spec fn valid_scheme(s: Seq<u8>) -> bool {
    ||| s == ascii(seq!['h', 't', 't', 'p'])
    ||| s == ascii(seq!['h', 't', 't', 'p', 's'])
    ||| (s.len() <= 64 && forall|i: int| 0 <= i < s.len() ==> is_scheme_byte(#[trigger] s[i]))
}

/// The value of an ASCII decimal digit.
pub open spec fn digit(b: u8) -> int {
    b - 48
}

/// Bytes that form a status code: three digits, the first not zero.
pub open spec fn valid_status(s: Seq<u8>) -> bool {
    &&& s.len() == 3
    &&& 49 <= s[0] <= 57
    &&& 48 <= s[1] <= 57
    &&& 48 <= s[2] <= 57
}

/// The number written by three decimal digits.
pub open spec fn status_value(s: Seq<u8>) -> int {
    digit(s[0]) * 100 + digit(s[1]) * 10 + digit(s[2])
}

/// The decimal digits of a natural number.
pub open spec fn decimal(n: nat) -> Seq<u8>
    decreases n,
{
    if n < 10 {
        seq![(n + 48) as u8]
    } else {
        decimal(n / 10).push((n % 10 + 48) as u8)
    }
}

/// The decimal text of an integer, with a minus sign when negative.
pub open spec fn decimal_int(n: int) -> Seq<u8> {
    if n < 0 {
        seq![45u8] + decimal((-n) as nat)
    } else {
        decimal(n as nat)
    }
}

/// Validates a header name with `http::HeaderName::from_bytes`, returning it
/// in canonical form. The name is accepted exactly when it is one to 65535
/// token characters, and comes back with its letters in lower case.
#[verifier::external_body]
pub(crate) fn header_name_from_bytes(src: &[u8]) -> (res: Option<Vec<u8>>)
    ensures
        res is Some <==> valid_header_name(src@),
        res matches Some(name) ==> name@ == lower_name(src@),
{
    match http::HeaderName::from_bytes(src) {
        Ok(name) => Some(name.as_str().as_bytes().to_vec()),
        Err(_) => None,
    }
}

/// Validates a header value with `http::HeaderValue::from_bytes`. The value
/// is accepted exactly when no byte is a control character other than tab,
/// and is kept as given.
#[verifier::external_body]
pub(crate) fn header_value_from_bytes(src: &[u8]) -> (res: Option<Vec<u8>>)
    ensures
        res is Some <==> valid_header_value(src@),
        res matches Some(value) ==> value@ == src@,
{
    match http::HeaderValue::from_bytes(src) {
        Ok(value) => Some(value.as_bytes().to_vec()),
        Err(_) => None,
    }
}

/// Validates a request method with `http::Method::from_bytes`. The method is
/// accepted exactly when it is one or more token characters, and is kept as
/// given (methods are case sensitive).
#[verifier::external_body]
pub(crate) fn method_from_bytes(src: &[u8]) -> (res: Option<Vec<u8>>)
    ensures
        res is Some <==> valid_method(src@),
        res matches Some(method) ==> method@ == src@,
{
    match http::Method::from_bytes(src) {
        Ok(method) => Some(method.as_str().as_bytes().to_vec()),
        Err(_) => None,
    }
}

/// Validates a URI scheme with `http::uri::Scheme::try_from`. `http` and
/// `https` are accepted, and so is any other text of at most 64 bytes made of
/// letters, digits, `+`, `-`, `.` and `~`; the scheme is kept as given.
#[verifier::external_body]
pub(crate) fn scheme_from_bytes(src: &[u8]) -> (res: Option<Vec<u8>>)
    ensures
        res is Some <==> valid_scheme(src@),
        res matches Some(scheme) ==> scheme@ == src@,
{
    match http::uri::Scheme::try_from(src) {
        Ok(scheme) => Some(scheme.as_str().as_bytes().to_vec()),
        Err(_) => None,
    }
}

/// Parses a status code with `http::StatusCode::from_bytes`: exactly three
/// decimal digits, the first not zero.
#[verifier::external_body]
pub(crate) fn status_from_bytes(src: &[u8]) -> (res: Option<u16>)
    ensures
        res is Some <==> valid_status(src@),
        res matches Some(code) ==> code == status_value(src@),
{
    match http::StatusCode::from_bytes(src) {
        Ok(code) => Some(code.as_u16()),
        Err(_) => None,
    }
}

/// Writes an integer in decimal with `itoa::Buffer::format`.
#[verifier::external_body]
pub(crate) fn format_decimal(n: i128) -> (res: Vec<u8>)
    ensures
        res@ == decimal_int(n as int),
{
    let mut buffer = itoa::Buffer::new();
    buffer.format(n).as_bytes().to_vec()
}

/// A header name and value, both as bytes.
pub type Header = (Vec<u8>, Vec<u8>);

/// The bytes of the headers, name and value per entry.
pub open spec fn headers_view(hs: Seq<Header>) -> Seq<(Seq<u8>, Seq<u8>)> {
    hs.map_values(|h: Header| (h.0@, h.1@))
}

/// A header list accepted from an application: the first invalid name or
/// value rejects the whole list.
pub enum HeaderError {
    /// A name that is not a valid header name.
    InvalidName,
    /// A value that is not a valid header value.
    InvalidValue,
}

/// The outcome of validating `raw` pair by pair, the name of a pair first.
pub open spec fn validated_headers(raw: Seq<(Seq<u8>, Seq<u8>)>) -> Result<
    Seq<(Seq<u8>, Seq<u8>)>,
    HeaderError,
>
    decreases raw.len(),
{
    if raw.len() == 0 {
        Ok(Seq::empty())
    } else {
        match validated_headers(raw.drop_last()) {
            Err(e) => Err(e),
            Ok(prefix) => {
                let (n, v) = raw.last();
                if !valid_header_name(n) {
                    Err(HeaderError::InvalidName)
                } else if !valid_header_value(v) {
                    Err(HeaderError::InvalidValue)
                } else {
                    Ok(prefix.push((lower_name(n), v)))
                }
            },
        }
    }
}

/// Validates the headers an application handed over, in order, stopping at
/// the first invalid name or value.
pub fn extract_headers(raw: &Vec<Header>) -> (res: Result<Vec<Header>, HeaderError>)
    ensures
        match (res, validated_headers(headers_view(raw@))) {
            (Ok(hs), Ok(expected)) => headers_view(hs@) == expected,
            (Err(HeaderError::InvalidName), Err(HeaderError::InvalidName)) => true,
            (Err(HeaderError::InvalidValue), Err(HeaderError::InvalidValue)) => true,
            _ => false,
        },
{
    let ghost view = headers_view(raw@);
    let mut out: Vec<Header> = Vec::new();
    proof {
        assert(view.take(0) =~= Seq::<(Seq<u8>, Seq<u8>)>::empty());
        assert(headers_view(out@) =~= Seq::<(Seq<u8>, Seq<u8>)>::empty());
    }
    let mut i: usize = 0;
    while i < raw.len()
        invariant
            i <= raw@.len(),
            view == headers_view(raw@),
            validated_headers(view.take(i as int)) == Ok::<
                Seq<(Seq<u8>, Seq<u8>)>,
                HeaderError,
            >(headers_view(out@)),
        decreases raw@.len() - i,
    {
        proof {
            assert(view.take(i + 1).drop_last() =~= view.take(i as int));
            assert(view.take(i + 1).last() == (raw@[i as int].0@, raw@[i as int].1@));
        }
        let name = header_name_from_bytes(raw[i].0.as_slice());
        let value = header_value_from_bytes(raw[i].1.as_slice());
        match (name, value) {
            (Some(n), Some(v)) => {
                let ghost prev = headers_view(out@);
                out.push((n, v));
                proof {
                    assert(headers_view(out@) =~= prev.push(
                        (lower_name(raw@[i as int].0@), raw@[i as int].1@),
                    ));
                }
            },
            (None, _) => {
                proof {
                    lemma_validated_error_stays(view, i + 1);
                }
                return Err(HeaderError::InvalidName);
            },
            (_, None) => {
                proof {
                    lemma_validated_error_stays(view, i + 1);
                }
                return Err(HeaderError::InvalidValue);
            },
        }
        i = i + 1;
    }
    proof {
        assert(view.take(i as int) =~= view);
    }
    Ok(out)
}

/// Once validation of a prefix fails, validation of the whole list fails
/// with the same error.
pub proof fn lemma_validated_error_stays(raw: Seq<(Seq<u8>, Seq<u8>)>, i: int)
    requires
        0 <= i <= raw.len(),
        validated_headers(raw.take(i)) is Err,
    ensures
        validated_headers(raw) == validated_headers(raw.take(i)),
    decreases raw.len() - i,
{
    if i < raw.len() {
        assert(raw.take(i + 1).drop_last() =~= raw.take(i));
        lemma_validated_error_stays(raw, i + 1);
    } else {
        assert(raw.take(i) =~= raw);
    }
}

/// The request headers, method, path and scheme that Envoy handed over.
pub struct HeadersInfo {
    /// The regular headers, `host` first when an authority was given.
    pub headers: Vec<Header>,
    /// The request method, `GET` unless a valid one was given.
    pub method: Vec<u8>,
    /// The raw path with its query, percent-encoded as received.
    pub raw_path: Vec<u8>,
    /// The request scheme, `http` unless a valid one was given.
    pub scheme: Vec<u8>,
}

pub open spec fn pseudo_method() -> Seq<u8> {
    ascii(seq![':', 'm', 'e', 't', 'h', 'o', 'd'])
}

pub open spec fn pseudo_scheme() -> Seq<u8> {
    ascii(seq![':', 's', 'c', 'h', 'e', 'm', 'e'])
}

pub open spec fn pseudo_path() -> Seq<u8> {
    ascii(seq![':', 'p', 'a', 't', 'h'])
}

pub open spec fn pseudo_authority() -> Seq<u8> {
    ascii(seq![':', 'a', 'u', 't', 'h', 'o', 'r', 'i', 't', 'y'])
}

pub open spec fn forwarded_proto() -> Seq<u8> {
    ascii(seq!['x', '-', 'f', 'o', 'r', 'w', 'a', 'r', 'd', 'e', 'd', '-', 'p', 'r', 'o', 't', 'o'])
}

/// Names that are not passed on as headers.
pub open spec fn is_special_header(n: Seq<u8>) -> bool {
    ||| n == pseudo_method()
    ||| n == pseudo_scheme()
    ||| n == pseudo_path()
    ||| n == pseudo_authority()
    ||| n == forwarded_proto()
}

/// The regular headers among `hs`, in order: special names and invalid
/// entries are skipped, names are put in canonical form.
pub open spec fn regular_headers(hs: Seq<(Seq<u8>, Seq<u8>)>) -> Seq<(Seq<u8>, Seq<u8>)>
    decreases hs.len(),
{
    if hs.len() == 0 {
        Seq::empty()
    } else {
        let rest = regular_headers(hs.drop_last());
        let (n, v) = hs.last();
        if is_special_header(n) || !valid_header_name(n) || !valid_header_value(v) {
            rest
        } else {
            rest.push((lower_name(n), v))
        }
    }
}

/// The value of the last entry named `name` that `ok` accepts, or `dflt`.
pub open spec fn last_accepted(
    hs: Seq<(Seq<u8>, Seq<u8>)>,
    name: Seq<u8>,
    ok: spec_fn(Seq<u8>) -> bool,
    dflt: Seq<u8>,
) -> Seq<u8>
    decreases hs.len(),
{
    if hs.len() == 0 {
        dflt
    } else if hs.last().0 == name && ok(hs.last().1) {
        hs.last().1
    } else {
        last_accepted(hs.drop_last(), name, ok, dflt)
    }
}

/// Whether some entry is named `name`; the first such entry's value.
pub open spec fn first_value(hs: Seq<(Seq<u8>, Seq<u8>)>, name: Seq<u8>) -> Option<Seq<u8>>
    decreases hs.len(),
{
    if hs.len() == 0 {
        None
    } else if hs[0].0 == name {
        Some(hs[0].1)
    } else {
        first_value(hs.drop_first(), name)
    }
}

/// The `host` header derived from the authority: its value when valid,
/// `unknown` otherwise.
pub open spec fn host_header(authority: Seq<u8>) -> (Seq<u8>, Seq<u8>) {
    (
        ascii(seq!['h', 'o', 's', 't']),
        if valid_header_value(authority) {
            authority
        } else {
            ascii(seq!['u', 'n', 'k', 'n', 'o', 'w', 'n'])
        },
    )
}

proof fn lemma_first_value_step(hs: Seq<(Seq<u8>, Seq<u8>)>, name: Seq<u8>, i: int)
    requires
        0 <= i < hs.len(),
        forall|k: int| 0 <= k < i ==> hs[k].0 != name,
    ensures
        first_value(hs, name) == first_value(hs.skip(i), name),
    decreases i,
{
    if i > 0 {
        assert(hs[0].0 != name);
        assert forall|k: int| 0 <= k < i - 1 implies hs.drop_first()[k].0 != name by {
            assert(hs.drop_first()[k] == hs[k + 1]);
        }
        lemma_first_value_step(hs.drop_first(), name, i - 1);
        assert(hs.drop_first().skip(i - 1) =~= hs.skip(i));
    } else {
        assert(hs.skip(0) =~= hs);
    }
}

/// The value of the first header named `name`, if any.
pub fn find_first_value(hs: &Vec<Header>, name: &[u8]) -> (res: Option<Vec<u8>>)
    ensures
        match (res, first_value(headers_view(hs@), name@)) {
            (Some(v), Some(w)) => v@ == w,
            (None, None) => true,
            _ => false,
        },
{
    let ghost view = headers_view(hs@);
    let mut i: usize = 0;
    while i < hs.len()
        invariant
            i <= hs@.len(),
            view == headers_view(hs@),
            forall|k: int| 0 <= k < i ==> view[k].0 != name@,
        decreases hs@.len() - i,
    {
        if bytes_eq(hs[i].0.as_slice(), name) {
            proof {
                lemma_first_value_step(view, name@, i as int);
                assert(view.skip(i as int)[0] == view[i as int]);
            }
            return Some(to_vec(hs[i].1.as_slice()));
        }
        i = i + 1;
    }
    proof {
        lemma_first_none(view, name@);
    }
    None
}

proof fn lemma_first_none(hs: Seq<(Seq<u8>, Seq<u8>)>, name: Seq<u8>)
    requires
        forall|k: int| 0 <= k < hs.len() ==> hs[k].0 != name,
    ensures
        first_value(hs, name) is None,
    decreases hs.len(),
{
    if hs.len() > 0 {
        assert forall|k: int| 0 <= k < hs.drop_first().len() implies hs.drop_first()[k].0 != name by {
            assert(hs.drop_first()[k] == hs[k + 1]);
        }
        lemma_first_none(hs.drop_first(), name);
    }
}

proof fn lemma_special_names_distinct()
    ensures
        pseudo_method() != pseudo_scheme(),
        pseudo_method() != pseudo_path(),
        pseudo_method() != pseudo_authority(),
        pseudo_method() != forwarded_proto(),
        pseudo_scheme() != pseudo_path(),
        pseudo_scheme() != pseudo_authority(),
        pseudo_scheme() != forwarded_proto(),
        pseudo_path() != pseudo_authority(),
        pseudo_path() != forwarded_proto(),
        pseudo_authority() != forwarded_proto(),
{
    assert(pseudo_method().len() == 7);
    assert(pseudo_scheme().len() == 7);
    assert(pseudo_path().len() == 5);
    assert(pseudo_authority().len() == 10);
    assert(forwarded_proto().len() == 17);
    assert(pseudo_method()[1] != pseudo_scheme()[1]);
}

/// Reads the request headers Envoy handed over: the `:authority` becomes a
/// leading `host` header, the `:method`, `:scheme` and `:path` pseudo-headers
/// (the last valid one of each) become the method, scheme and raw path, and
/// `x-forwarded-proto` is dropped, as are invalid entries.
pub fn read_request_headers(envoy_headers: &Vec<Header>) -> (res: HeadersInfo)
    ensures
        ({
            let hs = headers_view(envoy_headers@);
            let rest = regular_headers(hs);
            &&& headers_view(res.headers@) == match first_value(hs, pseudo_authority()) {
                Some(a) => seq![host_header(a)] + rest,
                None => rest,
            }
            &&& res.method@ == last_accepted(
                hs,
                pseudo_method(),
                |v: Seq<u8>| valid_method(v),
                ascii(seq!['G', 'E', 'T']),
            )
            &&& res.scheme@ == last_accepted(
                hs,
                pseudo_scheme(),
                |v: Seq<u8>| valid_scheme(v),
                ascii(seq!['h', 't', 't', 'p']),
            )
            &&& res.raw_path@ == last_accepted(hs, pseudo_path(), |v: Seq<u8>| true, Seq::empty())
        }),
{
    let ghost hs = headers_view(envoy_headers@);
    proof {
        reveal_strlit(":method");
        reveal_strlit(":scheme");
        reveal_strlit(":path");
        reveal_strlit(":authority");
        reveal_strlit("x-forwarded-proto");
        reveal_strlit("GET");
        reveal_strlit("http");
        reveal_strlit("host");
        reveal_strlit("unknown");
    }
    let key_method = ascii_vec(":method");
    let key_scheme = ascii_vec(":scheme");
    let key_path = ascii_vec(":path");
    let key_authority = ascii_vec(":authority");
    let key_forwarded = ascii_vec("x-forwarded-proto");
    let mut headers: Vec<Header> = Vec::new();
    let mut method = ascii_vec("GET");
    let mut scheme = ascii_vec("http");
    let mut raw_path: Vec<u8> = Vec::new();
    let ghost mut lead: Seq<(Seq<u8>, Seq<u8>)> = Seq::empty();
    match find_first_value(envoy_headers, key_authority.as_slice()) {
        Some(authority) => {
            let value = match header_value_from_bytes(authority.as_slice()) {
                Some(v) => v,
                None => ascii_vec("unknown"),
            };
            let host = ascii_vec("host");
            headers.push((host, value));
            proof {
                lead = seq![host_header(authority@)];
                assert(headers_view(headers@)[0] == (host@, value@));
                assert(host@ == ascii(seq!['h', 'o', 's', 't']));
                assert(value@ == host_header(authority@).1);
                assert(key_authority@ == pseudo_authority());
                assert(first_value(hs, pseudo_authority()) == Some(authority@));
                assert(headers_view(headers@) =~= lead);
            }
        },
        None => {
            proof {
                assert(key_authority@ == pseudo_authority());
                assert(first_value(hs, pseudo_authority()) is None);
                assert(headers_view(headers@) =~= lead);
            }
        },
    }
    let mut i: usize = 0;
    while i < envoy_headers.len()
        invariant
            i <= envoy_headers@.len(),
            hs == headers_view(envoy_headers@),
            key_method@ == pseudo_method(),
            key_scheme@ == pseudo_scheme(),
            key_path@ == pseudo_path(),
            key_authority@ == pseudo_authority(),
            key_forwarded@ == forwarded_proto(),
            lead == match first_value(hs, pseudo_authority()) {
                Some(a) => seq![host_header(a)],
                None => Seq::empty(),
            },
            headers_view(headers@) == lead + regular_headers(hs.take(i as int)),
            method@ == last_accepted(
                hs.take(i as int),
                pseudo_method(),
                |v: Seq<u8>| valid_method(v),
                ascii(seq!['G', 'E', 'T']),
            ),
            scheme@ == last_accepted(
                hs.take(i as int),
                pseudo_scheme(),
                |v: Seq<u8>| valid_scheme(v),
                ascii(seq!['h', 't', 't', 'p']),
            ),
            raw_path@ == last_accepted(
                hs.take(i as int),
                pseudo_path(),
                |v: Seq<u8>| true,
                Seq::empty(),
            ),
        decreases envoy_headers@.len() - i,
    {
        let name = envoy_headers[i].0.as_slice();
        let value = envoy_headers[i].1.as_slice();
        let ghost prev = headers_view(headers@);
        proof {
            assert(hs.take(i + 1).drop_last() =~= hs.take(i as int));
            assert(hs.take(i + 1).last() == (name@, value@));
            lemma_special_names_distinct();
        }
        if bytes_eq(name, key_method.as_slice()) {
            match method_from_bytes(value) {
                Some(m) => {
                    method = m;
                },
                None => {},
            }
        } else if bytes_eq(name, key_scheme.as_slice()) {
            match scheme_from_bytes(value) {
                Some(s) => {
                    scheme = s;
                },
                None => {},
            }
        } else if bytes_eq(name, key_path.as_slice()) {
            raw_path = to_vec(value);
        } else if bytes_eq(name, key_authority.as_slice()) || bytes_eq(
            name,
            key_forwarded.as_slice(),
        ) {
        } else {
            match (header_name_from_bytes(name), header_value_from_bytes(value)) {
                (Some(n), Some(v)) => {
                    headers.push((n, v));
                    proof {
                        assert(headers_view(headers@) =~= prev.push((lower_name(name@), value@)));
                    }
                },
                _ => {},
            }
        }
        proof {
            assert(headers_view(headers@) =~= lead + regular_headers(hs.take(i + 1)));
        }
        i = i + 1;
    }
    proof {
        assert(hs.take(i as int) =~= hs);
    }
    HeadersInfo { headers, method, raw_path, scheme }
}

/// The WSGI environ key of a header: `HTTP_` and the name in upper case
/// with dashes turned to underscores.
pub open spec fn wsgi_key(name: Seq<u8>) -> Seq<u8> {
    ascii(seq!['H', 'T', 'T', 'P', '_']) + name.map_values(
        |b: u8|
            if b == 45 {
                95u8
            } else {
                ascii_upper(b)
            },
    )
}

/// The WSGI environ key of the header `name`.
pub fn to_wsgi_string(name: &[u8]) -> (res: Vec<u8>)
    ensures
        res@ == wsgi_key(name@),
{
    proof {
        reveal_strlit("HTTP_");
    }
    let mut key = ascii_vec("HTTP_");
    let ghost prefix = key@;
    let mut i: usize = 0;
    while i < name.len()
        invariant
            i <= name@.len(),
            prefix == ascii(seq!['H', 'T', 'T', 'P', '_']),
            key@ == prefix + name@.take(i as int).map_values(
                |b: u8|
                    if b == 45 {
                        95u8
                    } else {
                        ascii_upper(b)
                    },
            ),
        decreases name@.len() - i,
    {
        let b = name[i];
        let c = if b == 45 {
            95u8
        } else if 97 <= b && b <= 122 {
            b - 32
        } else {
            b
        };
        key.push(c);
        proof {
            assert(name@.take(i + 1) =~= name@.take(i as int).push(b));
            assert(key@ =~= prefix + name@.take(i + 1).map_values(
                |b: u8|
                    if b == 45 {
                        95u8
                    } else {
                        ascii_upper(b)
                    },
            ));
        }
        i = i + 1;
    }
    proof {
        assert(name@.take(i as int) =~= name@);
    }
    key
}

/// The ASGI name of the header `name`: its canonical bytes, unchanged.
pub fn to_asgi_bytes(name: &[u8]) -> (res: Vec<u8>)
    ensures
        res@ == name@,
{
    to_vec(name)
}

} // verus!
