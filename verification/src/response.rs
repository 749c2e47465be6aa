//! What the filters do on Envoy's side to write a response downstream.
use crate::headers::{decimal_int, format_decimal, headers_view, Header};
use crate::text::{ascii, ascii_vec, to_vec};
use vstd::prelude::*;

verus! {

/// One call the filter makes to Envoy (or to the application side) while
/// writing a response. `F` is the handle of a pending write notification.
pub enum ResponseAction<F> {
    /// Sends the response headers; `end_stream` when there is nothing more.
    SendHeaders { headers: Vec<Header>, end_stream: bool },
    /// Sends a chunk of the body.
    SendData { body: Vec<u8>, end_stream: bool },
    /// Sends the trailers, ending the response.
    SendTrailers { trailers: Vec<Header> },
    /// Replies with a plain `500 Internal Server Error` (or resets the stream
    /// when headers were already sent).
    SendErrorReply,
    /// Tells the application that its chunk was written, so it may continue.
    NotifyWritten,
    /// Completes the given pending write notification.
    CompleteWrite { handle: F },
}

/// The `:status` pseudo-header name.
pub open spec fn status_name() -> Seq<u8> {
    ascii(seq![':', 's', 't', 'a', 't', 'u', 's'])
}

/// Response headers: `:status` first, then the given headers.
pub open spec fn with_status(status: u16, headers: Seq<(Seq<u8>, Seq<u8>)>) -> Seq<
    (Seq<u8>, Seq<u8>),
> {
    seq![(status_name(), decimal_int(status as int))] + headers
}

/// Response headers: `:status` first, then the given headers.
pub fn status_headers(status: u16, headers: &Vec<Header>) -> (res: Vec<Header>)
    ensures
        headers_view(res@) == with_status(status, headers_view(headers@)),
{
    proof {
        reveal_strlit(":status");
    }
    let mut out: Vec<Header> = Vec::new();
    out.push((ascii_vec(":status"), format_decimal(status as i128)));
    let ghost first = headers_view(out@);
    proof {
        assert(first[0] == (out@[0].0@, out@[0].1@));
        assert(first =~~= seq![(status_name(), decimal_int(status as int))]);
    }
    let mut i: usize = 0;
    while i < headers.len()
        invariant
            i <= headers@.len(),
            first == seq![(status_name(), decimal_int(status as int))],
            headers_view(out@) == first + headers_view(headers@).take(i as int),
        decreases headers@.len() - i,
    {
        let ghost prev = headers_view(out@);
        out.push((to_vec(headers[i].0.as_slice()), to_vec(headers[i].1.as_slice())));
        proof {
            assert(headers_view(headers@).take(i + 1) =~= headers_view(headers@).take(i as int).push(
                (headers@[i as int].0@, headers@[i as int].1@),
            ));
            assert(headers_view(out@) =~= prev.push((headers@[i as int].0@, headers@[i as int].1@)));
        }
        i = i + 1;
    }
    proof {
        assert(headers_view(headers@).take(i as int) =~= headers_view(headers@));
    }
    out
}

/// Copies a header list.
pub fn clone_headers(headers: &Vec<Header>) -> (res: Vec<Header>)
    ensures
        headers_view(res@) == headers_view(headers@),
{
    let mut out: Vec<Header> = Vec::new();
    let mut i: usize = 0;
    while i < headers.len()
        invariant
            i <= headers@.len(),
            headers_view(out@) == headers_view(headers@).take(i as int),
        decreases headers@.len() - i,
    {
        let ghost prev = headers_view(out@);
        out.push((to_vec(headers[i].0.as_slice()), to_vec(headers[i].1.as_slice())));
        proof {
            assert(headers_view(headers@).take(i + 1) =~= headers_view(headers@).take(i as int).push(
                (headers@[i as int].0@, headers@[i as int].1@),
            ));
            assert(headers_view(out@) =~= prev.push((headers@[i as int].0@, headers@[i as int].1@)));
        }
        i = i + 1;
    }
    proof {
        assert(headers_view(headers@).take(i as int) =~= headers_view(headers@));
    }
    out
}

/// The plain error reply sent when an application fails: status 500, its
/// headers, and its body.
pub struct ErrorReply {
    pub status: u32,
    pub headers: Vec<Header>,
    pub body: Vec<u8>,
}

/// The error reply: `500`, `content-type: text/plain; charset=utf-8`,
/// `connection: close`, body `Internal Server Error`.
pub fn error_reply() -> (res: ErrorReply)
    ensures
        res.status == 500,
        headers_view(res.headers@) == seq![
            (
                ascii(seq!['c', 'o', 'n', 't', 'e', 'n', 't', '-', 't', 'y', 'p', 'e']),
                ascii(
                    seq![
                        't', 'e', 'x', 't', '/', 'p', 'l', 'a', 'i', 'n', ';', ' ', 'c', 'h',
                        'a', 'r', 's', 'e', 't', '=', 'u', 't', 'f', '-', '8'
                    ],
                ),
            ),
            (
                ascii(seq!['c', 'o', 'n', 'n', 'e', 'c', 't', 'i', 'o', 'n']),
                ascii(seq!['c', 'l', 'o', 's', 'e']),
            ),
        ],
        res.body@ == ascii(
            seq![
                'I', 'n', 't', 'e', 'r', 'n', 'a', 'l', ' ', 'S', 'e', 'r', 'v', 'e', 'r', ' ', 'E',
                'r', 'r', 'o', 'r'
            ],
        ),
{
    proof {
        reveal_strlit("content-type");
        reveal_strlit("text/plain; charset=utf-8");
        reveal_strlit("connection");
        reveal_strlit("close");
        reveal_strlit("Internal Server Error");
    }
    let mut headers: Vec<Header> = Vec::new();
    headers.push((ascii_vec("content-type"), ascii_vec("text/plain; charset=utf-8")));
    headers.push((ascii_vec("connection"), ascii_vec("close")));
    let body = ascii_vec("Internal Server Error");
    proof {
        assert(headers_view(headers@)[0] == (headers@[0].0@, headers@[0].1@));
        assert(headers_view(headers@)[1] == (headers@[1].0@, headers@[1].1@));
        assert(headers_view(headers@) =~~= seq![
            (
                ascii(seq!['c', 'o', 'n', 't', 'e', 'n', 't', '-', 't', 'y', 'p', 'e']),
                ascii(
                    seq![
                        't', 'e', 'x', 't', '/', 'p', 'l', 'a', 'i', 'n', ';', ' ', 'c', 'h',
                        'a', 'r', 's', 'e', 't', '=', 'u', 't', 'f', '-', '8'
                    ],
                ),
            ),
            (
                ascii(seq!['c', 'o', 'n', 'n', 'e', 'c', 't', 'i', 'o', 'n']),
                ascii(seq!['c', 'l', 'o', 's', 'e']),
            ),
        ]);
    }
    ErrorReply { status: 500, headers, body }
}

/// How many write-buffer high watermarks downstream is above: responses are
/// only written while it is zero.
pub struct Watermark {
    pub level: usize,
}

impl Watermark {
    /// Downstream went above its high watermark.
    pub fn above(&mut self)
        requires
            old(self).level < usize::MAX,
        ensures
            final(self).level == old(self).level + 1,
    {
        self.level = self.level + 1;
    }

    /// Downstream went below its low watermark; returns whether writing may
    /// resume, which is when the level is back to zero.
    pub fn below(&mut self) -> (resume: bool)
        requires
            old(self).level > 0,
        ensures
            final(self).level == old(self).level - 1,
            resume == (final(self).level == 0),
    {
        self.level = self.level - 1;
        self.level == 0
    }

    /// Whether responses may be written now.
    pub fn may_write(&self) -> (res: bool)
        ensures
            res == (self.level == 0),
    {
        self.level == 0
    }
}

} // verus!
