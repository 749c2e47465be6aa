//! ASGI WebSockets: the byte stream between Envoy and the WebSocket codec,
//! the `send` callable's states, and the filter's replies.
use crate::body::{flat, lemma_flat_index, lemma_flat_prefix, lemma_flat_take_succ};
use crate::headers::{extract_headers, header_value_from_bytes, headers_view, validated_headers, Header, HeaderError, valid_header_value};
use crate::scope::{address_to_scope, strip_port, HttpVersion, Scope, TlsInfo};
use crate::text::{append_bytes, ascii, ascii_vec, bytes_eq, to_vec};
use crate::wsgi::environ::{from_utf8_lossy, utf8_lossy};
use vstd::prelude::*;
use vstd::utf8::encode_utf8;

verus! {

/// The bytes exchanged with Envoy on a WebSocket connection.
pub struct EnvoyStream {
    /// Bytes received and not consumed by the codec yet.
    pub read_buffer: Vec<u8>,
    /// How many bytes were taken from Envoy so far.
    pub total_read: usize,
    /// Bytes the codec wrote and Envoy did not take yet.
    pub write_buffer: Vec<u8>,
    pub closed: bool,
}

/// After taking Envoy's (unconsumed) buffer `envoy` during the handshake:
/// the bytes not taken before are added, and all of them count as taken.
pub open spec fn took_new_bytes(before: EnvoyStream, after: EnvoyStream, envoy: Seq<u8>) -> bool {
    &&& after.read_buffer@ == before.read_buffer@ + envoy.skip(before.total_read as int)
    &&& after.total_read == envoy.len()
}

/// During the handshake Envoy's buffer only grows and is taken again on
/// every read: each of its bytes reaches the codec once, in order. Taking
/// the buffer `a`, then the grown buffer `a + b`, from a fresh stream adds
/// `a` then `b`.
pub proof fn law_handshake_takes_each_byte_once(
    s0: EnvoyStream,
    s1: EnvoyStream,
    s2: EnvoyStream,
    a: Seq<u8>,
    b: Seq<u8>,
)
    requires
        s0.total_read == 0,
        took_new_bytes(s0, s1, a),
        took_new_bytes(s1, s2, a + b),
    ensures
        s2.read_buffer@ == s0.read_buffer@ + a + b,
        s2.total_read == a.len() + b.len(),
{
    assert(a.skip(0) =~= a);
    assert((a + b).skip(a.len() as int) =~= b);
    assert(s2.read_buffer@ =~= s0.read_buffer@ + a + b);
}

/// The outcome of a read by the codec.
pub enum StreamRead {
    /// Some bytes.
    Data(Vec<u8>),
    /// Nothing buffered yet: try again later.
    WouldBlock,
    /// Nothing buffered and the stream is closed.
    Eof,
}

impl EnvoyStream {
    pub fn new() -> (res: Self)
        ensures
            res.read_buffer@.len() == 0,
            res.total_read == 0,
            res.write_buffer@.len() == 0,
            !res.closed,
    {
        EnvoyStream { read_buffer: Vec::new(), total_read: 0, write_buffer: Vec::new(), closed: false }
    }

    /// During the handshake, takes the bytes of Envoy's read buffer not taken
    /// yet, leaving the buffer in place (it is handed on when the connection
    /// is no WebSocket).
    pub fn read_from_buffered(&mut self, chunks: &Vec<Vec<u8>>)
        requires
            old(self).total_read <= flat(chunks@).len() <= usize::MAX,
        ensures
            took_new_bytes(*old(self), *final(self), flat(chunks@)),
            final(self).write_buffer@ == old(self).write_buffer@,
            final(self).closed == old(self).closed,
    {
        let ghost all = flat(chunks@);
        let ghost start = self.read_buffer@;
        let skip = self.total_read;
        let mut pos: usize = 0;
        let mut i: usize = 0;
        while i < chunks.len()
            invariant
                all == flat(chunks@),
                start == old(self).read_buffer@,
                skip == old(self).total_read,
                skip <= all.len() <= usize::MAX,
                i <= chunks@.len(),
                pos == flat(chunks@.take(i as int)).len(),
                self.read_buffer@ == start + all.subrange(
                    if skip < pos { skip as int } else { pos as int },
                    pos as int,
                ),
                self.total_read == old(self).total_read,
                self.write_buffer@ == old(self).write_buffer@,
                self.closed == old(self).closed,
            decreases chunks@.len() - i,
        {
            proof {
                lemma_flat_take_succ(chunks@, i as int);
                lemma_flat_prefix(chunks@, i + 1);
            }
            let mut j: usize = 0;
            while j < chunks[i].len()
                invariant
                    all == flat(chunks@),
                    start == old(self).read_buffer@,
                    skip <= all.len() <= usize::MAX,
                    i < chunks@.len(),
                    j <= chunks@[i as int]@.len(),
                    pos == flat(chunks@.take(i as int)).len() + j,
                    pos <= all.len(),
                    self.read_buffer@ == start + all.subrange(
                        if skip < pos { skip as int } else { pos as int },
                        pos as int,
                    ),
                    self.total_read == old(self).total_read,
                    self.write_buffer@ == old(self).write_buffer@,
                    self.closed == old(self).closed,
                decreases chunks@[i as int]@.len() - j,
            {
                proof {
                    lemma_flat_index(chunks@, i as int, j as int);
                }
                if pos >= skip {
                    let ghost before = self.read_buffer@;
                    self.read_buffer.push(chunks[i][j]);
                    proof {
                        assert(all.subrange(skip as int, pos + 1) =~= all.subrange(
                            skip as int,
                            pos as int,
                        ).push(all[pos as int]));
                        assert(self.read_buffer@ =~= start + all.subrange(skip as int, pos + 1));
                    }
                } else {
                    proof {
                        assert(all.subrange(pos + 1, pos + 1) =~= Seq::<u8>::empty());
                        assert(all.subrange(pos as int, pos as int) =~= Seq::<u8>::empty());
                    }
                }
                pos = pos + 1;
                j = j + 1;
            }
            i = i + 1;
        }
        proof {
            assert(chunks@.take(i as int) =~= chunks@);
            assert(all.subrange(skip as int, all.len() as int) =~= all.skip(skip as int));
        }
        self.total_read = pos;
    }

    /// After the handshake, takes all of Envoy's read buffer; returns how many
    /// bytes to drain from it.
    pub fn read_from(&mut self, chunks: &Vec<Vec<u8>>) -> (drain: usize)
        requires
            old(self).total_read + flat(chunks@).len() <= usize::MAX,
        ensures
            final(self).read_buffer@ == old(self).read_buffer@ + flat(chunks@),
            final(self).total_read == old(self).total_read + flat(chunks@).len(),
            drain == flat(chunks@).len(),
            final(self).write_buffer@ == old(self).write_buffer@,
            final(self).closed == old(self).closed,
    {
        let read = crate::body::extend_from_chunks(chunks, &mut self.read_buffer);
        self.total_read = self.total_read + read;
        read
    }

    /// Adds bytes read by other means.
    pub fn put(&mut self, data: &[u8])
        requires
            old(self).total_read + data@.len() <= usize::MAX,
        ensures
            final(self).read_buffer@ == old(self).read_buffer@ + data@,
            final(self).total_read == old(self).total_read + data@.len(),
            final(self).write_buffer@ == old(self).write_buffer@,
            final(self).closed == old(self).closed,
    {
        append_bytes(&mut self.read_buffer, data);
        self.total_read = self.total_read + data.len();
    }

    /// Takes the bytes to write to Envoy, if any.
    pub fn write_to(&mut self) -> (res: Option<Vec<u8>>)
        ensures
            old(self).write_buffer@.len() == 0 ==> res is None,
            old(self).write_buffer@.len() > 0 ==> (res matches Some(b) && b@ == old(self).write_buffer@),
            final(self).write_buffer@.len() == 0,
            final(self).read_buffer@ == old(self).read_buffer@,
            final(self).total_read == old(self).total_read,
            final(self).closed == old(self).closed,
    {
        if self.write_buffer.len() == 0 {
            return None;
        }
        let mut out: Vec<u8> = Vec::new();
        std::mem::swap(&mut out, &mut self.write_buffer);
        Some(out)
    }

    /// A read of up to `n` bytes by the codec.
    pub fn read(&mut self, n: usize) -> (res: StreamRead)
        ensures
            final(self).total_read == old(self).total_read,
            final(self).write_buffer@ == old(self).write_buffer@,
            final(self).closed == old(self).closed,
            old(self).read_buffer@.len() == 0 ==> final(self).read_buffer@.len() == 0 && (if old(
                self,
            ).closed {
                res is Eof
            } else {
                res is WouldBlock
            }),
            old(self).read_buffer@.len() > 0 ==> ({
                let k = if n < old(self).read_buffer@.len() {
                    n as int
                } else {
                    old(self).read_buffer@.len() as int
                };
                &&& res matches StreamRead::Data(d) && d@ == old(self).read_buffer@.take(k)
                &&& final(self).read_buffer@ == old(self).read_buffer@.skip(k)
            }),
    {
        if self.read_buffer.len() == 0 {
            if self.closed {
                return StreamRead::Eof;
            } else {
                return StreamRead::WouldBlock;
            }
        }
        let k = if n < self.read_buffer.len() {
            n
        } else {
            self.read_buffer.len()
        };
        let ghost buf = self.read_buffer@;
        let mut head: Vec<u8> = Vec::new();
        let mut rest: Vec<u8> = Vec::new();
        let mut i: usize = 0;
        while i < self.read_buffer.len()
            invariant
                buf == self.read_buffer@,
                k <= buf.len(),
                i <= buf.len(),
                head@ == buf.take(if i < k { i as int } else { k as int }),
                rest@ == (if i <= k { Seq::empty() } else { buf.subrange(k as int, i as int) }),
            decreases buf.len() - i,
        {
            if i < k {
                head.push(self.read_buffer[i]);
                proof {
                    assert(buf.take(i + 1) =~= buf.take(i as int).push(buf[i as int]));
                }
            } else {
                rest.push(self.read_buffer[i]);
                proof {
                    assert(buf.subrange(k as int, i + 1) =~= buf.subrange(k as int, i as int).push(
                        buf[i as int],
                    ));
                    assert(buf.subrange(k as int, k as int) =~= Seq::<u8>::empty());
                }
            }
            i = i + 1;
        }
        proof {
            assert(buf.subrange(k as int, buf.len() as int) =~= buf.skip(k as int));
            if k == buf.len() {
                assert(buf.skip(k as int) =~= Seq::<u8>::empty());
            }
        }
        self.read_buffer = rest;
        StreamRead::Data(head)
    }

    /// A write by the codec: refused once the stream is closed.
    pub fn write(&mut self, data: &[u8]) -> (res: Option<usize>)
        ensures
            old(self).closed ==> res is None && final(self).write_buffer@ == old(self).write_buffer@,
            !old(self).closed ==> res == Some(data@.len() as usize) && final(self).write_buffer@
                == old(self).write_buffer@ + data@,
            final(self).read_buffer@ == old(self).read_buffer@,
            final(self).total_read == old(self).total_read,
            final(self).closed == old(self).closed,
    {
        if self.closed {
            return None;
        }
        append_bytes(&mut self.write_buffer, data);
        Some(data.len())
    }
}

/// The states of the WebSocket `send` callable.
#[derive(Clone, Copy, PartialEq, Eq, Structural, Debug)]
pub enum WsSendState {
    Started,
    Accepted,
    Closed,
}

/// A message for the client.
pub enum WsBody {
    Bytes(Vec<u8>),
    Text(String),
}

/// What the application side hands to the filter. `F` is the handle of a
/// pending send notification.
pub enum WsSendEvent<F> {
    Accept { subprotocol: Option<Vec<u8>>, headers: Vec<Header>, future: F },
    SendMessage { body: WsBody, future: F },
    Close { code: u16, reason: String },
    Exception,
    Abort,
}

/// Why a message was refused.
#[derive(PartialEq, Eq, Structural, Debug)]
pub enum WsSendError {
    /// The connection is closed.
    Disconnected,
    AlreadyAccepted,
    InvalidHeaderName,
    InvalidHeaderValue,
}

/// The WebSocket `send` callable of one connection.
pub struct WsSendCallable {
    pub state: WsSendState,
}

/// The close code when the application gives none.
pub const NORMAL_CLOSURE: u16 = 1000;

impl WsSendCallable {
    pub fn new() -> (res: Self)
        ensures
            res.state == WsSendState::Started,
    {
        WsSendCallable { state: WsSendState::Started }
    }

    /// `websocket.accept`: accepted once, with the given headers validated.
    pub fn accept(&mut self, raw_headers: &Vec<Header>) -> (res: Result<Vec<Header>, WsSendError>)
        ensures
            old(self).state == WsSendState::Closed ==> res == Err::<Vec<Header>, WsSendError>(
                WsSendError::Disconnected,
            ) && final(self).state == old(self).state,
            old(self).state == WsSendState::Accepted ==> res == Err::<Vec<Header>, WsSendError>(
                WsSendError::AlreadyAccepted,
            ) && final(self).state == old(self).state,
            old(self).state == WsSendState::Started ==> match validated_headers(
                headers_view(raw_headers@),
            ) {
                Err(HeaderError::InvalidName) => res == Err::<Vec<Header>, WsSendError>(
                    WsSendError::InvalidHeaderName,
                ) && final(self).state == old(self).state,
                Err(HeaderError::InvalidValue) => res == Err::<Vec<Header>, WsSendError>(
                    WsSendError::InvalidHeaderValue,
                ) && final(self).state == old(self).state,
                Ok(hs) => res matches Ok(h) && headers_view(h@) == hs && final(self).state
                    == WsSendState::Accepted,
            },
    {
        match self.state {
            WsSendState::Closed => Err(WsSendError::Disconnected),
            WsSendState::Accepted => Err(WsSendError::AlreadyAccepted),
            WsSendState::Started => {
                match extract_headers(raw_headers) {
                    Ok(h) => {
                        self.state = WsSendState::Accepted;
                        Ok(h)
                    },
                    Err(HeaderError::InvalidName) => Err(WsSendError::InvalidHeaderName),
                    Err(HeaderError::InvalidValue) => Err(WsSendError::InvalidHeaderValue),
                }
            },
        }
    }

    /// `websocket.send`: allowed until the connection is closed.
    pub fn send_message(&self) -> (res: Result<(), WsSendError>)
        ensures
            res is Ok <==> self.state != WsSendState::Closed,
    {
        if self.state == WsSendState::Closed {
            Err(WsSendError::Disconnected)
        } else {
            Ok(())
        }
    }

    /// `websocket.close`: closes the callable; the code defaults to 1000.
    pub fn close(&mut self, code: Option<u16>) -> (res: Result<u16, WsSendError>)
        ensures
            final(self).state == WsSendState::Closed,
            old(self).state == WsSendState::Closed ==> res == Err::<u16, WsSendError>(
                WsSendError::Disconnected,
            ),
            old(self).state != WsSendState::Closed ==> res == Ok::<u16, WsSendError>(
                match code {
                    Some(c) => c,
                    None => NORMAL_CLOSURE,
                },
            ),
    {
        if self.state == WsSendState::Closed {
            return Err(WsSendError::Disconnected);
        }
        self.state = WsSendState::Closed;
        match code {
            Some(c) => Ok(c),
            None => Ok(NORMAL_CLOSURE),
        }
    }
}

/// Where a WebSocket connection stands when bytes arrive from the client.
#[derive(Clone, Copy, PartialEq, Eq, Structural, Debug)]
pub enum WsPhase {
    /// The upgrade request is still being read.
    StartHandshake,
    /// The upgrade request was read whole and the application decides on it.
    FinishHandshake,
    /// The application accepted and the connection carries frames.
    Accepted,
    /// The connection is no WebSocket and passes through untouched.
    NotWebSocket,
    /// The connection is over.
    Done,
}

/// What one round of reading the upgrade request gave.
#[derive(Clone, Copy, PartialEq, Eq, Structural, Debug)]
pub enum HandshakeRound {
    /// More bytes are needed.
    WouldBlock,
    /// The round made progress and reading goes on.
    Incomplete,
    /// The request was read whole: `upgrade` when it asks for a WebSocket
    /// upgrade, `tail_empty` when no bytes followed it.
    Request { upgrade: bool, tail_empty: bool },
    /// Reading ended otherwise: the request is not a `GET`, or a stage
    /// other than reading finished.
    NotHandled,
}

/// What the filter does with bytes from the client.
#[derive(Clone, Copy, PartialEq, Eq, Structural, Debug)]
pub enum ReadAction {
    /// Let the bytes through to the next filter.
    PassThrough,
    /// Decode frames from the accepted connection.
    ReadFrames,
    /// Close the connection at once: bytes came before the handshake was
    /// answered.
    AbortUnexpectedBody,
    /// Keep the bytes and wait for more.
    Hold,
    /// Read a round of the upgrade request.
    ReadHandshake,
    /// Run the application on the upgrade request.
    StartApp,
}

/// The filter's action on bytes from the client in each phase.
pub open spec fn spec_read_action(phase: WsPhase) -> ReadAction {
    match phase {
        WsPhase::StartHandshake => ReadAction::ReadHandshake,
        WsPhase::FinishHandshake => ReadAction::AbortUnexpectedBody,
        WsPhase::Accepted => ReadAction::ReadFrames,
        WsPhase::NotWebSocket => ReadAction::PassThrough,
        WsPhase::Done => ReadAction::Hold,
    }
}

/// The next phase and action after a round of reading the upgrade request.
/// A request without an upgrade, and one the handshake does not handle,
/// pass through as no WebSocket; bytes after the upgrade request end the
/// connection.
pub open spec fn spec_handshake_step(round: HandshakeRound) -> (WsPhase, ReadAction) {
    match round {
        HandshakeRound::WouldBlock => (WsPhase::StartHandshake, ReadAction::Hold),
        HandshakeRound::Incomplete => (WsPhase::StartHandshake, ReadAction::ReadHandshake),
        HandshakeRound::Request { upgrade, tail_empty } => if !upgrade {
            (WsPhase::NotWebSocket, ReadAction::PassThrough)
        } else if !tail_empty {
            (WsPhase::NotWebSocket, ReadAction::AbortUnexpectedBody)
        } else {
            (WsPhase::FinishHandshake, ReadAction::StartApp)
        },
        HandshakeRound::NotHandled => (WsPhase::NotWebSocket, ReadAction::PassThrough),
    }
}

/// What the filter does with bytes from the client in `phase`.
pub fn read_action(phase: WsPhase) -> (res: ReadAction)
    ensures
        res == spec_read_action(phase),
{
    match phase {
        WsPhase::StartHandshake => ReadAction::ReadHandshake,
        WsPhase::FinishHandshake => ReadAction::AbortUnexpectedBody,
        WsPhase::Accepted => ReadAction::ReadFrames,
        WsPhase::NotWebSocket => ReadAction::PassThrough,
        WsPhase::Done => ReadAction::Hold,
    }
}

/// The next phase and action after a round of reading the upgrade request.
pub fn handshake_step(round: HandshakeRound) -> (res: (WsPhase, ReadAction))
    ensures
        res == spec_handshake_step(round),
{
    match round {
        HandshakeRound::WouldBlock => (WsPhase::StartHandshake, ReadAction::Hold),
        HandshakeRound::Incomplete => (WsPhase::StartHandshake, ReadAction::ReadHandshake),
        HandshakeRound::Request { upgrade, tail_empty } => if !upgrade {
            (WsPhase::NotWebSocket, ReadAction::PassThrough)
        } else if !tail_empty {
            (WsPhase::NotWebSocket, ReadAction::AbortUnexpectedBody)
        } else {
            (WsPhase::FinishHandshake, ReadAction::StartApp)
        },
        HandshakeRound::NotHandled => (WsPhase::NotWebSocket, ReadAction::PassThrough),
    }
}

/// The application is started only on a whole upgrade request with nothing
/// after it; the step that starts it leaves the handshake phase, which is the
/// only phase in which rounds of the upgrade request are read.
pub proof fn law_app_starts_on_whole_upgrade(round: HandshakeRound, phase: WsPhase)
    ensures
        spec_handshake_step(round).1 == ReadAction::StartApp <==> round == (HandshakeRound::Request {
            upgrade: true,
            tail_empty: true,
        }),
        spec_handshake_step(round).1 == ReadAction::StartApp ==> spec_handshake_step(round).0
            == WsPhase::FinishHandshake,
        spec_read_action(phase) == ReadAction::ReadHandshake <==> phase == WsPhase::StartHandshake,
        spec_read_action(phase) != ReadAction::StartApp,
{
}

/// The codec errors that end a connection.
#[derive(Clone, Copy, PartialEq, Eq, Structural, Debug)]
pub enum CodecError {
    Protocol,
    Utf8,
    Capacity,
    Other,
}

/// The close code sent for a codec error.
pub open spec fn spec_error_close_code(e: CodecError) -> u16 {
    match e {
        CodecError::Protocol => 1002,
        CodecError::Utf8 => 1007,
        CodecError::Capacity => 1009,
        CodecError::Other => 1011,
    }
}

pub fn error_close_code(e: CodecError) -> (code: u16)
    ensures
        code == spec_error_close_code(e),
{
    match e {
        CodecError::Protocol => 1002,
        CodecError::Utf8 => 1007,
        CodecError::Capacity => 1009,
        CodecError::Other => 1011,
    }
}

/// The close code reported when the client closed without a code, or when a
/// pending `receive` was dropped.
pub const NO_STATUS_RECEIVED: u16 = 1005;

/// The close code sent when the application failed.
pub const INTERNAL_ERROR: u16 = 1011;

/// What the filter writes before the handshake completes.
pub enum HandshakeReply {
    /// The application closed before accepting: `403 Forbidden`, then the
    /// close is remembered with its code and reason.
    Forbidden { close_code: u16, close_reason: String },
    /// The application failed before accepting: `500` with a plain body;
    /// the close is remembered with code 1011.
    Error { headers: Vec<Header>, body: Vec<u8>, close_code: u16 },
    /// The application accepted: `101 Switching Protocols` with the
    /// subprotocol (when a valid header value) and the given headers added.
    Accept { headers: Vec<Header> },
    /// The application aborted: the connection is closed.
    Abort,
}

pub open spec fn protocol_header_name() -> Seq<u8> {
    ascii(
        seq![
            's', 'e', 'c', '-', 'w', 'e', 'b', 's', 'o', 'c', 'k', 'e', 't', '-', 'p', 'r', 'o', 't',
            'o', 'c', 'o', 'l'
        ],
    )
}

/// The reply before the handshake for the application's first event.
pub fn handshake_reply<F>(event: WsSendEvent<F>) -> (res: HandshakeReply)
    requires
        !(event is SendMessage),
    ensures
        match event {
            WsSendEvent::Close { code, reason } => res == HandshakeReply::Forbidden {
                close_code: code,
                close_reason: reason,
            },
            WsSendEvent::Exception => res matches HandshakeReply::Error { headers, body, close_code }
                && close_code == 1011 && body@ == ascii(
                seq!['I', 'n', 't', 'e', 'r', 'n', 'a', 'l', ' ', 'S', 'e', 'r', 'v', 'e', 'r', ' ', 'E', 'r', 'r', 'o', 'r'],
            ) && headers_view(headers@) == seq![
                (
                    ascii(seq!['c', 'o', 'n', 't', 'e', 'n', 't', '-', 'l', 'e', 'n', 'g', 't', 'h']),
                    ascii(seq!['2', '1']),
                ),
            ],
            WsSendEvent::Accept { subprotocol, headers, .. } => res matches HandshakeReply::Accept {
                headers: out,
            } && headers_view(out@) == match subprotocol {
                Some(p) => if valid_header_value(p@) {
                    seq![(protocol_header_name(), p@)] + headers_view(headers@)
                } else {
                    headers_view(headers@)
                },
                None => headers_view(headers@),
            },
            WsSendEvent::Abort => res is Abort,
            WsSendEvent::SendMessage { .. } => false,
        },
{
    proof {
        reveal_strlit("Internal Server Error");
        reveal_strlit("content-length");
        reveal_strlit("21");
        reveal_strlit("sec-websocket-protocol");
    }
    match event {
        WsSendEvent::Close { code, reason } => HandshakeReply::Forbidden { close_code: code, close_reason: reason },
        WsSendEvent::Exception => {
            let mut headers: Vec<Header> = Vec::new();
            headers.push((ascii_vec("content-length"), ascii_vec("21")));
            proof {
                assert(headers_view(headers@)[0] == (headers@[0].0@, headers@[0].1@));
                assert(headers_view(headers@) =~~= seq![
                    (
                        ascii(seq!['c', 'o', 'n', 't', 'e', 'n', 't', '-', 'l', 'e', 'n', 'g', 't', 'h']),
                        ascii(seq!['2', '1']),
                    ),
                ]);
            }
            HandshakeReply::Error { headers, body: ascii_vec("Internal Server Error"), close_code: 1011 }
        },
        WsSendEvent::Accept { subprotocol, headers, .. } => {
            let mut out: Vec<Header> = Vec::new();
            let mut added = false;
            match subprotocol {
                Some(p) => {
                    match header_value_from_bytes(p.as_slice()) {
                        Some(v) => {
                            let name = ascii_vec("sec-websocket-protocol");
                            out.push((name, v));
                            added = true;
                        },
                        None => {},
                    }
                },
                None => {},
            }
            let ghost lead = headers_view(out@);
            let mut i: usize = 0;
            while i < headers.len()
                invariant
                    i <= headers@.len(),
                    headers_view(out@) == lead + headers_view(headers@).take(i as int),
                decreases headers@.len() - i,
            {
                let ghost prev = headers_view(out@);
                out.push((to_vec(headers[i].0.as_slice()), to_vec(headers[i].1.as_slice())));
                proof {
                    assert(headers_view(headers@).take(i + 1) =~= headers_view(headers@).take(
                        i as int,
                    ).push((headers@[i as int].0@, headers@[i as int].1@)));
                    assert(headers_view(out@) =~= prev.push(
                        (headers@[i as int].0@, headers@[i as int].1@),
                    ));
                }
                i = i + 1;
            }
            proof {
                assert(headers_view(headers@).take(i as int) =~= headers_view(headers@));
                if added {
                    assert(lead =~~= seq![(protocol_header_name(), subprotocol->0@)]);
                } else {
                    assert(lead =~= Seq::<(Seq<u8>, Seq<u8>)>::empty());
                    assert(headers_view(out@) =~= headers_view(headers@));
                }
            }
            HandshakeReply::Accept { headers: out }
        },
        WsSendEvent::Abort => HandshakeReply::Abort,
        WsSendEvent::SendMessage { .. } => HandshakeReply::Abort,
    }
}

/// What the filter does with an event once the connection is accepted.
pub enum AcceptedAction<F> {
    /// Sends the message and completes the send notification.
    Send { body: WsBody, future: F },
    /// Starts the closing handshake with the code, remembering it.
    Close { code: u16, reason: String },
    /// Closes the connection.
    CloseConnection,
    /// Nothing (the connection is closing).
    Ignore,
}

/// The action for an event on an accepted connection, given whether a close
/// was already started: messages are dropped once closing, a failure closes
/// with 1011, an abort closes the connection unless closing.
pub fn accepted_action<F>(event: WsSendEvent<F>, closing: bool) -> (res: AcceptedAction<F>)
    requires
        !(event is Accept),
    ensures
        match event {
            WsSendEvent::SendMessage { body, future } => if closing {
                res is Ignore
            } else {
                res == AcceptedAction::Send { body, future }
            },
            WsSendEvent::Close { code, reason } => res == AcceptedAction::<F>::Close { code, reason },
            WsSendEvent::Exception => res matches AcceptedAction::Close { code, reason } && code == 1011
                && reason@.len() == 0,
            WsSendEvent::Abort => if closing {
                res is Ignore
            } else {
                res is CloseConnection
            },
            WsSendEvent::Accept { .. } => false,
        },
{
    match event {
        WsSendEvent::SendMessage { body, future } => {
            if closing {
                AcceptedAction::Ignore
            } else {
                AcceptedAction::Send { body, future }
            }
        },
        WsSendEvent::Close { code, reason } => AcceptedAction::Close { code, reason },
        WsSendEvent::Exception => AcceptedAction::Close { code: INTERNAL_ERROR, reason: String::new() },
        WsSendEvent::Abort => {
            if closing {
                AcceptedAction::Ignore
            } else {
                AcceptedAction::CloseConnection
            }
        },
        WsSendEvent::Accept { .. } => AcceptedAction::Ignore,
    }
}

/// The scope scheme of a WebSocket connection.
pub open spec fn spec_ws_scheme(is_ssl: bool) -> Seq<u8> {
    if is_ssl {
        ascii(seq!['w', 's', 's'])
    } else {
        ascii(seq!['w', 's'])
    }
}

pub fn ws_scheme(is_ssl: bool) -> (res: Vec<u8>)
    ensures
        res@ == spec_ws_scheme(is_ssl),
{
    proof {
        reveal_strlit("wss");
        reveal_strlit("ws");
    }
    if is_ssl {
        ascii_vec("wss")
    } else {
        ascii_vec("ws")
    }
}

/// What the WebSocket filter reads of an upgrade request and its
/// connection.
pub struct WsRequest {
    pub http_version: HttpVersion,
    pub method: Vec<u8>,
    /// The path and query of the request target, empty when it has none.
    pub raw_path: Vec<u8>,
    pub headers: Vec<Header>,
    /// The client's address and port as Envoy reports them.
    pub remote_address: (String, u32),
    /// The server's address and port as Envoy reports them.
    pub local_address: (String, u32),
    pub is_ssl: bool,
    /// The subject of the client certificate, if one was presented.
    pub ssl_subject: Option<Vec<u8>>,
}

/// A scope address as bytes: the host without any port suffix, and the
/// port; none for an empty host.
pub open spec fn spec_scope_address(address: (String, u32)) -> Option<(Seq<u8>, i64)> {
    if address.0@.len() == 0 {
        None
    } else {
        Some((encode_utf8(strip_port(address.0@)), address.1 as i64))
    }
}

pub open spec fn address_view(a: Option<(Vec<u8>, i64)>) -> Option<(Seq<u8>, i64)> {
    match a {
        Some((h, p)) => Some((h@, p)),
        None => None,
    }
}

fn scope_address(address: (String, u32)) -> (res: Option<(Vec<u8>, i64)>)
    ensures
        address_view(res) == spec_scope_address(address),
{
    match address_to_scope(address) {
        Some((host, port)) => Some((to_vec(host.as_str().as_bytes()), port)),
        None => None,
    }
}

/// The scope of a WebSocket connection: the request's version, method,
/// target and headers, the `ws` or `wss` scheme, the client and server
/// addresses, and with TLS the client certificate's subject (decoded with
/// replacement characters); the TLS version is not known here and reads 0.
pub fn websocket_scope(req: WsRequest) -> (res: Scope)
    ensures
        res.http_version == req.http_version,
        res.method@ == req.method@,
        res.scheme@ == spec_ws_scheme(req.is_ssl),
        res.raw_path@ == req.raw_path@,
        res.headers@ == req.headers@,
        address_view(res.client) == spec_scope_address(req.remote_address),
        address_view(res.server) == spec_scope_address(req.local_address),
        !req.is_ssl ==> res.tls_info is None,
        req.is_ssl ==> (res.tls_info matches Some(t) && t.tls_version == 0 && match req.ssl_subject {
            None => t.client_cert_name is None,
            Some(s) => t.client_cert_name matches Some(n) && n@ == utf8_lossy(s@),
        }),
{
    let WsRequest {
        http_version,
        method,
        raw_path,
        headers,
        remote_address,
        local_address,
        is_ssl,
        ssl_subject,
    } = req;
    let tls_info = if is_ssl {
        let client_cert_name = match ssl_subject {
            Some(s) => Some(from_utf8_lossy(s.as_slice())),
            None => None,
        };
        Some(TlsInfo { tls_version: 0, client_cert_name })
    } else {
        None
    };
    Scope {
        http_version,
        method,
        scheme: ws_scheme(is_ssl),
        raw_path,
        headers,
        client: scope_address(remote_address),
        server: scope_address(local_address),
        tls_info,
    }
}

/// Whether a byte is ASCII whitespace as `str::trim` removes it here.
pub open spec fn is_space(b: u8) -> bool {
    b == 32 || b == 9 || b == 10 || b == 11 || b == 12 || b == 13
}

/// Whether a header value is visible ASCII (or tab) throughout, as
/// `HeaderValue::to_str` requires.
pub open spec fn visible_ascii(s: Seq<u8>) -> bool {
    forall|i: int| 0 <= i < s.len() ==> ((32 <= #[trigger] s[i] && s[i] < 127) || s[i] == 9)
}

/// How many whitespace bytes `s` starts with.
pub open spec fn lead_spaces(s: Seq<u8>) -> int
    decreases s.len(),
{
    if s.len() > 0 && is_space(s[0]) {
        1 + lead_spaces(s.drop_first())
    } else {
        0
    }
}

/// How many whitespace bytes `s` ends with.
pub open spec fn trail_spaces(s: Seq<u8>) -> int
    decreases s.len(),
{
    if s.len() > 0 && is_space(s.last()) {
        1 + trail_spaces(s.drop_last())
    } else {
        0
    }
}

/// A piece of a comma-separated list without its surrounding whitespace.
pub open spec fn trimmed(s: Seq<u8>) -> Seq<u8> {
    let t = s.skip(lead_spaces(s));
    t.take(t.len() - trail_spaces(t))
}

proof fn lemma_lead_spaces(s: Seq<u8>, a: int)
    requires
        0 <= a <= s.len(),
        forall|k: int| 0 <= k < a ==> is_space(#[trigger] s[k]),
        a < s.len() ==> !is_space(s[a]),
    ensures
        lead_spaces(s) == a,
    decreases s.len(),
{
    if a > 0 {
        assert forall|k: int| 0 <= k < a - 1 implies is_space(#[trigger] s.drop_first()[k]) by {
            assert(s.drop_first()[k] == s[k + 1]);
        }
        if a < s.len() {
            assert(s.drop_first()[a - 1] == s[a]);
        }
        assert(is_space(s[0]));
        lemma_lead_spaces(s.drop_first(), a - 1);
    }
}

proof fn lemma_trail_spaces(t: Seq<u8>, b: int)
    requires
        0 <= b <= t.len(),
        forall|k: int| b <= k < t.len() ==> is_space(#[trigger] t[k]),
        b > 0 ==> !is_space(t[b - 1]),
    ensures
        trail_spaces(t) == t.len() - b,
    decreases t.len(),
{
    if b < t.len() {
        assert forall|k: int| b <= k < t.drop_last().len() implies is_space(#[trigger] t.drop_last()[k]) by {
            assert(t.drop_last()[k] == t[k]);
        }
        if b > 0 {
            assert(t.drop_last()[b - 1] == t[b - 1]);
        }
        assert(is_space(t[t.len() - 1]));
        lemma_trail_spaces(t.drop_last(), b);
    }
}

/// The bytes of `s` between `from` and `to`, without surrounding whitespace.
fn trim_range(s: &[u8], from: usize, to: usize) -> (res: Vec<u8>)
    requires
        from <= to <= s@.len(),
    ensures
        res@ == trimmed(s@.subrange(from as int, to as int)),
{
    let ghost piece = s@.subrange(from as int, to as int);
    let mut a: usize = from;
    while a < to && (s[a] == 32u8 || s[a] == 9u8 || s[a] == 10u8 || s[a] == 11u8 || s[a] == 12u8
        || s[a] == 13u8)
        invariant
            from <= a <= to,
            to <= s@.len(),
            piece == s@.subrange(from as int, to as int),
            forall|k: int| 0 <= k < a - from ==> is_space(#[trigger] piece[k]),
        decreases to - a,
    {
        a = a + 1;
    }
    proof {
        lemma_lead_spaces(piece, a - from);
    }
    let ghost t = piece.skip(a - from);
    let mut b: usize = to;
    while b > a && (s[b - 1] == 32u8 || s[b - 1] == 9u8 || s[b - 1] == 10u8 || s[b - 1] == 11u8
        || s[b - 1] == 12u8 || s[b - 1] == 13u8)
        invariant
            from <= a <= b <= to,
            to <= s@.len(),
            piece == s@.subrange(from as int, to as int),
            t == piece.skip(a - from),
            forall|k: int| b - a <= k < t.len() ==> is_space(#[trigger] t[k]),
        decreases b - a,
    {
        b = b - 1;
    }
    proof {
        lemma_trail_spaces(t, b - a);
    }
    let mut out: Vec<u8> = Vec::new();
    let mut i: usize = a;
    while i < b
        invariant
            a <= i <= b,
            b <= s@.len(),
            out@ == s@.subrange(a as int, i as int),
        decreases b - i,
    {
        out.push(s[i]);
        proof {
            assert(s@.subrange(a as int, i + 1) =~= s@.subrange(a as int, i as int).push(s@[i as int]));
        }
        i = i + 1;
    }
    proof {
        assert(out@ =~= t.take(t.len() - trail_spaces(t)));
    }
    out
}

/// The subprotocols offered in one header value: its comma-separated pieces,
/// trimmed, the empty ones dropped.
pub open spec fn offered_in(v: Seq<u8>) -> Seq<Seq<u8>>
    decreases v.len(),
{
    let i = crate::text::first_index_of(v, 44u8);
    let piece = trimmed(v.take(i));
    let rest = if 0 <= i < v.len() {
        proof {
            crate::text::lemma_first_index_of(v, 44u8);
        }
        offered_in(v.skip(i + 1))
    } else {
        Seq::empty()
    };
    if piece.len() > 0 {
        seq![piece] + rest
    } else {
        rest
    }
}

proof fn lemma_first_comma(s: Seq<u8>, i: int)
    requires
        0 <= i <= s.len(),
        forall|k: int| 0 <= k < i ==> s[k] != 44u8,
        i < s.len() ==> s[i] == 44u8,
    ensures
        crate::text::first_index_of(s, 44u8) == i,
    decreases s.len(),
{
    if s.len() > 0 && s[0] != 44u8 {
        assert forall|k: int| 0 <= k < i - 1 implies s.drop_first()[k] != 44u8 by {
            assert(s.drop_first()[k] == s[k + 1]);
        }
        if i < s.len() {
            assert(s.drop_first()[i - 1] == s[i]);
        }
        lemma_first_comma(s.drop_first(), i - 1);
    }
}

/// The subprotocols offered in one header value (see `offered_in`).
pub fn offered_subprotocols(v: &[u8], out: &mut Vec<Vec<u8>>)
    ensures
        out_view(final(out)@) == out_view(old(out)@) + offered_in(v@),
{
    let mut pos: usize = 0;
    let mut done = false;
    proof {
        assert(v@.skip(0) =~= v@);
        assert(out_view(old(out)@) =~= out_view(old(out)@) + Seq::<Seq<u8>>::empty());
    }
    while !done
        invariant
            pos <= v@.len(),
            done ==> out_view(out@) == out_view(old(out)@) + offered_in(v@),
            !done ==> out_view(old(out)@) + offered_in(v@) == out_view(out@) + offered_in(
                v@.skip(pos as int),
            ),
        decreases v@.len() - pos + (if done { 0int } else { 1int }),
    {
        let ghost rest = v@.skip(pos as int);
        let mut end: usize = pos;
        while end < v.len() && v[end] != 44u8
            invariant
                pos <= end <= v@.len(),
                forall|k: int| pos <= k < end ==> v@[k] != 44u8,
            decreases v@.len() - end,
        {
            end = end + 1;
        }
        proof {
            assert forall|k: int| 0 <= k < end - pos implies rest[k] != 44u8 by {
                assert(rest[k] == v@[pos + k]);
            }
            if end < v@.len() {
                assert(rest[end - pos] == v@[end as int]);
            }
            lemma_first_comma(rest, end - pos);
            assert(rest.take(end - pos) =~= v@.subrange(pos as int, end as int));
        }
        let piece = trim_range(v, pos, end);
        let ghost prev = out_view(out@);
        if piece.len() > 0 {
            out.push(piece);
            proof {
                assert(out_view(out@) =~= prev.push(piece@));
            }
        }
        if end < v.len() {
            proof {
                assert(rest.skip(end - pos + 1) =~= v@.skip(end + 1));
                assert(out_view(old(out)@) + offered_in(v@) =~= out_view(out@) + offered_in(
                    v@.skip(end + 1),
                ));
            }
            pos = end + 1;
        } else {
            proof {
                assert(out_view(old(out)@) + offered_in(v@) =~= out_view(out@));
            }
            pos = end;
            done = true;
        }
    }
}

/// The byte strings of a list.
pub open spec fn out_view(v: Seq<Vec<u8>>) -> Seq<Seq<u8>> {
    v.map_values(|x: Vec<u8>| x@)
}

/// The subprotocols offered by the client across its
/// `sec-websocket-protocol` header values, in order; values that are not
/// visible ASCII are skipped.
pub open spec fn offered_all(values: Seq<Seq<u8>>) -> Seq<Seq<u8>>
    decreases values.len(),
{
    if values.len() == 0 {
        Seq::empty()
    } else {
        let rest = offered_all(values.drop_last());
        if visible_ascii(values.last()) {
            rest + offered_in(values.last())
        } else {
            rest
        }
    }
}

/// Parses the subprotocols the client offers (see `offered_all`).
pub fn parse_subprotocols(values: &Vec<Vec<u8>>) -> (res: Vec<Vec<u8>>)
    ensures
        out_view(res@) == offered_all(out_view(values@)),
{
    let ghost vv = out_view(values@);
    let mut out: Vec<Vec<u8>> = Vec::new();
    proof {
        assert(vv.take(0) =~= Seq::<Seq<u8>>::empty());
        assert(out_view(out@) =~= Seq::<Seq<u8>>::empty());
    }
    let mut i: usize = 0;
    while i < values.len()
        invariant
            i <= values@.len(),
            vv == out_view(values@),
            out_view(out@) == offered_all(vv.take(i as int)),
        decreases values@.len() - i,
    {
        proof {
            assert(vv.take(i + 1).drop_last() =~= vv.take(i as int));
            assert(vv.take(i + 1).last() == values@[i as int]@);
        }
        let v = values[i].as_slice();
        let mut visible = true;
        let mut k: usize = 0;
        while k < v.len()
            invariant
                k <= v@.len(),
                visible == (forall|j: int| 0 <= j < k ==> ((32 <= #[trigger] v@[j] && v@[j] < 127) || v@[j] == 9)),
            decreases v@.len() - k,
        {
            if !((32u8 <= v[k] && v[k] < 127u8) || v[k] == 9u8) {
                visible = false;
            }
            k = k + 1;
        }
        if visible {
            offered_subprotocols(v, &mut out);
        }
        i = i + 1;
    }
    proof {
        assert(vv.take(i as int) =~= vv);
    }
    out
}

} // verus!
