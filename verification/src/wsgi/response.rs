//! The WSGI response: `start_response`, the body chunks, and what the filter
//! writes to Envoy for them.
use crate::eventbridge::{queued, EventBridge};
use crate::headers::{digit, extract_headers, headers_view, validated_headers, Header, HeaderError};
use crate::response::{status_headers, with_status, ResponseAction};
use crate::text::first_index_of;
use vstd::prelude::*;

verus! {

/// The event id that wakes the filter to write response events.
pub const EVENT_ID_RESPONSE: u64 = 2;

/// The event id that wakes the filter after an application failure.
pub const EVENT_ID_EXCEPTION: u64 = 3;

/// The status and headers given to `start_response`.
pub struct ResponseStartEvent {
    pub status: u16,
    pub headers: Vec<Header>,
}

/// A chunk of the response body; `more_body` is false on the last one.
pub struct ResponseBodyEvent {
    pub body: Vec<u8>,
    pub more_body: bool,
}

/// What the application side hands to the filter.
pub enum ResponseEvent {
    /// The headers and the first chunk of the body.
    Start(ResponseStartEvent, ResponseBodyEvent),
    /// A further chunk of the body.
    Body(ResponseBodyEvent),
    /// The trailers, with the headers when they were not sent yet.
    Trailers(Option<ResponseStartEvent>, Vec<Header>),
    /// The application failed.
    Exception,
}

/// What the application does through `start_response`, `write` and the
/// response iterable.
pub enum ResponseSenderEvent {
    /// `start_response` was called.
    Start(ResponseStartEvent),
    /// A body chunk was produced; the first one sends the headers with it.
    Body(ResponseBodyEvent),
    /// The application failed.
    Exception,
}

/// Misuses of the WSGI protocol by the application.
#[derive(PartialEq, Eq, Structural, Debug)]
pub enum SendError {
    /// `start_response` was called with `exc_info` after the headers were
    /// sent: the given exception is raised again.
    ReraiseExcInfo,
    /// `start_response` was called again without `exc_info` (PEP 3333 makes
    /// that an error whether or not the headers were sent).
    StartedTwice,
    /// A body chunk came before `start_response`.
    NotStarted,
}

/// The response state of one WSGI request on the application side.
pub struct ResponseSender {
    /// The start from `start_response`, until the first body chunk sends it.
    pub start_event: Option<ResponseStartEvent>,
    /// Whether the headers were handed to the filter.
    pub headers_sent: bool,
}

impl ResponseSender {
    /// A sender before `start_response`.
    pub fn new() -> (res: Self)
        ensures
            res.start_event is None,
            !res.headers_sent,
    {
        ResponseSender { start_event: None, headers_sent: false }
    }

    /// Handles an application event (`has_exc_info` tells whether
    /// `start_response` got `exc_info`). A start is kept until the first body
    /// chunk, which is handed to the filter together with it; a later chunk
    /// is handed on alone. Returns the event id to wake the filter with, when
    /// the filter still listens.
    pub fn send(
        &mut self,
        bridge: &mut EventBridge<ResponseEvent>,
        event: ResponseSenderEvent,
        has_exc_info: bool,
    ) -> (res: Result<Option<u64>, SendError>)
        ensures
            old(self).headers_sent ==> final(self).headers_sent,
            match event {
                ResponseSenderEvent::Start(s) => {
                    if has_exc_info && old(self).headers_sent {
                        &&& res == Err::<Option<u64>, SendError>(SendError::ReraiseExcInfo)
                        &&& final(self).start_event == old(self).start_event
                        &&& final(bridge).view() == old(bridge).view()
                    } else if !has_exc_info && (old(self).start_event is Some || old(self).headers_sent) {
                        &&& res == Err::<Option<u64>, SendError>(SendError::StartedTwice)
                        &&& final(self).start_event == old(self).start_event
                        &&& final(bridge).view() == old(bridge).view()
                    } else {
                        &&& res == Ok::<Option<u64>, SendError>(None)
                        &&& final(self).start_event == Some(s)
                        &&& final(self).headers_sent == old(self).headers_sent
                        &&& final(bridge).view() == old(bridge).view()
                    }
                },
                ResponseSenderEvent::Body(b) => match old(self).start_event {
                    Some(s) => {
                        &&& final(self).start_event is None
                        &&& final(self).headers_sent
                        &&& queued(old(bridge).view(), final(bridge).view(), ResponseEvent::Start(s, b))
                        &&& res == Ok::<Option<u64>, SendError>(
                            if old(bridge).view() is Some { Some(EVENT_ID_RESPONSE) } else { None },
                        )
                    },
                    None => if !old(self).headers_sent {
                        &&& res == Err::<Option<u64>, SendError>(SendError::NotStarted)
                        &&& final(self).start_event is None
                        &&& final(bridge).view() == old(bridge).view()
                    } else {
                        &&& final(self).start_event is None
                        &&& queued(old(bridge).view(), final(bridge).view(), ResponseEvent::Body(b))
                        &&& res == Ok::<Option<u64>, SendError>(
                            if old(bridge).view() is Some { Some(EVENT_ID_RESPONSE) } else { None },
                        )
                    },
                },
                ResponseSenderEvent::Exception => {
                    &&& final(self).start_event == old(self).start_event
                    &&& final(self).headers_sent == old(self).headers_sent
                    &&& queued(old(bridge).view(), final(bridge).view(), ResponseEvent::Exception)
                    &&& res == Ok::<Option<u64>, SendError>(
                        if old(bridge).view() is Some { Some(EVENT_ID_EXCEPTION) } else { None },
                    )
                },
            },
    {
        match event {
            ResponseSenderEvent::Start(start) => {
                if has_exc_info {
                    if self.headers_sent {
                        return Err(SendError::ReraiseExcInfo);
                    }
                } else if self.start_event.is_some() || self.headers_sent {
                    return Err(SendError::StartedTwice);
                }
                self.start_event = Some(start);
                Ok(None)
            },
            ResponseSenderEvent::Body(body) => {
                let mut pending: Option<ResponseStartEvent> = None;
                std::mem::swap(&mut pending, &mut self.start_event);
                match pending {
                    Some(start) => {
                        self.headers_sent = true;
                        match bridge.send(ResponseEvent::Start(start, body)) {
                            Ok(()) => Ok(Some(EVENT_ID_RESPONSE)),
                            Err(_) => Ok(None),
                        }
                    },
                    None => {
                        if !self.headers_sent {
                            return Err(SendError::NotStarted);
                        }
                        match bridge.send(ResponseEvent::Body(body)) {
                            Ok(()) => Ok(Some(EVENT_ID_RESPONSE)),
                            Err(_) => Ok(None),
                        }
                    },
                }
            },
            ResponseSenderEvent::Exception => {
                match bridge.send(ResponseEvent::Exception) {
                    Ok(()) => Ok(Some(EVENT_ID_EXCEPTION)),
                    Err(_) => Ok(None),
                }
            },
        }
    }
}

/// The status code at the start of a status line: the text before the first
/// space (all of it when there is none), read as a `u16` the way Rust parses
/// one: an optional `+`, then one or more decimal digits.
pub open spec fn status_text(line: Seq<u8>) -> Seq<u8> {
    line.take(first_index_of(line, 32u8))
}

/// The value of a string of decimal digits.
pub open spec fn digits_value(s: Seq<u8>) -> int
    decreases s.len(),
{
    if s.len() == 0 {
        0
    } else {
        digits_value(s.drop_last()) * 10 + digit(s.last())
    }
}

pub open spec fn all_digits(s: Seq<u8>) -> bool {
    forall|i: int| 0 <= i < s.len() ==> 48 <= #[trigger] s[i] <= 57
}

/// The `u16` written by `s`: an optional `+` and one or more digits whose
/// value fits.
pub open spec fn parsed_u16(s: Seq<u8>) -> Option<u16> {
    let d = if s.len() > 0 && s[0] == 43 {
        s.drop_first()
    } else {
        s
    };
    if d.len() > 0 && all_digits(d) && digits_value(d) <= 65535 {
        Some(digits_value(d) as u16)
    } else {
        None
    }
}

pub proof fn lemma_digits_value_nonneg(s: Seq<u8>)
    requires
        all_digits(s),
    ensures
        digits_value(s) >= 0,
    decreases s.len(),
{
    if s.len() > 0 {
        assert(all_digits(s.drop_last())) by {
            assert forall|i: int| 0 <= i < s.drop_last().len() implies 48 <= #[trigger] s.drop_last()[i] <= 57 by {
                assert(s.drop_last()[i] == s[i]);
            }
        }
        lemma_digits_value_nonneg(s.drop_last());
        assert(48 <= s[s.len() - 1] <= 57);
    }
}

pub proof fn lemma_digits_value_grows(s: Seq<u8>, i: int)
    requires
        0 <= i <= s.len(),
        all_digits(s),
    ensures
        digits_value(s.take(i)) <= digits_value(s),
    decreases s.len() - i,
{
    if i < s.len() {
        lemma_digits_value_grows(s, i + 1);
        assert(s.take(i + 1).drop_last() =~= s.take(i));
        assert(all_digits(s.take(i))) by {
            assert forall|k: int| 0 <= k < s.take(i).len() implies 48 <= #[trigger] s.take(i)[k] <= 57 by {
                assert(s.take(i)[k] == s[k]);
            }
        }
        lemma_digits_value_nonneg(s.take(i));
        assert(48 <= s[i] <= 57);
        assert(s.take(i + 1).last() == s[i]);
    } else {
        assert(s.take(i) =~= s);
    }
}

/// Reads the status code of a WSGI status line such as `200 OK`.
pub fn parse_status_line(line: &[u8]) -> (res: Option<u16>)
    ensures
        res == parsed_u16(status_text(line@)),
{
    let end = crate::text::find_byte(line, 32u8);
    proof {
        crate::text::lemma_first_index_of(line@, 32u8);
    }
    let ghost text = status_text(line@);
    let mut start: usize = 0;
    if end > 0 && line[0] == 43u8 {
        start = 1;
    }
    let ghost d = if text.len() > 0 && text[0] == 43 {
        text.drop_first()
    } else {
        text
    };
    proof {
        assert(d =~= line@.subrange(start as int, end as int));
    }
    if start == end {
        return None;
    }
    let mut value: u32 = 0;
    let mut i: usize = start;
    while i < end
        invariant
            start <= i <= end,
            end <= line@.len(),
            d == line@.subrange(start as int, end as int),
            text == status_text(line@),
            d == (if text.len() > 0 && text[0] == 43 {
                text.drop_first()
            } else {
                text
            }),
            all_digits(d.take(i - start)),
            value == digits_value(d.take(i - start)),
            value <= 65535,
        decreases end - i,
    {
        let b = line[i];
        if b < 48u8 || b > 57u8 {
            proof {
                assert(d[i - start] == b);
                assert(!all_digits(d));
            }
            return None;
        }
        proof {
            assert(d.take(i - start + 1).drop_last() =~= d.take(i - start));
            assert(d.take(i - start + 1).last() == b);
            assert(all_digits(d.take(i - start + 1)));
        }
        let next = value * 10 + (b - 48u8) as u32;
        if next > 65535 {
            proof {
                if all_digits(d) {
                    lemma_digits_value_grows(d, i - start + 1);
                    assert(digits_value(d) > 65535);
                }
            }
            return None;
        }
        value = next;
        i = i + 1;
    }
    proof {
        assert(d.take(i - start) =~= d);
    }
    Some(value as u16)
}

/// How the response iterable's chunks are handed on, by its length when
/// known: none sends an empty last chunk, one sends it as the last chunk, any
/// other number sends each chunk (waiting for it to be written) and then an
/// empty last chunk.
#[derive(PartialEq, Eq, Structural, Debug)]
pub enum BodyPlan {
    EmptyLast,
    SingleLast,
    Streamed,
}

pub fn body_plan(len: Option<usize>) -> (res: BodyPlan)
    ensures
        res == match len {
            Some(0) => BodyPlan::EmptyLast,
            Some(1) => BodyPlan::SingleLast,
            _ => BodyPlan::Streamed,
        },
{
    match len {
        Some(0) => BodyPlan::EmptyLast,
        Some(1) => BodyPlan::SingleLast,
        _ => BodyPlan::Streamed,
    }
}

/// The filter's side of writing a WSGI response.
pub struct ResponseWriter {
    /// Whether the response was ended by the error reply or the stream
    /// completed.
    pub response_closed: bool,
}

/// What the filter does for the headers and first body chunk: headers alone
/// when the response is an empty last chunk, otherwise headers then data.
/// A chunk with more to come also tells the application it was written.
pub open spec fn start_actions_ok(
    start: ResponseStartEvent,
    body: ResponseBodyEvent,
    res: Seq<ResponseAction<()>>,
) -> bool {
    let hs = with_status(start.status, headers_view(start.headers@));
    let end = !body.more_body;
    let k = if end { 0int } else { 1int };
    &&& !end ==> res[0] is NotifyWritten
    &&& if end && body.body@.len() == 0 {
        &&& res.len() == k + 1
        &&& res[k] matches ResponseAction::SendHeaders { headers, end_stream } && headers_view(
            headers@,
        ) == hs && end_stream
    } else {
        &&& res.len() == k + 2
        &&& res[k] matches ResponseAction::SendHeaders { headers, end_stream } && headers_view(
            headers@,
        ) == hs && !end_stream
        &&& res[k + 1] matches ResponseAction::SendData { body: data, end_stream } && data@
            == body.body@ && end_stream == end
    }
}

/// Whether an action ends the response stream.
pub open spec fn ends_stream(a: ResponseAction<()>) -> bool {
    match a {
        ResponseAction::SendHeaders { end_stream, .. } => end_stream,
        ResponseAction::SendData { end_stream, .. } => end_stream,
        ResponseAction::SendTrailers { .. } => true,
        _ => false,
    }
}

/// The headers and first chunk of a response end the stream exactly when
/// the chunk is the last: then the final action written ends it, and no
/// earlier one does; a chunk with more to come ends nothing. Every byte of
/// the chunk is written, after the headers.
pub proof fn law_last_chunk_ends_stream(
    start: ResponseStartEvent,
    body: ResponseBodyEvent,
    res: Seq<ResponseAction<()>>,
)
    requires
        start_actions_ok(start, body, res),
    ensures
        res.len() > 0,
        !body.more_body ==> ends_stream(res.last()),
        forall|i: int| 0 <= i < res.len() - 1 ==> !ends_stream(#[trigger] res[i]),
        body.more_body ==> forall|i: int| 0 <= i < res.len() ==> !ends_stream(#[trigger] res[i]),
        body.body@.len() > 0 ==> (res.last() matches ResponseAction::SendData { body: data, .. }
            && data@ == body.body@),
{
}

impl ResponseWriter {
    /// Writes one response event: see `start_actions_ok` for the start; a
    /// chunk is sent as data (ending the stream when it is the last), after
    /// telling the application when more is to come; trailers are sent after
    /// the headers when those were not sent yet; a failure sends the error
    /// reply once, and closes the response. Only the last action written can
    /// end the stream, and it does for the last chunk and for trailers.
    pub fn process_send_event(&mut self, event: ResponseEvent) -> (res: Vec<ResponseAction<()>>)
        ensures
            match event {
                ResponseEvent::Start(s, b) => start_actions_ok(s, b, res@) && *final(self)
                    == *old(self),
                ResponseEvent::Body(b) => {
                    let k = if b.more_body { 1int } else { 0int };
                    &&& *final(self) == *old(self)
                    &&& res@.len() == k + 1
                    &&& b.more_body ==> res@[0] is NotifyWritten
                    &&& res@[k] matches ResponseAction::SendData { body, end_stream } && body@
                        == b.body@ && end_stream == !b.more_body
                },
                ResponseEvent::Trailers(start, trailers) => {
                    let k = if start is Some { 1int } else { 0int };
                    &&& *final(self) == *old(self)
                    &&& res@.len() == k + 1
                    &&& start matches Some(s) ==> (res@[0] matches ResponseAction::SendHeaders {
                        headers,
                        end_stream,
                    } && headers_view(headers@) == with_status(s.status, headers_view(s.headers@))
                        && !end_stream)
                    &&& res@[k] matches ResponseAction::SendTrailers { trailers: t } && headers_view(
                        t@,
                    ) == headers_view(trailers@)
                },
                ResponseEvent::Exception => {
                    &&& final(self).response_closed
                    &&& if old(self).response_closed {
                        res@.len() == 0
                    } else {
                        res@.len() == 1 && res@[0] is SendErrorReply
                    }
                },
            },
            (match event {
                ResponseEvent::Start(_, b) => res@.len() > 0 && (ends_stream(res@.last())
                    <==> !b.more_body),
                ResponseEvent::Body(b) => res@.len() > 0 && (ends_stream(res@.last()) <==> !b.more_body),
                ResponseEvent::Trailers(_, _) => res@.len() > 0 && ends_stream(res@.last()),
                ResponseEvent::Exception => true,
            }),
            forall|i: int| 0 <= i < res@.len() - 1 ==> !ends_stream(#[trigger] res@[i]),
    {
        let mut actions: Vec<ResponseAction<()>> = Vec::new();
        match event {
            ResponseEvent::Start(start, body) => {
                let headers = status_headers(start.status, &start.headers);
                let end_stream = !body.more_body;
                if !end_stream {
                    actions.push(ResponseAction::NotifyWritten);
                }
                if end_stream && body.body.len() == 0 {
                    actions.push(ResponseAction::SendHeaders { headers, end_stream: true });
                } else {
                    actions.push(ResponseAction::SendHeaders { headers, end_stream: false });
                    actions.push(ResponseAction::SendData { body: body.body, end_stream });
                }
            },
            ResponseEvent::Body(body) => {
                let end_stream = !body.more_body;
                if !end_stream {
                    actions.push(ResponseAction::NotifyWritten);
                }
                actions.push(ResponseAction::SendData { body: body.body, end_stream });
            },
            ResponseEvent::Trailers(start, trailers) => {
                match start {
                    Some(s) => {
                        let headers = status_headers(s.status, &s.headers);
                        actions.push(ResponseAction::SendHeaders { headers, end_stream: false });
                    },
                    None => {},
                }
                actions.push(ResponseAction::SendTrailers { trailers });
            },
            ResponseEvent::Exception => {
                if !self.response_closed {
                    self.response_closed = true;
                    actions.push(ResponseAction::SendErrorReply);
                }
            },
        }
        actions
    }

    /// The stream completed: nothing more is written.
    pub fn on_stream_complete(&mut self)
        ensures
            final(self).response_closed,
    {
        self.response_closed = true;
    }
}

/// Validates the headers given to `start_response` and reads its status
/// line, in that order.
pub fn start_response(status_line: &[u8], headers: &Vec<Header>) -> (res: Result<
    ResponseStartEvent,
    StartResponseError,
>)
    ensures
        match validated_headers(headers_view(headers@)) {
            Err(HeaderError::InvalidName) => res == Err::<ResponseStartEvent, StartResponseError>(
                StartResponseError::InvalidHeaderName,
            ),
            Err(HeaderError::InvalidValue) => res == Err::<ResponseStartEvent, StartResponseError>(
                StartResponseError::InvalidHeaderValue,
            ),
            Ok(hs) => match parsed_u16(status_text(status_line@)) {
                None => res == Err::<ResponseStartEvent, StartResponseError>(
                    StartResponseError::InvalidStatus,
                ),
                Some(code) => res matches Ok(s) && s.status == code && headers_view(s.headers@)
                    == hs,
            },
        },
{
    let hs = match extract_headers(headers) {
        Ok(hs) => hs,
        Err(HeaderError::InvalidName) => {
            return Err(StartResponseError::InvalidHeaderName);
        },
        Err(HeaderError::InvalidValue) => {
            return Err(StartResponseError::InvalidHeaderValue);
        },
    };
    match parse_status_line(status_line) {
        Some(status) => Ok(ResponseStartEvent { status, headers: hs }),
        None => Err(StartResponseError::InvalidStatus),
    }
}

/// Why `start_response` rejected its arguments.
#[derive(PartialEq, Eq, Structural, Debug)]
pub enum StartResponseError {
    InvalidHeaderName,
    InvalidHeaderValue,
    InvalidStatus,
}

} // verus!
