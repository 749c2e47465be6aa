//! The ASGI `send` callable: the order of response messages an application
//! may send, and what the filter writes to Envoy for them.
use crate::eventbridge::{pending_or_nothing, queued, EventBridge};
use crate::headers::{extract_headers, headers_view, validated_headers, Header, HeaderError};
use crate::response::{clone_headers, status_headers, with_status, ResponseAction};
use crate::text::{ascii, ascii_vec, bytes_eq};
use vstd::prelude::*;

verus! {

/// The event id that wakes the filter to write response events.
pub const EVENT_ID_RESPONSE: u64 = 2;

/// The response message the application must send next.
#[derive(PartialEq, Eq, Structural, Debug)]
pub enum NextAsgiEvent {
    Start,
    Body { trailers: bool },
    Trailers,
    Done,
}

/// The kinds of response messages.
#[derive(PartialEq, Eq, Structural, Clone, Copy, Debug)]
pub enum MessageKind {
    ResponseStart,
    ResponseBody,
    ResponseTrailers,
}

/// `http.response.start`
pub open spec fn start_type() -> Seq<u8> {
    ascii(
        seq![
            'h', 't', 't', 'p', '.', 'r', 'e', 's', 'p', 'o', 'n', 's', 'e', '.', 's', 't', 'a', 'r',
            't'
        ],
    )
}

/// `http.response.body`
pub open spec fn body_type() -> Seq<u8> {
    ascii(
        seq!['h', 't', 't', 'p', '.', 'r', 'e', 's', 'p', 'o', 'n', 's', 'e', '.', 'b', 'o', 'd', 'y'],
    )
}

/// `http.response.trailers`
pub open spec fn trailers_type() -> Seq<u8> {
    ascii(
        seq![
            'h', 't', 't', 'p', '.', 'r', 'e', 's', 'p', 'o', 'n', 's', 'e', '.', 't', 'r', 'a', 'i',
            'l', 'e', 'r', 's'
        ],
    )
}

/// The response start the filter writes.
pub struct AsgiResponseStart {
    pub status: u16,
    pub headers: Vec<Header>,
    /// Whether trailers follow the body (asked for, and accepted by the client).
    pub trailers: bool,
}

/// A body chunk; `future` is the write notification of a chunk with more
/// body to come, absent on the last chunk.
pub struct AsgiBody<F> {
    pub body: Vec<u8>,
    pub future: Option<F>,
}

/// Trailers, possibly followed by more.
pub struct AsgiTrailers {
    pub headers: Vec<Header>,
    pub more_trailers: bool,
}

/// What the application side hands to the filter.
pub enum SendEvent<F> {
    Start(AsgiResponseStart, AsgiBody<F>),
    Body(AsgiBody<F>),
    Trailers(AsgiTrailers),
    Exception,
}

/// Why a message was refused.
#[derive(PartialEq, Eq, Structural, Debug)]
pub enum AsgiSendError {
    /// The client is gone.
    Disconnected,
    /// The message is not the one expected next.
    UnexpectedType { expected: MessageKind },
    /// The response was already complete.
    AfterCompletion,
    InvalidHeaderName,
    InvalidHeaderValue,
    /// The status is not between 100 and 999.
    InvalidStatus { status: u16 },
}

/// Checks a status code with `http::StatusCode::from_u16`, which accepts
/// 100 to 999.
#[verifier::external_body]
pub(crate) fn status_from_u16(status: u16) -> (ok: bool)
    ensures
        ok == (100 <= status <= 999),
{
    http::StatusCode::from_u16(status).is_ok()
}

/// The state of the `send` callable of one request.
pub struct SendState {
    pub next_event: NextAsgiEvent,
    /// The start, held until the first body chunk.
    pub response_start: Option<AsgiResponseStart>,
    /// Whether the client accepts trailers (`te: trailers`).
    pub trailers_accepted: bool,
    /// Whether the filter stopped listening.
    pub closed: bool,
}

/// The outcome of checking a message type against the expected one.
pub open spec fn type_check(s: SendState, typ: Seq<u8>) -> Result<(), AsgiSendError> {
    if s.closed {
        Err(AsgiSendError::Disconnected)
    } else {
        match s.next_event {
            NextAsgiEvent::Start => if typ == start_type() {
                Ok(())
            } else {
                Err(AsgiSendError::UnexpectedType { expected: MessageKind::ResponseStart })
            },
            NextAsgiEvent::Body { .. } => if typ == body_type() {
                Ok(())
            } else {
                Err(AsgiSendError::UnexpectedType { expected: MessageKind::ResponseBody })
            },
            NextAsgiEvent::Trailers => if typ == trailers_type() {
                Ok(())
            } else {
                Err(AsgiSendError::UnexpectedType { expected: MessageKind::ResponseTrailers })
            },
            NextAsgiEvent::Done => Err(AsgiSendError::AfterCompletion),
        }
    }
}

/// What a body chunk hands to the filter: with the held start when there
/// is one, alone otherwise.
pub open spec fn body_queued<F>(
    start: Option<AsgiResponseStart>,
    before: Option<Seq<SendEvent<F>>>,
    after: Option<Seq<SendEvent<F>>>,
    b: AsgiBody<F>,
) -> bool {
    match start {
        Some(s) => queued(before, after, SendEvent::Start(s, b)),
        None => queued(before, after, SendEvent::Body(b)),
    }
}

/// While the client does not accept trailers, a trailers message leaves
/// the filter's queue as it was.
pub open spec fn trailers_ignored<F>(
    accepted: bool,
    before: Option<Seq<SendEvent<F>>>,
    after: Option<Seq<SendEvent<F>>>,
) -> bool {
    !accepted ==> after == before
}

/// The events handed to the filter for body chunks `bs` after the start
/// `s`: the start with the first chunk, then each later chunk alone.
pub open spec fn chunk_events<F>(s: AsgiResponseStart, bs: Seq<AsgiBody<F>>) -> Seq<SendEvent<F>>
    decreases bs.len(),
{
    if bs.len() == 0 {
        Seq::empty()
    } else if bs.len() == 1 {
        seq![SendEvent::Start(s, bs[0])]
    } else {
        chunk_events(s, bs.drop_last()).push(SendEvent::Body(bs.last()))
    }
}

/// Messages are taken in protocol order: while the filter listens, the
/// message accepted is exactly the one that comes next, `http.response.start`
/// first, then `http.response.body`, then `http.response.trailers`; any other
/// type is refused naming the expected message, and after the response
/// nothing is accepted. No message type is accepted in two phases.
pub proof fn law_message_order(s: SendState, typ: Seq<u8>)
    requires
        !s.closed,
    ensures
        s.next_event is Start ==> (type_check(s, typ) is Ok <==> typ == ascii(
            seq![
                'h', 't', 't', 'p', '.', 'r', 'e', 's', 'p', 'o', 'n', 's', 'e', '.', 's', 't',
                'a', 'r', 't'
            ],
        )),
        s.next_event is Body ==> (type_check(s, typ) is Ok <==> typ == ascii(
            seq!['h', 't', 't', 'p', '.', 'r', 'e', 's', 'p', 'o', 'n', 's', 'e', '.', 'b', 'o', 'd', 'y'],
        )),
        s.next_event is Trailers ==> (type_check(s, typ) is Ok <==> typ == ascii(
            seq![
                'h', 't', 't', 'p', '.', 'r', 'e', 's', 'p', 'o', 'n', 's', 'e', '.', 't', 'r',
                'a', 'i', 'l', 'e', 'r', 's'
            ],
        )),
        s.next_event is Start && type_check(s, typ) is Err ==> type_check(s, typ) == Err::<
            (),
            AsgiSendError,
        >(AsgiSendError::UnexpectedType { expected: MessageKind::ResponseStart }),
        s.next_event is Body && type_check(s, typ) is Err ==> type_check(s, typ) == Err::<
            (),
            AsgiSendError,
        >(AsgiSendError::UnexpectedType { expected: MessageKind::ResponseBody }),
        s.next_event is Trailers && type_check(s, typ) is Err ==> type_check(s, typ) == Err::<
            (),
            AsgiSendError,
        >(AsgiSendError::UnexpectedType { expected: MessageKind::ResponseTrailers }),
        s.next_event is Done ==> type_check(s, typ) == Err::<(), AsgiSendError>(
            AsgiSendError::AfterCompletion,
        ),
        forall|t: SendState|
            #![trigger type_check(t, typ)]
            !t.closed && type_check(s, typ) is Ok && type_check(t, typ) is Ok ==> (s.next_event is Start
                <==> t.next_event is Start) && (s.next_event is Body <==> t.next_event is Body)
                && (s.next_event is Trailers <==> t.next_event is Trailers),
{
    assert(start_type().len() == 19);
    assert(body_type().len() == 18);
    assert(trailers_type().len() == 22);
}

/// The start is held until the first body chunk: over body chunks
/// `bs[0]`, ..., `bs[k - 1]` sent to a listening filter, the first goes
/// out together with the start and every later one alone, in order.
pub proof fn law_start_held_until_first_chunk<F>(
    s: AsgiResponseStart,
    starts: Seq<Option<AsgiResponseStart>>,
    views: Seq<Option<Seq<SendEvent<F>>>>,
    bs: Seq<AsgiBody<F>>,
)
    requires
        starts.len() == bs.len() + 1,
        views.len() == bs.len() + 1,
        starts[0] == Some(s),
        views[0] is Some,
        forall|i: int| 1 <= i <= bs.len() ==> #[trigger] starts[i] is None,
        forall|i: int|
            0 <= i < bs.len() ==> #[trigger] body_queued(starts[i], views[i], views[i + 1], bs[i]),
    ensures
        views[bs.len() as int] is Some,
        pending_or_nothing(views[bs.len() as int]) == pending_or_nothing(views[0]) + chunk_events(s, bs),
    decreases bs.len(),
{
    if bs.len() == 0 {
        assert(pending_or_nothing(views[0]) + chunk_events(s, bs) =~= pending_or_nothing(views[0]));
    } else {
        let k = bs.len() - 1;
        let st2 = starts.take(k + 1);
        let vs = views.take(k + 1);
        let b2 = bs.take(k);
        assert forall|i: int| 1 <= i <= b2.len() implies #[trigger] st2[i] is None by {
            assert(starts[i] is None);
        }
        assert forall|i: int| 0 <= i < b2.len() implies #[trigger] body_queued(st2[i], vs[i], vs[i + 1], b2[i]) by {
            assert(body_queued(starts[i], views[i], views[i + 1], bs[i]));
        }
        law_start_held_until_first_chunk(s, st2, vs, b2);
        assert(body_queued(starts[k], views[k], views[k + 1], bs[k]));
        assert(bs.drop_last() =~= b2);
        if k == 0 {
            assert(pending_or_nothing(views[1]) =~= pending_or_nothing(views[0]) + chunk_events(s, bs));
        } else {
            assert(starts[k] is None);
            assert(pending_or_nothing(views[k + 1]) =~= pending_or_nothing(views[0]) + chunk_events(s, bs));
        }
    }
}

/// Trailers reach the filter only when the client accepts them: the start
/// handed on announces trailers only when they were both asked for and
/// accepted, and while they are not accepted, any number of trailers
/// messages leave the filter's queue as it was.
pub proof fn law_trailers_need_acceptance<F>(
    s: AsgiResponseStart,
    asked: bool,
    accepted: bool,
    views: Seq<Option<Seq<SendEvent<F>>>>,
)
    requires
        s.trailers == (asked && accepted),
        !accepted,
        views.len() > 0,
        forall|i: int| 0 <= i < views.len() - 1 ==> #[trigger] trailers_ignored(accepted, views[i], views[i + 1]),
    ensures
        !s.trailers,
        views[views.len() - 1] == views[0],
    decreases views.len(),
{
    if views.len() > 1 {
        let vs = views.drop_last();
        assert forall|i: int| 0 <= i < vs.len() - 1 implies #[trigger] trailers_ignored(accepted, vs[i], vs[i + 1]) by {
            assert(trailers_ignored(accepted, views[i], views[i + 1]));
        }
        law_trailers_need_acceptance(s, asked, accepted, vs);
        let j = views.len() - 2;
        assert(trailers_ignored(accepted, views[j], views[j + 1]));
    }
}

impl SendState {
    /// A `send` callable before the response start.
    pub fn new(trailers_accepted: bool) -> (res: Self)
        ensures
            res.next_event == NextAsgiEvent::Start,
            res.response_start is None,
            res.trailers_accepted == trailers_accepted,
            !res.closed,
    {
        SendState { next_event: NextAsgiEvent::Start, response_start: None, trailers_accepted, closed: false }
    }

    /// Checks the type of a message before it is read.
    pub fn check_message(&self, typ: &[u8]) -> (res: Result<(), AsgiSendError>)
        ensures
            res == type_check(*self, typ@),
    {
        proof {
            reveal_strlit("http.response.start");
            reveal_strlit("http.response.body");
            reveal_strlit("http.response.trailers");
        }
        if self.closed {
            return Err(AsgiSendError::Disconnected);
        }
        let start = ascii_vec("http.response.start");
        let body = ascii_vec("http.response.body");
        let trailers = ascii_vec("http.response.trailers");
        assert(start@ == start_type());
        assert(body@ == body_type());
        assert(trailers@ == trailers_type());
        match self.next_event {
            NextAsgiEvent::Start => {
                if bytes_eq(typ, start.as_slice()) {
                    Ok(())
                } else {
                    Err(AsgiSendError::UnexpectedType { expected: MessageKind::ResponseStart })
                }
            },
            NextAsgiEvent::Body { .. } => {
                if bytes_eq(typ, body.as_slice()) {
                    Ok(())
                } else {
                    Err(AsgiSendError::UnexpectedType { expected: MessageKind::ResponseBody })
                }
            },
            NextAsgiEvent::Trailers => {
                if bytes_eq(typ, trailers.as_slice()) {
                    Ok(())
                } else {
                    Err(AsgiSendError::UnexpectedType { expected: MessageKind::ResponseTrailers })
                }
            },
            NextAsgiEvent::Done => Err(AsgiSendError::AfterCompletion),
        }
    }

    /// Takes `http.response.start`: its headers are validated, then its
    /// status; the start is held for the first body chunk, with trailers only
    /// when the client accepts them.
    pub fn start(&mut self, status: u16, raw_headers: &Vec<Header>, trailers: bool) -> (res: Result<
        (),
        AsgiSendError,
    >)
        requires
            old(self).next_event == NextAsgiEvent::Start,
            !old(self).closed,
        ensures
            final(self).trailers_accepted == old(self).trailers_accepted,
            !final(self).closed,
            match validated_headers(headers_view(raw_headers@)) {
                Err(HeaderError::InvalidName) => res == Err::<(), AsgiSendError>(
                    AsgiSendError::InvalidHeaderName,
                ) && final(self).next_event == old(self).next_event,
                Err(HeaderError::InvalidValue) => res == Err::<(), AsgiSendError>(
                    AsgiSendError::InvalidHeaderValue,
                ) && final(self).next_event == old(self).next_event,
                Ok(hs) => if 100 <= status <= 999 {
                    &&& res is Ok
                    &&& final(self).next_event == NextAsgiEvent::Body { trailers }
                    &&& final(self).response_start matches Some(s) && s.status == status
                        && headers_view(s.headers@) == hs && s.trailers == (trailers
                        && old(self).trailers_accepted)
                } else {
                    res == Err::<(), AsgiSendError>(AsgiSendError::InvalidStatus { status })
                        && final(self).next_event == old(self).next_event
                },
            },
    {
        let headers = match extract_headers(raw_headers) {
            Ok(h) => h,
            Err(HeaderError::InvalidName) => {
                return Err(AsgiSendError::InvalidHeaderName);
            },
            Err(HeaderError::InvalidValue) => {
                return Err(AsgiSendError::InvalidHeaderValue);
            },
        };
        if !status_from_u16(status) {
            return Err(AsgiSendError::InvalidStatus { status });
        }
        self.next_event = NextAsgiEvent::Body { trailers };
        self.response_start = Some(
            AsgiResponseStart { status, headers, trailers: trailers && self.trailers_accepted },
        );
        Ok(())
    }

    /// Takes `http.response.body`; `future` is present exactly when more
    /// body follows. The first chunk goes to the filter with the start.
    /// Returns the event id to wake the filter with; a closed filter closes
    /// the callable.
    pub fn body<F>(&mut self, bridge: &mut EventBridge<SendEvent<F>>, body: Vec<u8>, future: Option<
        F,
    >) -> (res: Option<u64>)
        requires
            old(self).next_event is Body,
            !old(self).closed,
        ensures
            final(self).trailers_accepted == old(self).trailers_accepted,
            final(self).next_event == (if future is Some {
                old(self).next_event
            } else if old(self).next_event == (NextAsgiEvent::Body { trailers: true }) {
                NextAsgiEvent::Trailers
            } else {
                NextAsgiEvent::Done
            }),
            final(self).response_start is None,
            body_queued(
                old(self).response_start,
                old(bridge).view(),
                final(bridge).view(),
                AsgiBody { body, future },
            ),
            final(self).closed == (old(bridge).view() is None),
            res == (if old(bridge).view() is Some {
                Some(EVENT_ID_RESPONSE)
            } else {
                None
            }),
            match old(self).response_start {
                Some(s) => queued(
                    old(bridge).view(),
                    final(bridge).view(),
                    SendEvent::Start(s, AsgiBody { body, future }),
                ),
                None => queued(
                    old(bridge).view(),
                    final(bridge).view(),
                    SendEvent::Body(AsgiBody { body, future }),
                ),
            },
    {
        if future.is_none() {
            self.next_event = match self.next_event {
                NextAsgiEvent::Body { trailers: true } => NextAsgiEvent::Trailers,
                _ => NextAsgiEvent::Done,
            };
        }
        let event = AsgiBody { body, future };
        let mut pending: Option<AsgiResponseStart> = None;
        std::mem::swap(&mut pending, &mut self.response_start);
        let sent = match pending {
            Some(start) => bridge.send(SendEvent::Start(start, event)),
            None => bridge.send(SendEvent::Body(event)),
        };
        match sent {
            Ok(()) => Some(EVENT_ID_RESPONSE),
            Err(_) => {
                self.closed = true;
                None
            },
        }
    }

    /// Takes `http.response.trailers`. Trailers are handed on (validated)
    /// only when the client accepts them; the last ones complete the
    /// response.
    pub fn trailers<F>(
        &mut self,
        bridge: &mut EventBridge<SendEvent<F>>,
        raw_headers: &Vec<Header>,
        more_trailers: bool,
    ) -> (res: Result<Option<u64>, AsgiSendError>)
        requires
            old(self).next_event == NextAsgiEvent::Trailers,
            !old(self).closed,
        ensures
            final(self).next_event == (if more_trailers {
                NextAsgiEvent::Trailers
            } else {
                NextAsgiEvent::Done
            }),
            final(self).trailers_accepted == old(self).trailers_accepted,
            trailers_ignored(old(self).trailers_accepted, old(bridge).view(), final(bridge).view()),
            !old(self).trailers_accepted ==> res == Ok::<Option<u64>, AsgiSendError>(None)
                && final(bridge).view() == old(bridge).view() && !final(self).closed,
            old(self).trailers_accepted ==> match validated_headers(headers_view(raw_headers@)) {
                Err(HeaderError::InvalidName) => res == Err::<Option<u64>, AsgiSendError>(
                    AsgiSendError::InvalidHeaderName,
                ) && final(bridge).view() == old(bridge).view() && !final(self).closed,
                Err(HeaderError::InvalidValue) => res == Err::<Option<u64>, AsgiSendError>(
                    AsgiSendError::InvalidHeaderValue,
                ) && final(bridge).view() == old(bridge).view() && !final(self).closed,
                Ok(hs) => match old(bridge).view() {
                    Some(q) => {
                        &&& res == Ok::<Option<u64>, AsgiSendError>(Some(EVENT_ID_RESPONSE))
                        &&& !final(self).closed
                        &&& final(bridge).view() matches Some(q2)
                        &&& q2.len() == q.len() + 1
                        &&& q2.take(q.len() as int) == q
                        &&& q2.last() matches SendEvent::Trailers(t)
                        &&& headers_view(t.headers@) == hs
                        &&& t.more_trailers == more_trailers
                    },
                    None => res == Err::<Option<u64>, AsgiSendError>(AsgiSendError::Disconnected)
                        && final(self).closed && final(bridge).view() is None,
                },
            },
    {
        if !more_trailers {
            self.next_event = NextAsgiEvent::Done;
        }
        if !self.trailers_accepted {
            return Ok(None);
        }
        let headers = match extract_headers(raw_headers) {
            Ok(h) => h,
            Err(HeaderError::InvalidName) => {
                return Err(AsgiSendError::InvalidHeaderName);
            },
            Err(HeaderError::InvalidValue) => {
                return Err(AsgiSendError::InvalidHeaderValue);
            },
        };
        let ghost hv = headers_view(headers@);
        match bridge.send(SendEvent::Trailers(AsgiTrailers { headers, more_trailers })) {
            Ok(()) => {
                proof {
                    let q = old(bridge).view()->0;
                    let q2 = bridge.view()->0;
                    assert(q2.take(q.len() as int) =~= q);
                }
                Ok(Some(EVENT_ID_RESPONSE))
            },
            Err(_) => {
                self.closed = true;
                Err(AsgiSendError::Disconnected)
            },
        }
    }
}

/// The trailers gathered so far, as bytes.
pub open spec fn trailers_view(t: Option<Vec<Header>>) -> Option<Seq<(Seq<u8>, Seq<u8>)>> {
    match t {
        Some(v) => Some(headers_view(v@)),
        None => None,
    }
}

/// The trailers sent by a single `SendTrailers` action, if that is what
/// the actions are.
pub open spec fn sent_trailers<F>(res: Seq<ResponseAction<F>>) -> Option<Seq<(Seq<u8>, Seq<u8>)>> {
    if res.len() == 1 {
        match res[0] {
            ResponseAction::SendTrailers { trailers } => Some(headers_view(trailers@)),
            _ => None,
        }
    } else {
        None
    }
}

/// One trailers event: ignored when the response has no trailers;
/// otherwise its headers are added to those gathered, and the last event
/// sends them all as the only action.
pub open spec fn trailers_step(
    before: Option<Seq<(Seq<u8>, Seq<u8>)>>,
    after: Option<Seq<(Seq<u8>, Seq<u8>)>>,
    headers: Seq<(Seq<u8>, Seq<u8>)>,
    more: bool,
    sent: Option<Seq<(Seq<u8>, Seq<u8>)>>,
    actions: int,
) -> bool {
    match before {
        None => actions == 0 && after is None,
        Some(acc) => {
            &&& after == Some(acc + headers)
            &&& if more {
                actions == 0
            } else {
                actions == 1 && sent == Some(acc + headers)
            }
        },
    }
}

/// The headers of several trailers events, one after the other.
pub open spec fn all_headers(ts: Seq<Seq<(Seq<u8>, Seq<u8>)>>) -> Seq<(Seq<u8>, Seq<u8>)>
    decreases ts.len(),
{
    if ts.len() == 0 {
        Seq::empty()
    } else {
        all_headers(ts.drop_last()) + ts.last()
    }
}

/// Trailers are gathered over any number of events and sent once: after a
/// start that announced trailers, trailers events `ts[0]`, ..., `ts[k - 1]`
/// (each but the last saying more follow) make no call until the last,
/// which sends all their headers, in order, as its only action.
pub proof fn law_trailers_sent_once(
    gathered: Seq<Option<Seq<(Seq<u8>, Seq<u8>)>>>,
    ts: Seq<Seq<(Seq<u8>, Seq<u8>)>>,
    more: Seq<bool>,
    sent: Seq<Option<Seq<(Seq<u8>, Seq<u8>)>>>,
    actions: Seq<int>,
)
    requires
        ts.len() > 0,
        gathered.len() == ts.len() + 1,
        more.len() == ts.len(),
        sent.len() == ts.len(),
        actions.len() == ts.len(),
        gathered[0] == Some(Seq::<(Seq<u8>, Seq<u8>)>::empty()),
        forall|i: int|
            0 <= i < ts.len() ==> #[trigger] trailers_step(
                gathered[i],
                gathered[i + 1],
                ts[i],
                more[i],
                sent[i],
                actions[i],
            ),
        forall|i: int| 0 <= i < ts.len() - 1 ==> #[trigger] more[i],
        !more[ts.len() - 1],
    ensures
        forall|i: int| 0 <= i < ts.len() - 1 ==> #[trigger] actions[i] == 0,
        actions[ts.len() - 1] == 1,
        sent[ts.len() - 1] == Some(all_headers(ts)),
{
    let k = ts.len() as int;
    assert forall|i: int| 0 <= i <= k implies #[trigger] gathered[i] == Some(all_headers(ts.take(i))) by {
        lemma_gathered(gathered, ts, more, sent, actions, i);
    }
    assert forall|i: int| 0 <= i < k - 1 implies #[trigger] actions[i] == 0 by {
        assert(trailers_step(gathered[i], gathered[i + 1], ts[i], more[i], sent[i], actions[i]));
        assert(more[i]);
        assert(gathered[i] == Some(all_headers(ts.take(i))));
    }
    let last = k - 1;
    assert(trailers_step(gathered[last], gathered[last + 1], ts[last], more[last], sent[last], actions[last]));
    assert(gathered[last] == Some(all_headers(ts.take(last))));
    assert(ts.take(k).drop_last() =~= ts.take(k - 1));
    assert(ts.take(k) =~= ts);
}

proof fn lemma_gathered(
    gathered: Seq<Option<Seq<(Seq<u8>, Seq<u8>)>>>,
    ts: Seq<Seq<(Seq<u8>, Seq<u8>)>>,
    more: Seq<bool>,
    sent: Seq<Option<Seq<(Seq<u8>, Seq<u8>)>>>,
    actions: Seq<int>,
    i: int,
)
    requires
        gathered.len() == ts.len() + 1,
        more.len() == ts.len(),
        sent.len() == ts.len(),
        actions.len() == ts.len(),
        gathered[0] == Some(Seq::<(Seq<u8>, Seq<u8>)>::empty()),
        forall|j: int|
            0 <= j < ts.len() ==> #[trigger] trailers_step(
                gathered[j],
                gathered[j + 1],
                ts[j],
                more[j],
                sent[j],
                actions[j],
            ),
        0 <= i <= ts.len(),
    ensures
        gathered[i] == Some(all_headers(ts.take(i))),
    decreases i,
{
    if i == 0 {
        assert(ts.take(0).len() == 0);
    } else {
        lemma_gathered(gathered, ts, more, sent, actions, i - 1);
        let j = i - 1;
        assert(trailers_step(gathered[j], gathered[j + 1], ts[j], more[j], sent[j], actions[j]));
        assert(ts.take(i).drop_last() =~= ts.take(i - 1));
        assert(ts.take(i).last() == ts[i - 1]);
    }
}

/// The filter's side of writing an ASGI response.
pub struct AsgiResponseWriter {
    /// The trailers gathered so far, when the response has trailers.
    pub response_trailers: Option<Vec<Header>>,
}

impl AsgiResponseWriter {
    pub fn new() -> (res: Self)
        ensures
            res.response_trailers is None,
    {
        AsgiResponseWriter { response_trailers: None }
    }

    /// Writes one response event. A chunk ends the stream when it is the
    /// last and no trailers follow; its write notification is completed
    /// first. Trailers are gathered and sent with the last of them. A failure
    /// sends the error reply.
    pub fn process_send_event<F>(&mut self, event: SendEvent<F>) -> (res: Vec<ResponseAction<F>>)
        ensures
            match event {
                SendEvent::Start(s, b) => {
                    let trailers = s.trailers || old(self).response_trailers is Some;
                    let end = b.future is None && !trailers;
                    let k = if b.future is Some { 1int } else { 0int };
                    &&& (final(self).response_trailers is Some) == trailers
                    &&& s.trailers ==> (final(self).response_trailers matches Some(t) && t@.len() == 0)
                    &&& !s.trailers ==> final(self).response_trailers == old(self).response_trailers
                    &&& b.future matches Some(f) ==> res@[0] == (ResponseAction::CompleteWrite {
                        handle: f,
                    })
                    &&& if end && b.body@.len() == 0 {
                        &&& res@.len() == k + 1
                        &&& res@[k] matches ResponseAction::SendHeaders { headers, end_stream }
                            && headers_view(headers@) == with_status(
                            s.status,
                            headers_view(s.headers@),
                        ) && end_stream
                    } else {
                        &&& res@.len() == k + 2
                        &&& res@[k] matches ResponseAction::SendHeaders { headers, end_stream }
                            && headers_view(headers@) == with_status(
                            s.status,
                            headers_view(s.headers@),
                        ) && !end_stream
                        &&& res@[k + 1] matches ResponseAction::SendData { body, end_stream }
                            && body@ == b.body@ && end_stream == end
                    }
                },
                SendEvent::Body(b) => {
                    let end = b.future is None && old(self).response_trailers is None;
                    let k = if b.future is Some { 1int } else { 0int };
                    &&& final(self).response_trailers == old(self).response_trailers
                    &&& b.future matches Some(f) ==> res@[0] == (ResponseAction::CompleteWrite {
                        handle: f,
                    })
                    &&& res@.len() == k + 1
                    &&& res@[k] matches ResponseAction::SendData { body, end_stream } && body@
                        == b.body@ && end_stream == end
                },
                SendEvent::Trailers(t) => match old(self).response_trailers {
                    None => res@.len() == 0 && final(self).response_trailers is None,
                    Some(acc) => {
                        let all = headers_view(acc@) + headers_view(t.headers@);
                        &&& final(self).response_trailers matches Some(acc2) && headers_view(
                            acc2@,
                        ) == all
                        &&& if t.more_trailers {
                            res@.len() == 0
                        } else {
                            &&& res@.len() == 1
                            &&& res@[0] matches ResponseAction::SendTrailers { trailers }
                            &&& headers_view(trailers@) == all
                        }
                    },
                },
                SendEvent::Exception => res@.len() == 1 && res@[0] is SendErrorReply
                    && final(self).response_trailers == old(self).response_trailers,
            },
            event matches SendEvent::Trailers(t) ==> trailers_step(
                trailers_view(old(self).response_trailers),
                trailers_view(final(self).response_trailers),
                headers_view(t.headers@),
                t.more_trailers,
                sent_trailers(res@),
                res@.len() as int,
            ),
    {
        let mut actions: Vec<ResponseAction<F>> = Vec::new();
        match event {
            SendEvent::Start(start, body) => {
                if start.trailers {
                    self.response_trailers = Some(Vec::new());
                }
                let headers = status_headers(start.status, &start.headers);
                let end_stream = body.future.is_none() && self.response_trailers.is_none();
                match body.future {
                    Some(f) => {
                        actions.push(ResponseAction::CompleteWrite { handle: f });
                    },
                    None => {},
                }
                if end_stream && body.body.len() == 0 {
                    actions.push(ResponseAction::SendHeaders { headers, end_stream: true });
                } else {
                    actions.push(ResponseAction::SendHeaders { headers, end_stream: false });
                    actions.push(ResponseAction::SendData { body: body.body, end_stream });
                }
            },
            SendEvent::Body(body) => {
                let end_stream = body.future.is_none() && self.response_trailers.is_none();
                match body.future {
                    Some(f) => {
                        actions.push(ResponseAction::CompleteWrite { handle: f });
                    },
                    None => {},
                }
                actions.push(ResponseAction::SendData { body: body.body, end_stream });
            },
            SendEvent::Trailers(t) => {
                let mut taken: Option<Vec<Header>> = None;
                std::mem::swap(&mut taken, &mut self.response_trailers);
                match taken {
                    Some(mut acc) => {
                        let ghost before = headers_view(acc@);
                        let mut i: usize = 0;
                        while i < t.headers.len()
                            invariant
                                i <= t.headers@.len(),
                                headers_view(acc@) == before + headers_view(t.headers@).take(
                                    i as int,
                                ),
                            decreases t.headers@.len() - i,
                        {
                            let ghost prev = headers_view(acc@);
                            acc.push(
                                (
                                    crate::text::to_vec(t.headers[i].0.as_slice()),
                                    crate::text::to_vec(t.headers[i].1.as_slice()),
                                ),
                            );
                            proof {
                                assert(headers_view(t.headers@).take(i + 1) =~= headers_view(
                                    t.headers@,
                                ).take(i as int).push(
                                    (t.headers@[i as int].0@, t.headers@[i as int].1@),
                                ));
                                assert(headers_view(acc@) =~= prev.push(
                                    (t.headers@[i as int].0@, t.headers@[i as int].1@),
                                ));
                            }
                            i = i + 1;
                        }
                        proof {
                            assert(headers_view(t.headers@).take(i as int) =~= headers_view(
                                t.headers@,
                            ));
                        }
                        if !t.more_trailers {
                            actions.push(
                                ResponseAction::SendTrailers { trailers: clone_headers(&acc) },
                            );
                        }
                        self.response_trailers = Some(acc);
                    },
                    None => {},
                }
            },
            SendEvent::Exception => {
                actions.push(ResponseAction::SendErrorReply);
            },
        }
        actions
    }
}

} // verus!
