//! The body of an upstream response read by an ASGI application: Envoy
//! delivers data, trailers or a reset at any time, and the application reads
//! chunks as an async iterator.
use crate::headers::{headers_view, Header};
use crate::text::append_bytes;
use crate::transport::{keep_valid_headers, valid_pairs, ResetReason};
use vstd::prelude::*;

verus! {

/// The buffered state of an upstream response body.
pub struct ResponseContentState {
    /// Whether a read is waiting for data.
    pub pending: bool,
    /// Whether the response object holding the trailers exists.
    pub has_trailer_sink: bool,
    /// Data received and not read yet.
    pub body: Vec<u8>,
    /// Trailers received and not handed to the application yet.
    pub http_trailers: Option<Vec<Header>>,
    /// Whether nothing more will be received.
    pub end_stream: bool,
    pub reset_reason: Option<ResetReason>,
    /// Whether the application failed while sending the request body.
    pub has_exception: bool,
}

/// What a read returns.
pub enum AnextOutcome {
    /// A read was already waiting: an empty chunk.
    Empty,
    /// A chunk of data.
    Chunk(Vec<u8>),
    /// The exception of the request body is raised.
    RaiseException,
    /// The reset is raised.
    RaiseReset(ResetReason),
    /// The body is finished.
    Stop,
    /// Nothing yet: the read waits.
    Wait,
}

/// How a waiting read is completed when Envoy delivered something.
pub enum NotifyOutcome {
    /// Nothing to complete.
    Nothing,
    ResolveChunk(Vec<u8>),
    RejectException,
    RejectReset(ResetReason),
    RejectStop,
}

/// The state after data arrives: appended to the body, ending the body when
/// it is the last.
pub open spec fn feed_data_post(
    s: ResponseContentState,
    f: ResponseContentState,
    data: Seq<u8>,
    end_stream: bool,
    notify: bool,
) -> bool {
    &&& f.body@ == s.body@ + data
    &&& f.end_stream == (s.end_stream || end_stream)
    &&& f.pending == s.pending
    &&& f.has_trailer_sink == s.has_trailer_sink
    &&& f.http_trailers == s.http_trailers
    &&& f.reset_reason == s.reset_reason
    &&& f.has_exception == s.has_exception
    &&& notify == s.pending
}

/// The state after a read: see `ResponseContentState::anext`.
pub open spec fn anext_post(s: ResponseContentState, f: ResponseContentState, out: AnextOutcome) -> bool {
    if s.pending {
        &&& out is Empty
        &&& f == s
    } else {
        &&& f.http_trailers is None
        &&& f.end_stream == s.end_stream
        &&& f.reset_reason == s.reset_reason
        &&& f.has_exception == s.has_exception
        &&& f.has_trailer_sink == s.has_trailer_sink
        &&& if s.body@.len() > 0 {
            &&& out matches AnextOutcome::Chunk(c) && c@ == s.body@
            &&& f.body@.len() == 0
            &&& !f.pending
        } else {
            &&& f.body@.len() == 0
            &&& if s.has_exception {
                out is RaiseException && !f.pending
            } else if s.reset_reason is Some {
                out == AnextOutcome::RaiseReset(s.reset_reason->0) && !f.pending
            } else if s.end_stream {
                out is Stop && !f.pending
            } else {
                out is Wait && f.pending
            }
        }
    }
}

impl ResponseContentState {
    /// The state of a response just started: nothing received.
    pub fn new() -> (res: Self)
        ensures
            !res.pending,
            !res.has_trailer_sink,
            res.body@.len() == 0,
            res.http_trailers is None,
            !res.end_stream,
            res.reset_reason is None,
            !res.has_exception,
    {
        ResponseContentState {
            pending: false,
            has_trailer_sink: false,
            body: Vec::new(),
            http_trailers: None,
            end_stream: false,
            reset_reason: None,
            has_exception: false,
        }
    }

    /// Buffers data from Envoy; returns whether a waiting read must be
    /// completed.
    pub fn feed_response_data(&mut self, data: &[u8], end_stream: bool) -> (notify: bool)
        ensures
            feed_data_post(*old(self), *final(self), data@, end_stream, notify),
    {
        append_bytes(&mut self.body, data);
        self.end_stream = self.end_stream || end_stream;
        self.pending
    }

    /// Buffers the trailers from Envoy (the valid ones), ending the body;
    /// returns whether a waiting read must be completed.
    pub fn feed_response_trailers(&mut self, raw: &Vec<Header>) -> (notify: bool)
        ensures
            final(self).http_trailers matches Some(t) && headers_view(t@) == valid_pairs(
                headers_view(raw@),
            ),
            final(self).end_stream,
            final(self).body@ == old(self).body@,
            final(self).pending == old(self).pending,
            final(self).reset_reason == old(self).reset_reason,
            final(self).has_exception == old(self).has_exception,
            notify == old(self).pending,
    {
        let (trailers, _) = keep_valid_headers(raw, &[]);
        self.http_trailers = Some(trailers);
        self.end_stream = true;
        self.pending
    }

    /// Records that the application failed while sending the request body.
    pub fn set_exception(&mut self)
        ensures
            final(self).has_exception,
            final(self).body@ == old(self).body@,
            final(self).pending == old(self).pending,
            final(self).end_stream == old(self).end_stream,
            final(self).reset_reason == old(self).reset_reason,
    {
        self.has_exception = true;
    }

    /// Takes the recorded failure, if any.
    pub fn take_exception(&mut self) -> (had: bool)
        ensures
            had == old(self).has_exception,
            !final(self).has_exception,
            final(self).body@ == old(self).body@,
            final(self).pending == old(self).pending,
            final(self).end_stream == old(self).end_stream,
            final(self).reset_reason == old(self).reset_reason,
    {
        let had = self.has_exception;
        self.has_exception = false;
        had
    }

    /// The stream was reset: the body ends with the reason; returns whether a
    /// waiting read must be completed.
    pub fn reset(&mut self, reason: ResetReason) -> (notify: bool)
        ensures
            final(self).end_stream,
            final(self).reset_reason == Some(reason),
            final(self).body@ == old(self).body@,
            final(self).pending == old(self).pending,
            final(self).has_exception == old(self).has_exception,
            notify == old(self).pending,
    {
        self.end_stream = true;
        self.reset_reason = Some(reason);
        self.pending
    }

    /// Takes the received trailers, returning them when the application has
    /// somewhere to put them (else they are dropped).
    pub fn take_trailers(&mut self) -> (res: Option<Vec<Header>>)
        ensures
            final(self).http_trailers is None,
            match (res, old(self).http_trailers) {
                (Some(t), Some(u)) => old(self).has_trailer_sink && headers_view(t@) == headers_view(u@),
                (None, Some(_)) => !old(self).has_trailer_sink,
                (None, None) => true,
                (Some(_), None) => false,
            },
            final(self).body@ == old(self).body@,
            final(self).pending == old(self).pending,
            final(self).end_stream == old(self).end_stream,
            final(self).reset_reason == old(self).reset_reason,
            final(self).has_exception == old(self).has_exception,
            final(self).has_trailer_sink == old(self).has_trailer_sink,
    {
        let mut taken: Option<Vec<Header>> = None;
        std::mem::swap(&mut taken, &mut self.http_trailers);
        if self.has_trailer_sink {
            taken
        } else {
            None
        }
    }

    /// A read by the application: an empty chunk when a read already waits;
    /// otherwise the buffered data, else the failure, the reset or the end,
    /// else it waits. Trailers received are handed over first.
    pub fn anext(&mut self) -> (res: (Option<Vec<Header>>, AnextOutcome))
        ensures
            anext_post(*old(self), *final(self), res.1),
            old(self).pending ==> res.0 is None,
    {
        if self.pending {
            return (None, AnextOutcome::Empty);
        }
        let trailers = self.take_trailers();
        if self.body.len() > 0 {
            let mut chunk: Vec<u8> = Vec::new();
            std::mem::swap(&mut chunk, &mut self.body);
            return (trailers, AnextOutcome::Chunk(chunk));
        }
        if self.has_exception {
            return (trailers, AnextOutcome::RaiseException);
        }
        match self.reset_reason {
            Some(r) => {
                return (trailers, AnextOutcome::RaiseReset(r));
            },
            None => {},
        }
        if self.end_stream {
            return (trailers, AnextOutcome::Stop);
        }
        self.pending = true;
        (trailers, AnextOutcome::Wait)
    }

    /// Completes a waiting read after Envoy delivered something: with the
    /// buffered data, else the failure, the reset or the end. Nothing happens
    /// without a waiting read, or while nothing arrived. Trailers received are
    /// handed over first.
    pub fn notify(&mut self) -> (res: (Option<Vec<Header>>, NotifyOutcome))
        ensures
            final(self).http_trailers is None,
            final(self).end_stream == old(self).end_stream,
            final(self).reset_reason == old(self).reset_reason,
            final(self).has_exception == old(self).has_exception,
            if (old(self).body@.len() == 0 && !old(self).end_stream) || !old(self).pending {
                res.1 is Nothing && final(self).pending == old(self).pending && final(self).body@
                    == old(self).body@
            } else {
                &&& !final(self).pending
                &&& final(self).body@.len() == 0
                &&& if old(self).body@.len() > 0 {
                    res.1 matches NotifyOutcome::ResolveChunk(c) && c@ == old(self).body@
                } else if old(self).has_exception {
                    res.1 is RejectException
                } else if old(self).reset_reason is Some {
                    res.1 == NotifyOutcome::RejectReset(old(self).reset_reason->0)
                } else {
                    res.1 is RejectStop
                }
            },
    {
        let trailers = self.take_trailers();
        if self.body.len() == 0 && !self.end_stream {
            return (trailers, NotifyOutcome::Nothing);
        }
        if !self.pending {
            return (trailers, NotifyOutcome::Nothing);
        }
        self.pending = false;
        if self.body.len() > 0 {
            let mut chunk: Vec<u8> = Vec::new();
            std::mem::swap(&mut chunk, &mut self.body);
            (trailers, NotifyOutcome::ResolveChunk(chunk))
        } else if self.has_exception {
            (trailers, NotifyOutcome::RejectException)
        } else {
            match self.reset_reason {
                Some(r) => (trailers, NotifyOutcome::RejectReset(r)),
                None => (trailers, NotifyOutcome::RejectStop),
            }
        }
    }

    /// Whether closing the response early must reset the upstream stream:
    /// when the body has not ended.
    pub fn aclose(&self) -> (reset: bool)
        ensures
            reset == !self.end_stream,
    {
        !self.end_stream
    }
}

/// Data fed while no read waits is returned by the next read, in order and
/// without loss: feeding `a` then `b` to a state with nothing buffered
/// makes the next read return `a + b` (when that is not empty).
pub proof fn law_read_returns_fed_data(
    s0: ResponseContentState,
    s1: ResponseContentState,
    s2: ResponseContentState,
    s3: ResponseContentState,
    a: Seq<u8>,
    b: Seq<u8>,
    end_a: bool,
    end_b: bool,
    n1: bool,
    n2: bool,
    out: AnextOutcome,
)
    requires
        !s0.pending,
        s0.body@.len() == 0,
        feed_data_post(s0, s1, a, end_a, n1),
        feed_data_post(s1, s2, b, end_b, n2),
        anext_post(s2, s3, out),
        (a + b).len() > 0,
    ensures
        out matches AnextOutcome::Chunk(c) && c@ == a + b,
        s3.body@.len() == 0,
        !n1 && !n2,
{
    assert(s2.body@ =~= a + b);
}

} // verus!
