//! The application's side of the WSGI input stream (`wsgi.input`).
use crate::eventbridge::{queued, EventBridge};
use crate::wsgi::types::{RequestBody, RequestReadEvent};
use vstd::prelude::*;

verus! {

/// The event id that wakes the filter to answer a read.
pub const EVENT_ID_REQUEST: u64 = 1;

/// The read asked of the filter for `read(size)` (`line` false) or
/// `readline(size)` (`line` true); a missing size means -1. A size of 0 is
/// answered at once with nothing.
pub fn read_event(size: Option<isize>, line: bool) -> (res: Option<RequestReadEvent>)
    ensures
        ({
            let n: isize = match size {
                Some(s) => s,
                None => -1isize,
            };
            if n == 0 {
                res is None
            } else if line {
                res == Some(RequestReadEvent::Line(n))
            } else {
                res == Some(RequestReadEvent::Raw(n))
            }
        }),
{
    let n = match size {
        Some(s) => s,
        None => -1,
    };
    if n == 0 {
        None
    } else if line {
        Some(RequestReadEvent::Line(n))
    } else {
        Some(RequestReadEvent::Raw(n))
    }
}

/// What starting a read does: nothing once the input is closed; otherwise
/// the read is queued for the filter, which is woken when it listens.
pub open spec fn read_started(
    input: RequestInput,
    before: Option<Seq<RequestReadEvent>>,
    after: Option<Seq<RequestReadEvent>>,
    event: RequestReadEvent,
    res: Option<Option<u64>>,
) -> bool {
    if input.closed {
        res is None && after == before
    } else {
        &&& res == Some(if before is Some { Some(EVENT_ID_REQUEST) } else { None::<u64> })
        &&& queued(before, after, event)
    }
}

/// After the last chunk was read, the input stays closed and every later
/// read returns nothing without asking the filter. (A read of size 0 never
/// asks it either: see `read_event`.)
pub proof fn law_closed_input_asks_nothing(
    s0: RequestInput,
    s1: RequestInput,
    last: RequestBody,
    before: Option<Seq<RequestReadEvent>>,
    after: Option<Seq<RequestReadEvent>>,
    event: RequestReadEvent,
    res: Option<Option<u64>>,
)
    requires
        last.closed,
        s1.closed == (s0.closed || last.closed),
        read_started(s1, before, after, event, res),
    ensures
        s1.closed,
        res is None,
        after == before,
{
}

/// The input stream of one request.
pub struct RequestInput {
    /// Whether the last chunk was read: reads then return nothing.
    pub closed: bool,
}

impl RequestInput {
    pub fn new() -> (res: Self)
        ensures
            !res.closed,
    {
        RequestInput { closed: false }
    }

    /// Starts a read: once the body is finished nothing is asked (the read
    /// returns nothing); otherwise the read is queued for the filter and the
    /// event id to wake it is returned when it listens.
    pub fn start_read(&self, bridge: &mut EventBridge<RequestReadEvent>, event: RequestReadEvent) -> (res:
        Option<Option<u64>>)
        ensures
            read_started(*self, old(bridge).view(), final(bridge).view(), event, res),
            self.closed ==> res is None && final(bridge).view() == old(bridge).view(),
            !self.closed ==> res == Some(
                if old(bridge).view() is Some {
                    Some(EVENT_ID_REQUEST)
                } else {
                    None::<u64>
                },
            ) && queued(old(bridge).view(), final(bridge).view(), event),
    {
        if self.closed {
            return None;
        }
        match bridge.send(event) {
            Ok(()) => Some(Some(EVENT_ID_REQUEST)),
            Err(_) => Some(None),
        }
    }

    /// Takes the filter's answer: its bytes are what the read returns; the
    /// last chunk closes the stream.
    pub fn finish_read(&mut self, body: RequestBody) -> (res: Vec<u8>)
        ensures
            res@ == body.body@,
            final(self).closed == (old(self).closed || body.closed),
    {
        if body.closed {
            self.closed = true;
        }
        body.body
    }
}

/// The lines of `s`, each with its newline (the last one may lack it), as
/// `split_inclusive` gives them: what `readlines` returns for the body.
pub open spec fn inclusive_lines(s: Seq<u8>) -> Seq<Seq<u8>>
    decreases s.len(),
{
    if s.len() == 0 {
        Seq::empty()
    } else {
        let i = crate::text::first_index_of(s, 10u8);
        if i < s.len() {
            proof {
                crate::text::lemma_first_index_of(s, 10u8);
            }
            seq![s.take(i + 1)] + inclusive_lines(s.skip(i + 1))
        } else {
            seq![s]
        }
    }
}

/// Splits the body into lines for `readlines`.
pub fn split_inclusive_lines(s: &[u8]) -> (res: Vec<Vec<u8>>)
    ensures
        crate::wsgi::errors::lines_view(res@) == inclusive_lines(s@),
{
    let mut lines: Vec<Vec<u8>> = Vec::new();
    let mut pos: usize = 0;
    proof {
        assert(s@.skip(0) =~= s@);
        assert(crate::wsgi::errors::lines_view(lines@) =~= Seq::<Seq<u8>>::empty());
    }
    while pos < s.len()
        invariant
            pos <= s@.len(),
            inclusive_lines(s@) == crate::wsgi::errors::lines_view(lines@) + inclusive_lines(
                s@.skip(pos as int),
            ),
        decreases s@.len() - pos,
    {
        let ghost rest = s@.skip(pos as int);
        let mut end: usize = pos;
        while end < s.len() && s[end] != 10u8
            invariant
                pos <= end <= s@.len(),
                forall|k: int| pos <= k < end ==> s@[k] != 10u8,
            decreases s@.len() - end,
        {
            end = end + 1;
        }
        proof {
            assert forall|k: int| 0 <= k < end - pos implies rest[k] != 10u8 by {
                assert(rest[k] == s@[pos + k]);
            }
            if end < s@.len() {
                assert(rest[end - pos] == s@[end as int]);
            }
            crate::wsgi::errors::lemma_first_newline(rest, end - pos);
        }
        let stop = if end < s.len() {
            end + 1
        } else {
            end
        };
        let mut line: Vec<u8> = Vec::new();
        let mut j: usize = pos;
        while j < stop
            invariant
                pos <= j <= stop,
                stop <= s@.len(),
                line@ == s@.subrange(pos as int, j as int),
            decreases stop - j,
        {
            line.push(s[j]);
            proof {
                assert(s@.subrange(pos as int, j + 1) =~= s@.subrange(pos as int, j as int).push(
                    s@[j as int],
                ));
            }
            j = j + 1;
        }
        let ghost prev = crate::wsgi::errors::lines_view(lines@);
        lines.push(line);
        proof {
            assert(crate::wsgi::errors::lines_view(lines@) =~= prev.push(
                s@.subrange(pos as int, stop as int),
            ));
            if end < s@.len() {
                assert(rest.take(end - pos + 1) =~= s@.subrange(pos as int, stop as int));
                assert(rest.skip(end - pos + 1) =~= s@.skip(stop as int));
            } else {
                assert(rest =~= s@.subrange(pos as int, stop as int));
                assert(s@.skip(stop as int) =~= Seq::<u8>::empty());
            }
            assert(inclusive_lines(s@) =~= crate::wsgi::errors::lines_view(lines@) + inclusive_lines(
                s@.skip(stop as int),
            ));
        }
        pos = stop;
    }
    proof {
        assert(s@.skip(pos as int) =~= Seq::<u8>::empty());
        assert(inclusive_lines(s@) =~= crate::wsgi::errors::lines_view(lines@));
    }
    lines
}

/// Iterating the input stream stops at the first empty line read.
pub fn next_line(line: Vec<u8>) -> (res: Option<Vec<u8>>)
    ensures
        line@.len() == 0 ==> res is None,
        line@.len() > 0 ==> res == Some(line),
{
    if line.len() == 0 {
        None
    } else {
        Some(line)
    }
}

} // verus!
