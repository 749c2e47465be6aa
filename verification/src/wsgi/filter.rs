//! The filter side of the WSGI input stream: answering the application's
//! reads from the request body that Envoy holds.
use crate::body::{
    buffers_len, extend_from_buffers, extend_from_buffers_up_to, flat, flat_opt,
    has_request_body, lemma_flat_index, lemma_flat_prefix, lemma_flat_take_succ,
};
use crate::eventbridge::{pending_or_nothing, EventBridge};
use crate::wsgi::types::{RequestBody, RequestReadEvent};
use vstd::prelude::*;

verus! {

/// Whether a line read of size `n` stops after taking byte `b`, which brings
/// the line to `len_after` bytes.
pub open spec fn stops_line(b: u8, len_after: int, n: int) -> bool {
    b == 10u8 || (n > 0 && len_after >= n)
}

/// Whether a line read of size `n` onto `buffered` bytes, having taken the
/// first `c` bytes of `all`, stopped on its last byte.
pub open spec fn line_found(all: Seq<u8>, buffered: int, n: int, c: int) -> bool {
    c > 0 && stops_line(all[c - 1], buffered + c, n)
}

/// A line read of size `n` onto `buffered` bytes takes exactly the first `c`
/// bytes of `all`: it stops at the first byte that ends the line or reaches
/// the size, or else takes everything.
pub open spec fn is_line_scan(all: Seq<u8>, buffered: int, n: int, c: int) -> bool {
    &&& 0 <= c <= all.len()
    &&& forall|q: int| 0 <= q < c - 1 ==> !stops_line(#[trigger] all[q], buffered + q + 1, n)
    &&& !line_found(all, buffered, n, c) ==> c == all.len()
}

/// The read that is pending once `events` have arrived: the last one wins.
pub open spec fn latest_read(pending: RequestReadEvent, events: Seq<RequestReadEvent>) -> RequestReadEvent {
    if events.len() == 0 {
        pending
    } else {
        events.last()
    }
}

pub open spec fn min_int(a: int, b: int) -> int {
    if a < b {
        a
    } else {
        b
    }
}

/// A scan that reached the end of `a` without stopping, followed by a scan of
/// `b`, is a scan of `a + b`.
proof fn lemma_line_scan_concat(a: Seq<u8>, b: Seq<u8>, buffered: int, n: int, cb: int)
    requires
        is_line_scan(a, buffered, n, a.len() as int),
        !line_found(a, buffered, n, a.len() as int),
        is_line_scan(b, buffered + a.len(), n, cb),
    ensures
        is_line_scan(a + b, buffered, n, a.len() + cb),
        line_found(a + b, buffered, n, a.len() + cb) == line_found(b, buffered + a.len(), n, cb),
{
    let all = a + b;
    let c = a.len() + cb;
    assert forall|q: int| 0 <= q < c - 1 implies !stops_line(#[trigger] all[q], buffered + q + 1, n) by {
        if q < a.len() {
            assert(all[q] == a[q]);
            if q == a.len() - 1 {
                assert(!line_found(a, buffered, n, a.len() as int));
            }
        } else {
            assert(all[q] == b[q - a.len()]);
        }
    }
    if cb == 0 {
        if a.len() > 0 {
            assert(all[a.len() - 1] == a[a.len() - 1]);
        }
        assert(all.len() == c);
    } else {
        assert(all[c - 1] == b[cb - 1]);
    }
}

/// A scan that stopped within `a` is the same scan of `a + b`.
proof fn lemma_line_scan_prefix(a: Seq<u8>, b: Seq<u8>, buffered: int, n: int, c: int)
    requires
        is_line_scan(a, buffered, n, c),
        line_found(a, buffered, n, c),
    ensures
        is_line_scan(a + b, buffered, n, c),
        line_found(a + b, buffered, n, c),
        (a + b).take(c) == a.take(c),
{
    let all = a + b;
    assert forall|q: int| 0 <= q < c - 1 implies !stops_line(#[trigger] all[q], buffered + q + 1, n) by {
        assert(all[q] == a[q]);
    }
    assert(all[c - 1] == a[c - 1]);
    assert(all.take(c) =~= a.take(c));
}

/// A raw read of `n > 0` bytes answered with the first bytes of `all`, of
/// which `nb` were buffered.
pub open spec fn raw_sized_answer(
    s: RequestReader,
    f: RequestReader,
    plan: ReadPlan,
    all: Seq<u8>,
    nb: int,
    n: int,
) -> bool {
    let k = min_int(n, all.len() as int);
    &&& plan.drain_buffered == min_int(k, nb)
    &&& plan.drain_buffered + plan.drain_received == k
    &&& plan.send matches Some(b) && b.body@ == all.take(k) && b.closed == (k == all.len()
        && s.request_closed)
    &&& f.pending_read == RequestReadEvent::Wait
    &&& f.read_buffer@ == s.read_buffer@
    &&& f.request_closed == s.request_closed
}

/// A raw read of the whole body: every byte is collected, and the read is
/// answered once the body is finished.
pub open spec fn raw_all_answer(
    s: RequestReader,
    f: RequestReader,
    plan: ReadPlan,
    all: Seq<u8>,
    nb: int,
) -> bool {
    &&& plan.drain_buffered == nb
    &&& plan.drain_buffered + plan.drain_received == all.len()
    &&& f.request_closed == s.request_closed
    &&& if s.request_closed {
        &&& plan.send matches Some(b) && b.body@ == s.read_buffer@ + all && b.closed
        &&& f.read_buffer@.len() == 0
        &&& f.pending_read == RequestReadEvent::Wait
    } else {
        &&& plan.send is None
        &&& f.read_buffer@ == s.read_buffer@ + all
        &&& f.pending_read == s.pending_read
    }
}

/// A line read of size `n`: bytes are collected up to the end of the line,
/// and the read is answered once the line is complete or the body finished.
pub open spec fn line_answer(
    s: RequestReader,
    f: RequestReader,
    plan: ReadPlan,
    all: Seq<u8>,
    nb: int,
    n: int,
) -> bool {
    let c = plan.drain_buffered + plan.drain_received;
    let buf = s.read_buffer@;
    &&& is_line_scan(all, buf.len() as int, n, c)
    &&& plan.drain_buffered == min_int(c, nb)
    &&& f.request_closed == s.request_closed
    &&& if line_found(all, buf.len() as int, n, c) || s.request_closed {
        &&& plan.send matches Some(b) && b.body@ == buf + all.take(c) && b.closed == (c == all.len()
            && s.request_closed)
        &&& f.read_buffer@.len() == 0
        &&& f.pending_read == RequestReadEvent::Wait
    } else {
        &&& plan.send is None
        &&& f.read_buffer@ == buf + all.take(c)
        &&& f.pending_read == s.pending_read
    }
}

/// Nothing is read: no byte drained, no answer, the reader unchanged.
pub open spec fn no_answer(s: RequestReader, f: RequestReader, plan: ReadPlan) -> bool {
    &&& plan.drain_buffered == 0
    &&& plan.drain_received == 0
    &&& plan.send is None
    &&& f.pending_read == s.pending_read
    &&& f.read_buffer@ == s.read_buffer@
    &&& f.request_closed == s.request_closed
}

/// What the filter does with Envoy's request body after a read was processed.
pub struct ReadPlan {
    /// How many bytes to drain from the buffered request body.
    pub drain_buffered: usize,
    /// How many bytes to drain from the just-received request body.
    pub drain_received: usize,
    /// The chunk to hand to the waiting application, if the read is answered.
    pub send: Option<RequestBody>,
}

/// The state of the request body as seen by the WSGI input stream.
pub struct RequestReader {
    /// The read the application is waiting on.
    pub pending_read: RequestReadEvent,
    /// Bytes taken from Envoy for a read that is not answered yet.
    pub read_buffer: Vec<u8>,
    /// Whether Envoy has delivered the end of the request body.
    pub request_closed: bool,
}

impl RequestReader {
    /// A reader with no pending read, nothing buffered and the body still open.
    pub fn new() -> (res: Self)
        ensures
            res.pending_read == RequestReadEvent::Wait,
            res.read_buffer@.len() == 0,
            !res.request_closed,
    {
        RequestReader { pending_read: RequestReadEvent::Wait, read_buffer: Vec::new(), request_closed: false }
    }

    /// Moves bytes of `buffers` onto the read buffer until a line read of
    /// size `n` is satisfied: a newline was taken, or the read buffer reached
    /// `n` bytes (when `n` is positive). Returns whether it was satisfied and
    /// how many bytes were taken.
    pub fn read_request_until_line_or_size(&mut self, buffers: &Vec<Vec<u8>>, n: isize) -> (res: (
        bool,
        usize,
    ))
        requires
            old(self).read_buffer@.len() + flat(buffers@).len() <= usize::MAX,
        ensures
            is_line_scan(flat(buffers@), old(self).read_buffer@.len() as int, n as int, res.1 as int),
            res.0 == line_found(
                flat(buffers@),
                old(self).read_buffer@.len() as int,
                n as int,
                res.1 as int,
            ),
            final(self).read_buffer@ == old(self).read_buffer@ + flat(buffers@).take(res.1 as int),
            final(self).pending_read == old(self).pending_read,
            final(self).request_closed == old(self).request_closed,
    {
        let ghost start = self.read_buffer@;
        let ghost all = flat(buffers@);
        let ghost s0 = start.len() as int;
        let mut read: usize = 0;
        let mut i: usize = 0;
        while i < buffers.len()
            invariant
                i <= buffers.len(),
                all == flat(buffers@),
                start == old(self).read_buffer@,
                s0 == start.len(),
                start.len() + all.len() <= usize::MAX,
                read == flat(buffers@.take(i as int)).len(),
                self.read_buffer@ == start + all.take(read as int),
                forall|q: int| 0 <= q < read ==> !stops_line(#[trigger] all[q], s0 + q + 1, n as int),
                self.pending_read == old(self).pending_read,
                self.request_closed == old(self).request_closed,
            decreases buffers.len() - i,
        {
            let mut j: usize = 0;
            while j < buffers[i].len()
                invariant
                    i < buffers.len(),
                    j <= buffers[i as int]@.len(),
                    all == flat(buffers@),
                    start == old(self).read_buffer@,
                    s0 == start.len(),
                    start.len() + all.len() <= usize::MAX,
                    read == flat(buffers@.take(i as int)).len() + j,
                    self.read_buffer@ == start + all.take(read as int),
                    forall|q: int|
                        0 <= q < read ==> !stops_line(#[trigger] all[q], s0 + q + 1, n as int),
                    self.pending_read == old(self).pending_read,
                    self.request_closed == old(self).request_closed,
                decreases buffers[i as int]@.len() - j,
            {
                let b = buffers[i][j];
                proof {
                    lemma_flat_index(buffers@, i as int, j as int);
                    assert(all.take(read + 1) =~= all.take(read as int).push(all[read as int]));
                }
                self.read_buffer.push(b);
                read = read + 1;
                if b == 10u8 || (n > 0 && self.read_buffer.len() >= n as usize) {
                    return (true, read);
                }
                j = j + 1;
            }
            proof {
                lemma_flat_take_succ(buffers@, i as int);
            }
            i = i + 1;
        }
        proof {
            assert(buffers@.take(i as int) =~= buffers@);
        }
        (false, read)
    }

    /// Answers a raw read of `n > 0` bytes with up to `n` bytes of the body,
    /// buffered bytes first.
    fn answer_raw_sized(
        &mut self,
        n: isize,
        buffered: &Option<Vec<Vec<u8>>>,
        received: &Option<Vec<Vec<u8>>>,
    ) -> (plan: ReadPlan)
        requires
            n > 0,
            old(self).read_buffer@.len() + flat_opt(*buffered).len() + flat_opt(*received).len()
                <= usize::MAX,
        ensures
            raw_sized_answer(
                *old(self),
                *final(self),
                plan,
                flat_opt(*buffered) + flat_opt(*received),
                flat_opt(*buffered).len() as int,
                n as int,
            ),
    {
        let ghost bb = flat_opt(*buffered);
        let ghost rr = flat_opt(*received);
        let ghost all = bb + rr;
        let total_buffered = buffers_len(buffered);
        let total_received = buffers_len(received);
        let limit = n as usize;
        let mut body: Vec<u8> = Vec::new();
        let read_buffered = extend_from_buffers_up_to(buffered, limit, &mut body);
        let mut read_received: usize = 0;
        if read_buffered < limit {
            read_received = extend_from_buffers_up_to(received, limit - read_buffered, &mut body);
            proof {
                assert(bb.take(read_buffered as int) =~= bb);
                assert(body@ =~= all.take(read_buffered + read_received));
            }
        } else {
            proof {
                assert(body@ =~= all.take(limit as int));
            }
        }
        self.pending_read = RequestReadEvent::Wait;
        let closed = read_buffered + read_received == total_buffered + total_received
            && self.request_closed;
        ReadPlan {
            drain_buffered: read_buffered,
            drain_received: read_received,
            send: Some(RequestBody { body, closed }),
        }
    }

    /// Collects the whole readable body, answering once the body is finished.
    fn answer_raw_all(&mut self, buffered: &Option<Vec<Vec<u8>>>, received: &Option<Vec<Vec<u8>>>) -> (plan:
        ReadPlan)
        requires
            old(self).read_buffer@.len() + flat_opt(*buffered).len() + flat_opt(*received).len()
                <= usize::MAX,
        ensures
            raw_all_answer(
                *old(self),
                *final(self),
                plan,
                flat_opt(*buffered) + flat_opt(*received),
                flat_opt(*buffered).len() as int,
            ),
    {
        let read_buffered = extend_from_buffers(buffered, &mut self.read_buffer);
        let read_received = extend_from_buffers(received, &mut self.read_buffer);
        proof {
            assert(self.read_buffer@ =~= old(self).read_buffer@ + (flat_opt(*buffered) + flat_opt(
                *received,
            )));
        }
        if self.request_closed {
            self.pending_read = RequestReadEvent::Wait;
            let mut body: Vec<u8> = Vec::new();
            std::mem::swap(&mut body, &mut self.read_buffer);
            ReadPlan {
                drain_buffered: read_buffered,
                drain_received: read_received,
                send: Some(RequestBody { body, closed: true }),
            }
        } else {
            ReadPlan { drain_buffered: read_buffered, drain_received: read_received, send: None }
        }
    }

    /// Collects bytes for a line read of size `n`, answering once the line is
    /// complete or the body is finished.
    fn answer_line(
        &mut self,
        n: isize,
        buffered: &Option<Vec<Vec<u8>>>,
        received: &Option<Vec<Vec<u8>>>,
    ) -> (plan: ReadPlan)
        requires
            old(self).read_buffer@.len() + flat_opt(*buffered).len() + flat_opt(*received).len()
                <= usize::MAX,
        ensures
            line_answer(
                *old(self),
                *final(self),
                plan,
                flat_opt(*buffered) + flat_opt(*received),
                flat_opt(*buffered).len() as int,
                n as int,
            ),
    {
        let ghost bb = flat_opt(*buffered);
        let ghost rr = flat_opt(*received);
        let ghost all = bb + rr;
        let ghost s0 = self.read_buffer@.len() as int;
        let total_buffered = buffers_len(buffered);
        let total_received = buffers_len(received);
        let mut send = false;
        let mut read_buffered: usize = 0;
        let mut read_received: usize = 0;
        match buffered {
            Some(bufs) => {
                let (found, read) = self.read_request_until_line_or_size(bufs, n);
                send = found;
                read_buffered = read;
            },
            None => {
                proof {
                    assert(bb.take(0) =~= bb);
                }
            },
        }
        if send {
            proof {
                lemma_line_scan_prefix(bb, rr, s0, n as int, read_buffered as int);
            }
        } else {
            match received {
                Some(bufs) => {
                    let (found, read) = self.read_request_until_line_or_size(bufs, n);
                    send = found;
                    read_received = read;
                },
                None => {
                    proof {
                        assert(rr.take(0) =~= rr);
                    }
                },
            }
            proof {
                lemma_line_scan_concat(bb, rr, s0, n as int, read_received as int);
                assert(bb.take(read_buffered as int) =~= bb);
                assert(all.take(read_buffered + read_received) =~= bb + rr.take(
                    read_received as int,
                ));
            }
        }
        let consumed = read_buffered + read_received;
        proof {
            assert(self.read_buffer@ =~= old(self).read_buffer@ + all.take(consumed as int));
        }
        if send || self.request_closed {
            let mut body: Vec<u8> = Vec::new();
            std::mem::swap(&mut body, &mut self.read_buffer);
            self.pending_read = RequestReadEvent::Wait;
            let closed = consumed == total_buffered + total_received && self.request_closed;
            ReadPlan {
                drain_buffered: read_buffered,
                drain_received: read_received,
                send: Some(RequestBody { body, closed }),
            }
        } else {
            ReadPlan { drain_buffered: read_buffered, drain_received: read_received, send: None }
        }
    }

    /// Takes the reads the application issued (the last one wins), then
    /// answers the pending read from the body Envoy holds, `buffered` bytes
    /// first, then `received` ones: a raw read of a positive size takes up to
    /// that many bytes; a raw read of no size collects the whole body until it
    /// is finished; a line read collects bytes until a newline, its size, or
    /// the end of the body. Nothing is read while no byte is readable and the
    /// body is not finished.
    pub fn process_read(
        &mut self,
        bridge: &mut EventBridge<RequestReadEvent>,
        buffered: &Option<Vec<Vec<u8>>>,
        received: &Option<Vec<Vec<u8>>>,
    ) -> (plan: ReadPlan)
        requires
            old(self).read_buffer@.len() + flat_opt(*buffered).len() + flat_opt(*received).len()
                <= usize::MAX,
        ensures
            final(bridge).view() == crate::eventbridge::drained(old(bridge).view()),
            ({
                let s = RequestReader {
                    pending_read: latest_read(
                        old(self).pending_read,
                        pending_or_nothing(old(bridge).view()),
                    ),
                    ..*old(self)
                };
                let all = flat_opt(*buffered) + flat_opt(*received);
                let nb = flat_opt(*buffered).len() as int;
                if all.len() == 0 && !s.request_closed {
                    no_answer(s, *final(self), plan)
                } else {
                    match s.pending_read {
                        RequestReadEvent::Wait => no_answer(s, *final(self), plan),
                        RequestReadEvent::Raw(n) => if n > 0 {
                            raw_sized_answer(s, *final(self), plan, all, nb, n as int)
                        } else {
                            raw_all_answer(s, *final(self), plan, all, nb)
                        },
                        RequestReadEvent::Line(n) => line_answer(
                            s,
                            *final(self),
                            plan,
                            all,
                            nb,
                            n as int,
                        ),
                    }
                }
            }),
    {
        let events = bridge.take_all();
        if events.len() > 0 {
            self.pending_read = events[events.len() - 1];
        }
        if !has_request_body(buffered, received) && !self.request_closed {
            return ReadPlan { drain_buffered: 0, drain_received: 0, send: None };
        }
        match self.pending_read {
            RequestReadEvent::Raw(n) => {
                if n > 0 {
                    self.answer_raw_sized(n, buffered, received)
                } else {
                    self.answer_raw_all(buffered, received)
                }
            },
            RequestReadEvent::Line(n) => self.answer_line(n, buffered, received),
            RequestReadEvent::Wait => ReadPlan { drain_buffered: 0, drain_received: 0, send: None },
        }
    }
}

/// The bytes handed to the application.
pub open spec fn sent_bytes(plan: ReadPlan) -> Seq<u8> {
    match plan.send {
        Some(b) => b.body@,
        None => Seq::empty(),
    }
}

/// No byte of the request body is lost or reordered by a read: what the
/// application gets, followed by what stays buffered, is what was buffered
/// before followed by the bytes drained from Envoy. (A raw read of a given
/// size leaves a line read's buffer aside, so that case assumes it empty.)
pub proof fn law_read_keeps_every_byte(
    s: RequestReader,
    f: RequestReader,
    plan: ReadPlan,
    all: Seq<u8>,
    nb: int,
    n: int,
)
    requires
        (raw_sized_answer(s, f, plan, all, nb, n) && n > 0 && s.read_buffer@.len() == 0)
            || raw_all_answer(s, f, plan, all, nb) || line_answer(s, f, plan, all, nb, n),
    ensures
        sent_bytes(plan) + f.read_buffer@ == s.read_buffer@ + all.take(
            plan.drain_buffered + plan.drain_received,
        ),
{
    let c = plan.drain_buffered + plan.drain_received;
    if raw_sized_answer(s, f, plan, all, nb, n) && n > 0 && s.read_buffer@.len() == 0 {
        assert(sent_bytes(plan) + f.read_buffer@ =~= s.read_buffer@ + all.take(c));
    } else if raw_all_answer(s, f, plan, all, nb) {
        assert(all.take(c) =~= all);
        assert(sent_bytes(plan) + f.read_buffer@ =~= s.read_buffer@ + all.take(c));
    } else {
        assert(sent_bytes(plan) + f.read_buffer@ =~= s.read_buffer@ + all.take(c));
    }
}

/// An answered read marks the input finished exactly when the request body
/// is finished and the read drained every readable byte: while a byte stays
/// behind, later reads still get it.
pub proof fn law_closed_only_when_drained(
    s: RequestReader,
    f: RequestReader,
    plan: ReadPlan,
    all: Seq<u8>,
    nb: int,
    n: int,
)
    requires
        (raw_sized_answer(s, f, plan, all, nb, n) && n > 0) || raw_all_answer(s, f, plan, all, nb)
            || line_answer(s, f, plan, all, nb, n),
    ensures
        plan.send matches Some(b) ==> (b.closed <==> (s.request_closed && plan.drain_buffered
            + plan.drain_received == all.len())),
        plan.drain_buffered + plan.drain_received <= all.len(),
{
    if raw_sized_answer(s, f, plan, all, nb, n) && n > 0 {
    } else if raw_all_answer(s, f, plan, all, nb) {
    } else {
    }
}

} // verus!
