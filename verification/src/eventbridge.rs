use vstd::prelude::*;

verus! {

/// The events a bridge with view `v` holds: none when it is closed.
pub open spec fn pending_or_nothing<T>(v: Option<Seq<T>>) -> Seq<T> {
    match v {
        Some(q) => q,
        None => Seq::empty(),
    }
}

/// After a send of `e`: the bridge holds its events plus `e` when it was
/// open, and stays closed otherwise.
pub open spec fn queued<T>(before: Option<Seq<T>>, after: Option<Seq<T>>, e: T) -> bool {
    match before {
        Some(q) => after == Some(q.push(e)),
        None => after is None,
    }
}

/// A bridge with view `v` after all its events were taken: empty when it
/// was open, still closed otherwise.
pub open spec fn drained<T>(v: Option<Seq<T>>) -> Option<Seq<T>> {
    match v {
        Some(_) => Some(Seq::empty()),
        None => None,
    }
}

/// The internal state of an [`EventBridge`].
pub enum BridgeState<T> {
    /// The bridge was closed: further sends fail.
    Closed,
    /// No event is pending.
    Empty,
    /// Exactly one event is pending (the common case for well-behaved apps).
    Single(T),
    /// Several events are pending, oldest first.
    Multiple(Vec<T>),
}

/// A queue of events between an Envoy filter and the Python side.
///
/// Optimized for the case of a single pending event, it avoids allocating a
/// vector unless the application issues several events before the filter
/// drains them. Sharing between threads is done by the caller, which wraps it
/// in a lock.
pub struct EventBridge<T> {
    state: BridgeState<T>,
}

impl<T> EventBridge<T> {
    /// The pending events, oldest first, or `None` when the bridge is closed.
    pub closed spec fn view(&self) -> Option<Seq<T>> {
        match self.state {
            BridgeState::Closed => None,
            BridgeState::Empty => Some(Seq::empty()),
            BridgeState::Single(e) => Some(seq![e]),
            BridgeState::Multiple(v) => Some(v@),
        }
    }

    /// Creates a new, open bridge with no pending event.
    pub fn new() -> (res: Self)
        ensures
            res.view() == Some(Seq::<T>::empty()),
    {
        EventBridge { state: BridgeState::Empty }
    }

    /// Queues an event. Fails, handing the event back, when the bridge is closed.
    pub fn send(&mut self, event: T) -> (res: Result<(), T>)
        ensures
            queued(old(self).view(), final(self).view(), event),
            old(self).view() is None ==> res == Err::<(), T>(event),
            old(self).view() is Some ==> res is Ok,
    {
        let mut state = BridgeState::Empty;
        std::mem::swap(&mut state, &mut self.state);
        match state {
            BridgeState::Closed => {
                self.state = BridgeState::Closed;
                Err(event)
            },
            BridgeState::Empty => {
                self.state = BridgeState::Single(event);
                Ok(())
            },
            BridgeState::Single(first) => {
                let mut v: Vec<T> = Vec::new();
                v.push(first);
                v.push(event);
                proof {
                    assert(v@ =~= seq![first].push(event));
                }
                self.state = BridgeState::Multiple(v);
                Ok(())
            },
            BridgeState::Multiple(mut v) => {
                v.push(event);
                self.state = BridgeState::Multiple(v);
                Ok(())
            },
        }
    }

    /// Removes and returns every pending event, oldest first, leaving an
    /// open bridge empty. A closed bridge yields nothing and stays closed.
    pub fn take_all(&mut self) -> (res: Vec<T>)
        ensures
            res@ == pending_or_nothing(old(self).view()),
            final(self).view() == drained(old(self).view()),
    {
        let mut state = BridgeState::Empty;
        std::mem::swap(&mut state, &mut self.state);
        match state {
            BridgeState::Closed => {
                self.state = BridgeState::Closed;
                Vec::new()
            },
            BridgeState::Empty => Vec::new(),
            BridgeState::Single(e) => {
                let mut v: Vec<T> = Vec::new();
                v.push(e);
                proof {
                    assert(v@ =~= seq![e]);
                }
                v
            },
            BridgeState::Multiple(v) => v,
        }
    }

    /// Removes and returns the oldest pending event, if any.
    pub fn get(&mut self) -> (res: Option<T>)
        ensures
            match old(self).view() {
                None => res is None && final(self).view() is None,
                Some(q) => if q.len() == 0 {
                    res is None && final(self).view() == Some(q)
                } else {
                    res == Some(q[0]) && final(self).view() == Some(q.drop_first())
                },
            },
    {
        let mut state = BridgeState::Empty;
        std::mem::swap(&mut state, &mut self.state);
        match state {
            BridgeState::Closed => {
                self.state = BridgeState::Closed;
                None
            },
            BridgeState::Empty => None,
            BridgeState::Single(e) => {
                proof {
                    assert(seq![e].drop_first() =~= Seq::<T>::empty());
                }
                Some(e)
            },
            BridgeState::Multiple(mut v) => {
                if v.len() == 0 {
                    self.state = BridgeState::Multiple(v);
                    None
                } else {
                    let ghost old_v = v@;
                    let first = v.remove(0);
                    proof {
                        assert(v@ =~= old_v.drop_first());
                    }
                    self.state = BridgeState::Multiple(v);
                    Some(first)
                }
            },
        }
    }

    /// Whether no event is pending (a closed bridge has none).
    pub fn is_empty(&self) -> (res: bool)
        ensures
            res == match self.view() {
                None => true,
                Some(q) => q.len() == 0,
            },
    {
        match &self.state {
            BridgeState::Closed => true,
            BridgeState::Empty => true,
            BridgeState::Single(_) => false,
            BridgeState::Multiple(v) => v.len() == 0,
        }
    }

    /// Whether the bridge is closed.
    pub fn is_closed(&self) -> (res: bool)
        ensures
            res == (self.view() is None),
    {
        match &self.state {
            BridgeState::Closed => true,
            _ => false,
        }
    }

    /// Closes the bridge, dropping pending events. Further sends fail.
    pub fn close(&mut self)
        ensures
            final(self).view() is None,
    {
        self.state = BridgeState::Closed;
    }
}

/// Events come out in the order they went in: sending `a` then `b` to an
/// open bridge, then taking everything, gives its earlier events, `a`, `b`,
/// and leaves it open and empty.
pub proof fn law_bridge_fifo<T>(
    v0: Option<Seq<T>>,
    v1: Option<Seq<T>>,
    v2: Option<Seq<T>>,
    a: T,
    b: T,
)
    requires
        v0 is Some,
        queued(v0, v1, a),
        queued(v1, v2, b),
    ensures
        pending_or_nothing(v2) == pending_or_nothing(v0) + seq![a, b],
{
    assert(pending_or_nothing(v2) =~= pending_or_nothing(v0) + seq![a, b]);
}

/// A closed bridge refuses every event and stays closed.
pub proof fn law_closed_bridge_stays_closed<T>(v0: Option<Seq<T>>, v1: Option<Seq<T>>, e: T)
    requires
        v0 is None,
        queued(v0, v1, e),
    ensures
        v1 is None,
{
}

/// Any number of events come out in the order they went in: sending
/// `es[0]`, ..., `es[k - 1]` to an open bridge, each send taking its view
/// from `views[i]` to `views[i + 1]`, leaves its earlier events followed by
/// all of `es`, none lost or repeated; draining it then leaves nothing for
/// a second drain.
pub proof fn law_bridge_fifo_all<T>(views: Seq<Option<Seq<T>>>, es: Seq<T>)
    requires
        views.len() == es.len() + 1,
        views[0] is Some,
        forall|i: int| 0 <= i < es.len() ==> #[trigger] queued(views[i], views[i + 1], es[i]),
    ensures
        views[es.len() as int] is Some,
        pending_or_nothing(views[es.len() as int]) == pending_or_nothing(views[0]) + es,
        pending_or_nothing(drained(views[es.len() as int])).len() == 0,
    decreases es.len(),
{
    if es.len() == 0 {
        assert(pending_or_nothing(views[0]) + es =~= pending_or_nothing(views[0]));
    } else {
        let k = es.len() - 1;
        let vs = views.take(k + 1);
        let e2 = es.take(k);
        assert forall|i: int| 0 <= i < e2.len() implies #[trigger] queued(vs[i], vs[i + 1], e2[i]) by {
            assert(queued(views[i], views[i + 1], es[i]));
        }
        law_bridge_fifo_all(vs, e2);
        assert(queued(views[k], views[k + 1], es[k]));
        assert(pending_or_nothing(views[es.len() as int]) =~= pending_or_nothing(views[0]) + es);
    }
}

} // verus!
