//! The ASGI lifespan protocol: startup and shutdown of the application.
use crate::text::{ascii, ascii_vec, bytes_eq};
use vstd::prelude::*;

verus! {

/// Where the lifespan protocol stands; it only moves forward.
#[derive(Clone, Copy, PartialEq, Eq, Structural, Debug)]
pub enum NextLifespanEvent {
    /// Waiting for the startup messages.
    Startup,
    /// Waiting for the shutdown messages.
    Shutdown,
    /// Done.
    Completed,
}

/// The order of the lifespan stages.
pub open spec fn stage(n: NextLifespanEvent) -> int {
    match n {
        NextLifespanEvent::Startup => 0,
        NextLifespanEvent::Shutdown => 1,
        NextLifespanEvent::Completed => 2,
    }
}

/// What the application tells the server about its lifespan.
pub enum LifespanEvent {
    StartupComplete,
    StartupFailed(Vec<u8>),
    ShutdownComplete,
    ShutdownFailed(Vec<u8>),
    /// The lifespan coroutine raised: the message describes the exception.
    LifespanFailed(Vec<u8>),
    /// The lifespan coroutine returned.
    LifespanComplete,
}

/// What `receive` gives the application.
#[derive(PartialEq, Eq, Structural, Debug)]
pub enum LifespanRecv {
    /// `lifespan.startup`, right away.
    Startup,
    /// `lifespan.shutdown`, once the server shuts down.
    Shutdown,
}

/// Misuses of the lifespan protocol.
#[derive(PartialEq, Eq, Structural, Debug)]
pub enum LifespanError {
    /// `receive` after the shutdown was received.
    RecvAfterShutdown,
    /// A message other than the startup ones during startup.
    ExpectedStartup,
    /// A message other than the shutdown ones during shutdown.
    ExpectedShutdown,
    /// `send` after the shutdown was reported.
    SendAfterShutdown,
}

/// The `receive` callable of the lifespan scope.
pub struct LifespanReceiver {
    pub next_event: NextLifespanEvent,
}

impl LifespanReceiver {
    pub fn new() -> (res: Self)
        ensures
            res.next_event == NextLifespanEvent::Startup,
    {
        LifespanReceiver { next_event: NextLifespanEvent::Startup }
    }

    /// Gives the startup message, then the shutdown one, then fails.
    pub fn recv(&mut self) -> (res: Result<LifespanRecv, LifespanError>)
        ensures
            stage(old(self).next_event) <= stage(final(self).next_event),
            match old(self).next_event {
                NextLifespanEvent::Startup => res == Ok::<LifespanRecv, LifespanError>(
                    LifespanRecv::Startup,
                ) && final(self).next_event == NextLifespanEvent::Shutdown,
                NextLifespanEvent::Shutdown => res == Ok::<LifespanRecv, LifespanError>(
                    LifespanRecv::Shutdown,
                ) && final(self).next_event == NextLifespanEvent::Completed,
                NextLifespanEvent::Completed => res == Err::<LifespanRecv, LifespanError>(
                    LifespanError::RecvAfterShutdown,
                ) && final(self).next_event == NextLifespanEvent::Completed,
            },
    {
        match self.next_event {
            NextLifespanEvent::Startup => {
                self.next_event = NextLifespanEvent::Shutdown;
                Ok(LifespanRecv::Startup)
            },
            NextLifespanEvent::Shutdown => {
                self.next_event = NextLifespanEvent::Completed;
                Ok(LifespanRecv::Shutdown)
            },
            NextLifespanEvent::Completed => Err(LifespanError::RecvAfterShutdown),
        }
    }
}

pub open spec fn startup_complete() -> Seq<u8> {
    ascii(
        seq![
            'l', 'i', 'f', 'e', 's', 'p', 'a', 'n', '.', 's', 't', 'a', 'r', 't', 'u', 'p', '.',
            'c', 'o', 'm', 'p', 'l', 'e', 't', 'e'
        ],
    )
}

pub open spec fn startup_failed() -> Seq<u8> {
    ascii(
        seq![
            'l', 'i', 'f', 'e', 's', 'p', 'a', 'n', '.', 's', 't', 'a', 'r', 't', 'u', 'p', '.',
            'f', 'a', 'i', 'l', 'e', 'd'
        ],
    )
}

pub open spec fn shutdown_complete() -> Seq<u8> {
    ascii(
        seq![
            'l', 'i', 'f', 'e', 's', 'p', 'a', 'n', '.', 's', 'h', 'u', 't', 'd', 'o', 'w', 'n',
            '.', 'c', 'o', 'm', 'p', 'l', 'e', 't', 'e'
        ],
    )
}

pub open spec fn shutdown_failed() -> Seq<u8> {
    ascii(
        seq![
            'l', 'i', 'f', 'e', 's', 'p', 'a', 'n', '.', 's', 'h', 'u', 't', 'd', 'o', 'w', 'n',
            '.', 'f', 'a', 'i', 'l', 'e', 'd'
        ],
    )
}

/// The `send` callable of the lifespan scope.
pub struct LifespanSender {
    pub next_event: NextLifespanEvent,
}

impl LifespanSender {
    pub fn new() -> (res: Self)
        ensures
            res.next_event == NextLifespanEvent::Startup,
    {
        LifespanSender { next_event: NextLifespanEvent::Startup }
    }

    /// Takes a message of type `typ` (with its `message` text, empty when
    /// absent): the startup outcome first, then the shutdown outcome; any
    /// other message is refused and changes nothing.
    pub fn send(&mut self, typ: &[u8], message: Vec<u8>) -> (res: Result<LifespanEvent, LifespanError>)
        ensures
            stage(old(self).next_event) <= stage(final(self).next_event),
            match old(self).next_event {
                NextLifespanEvent::Startup => if typ@ == startup_complete() {
                    res matches Ok(LifespanEvent::StartupComplete) && final(self).next_event
                        == NextLifespanEvent::Shutdown
                } else if typ@ == startup_failed() {
                    res matches Ok(LifespanEvent::StartupFailed(m)) && m@ == message@
                        && final(self).next_event == NextLifespanEvent::Shutdown
                } else {
                    res matches Err(LifespanError::ExpectedStartup) && final(self).next_event
                        == NextLifespanEvent::Startup
                },
                NextLifespanEvent::Shutdown => if typ@ == shutdown_complete() {
                    res matches Ok(LifespanEvent::ShutdownComplete) && final(self).next_event
                        == NextLifespanEvent::Completed
                } else if typ@ == shutdown_failed() {
                    res matches Ok(LifespanEvent::ShutdownFailed(m)) && m@ == message@
                        && final(self).next_event == NextLifespanEvent::Completed
                } else {
                    res matches Err(LifespanError::ExpectedShutdown) && final(self).next_event
                        == NextLifespanEvent::Shutdown
                },
                NextLifespanEvent::Completed => res matches Err(LifespanError::SendAfterShutdown)
                    && final(self).next_event == NextLifespanEvent::Completed,
            },
    {
        proof {
            reveal_strlit("lifespan.startup.complete");
            reveal_strlit("lifespan.startup.failed");
            reveal_strlit("lifespan.shutdown.complete");
            reveal_strlit("lifespan.shutdown.failed");
        }
        match self.next_event {
            NextLifespanEvent::Startup => {
                let complete = ascii_vec("lifespan.startup.complete");
                let failed = ascii_vec("lifespan.startup.failed");
                assert(complete@ == startup_complete());
                assert(failed@ == startup_failed());
                if bytes_eq(typ, complete.as_slice()) {
                    self.next_event = NextLifespanEvent::Shutdown;
                    Ok(LifespanEvent::StartupComplete)
                } else if bytes_eq(typ, failed.as_slice()) {
                    self.next_event = NextLifespanEvent::Shutdown;
                    Ok(LifespanEvent::StartupFailed(message))
                } else {
                    Err(LifespanError::ExpectedStartup)
                }
            },
            NextLifespanEvent::Shutdown => {
                let complete = ascii_vec("lifespan.shutdown.complete");
                let failed = ascii_vec("lifespan.shutdown.failed");
                assert(complete@ == shutdown_complete());
                assert(failed@ == shutdown_failed());
                if bytes_eq(typ, complete.as_slice()) {
                    self.next_event = NextLifespanEvent::Completed;
                    Ok(LifespanEvent::ShutdownComplete)
                } else if bytes_eq(typ, failed.as_slice()) {
                    self.next_event = NextLifespanEvent::Completed;
                    Ok(LifespanEvent::ShutdownFailed(message))
                } else {
                    Err(LifespanError::ExpectedShutdown)
                }
            },
            NextLifespanEvent::Completed => Err(LifespanError::SendAfterShutdown),
        }
    }
}

/// Why the server does not start.
pub enum StartupError {
    /// The application reported a failed startup, with its message.
    Failed(Vec<u8>),
    /// The lifespan failed while it was required.
    Exiting,
}

/// The outcome of startup once the application's first lifespan event
/// arrived: whether lifespan is supported, or why the server cannot start.
/// A startup event is the only kind that can arrive first.
pub fn startup_outcome(event: LifespanEvent, require_lifespan: bool) -> (res: Result<bool, StartupError>)
    requires
        !(event is ShutdownComplete),
        !(event is ShutdownFailed),
    ensures
        match event {
            LifespanEvent::StartupComplete => res == Ok::<bool, StartupError>(true),
            LifespanEvent::StartupFailed(m) => res matches Err(StartupError::Failed(n)) && n@ == m@,
            LifespanEvent::LifespanFailed(_) => if require_lifespan {
                res matches Err(StartupError::Exiting)
            } else {
                res == Ok::<bool, StartupError>(false)
            },
            LifespanEvent::LifespanComplete => res == Ok::<bool, StartupError>(false),
            _ => false,
        },
{
    match event {
        LifespanEvent::StartupComplete => Ok(true),
        LifespanEvent::StartupFailed(m) => Err(StartupError::Failed(m)),
        LifespanEvent::LifespanFailed(_) => {
            if require_lifespan {
                Err(StartupError::Exiting)
            } else {
                Ok(false)
            }
        },
        LifespanEvent::LifespanComplete => Ok(false),
        LifespanEvent::ShutdownComplete => Ok(false),
        LifespanEvent::ShutdownFailed(_) => Ok(false),
    }
}

/// The outcome when calling the application with the lifespan scope fails
/// at once: the server cannot start when lifespan is required, else lifespan
/// is unsupported.
pub fn call_failed_outcome(require_lifespan: bool) -> (res: Result<bool, StartupError>)
    ensures
        require_lifespan ==> res matches Err(StartupError::Exiting),
        !require_lifespan ==> res == Ok::<bool, StartupError>(false),
{
    if require_lifespan {
        Err(StartupError::Exiting)
    } else {
        Ok(false)
    }
}

/// What is logged when shutdown ends.
pub enum ShutdownLog {
    /// "Application shutdown complete."
    Complete,
    /// "Application shutdown failed: " and the message.
    Failed(Vec<u8>),
    /// "Lifespan exception during shutdown: " and the message.
    LifespanException(Vec<u8>),
    /// Nothing: the coroutine returned without reporting.
    Nothing,
}

/// What is logged for the application's last lifespan event. A startup
/// event cannot arrive at shutdown.
pub fn shutdown_log(event: LifespanEvent) -> (res: ShutdownLog)
    requires
        !(event is StartupComplete),
        !(event is StartupFailed),
    ensures
        match event {
            LifespanEvent::ShutdownComplete => res is Complete,
            LifespanEvent::ShutdownFailed(m) => res matches ShutdownLog::Failed(n) && n@ == m@,
            LifespanEvent::LifespanFailed(m) => res matches ShutdownLog::LifespanException(n) && n@ == m@,
            LifespanEvent::LifespanComplete => res is Nothing,
            _ => false,
        },
{
    match event {
        LifespanEvent::ShutdownComplete => ShutdownLog::Complete,
        LifespanEvent::ShutdownFailed(m) => ShutdownLog::Failed(m),
        LifespanEvent::LifespanFailed(m) => ShutdownLog::LifespanException(m),
        LifespanEvent::LifespanComplete => ShutdownLog::Nothing,
        LifespanEvent::StartupComplete => ShutdownLog::Nothing,
        LifespanEvent::StartupFailed(_) => ShutdownLog::Nothing,
    }
}

} // verus!
