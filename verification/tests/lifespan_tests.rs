use pyvoy::asgi::lifespan::{
    call_failed_outcome, shutdown_log, startup_outcome, LifespanError, LifespanEvent,
    LifespanReceiver, LifespanRecv, LifespanSender, NextLifespanEvent, ShutdownLog, StartupError,
};

#[test]
fn lifespan_receive_sequence() {
    let mut r = LifespanReceiver::new();
    assert_eq!(r.recv(), Ok(LifespanRecv::Startup));
    assert_eq!(r.recv(), Ok(LifespanRecv::Shutdown));
    assert_eq!(r.recv(), Err(LifespanError::RecvAfterShutdown));
    assert_eq!(r.next_event, NextLifespanEvent::Completed);
}

#[test]
fn lifespan_send_sequence() {
    let mut s = LifespanSender::new();
    assert!(matches!(
        s.send(b"lifespan.startup.complete", Vec::new()),
        Ok(LifespanEvent::StartupComplete)
    ));
    assert_eq!(s.next_event, NextLifespanEvent::Shutdown);
    match s.send(b"lifespan.shutdown.failed", b"boom".to_vec()) {
        Ok(LifespanEvent::ShutdownFailed(m)) => assert_eq!(m, b"boom".to_vec()),
        _ => panic!("expected shutdown failure"),
    }
    assert_eq!(s.next_event, NextLifespanEvent::Completed);
    assert!(matches!(
        s.send(b"lifespan.shutdown.complete", Vec::new()),
        Err(LifespanError::SendAfterShutdown)
    ));
}

#[test]
fn lifespan_send_wrong_stage_changes_nothing() {
    let mut s = LifespanSender::new();
    assert!(matches!(
        s.send(b"lifespan.shutdown.complete", Vec::new()),
        Err(LifespanError::ExpectedStartup)
    ));
    assert_eq!(s.next_event, NextLifespanEvent::Startup);
    match s.send(b"lifespan.startup.failed", b"no db".to_vec()) {
        Ok(LifespanEvent::StartupFailed(m)) => assert_eq!(m, b"no db".to_vec()),
        _ => panic!("expected startup failure"),
    }
    assert!(matches!(
        s.send(b"lifespan.startup.complete", Vec::new()),
        Err(LifespanError::ExpectedShutdown)
    ));
    assert_eq!(s.next_event, NextLifespanEvent::Shutdown);
}

#[test]
fn startup_outcomes() {
    assert!(matches!(startup_outcome(LifespanEvent::StartupComplete, true), Ok(true)));
    match startup_outcome(LifespanEvent::StartupFailed(b"bad".to_vec()), false) {
        Err(StartupError::Failed(m)) => assert_eq!(m, b"bad".to_vec()),
        _ => panic!("expected failure"),
    }
    assert!(matches!(
        startup_outcome(LifespanEvent::LifespanFailed(b"x".to_vec()), true),
        Err(StartupError::Exiting)
    ));
    assert!(matches!(
        startup_outcome(LifespanEvent::LifespanFailed(b"x".to_vec()), false),
        Ok(false)
    ));
    assert!(matches!(startup_outcome(LifespanEvent::LifespanComplete, true), Ok(false)));
    assert!(matches!(call_failed_outcome(true), Err(StartupError::Exiting)));
    assert!(matches!(call_failed_outcome(false), Ok(false)));
}

#[test]
fn shutdown_logs() {
    assert!(matches!(shutdown_log(LifespanEvent::ShutdownComplete), ShutdownLog::Complete));
    match shutdown_log(LifespanEvent::ShutdownFailed(b"m".to_vec())) {
        ShutdownLog::Failed(m) => assert_eq!(m, b"m".to_vec()),
        _ => panic!("expected failed"),
    }
    match shutdown_log(LifespanEvent::LifespanFailed(b"e".to_vec())) {
        ShutdownLog::LifespanException(m) => assert_eq!(m, b"e".to_vec()),
        _ => panic!("expected exception"),
    }
    assert!(matches!(shutdown_log(LifespanEvent::LifespanComplete), ShutdownLog::Nothing));
}
