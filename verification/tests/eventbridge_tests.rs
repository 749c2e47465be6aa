use pyvoy::eventbridge::EventBridge;

#[test]
fn bridge_delivers_events_in_order() {
    let mut bridge: EventBridge<u32> = EventBridge::new();
    assert!(bridge.send(1).is_ok());
    assert!(bridge.send(2).is_ok());
    assert!(bridge.send(3).is_ok());
    assert_eq!(bridge.take_all(), vec![1, 2, 3]);
    assert!(bridge.is_empty());
}

#[test]
fn bridge_single_event_round_trip() {
    let mut bridge: EventBridge<&str> = EventBridge::new();
    assert!(bridge.is_empty());
    assert!(bridge.send("only").is_ok());
    assert!(!bridge.is_empty());
    assert_eq!(bridge.take_all(), vec!["only"]);
    assert!(bridge.take_all().is_empty());
}

#[test]
fn closed_bridge_refuses_and_hands_event_back() {
    let mut bridge: EventBridge<u32> = EventBridge::new();
    assert!(bridge.send(1).is_ok());
    bridge.close();
    assert!(bridge.is_closed());
    assert_eq!(bridge.send(7), Err(7));
    assert!(bridge.is_closed());
}

#[test]
fn draining_a_closed_bridge_yields_nothing_and_keeps_it_closed() {
    let mut bridge: EventBridge<u32> = EventBridge::new();
    assert!(bridge.send(1).is_ok());
    bridge.close();
    assert!(bridge.take_all().is_empty());
    assert!(bridge.is_closed());
    assert_eq!(bridge.send(5), Err(5));
}

#[test]
fn get_returns_oldest_first() {
    let mut bridge: EventBridge<u32> = EventBridge::new();
    assert_eq!(bridge.get(), None);
    bridge.send(10).unwrap();
    bridge.send(20).unwrap();
    bridge.send(30).unwrap();
    assert_eq!(bridge.get(), Some(10));
    assert_eq!(bridge.get(), Some(20));
    assert_eq!(bridge.take_all(), vec![30]);
    bridge.close();
    assert_eq!(bridge.get(), None);
}
