use ws_hub::hub::WebSocketManager;

#[test]
fn ids_are_monotonic_and_unique() {
    let mut hub = WebSocketManager::new();
    let a = hub.add_connection();
    let b = hub.add_connection();
    let c = hub.add_connection();
    assert_eq!((a, b, c), (0, 1, 2));
    hub.remove_connection(b);
    // an id is never reused, whatever was removed
    let d = hub.add_connection();
    assert_eq!(d, 3);
}

#[test]
fn fan_out_reaches_every_connection_once() {
    let mut hub = WebSocketManager::new();
    let a = hub.add_connection();
    let b = hub.add_connection();
    let c = hub.add_connection();
    // the publisher is a subscriber too, so it hears its own message
    let delivered = hub.broadcast(b"msg".to_vec()).expect("there are subscribers");
    assert_eq!(delivered, 3);
    for id in [a, b, c] {
        assert_eq!(hub.next_message(id), Some(b"msg".to_vec()));
        assert_eq!(hub.next_message(id), None);
    }
}

#[test]
fn publish_order_is_kept_per_subscriber() {
    let mut hub = WebSocketManager::new();
    let a = hub.add_connection();
    let b = hub.add_connection();
    hub.broadcast(b"first".to_vec()).unwrap();
    hub.broadcast(b"second".to_vec()).unwrap();
    hub.broadcast(b"third".to_vec()).unwrap();
    for id in [a, b] {
        assert_eq!(hub.next_message(id), Some(b"first".to_vec()));
        assert_eq!(hub.next_message(id), Some(b"second".to_vec()));
        assert_eq!(hub.next_message(id), Some(b"third".to_vec()));
        assert_eq!(hub.next_message(id), None);
    }
}

#[test]
fn broadcast_without_subscribers_returns_the_message() {
    let mut hub = WebSocketManager::new();
    assert_eq!(hub.broadcast(b"lost".to_vec()), Err(b"lost".to_vec()));
    let a = hub.add_connection();
    hub.remove_connection(a);
    assert_eq!(hub.broadcast(b"lost".to_vec()), Err(b"lost".to_vec()));
}

#[test]
fn removed_connection_gets_no_later_broadcast() {
    let mut hub = WebSocketManager::new();
    let a = hub.add_connection();
    let b = hub.add_connection();
    hub.remove_connection(a);
    let delivered = hub.broadcast(b"late".to_vec()).unwrap();
    assert_eq!(delivered, 1);
    assert_eq!(hub.next_message(a), None);
    assert_eq!(hub.next_message(b), Some(b"late".to_vec()));
}

#[test]
fn removal_drops_pending_messages_with_the_id() {
    let mut hub = WebSocketManager::new();
    let a = hub.add_connection();
    hub.broadcast(b"pending".to_vec()).unwrap();
    hub.remove_connection(a);
    assert_eq!(hub.next_message(a), None);
}

#[test]
fn late_subscriber_sees_no_history() {
    let mut hub = WebSocketManager::new();
    let a = hub.add_connection();
    hub.broadcast(b"early".to_vec()).unwrap();
    let b = hub.add_connection();
    assert_eq!(hub.next_message(b), None);
    assert_eq!(hub.next_message(a), Some(b"early".to_vec()));
}

#[test]
fn slow_subscriber_loses_only_its_oldest_messages() {
    let mut hub = WebSocketManager::new();
    let a = hub.add_connection();
    for i in 0..103u32 {
        hub.broadcast(i.to_be_bytes().to_vec()).unwrap();
    }
    // the queue holds 100 messages: the three oldest were dropped
    let mut received = Vec::new();
    while let Some(msg) = hub.next_message(a) {
        received.push(msg);
    }
    assert_eq!(received.len(), 100);
    assert_eq!(received[0], 3u32.to_be_bytes().to_vec());
    assert_eq!(received[99], 102u32.to_be_bytes().to_vec());
}

#[test]
fn removing_unknown_id_changes_nothing() {
    let mut hub = WebSocketManager::new();
    let a = hub.add_connection();
    hub.remove_connection(77);
    assert_eq!(hub.broadcast(b"still there".to_vec()), Ok(1));
    assert_eq!(hub.next_message(a), Some(b"still there".to_vec()));
}
