use nestri_server::channel::{control_url, CallbackRegistry, Outbox, RECONNECT_DELAY_SECS};

#[test]
fn failed_send_is_retried_after_reconnect() {
    let mut out = Outbox::new();
    out.send_message(vec![1, 2, 3]);
    assert_eq!(out.next_message(), Some(&vec![1, 2, 3]));
    out.transmit_failed();
    assert_eq!(out.next_message(), None);
    out.reconnected();
    assert_eq!(out.next_message(), Some(&vec![1, 2, 3]));
    assert_eq!(out.transmitted(), Some(vec![1, 2, 3]));
    assert_eq!(out.next_message(), None);
    assert_eq!(out.transmitted(), None);
    assert_eq!(RECONNECT_DELAY_SECS, 3);
}

#[test]
fn messages_go_out_in_order_across_failures() {
    let mut out = Outbox::new();
    out.send_message(vec![1]);
    out.transmit_failed();
    out.send_message(vec![2]);
    assert_eq!(out.transmitted(), None);
    out.reconnected();
    assert_eq!(out.transmitted(), Some(vec![1]));
    out.send_message(vec![3]);
    assert_eq!(out.transmitted(), Some(vec![2]));
    assert_eq!(out.transmitted(), Some(vec![3]));
}

#[test]
fn last_registration_wins() {
    let mut reg: CallbackRegistry<u32> = CallbackRegistry::new();
    assert_eq!(reg.get("answer"), None);
    reg.register_callback("answer", 1);
    reg.register_callback("ice", 2);
    reg.register_callback("answer", 3);
    assert_eq!(reg.get("answer"), Some(&3));
    assert_eq!(reg.get("ice"), Some(&2));
    assert_eq!(reg.get("sdp"), None);
}

#[test]
fn relay_urls_switch_to_websocket_schemes() {
    assert_eq!(control_url("http://relay:8088", "room1"), "ws://relay:8088/api/ws/room1");
    assert_eq!(control_url("https://relay.example.com", "r"), "wss://relay.example.com/api/ws/r");
    assert_eq!(control_url("ws://x", "r"), "ws://x/api/ws/r");
}
