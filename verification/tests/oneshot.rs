use nezuko::channel::oneshot::channel;

#[test]
fn receive_gets_the_sent_value() {
    let (tx, rx, mut ch) = channel::<u32, &str>();
    assert_eq!(rx.recv_blocking(&mut ch), None);
    assert_eq!(tx.send(&mut ch, 42), None);
    assert_eq!(rx.recv_blocking(&mut ch), Some(42));
    // handed out once
    assert_eq!(rx.recv_blocking(&mut ch), None);
    assert_eq!(rx.poll(&mut ch, "w"), None);
}

#[test]
fn early_receiver_is_woken() {
    let (tx, rx, mut ch) = channel::<&str, u8>();
    assert_eq!(rx.poll(&mut ch, 1), None);
    assert_eq!(rx.poll(&mut ch, 2), None);
    assert_eq!(tx.send(&mut ch, "hello"), Some(2));
    assert_eq!(rx.poll(&mut ch, 3), Some("hello"));
}
