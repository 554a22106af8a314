use pubsub_replay::subscriber::{
    render_line, subscription, to_decimal, Sink, Subscriber, FLUSH_INTERVAL_SECS,
};

#[test]
fn subscription_is_the_topic_or_everything() {
    assert_eq!(subscription(Some("news")), b"news".to_vec());
    assert_eq!(subscription(Some("\u{e9}")), vec![0xc3, 0xa9]);
    assert_eq!(subscription(Some("")), Vec::<u8>::new());
    assert_eq!(subscription(None), Vec::<u8>::new());
}

#[test]
fn decimal_has_no_leading_zeros() {
    assert_eq!(to_decimal(0), "0");
    assert_eq!(to_decimal(7), "7");
    assert_eq!(to_decimal(10), "10");
    assert_eq!(to_decimal(1234567890), "1234567890");
    assert_eq!(to_decimal(u64::MAX), "18446744073709551615");
}

#[test]
fn line_has_tag_topic_and_payload() {
    assert_eq!(render_line("1", "t", "p"), "[1] t => p");
    assert_eq!(render_line("", "", ""), "[]  => ");
}

#[test]
fn file_lines_carry_the_count_from_one() {
    let mut subscriber = Subscriber::new(Sink::File);
    assert_eq!(subscriber.received(), 0);
    assert_eq!(subscriber.frame(b"topic"), None);
    assert_eq!(subscriber.received(), 0);
    assert_eq!(subscriber.frame(b"first"), Some("[1] topic => first".to_string()));
    assert_eq!(subscriber.received(), 1);
    assert_eq!(subscriber.frame(b"topic"), None);
    assert_eq!(subscriber.frame(&[0xAD, 0xDE]), Some("[2] topic => adde".to_string()));
    assert_eq!(subscriber.received(), 2);
    for i in 3..=12u64 {
        assert_eq!(subscriber.frame(&[0xff]), None);
        assert_eq!(subscriber.frame(b""), Some(format!("[{}] ff => ", i)));
    }
}

#[test]
fn console_lines_carry_the_marker() {
    let mut subscriber = Subscriber::new(Sink::Console);
    assert_eq!(subscriber.frame(b"topic"), None);
    assert_eq!(subscriber.frame(b"first"), Some("[*] topic => first".to_string()));
    assert_eq!(subscriber.frame(&[0x80]), None);
    assert_eq!(subscriber.frame(b"second"), Some("[*] 80 => second".to_string()));
    assert_eq!(subscriber.received(), 2);
}

#[test]
fn flush_interval_is_three_seconds() {
    assert_eq!(FLUSH_INTERVAL_SECS, 3);
}
