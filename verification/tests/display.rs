use pubsub_replay::display::{bytes_to_display, is_utf8, to_hex};

#[test]
fn valid_utf8_is_shown_as_text() {
    assert_eq!(bytes_to_display(b"hello world"), "hello world");
    assert_eq!(bytes_to_display("gr\u{fc}\u{df}e \u{4e16}\u{754c} \u{1f600}".as_bytes()), "gr\u{fc}\u{df}e \u{4e16}\u{754c} \u{1f600}");
    assert_eq!(bytes_to_display(b""), "");
    assert_eq!(bytes_to_display(&[0x00, 0x09, 0x7f]), "\u{0}\t\u{7f}");
}

#[test]
fn invalid_utf8_is_shown_as_lowercase_hex() {
    assert_eq!(bytes_to_display(&[0xDE, 0xAD, 0xBE, 0xEF]), "deadbeef");
    assert_eq!(bytes_to_display(&[0xAD, 0xDE]), "adde");
    assert_eq!(bytes_to_display(&[0xff]), "ff");
    assert_eq!(bytes_to_display(&[0x61, 0x80, 0x0a]), "61800a");
    assert_eq!(bytes_to_display(&[0xc3]), "c3");
    assert_eq!(bytes_to_display(&[0xed, 0xa0, 0x80]), "eda080");
    assert_eq!(bytes_to_display(&[0xc0, 0x80]), "c080");
}

#[test]
fn two_byte_character_is_text_and_not_hex() {
    assert!(is_utf8(&[0xDE, 0xAD]));
    assert_eq!(bytes_to_display(&[0xDE, 0xAD]), "\u{7ad}");
    assert_eq!(to_hex(&[0xDE, 0xAD]), "dead");
}

#[test]
fn hex_has_two_digits_per_byte() {
    assert_eq!(to_hex(&[]), "");
    assert_eq!(to_hex(&[0x00, 0x01, 0x0f, 0x10, 0x9a, 0xbc, 0xde, 0xf0, 0xff]), "00010f109abcdef0ff");
    let all: Vec<u8> = (0..=255).collect();
    let expected: String = all.iter().map(|b| format!("{:02x}", b)).collect();
    assert_eq!(to_hex(&all), expected);
}

#[test]
fn utf8_check_follows_the_bytes() {
    assert!(is_utf8(b"plain"));
    assert!(is_utf8(&[]));
    assert!(is_utf8("\u{e9}".as_bytes()));
    assert!(!is_utf8(&"\u{e9}".as_bytes()[..1]));
    assert!(!is_utf8(&[0xf8, 0x88, 0x80, 0x80, 0x80]));
}

#[test]
fn rendering_round_trips_text_payloads() {
    for text in ["a", "topic/sub", "\u{3b1}\u{3b2}\u{3b3}", "line\nbreak"] {
        assert_eq!(bytes_to_display(text.as_bytes()), text);
    }
}
