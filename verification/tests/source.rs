use pubsub_replay::record::{Record, Step};
use pubsub_replay::source::{detect, LogKind, Source, PROBE_LEN};
use pubsub_replay::text_log::TextReader;

fn line(payload: &[u8], is_last: bool) -> Step {
    Step::Record(Record { payload: payload.to_vec(), is_last })
}

#[test]
fn text_file_is_detected_as_text() {
    assert_eq!(detect(b"one\ntwo\n"), LogKind::Text);
    assert_eq!(detect(b""), LogKind::Text);
}

#[test]
fn file_with_bad_byte_is_detected_as_binary() {
    assert_eq!(detect(&[0x01, 0, 0, 0, 0, 0xff, 0, 0, 0]), LogKind::Binary);
    assert_eq!(detect(&[b'a', b'b', 0x80]), LogKind::Binary);
}

#[test]
fn only_the_first_bytes_decide_the_format() {
    assert_eq!(PROBE_LEN, 1024);
    let mut file = vec![b'a'; 1024];
    assert_eq!(detect(&file), LogKind::Text);
    file.push(0xff);
    assert_eq!(detect(&file), LogKind::Text);
    file.extend_from_slice(&[0x80; 500]);
    assert_eq!(detect(&file), LogKind::Text);
    file[1023] = 0xff;
    assert_eq!(detect(&file), LogKind::Binary);
    file[1023] = b'a';
    file[0] = 0xfe;
    assert_eq!(detect(&file), LogKind::Binary);
}

#[test]
fn character_cut_by_the_probe_makes_the_file_binary() {
    let mut file = vec![b'a'; 1023];
    file.extend_from_slice("\u{e9}".as_bytes());
    assert!(std::str::from_utf8(&file).is_ok());
    assert_eq!(detect(&file), LogKind::Binary);
    let mut file = vec![b'a'; 1022];
    file.extend_from_slice("\u{e9}".as_bytes());
    file.push(0xff);
    assert_eq!(detect(&file), LogKind::Text);
}

#[test]
fn ascii_only_binary_log_is_taken_for_text() {
    let file = vec![0x01, 0, 0, 0, 0, 9, 0, 0, 0];
    assert_eq!(detect(&file), LogKind::Text);
    let mut source = Source::open(&file);
    assert_eq!(source.kind(), LogKind::Text);
    assert_eq!(source.next(), line(&file, true));
    assert_eq!(source.next(), Step::End);
}

#[test]
fn source_reads_binary_log_as_records() {
    let mut file = vec![0x01, 0, 0, 0, 0, 24, 0, 0, 0];
    file.extend_from_slice(&[3, 0, 0, 0]);
    file.extend_from_slice(b"abc");
    file.extend_from_slice(&[0xff; 8]);
    let mut source = Source::open(&file);
    assert_eq!(source.kind(), LogKind::Binary);
    assert_eq!(source.next(), line(b"abc", true));
    assert_eq!(source.next(), Step::End);
}

#[test]
fn text_lines_come_out_without_their_endings() {
    let file = b"one\ntwo\r\nthree";
    let mut reader = TextReader::new(file);
    assert_eq!(reader.position(), 0);
    assert_eq!(reader.next(), line(b"one", false));
    assert_eq!(reader.position(), 4);
    assert_eq!(reader.next(), line(b"two", false));
    assert_eq!(reader.position(), 9);
    assert_eq!(reader.next(), line(b"three", true));
    assert_eq!(reader.position(), file.len());
    assert_eq!(reader.next(), Step::End);
    assert_eq!(reader.next(), Step::End);
}

#[test]
fn empty_lines_are_dropped() {
    let mut reader = TextReader::new(b"\n\r\nx\n\n");
    assert_eq!(reader.next(), Step::Blank);
    assert_eq!(reader.next(), Step::Blank);
    assert_eq!(reader.next(), line(b"x", false));
    assert_eq!(reader.next(), Step::Blank);
    assert_eq!(reader.next(), Step::End);
}

#[test]
fn carriage_return_stays_without_line_feed() {
    let mut reader = TextReader::new(b"a\rb\r\nc\r");
    assert_eq!(reader.next(), line(b"a\rb", false));
    assert_eq!(reader.next(), line(b"c\r", true));
    assert_eq!(reader.next(), Step::End);
    let mut reader = TextReader::new(b"\r\r\n");
    assert_eq!(reader.next(), line(b"\r", true));
}

#[test]
fn final_line_feed_ends_the_file() {
    let mut reader = TextReader::new(b"only\n");
    assert_eq!(reader.next(), line(b"only", true));
    assert_eq!(reader.next(), Step::End);
}

#[test]
fn line_that_is_not_utf8_stops_the_reader() {
    let file = b"good\nb\xffd\nnever\n";
    let mut reader = TextReader::new(file);
    assert_eq!(reader.next(), line(b"good", false));
    assert_eq!(reader.next(), Step::NotText);
    assert_eq!(reader.position(), 5);
    assert_eq!(reader.next(), Step::NotText);
}
