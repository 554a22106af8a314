use pubsub_replay::record::{Record, Step};
use pubsub_replay::record_log::{read_header, read_log, Header, LogReader};

fn header(active: u8, seq_lock: i32, data_offset: i32) -> Vec<u8> {
    let mut file = vec![active];
    file.extend_from_slice(&seq_lock.to_le_bytes());
    file.extend_from_slice(&data_offset.to_le_bytes());
    file
}

fn push_record(file: &mut Vec<u8>, payload: &[u8], stamp: [u8; 8]) {
    file.extend_from_slice(&(payload.len() as i32).to_le_bytes());
    file.extend_from_slice(payload);
    file.extend_from_slice(&stamp);
}

fn well_formed(payloads: &[&[u8]]) -> Vec<u8> {
    let mut region = Vec::new();
    for (i, payload) in payloads.iter().enumerate() {
        push_record(&mut region, payload, [i as u8; 8]);
    }
    let mut file = header(1, 7, 9 + region.len() as i32);
    file.extend_from_slice(&region);
    file
}

fn record(payload: &[u8], is_last: bool) -> Record {
    Record { payload: payload.to_vec(), is_last }
}

#[test]
fn header_only_log_yields_no_record() {
    let file = vec![0x01, 0, 0, 0, 0, 9, 0, 0, 0];
    let log = read_log(&file);
    assert!(log.records.is_empty());
    assert!(!log.malformed);
    assert_eq!(log.consumed, 9);
    let mut reader = LogReader::new(&file);
    assert_eq!(reader.next(), Step::End);
    assert_eq!(reader.next(), Step::End);
}

#[test]
fn single_record_log_yields_its_payload() {
    let mut file = vec![0x01, 0, 0, 0, 0, 24, 0, 0, 0];
    file.extend_from_slice(&[3, 0, 0, 0]);
    file.extend_from_slice(b"abc");
    file.extend_from_slice(&[0x11, 0x22, 0x33, 0x44, 0x55, 0x66, 0x77, 0x88]);
    assert_eq!(file.len(), 24);
    let log = read_log(&file);
    assert_eq!(log.records, vec![record(b"abc", true)]);
    assert!(!log.malformed);
    assert_eq!(log.consumed, 24);
}

#[test]
fn header_fields_are_little_endian_and_signed() {
    let file = vec![0x01, 0xfe, 0xff, 0xff, 0xff, 0x18, 0x01, 0, 0];
    assert_eq!(read_header(&file), Header { active: true, seq_lock: -2, data_offset: 0x118 });
    let file = vec![0x00, 0x78, 0x56, 0x34, 0x12, 0, 0, 0, 0x80];
    assert_eq!(
        read_header(&file),
        Header { active: false, seq_lock: 0x1234_5678, data_offset: i32::MIN }
    );
    let reader = LogReader::new(&file);
    assert_eq!(reader.header(), read_header(&file));
}

#[test]
fn short_header_reads_missing_fields_as_zero() {
    assert_eq!(read_header(&[]), Header { active: false, seq_lock: 0, data_offset: 0 });
    assert_eq!(read_header(&[5]), Header { active: true, seq_lock: 0, data_offset: 0 });
    assert_eq!(
        read_header(&[1, 2, 0, 0, 0, 0xff, 0xff, 0xff]),
        Header { active: true, seq_lock: 2, data_offset: 0 }
    );
    let file = [1u8, 2, 0, 0];
    let mut reader = LogReader::new(&file);
    assert_eq!(reader.position(), 4);
    assert_eq!(reader.offset(), 9);
    assert_eq!(reader.next(), Step::End);
    let log = read_log(&file);
    assert!(log.records.is_empty());
    assert_eq!(log.consumed, 4);
}

#[test]
fn well_formed_log_reads_back_in_order() {
    let payloads: Vec<&[u8]> = vec![b"first", b"", b"\xde\xad\xbe\xef", b"last one"];
    let file = well_formed(&payloads);
    let log = read_log(&file);
    assert_eq!(
        log.records,
        vec![
            record(b"first", false),
            record(b"", false),
            record(b"\xde\xad\xbe\xef", false),
            record(b"last one", true),
        ]
    );
    assert!(!log.malformed);
    assert_eq!(log.consumed, file.len());
}

#[test]
fn empty_payload_is_published() {
    let file = well_formed(&[b""]);
    assert_eq!(file.len(), 21);
    let mut reader = LogReader::new(&file);
    assert_eq!(reader.next(), Step::Record(record(b"", true)));
    assert_eq!(reader.position(), 21);
    assert_eq!(reader.offset(), 21);
    assert_eq!(reader.next(), Step::End);
}

#[test]
fn reader_steps_track_position_and_offset() {
    let file = well_formed(&[b"ab", b"cde"]);
    let mut reader = LogReader::new(&file);
    assert_eq!(reader.position(), 9);
    assert_eq!(reader.offset(), 9);
    assert_eq!(reader.next(), Step::Record(record(b"ab", false)));
    assert_eq!(reader.position(), 9 + 14);
    assert_eq!(reader.offset(), 9 + 14);
    assert_eq!(reader.next(), Step::Record(record(b"cde", true)));
    assert_eq!(reader.position(), 9 + 14 + 15);
    assert_eq!(reader.offset(), 9 + 14 + 15);
    assert_eq!(reader.next(), Step::End);
    assert_eq!(reader.position(), file.len());
}

#[test]
fn record_that_overruns_data_offset_is_still_read() {
    let mut file = header(1, 0, 10);
    push_record(&mut file, b"overrun", [0; 8]);
    push_record(&mut file, b"never", [0; 8]);
    let log = read_log(&file);
    assert_eq!(log.records, vec![record(b"overrun", true)]);
    assert_eq!(log.consumed, 9 + 4 + 7 + 8);
}

#[test]
fn records_behind_data_offset_are_not_read() {
    let mut file = header(0, 0, 9 + 13);
    push_record(&mut file, b"a", [0; 8]);
    push_record(&mut file, b"b", [0; 8]);
    let log = read_log(&file);
    assert_eq!(log.records, vec![record(b"a", true)]);
    assert_eq!(log.consumed, 22);
}

#[test]
fn truncated_payload_is_not_published() {
    let mut file = header(1, 0, 9 + 12 + 5);
    file.extend_from_slice(&5i32.to_le_bytes());
    file.extend_from_slice(b"abc");
    let mut reader = LogReader::new(&file);
    assert_eq!(reader.next(), Step::Truncated);
    assert_eq!(reader.position(), file.len());
    assert_eq!(reader.offset(), 9 + 12 + 5);
    assert_eq!(reader.next(), Step::End);
    let log = read_log(&file);
    assert!(log.records.is_empty());
    assert!(!log.malformed);
    assert_eq!(log.consumed, file.len());
}

#[test]
fn missing_timestamp_does_not_stop_the_record() {
    let mut file = header(1, 0, 9 + 12 + 3);
    file.extend_from_slice(&3i32.to_le_bytes());
    file.extend_from_slice(b"abc");
    file.extend_from_slice(&[1, 2, 3]);
    let log = read_log(&file);
    assert_eq!(log.records, vec![record(b"abc", true)]);
    assert_eq!(log.consumed, file.len());
}

#[test]
fn file_that_ends_early_yields_empty_records_up_to_data_offset() {
    let mut file = header(1, 0, 9 + 15 + 30);
    push_record(&mut file, b"abc", [9; 8]);
    let log = read_log(&file);
    assert_eq!(
        log.records,
        vec![record(b"abc", false), record(b"", false), record(b"", false), record(b"", true)]
    );
    assert_eq!(log.consumed, file.len());
}

#[test]
fn short_length_field_reads_as_zero() {
    let mut file = header(1, 0, 9 + 12);
    file.extend_from_slice(&[7, 0]);
    let mut reader = LogReader::new(&file);
    assert_eq!(reader.next(), Step::Record(record(b"", true)));
    assert_eq!(reader.position(), file.len());
    assert_eq!(reader.offset(), 21);
}

#[test]
fn negative_length_stops_the_reader() {
    let mut file = header(1, 0, 100);
    push_record(&mut file, b"ok", [0; 8]);
    file.extend_from_slice(&(-1i32).to_le_bytes());
    file.extend_from_slice(b"rest of the file");
    let mut reader = LogReader::new(&file);
    assert_eq!(reader.next(), Step::Record(record(b"ok", false)));
    assert_eq!(reader.next(), Step::Malformed);
    assert_eq!(reader.position(), 9 + 14);
    assert_eq!(reader.offset(), 9 + 14);
    assert_eq!(reader.next(), Step::Malformed);
    let log = read_log(&file);
    assert_eq!(log.records, vec![record(b"ok", false)]);
    assert!(log.malformed);
    assert_eq!(log.consumed, 9 + 14);
}

#[test]
fn negative_data_offset_yields_no_record() {
    let mut file = header(1, 0, -1);
    push_record(&mut file, b"abc", [0; 8]);
    let log = read_log(&file);
    assert!(log.records.is_empty());
    assert!(!log.malformed);
    assert_eq!(log.consumed, 9);
}

#[test]
fn data_offset_below_header_length_yields_no_record() {
    let mut file = header(1, 0, 8);
    push_record(&mut file, b"abc", [0; 8]);
    assert!(read_log(&file).records.is_empty());
}

#[test]
fn length_field_with_high_bytes_is_decoded() {
    let payload = vec![0x5a; 0x0102];
    let file = well_formed(&[&payload]);
    assert_eq!(&file[9..13], &[0x02, 0x01, 0, 0]);
    let log = read_log(&file);
    assert_eq!(log.records, vec![record(&payload, true)]);
}
