//! The binary record log: a nine-byte header followed by length-prefixed,
//! timestamped payload records.
//!
//! ```text
//! header   active: 1 byte | seq_lock: i32 LE | data_offset: i32 LE
//! record   data_len: i32 LE | payload: data_len bytes | timestamp: 8 bytes
//! ```
//!
//! The reader walks the file front to back. It keeps two numbers: the
//! position in the file, and the running offset, which starts at the header
//! length and grows by the declared size of every record. Reading stops once
//! the running offset has reached `data_offset`.
//!
//! A field that the file is too short to hold reads as zero, and the short
//! read uses up what was left of the file. A payload that the file is too
//! short to hold is not published; its record still counts towards the
//! running offset. A negative `data_len` names no length at all: the reader
//! reports it and goes no further.

use crate::record::{Outcome, Record, Step};
use vstd::prelude::*;
use vstd::slice::{slice_subrange, slice_to_vec};

verus! {

/// Bytes taken by the header.
pub const HEADER_LEN: usize = 9;

/// Bytes taken by a record's length field.
pub const LENGTH_LEN: usize = 4;

/// Bytes taken by a record's timestamp.
pub const TIMESTAMP_LEN: usize = 8;

/// Bytes that a record takes besides its payload.
pub const RECORD_OVERHEAD: usize = 12;

/// The unsigned value of four little-endian bytes.
pub open spec fn le_u32(b: Seq<u8>) -> int
    recommends
        b.len() == 4,
{
    b[0] as int + 256 * (b[1] as int) + 65536 * (b[2] as int) + 16777216 * (b[3] as int)
}

/// The two's-complement value of four little-endian bytes.
pub open spec fn le_i32(b: Seq<u8>) -> int
    recommends
        b.len() == 4,
{
    if le_u32(b) < 0x8000_0000 {
        le_u32(b)
    } else {
        le_u32(b) - 0x1_0000_0000
    }
}

/// Where the reader stands after trying to read `n` bytes at `pos` in a file
/// of `len` bytes: past them, or at the end of the file if they are not all
/// there.
pub open spec fn after_read(len: int, pos: int, n: int) -> int {
    if pos + n <= len {
        pos + n
    } else {
        len
    }
}

/// The four-byte signed field at `pos`, or zero if the file ends before it.
pub open spec fn field_at(bytes: Seq<u8>, pos: int) -> int {
    if 0 <= pos && pos + LENGTH_LEN <= bytes.len() {
        le_i32(bytes.subrange(pos, pos + LENGTH_LEN))
    } else {
        0
    }
}

/// The header's `active` flag: set when the first byte is there and not zero.
pub open spec fn header_active(bytes: Seq<u8>) -> bool {
    bytes.len() >= 1 && bytes[0] != 0
}

/// The header's `seq_lock` field.
pub open spec fn header_seq_lock(bytes: Seq<u8>) -> int {
    if bytes.len() >= 5 {
        le_i32(bytes.subrange(1, 5))
    } else {
        0
    }
}

/// The header's `data_offset` field: the running offset at which reading stops.
pub open spec fn header_data_offset(bytes: Seq<u8>) -> int {
    if bytes.len() >= HEADER_LEN {
        le_i32(bytes.subrange(5, HEADER_LEN as int))
    } else {
        0
    }
}

/// The reader's place: a position in the file and the running offset.
pub struct Cursor {
    pub pos: int,
    pub offset: int,
}

/// Where reading of records starts in a file of `len` bytes.
pub open spec fn start(len: int) -> Cursor {
    Cursor { pos: after_read(len, 0, HEADER_LEN as int), offset: HEADER_LEN as int }
}

/// The cursor after the record at `c` whose length field holds `n >= 0`.
pub open spec fn after_record(bytes: Seq<u8>, c: Cursor, n: int) -> Cursor {
    let len = bytes.len() as int;
    Cursor {
        pos: after_read(
            len,
            after_read(len, after_read(len, c.pos, LENGTH_LEN as int), n),
            TIMESTAMP_LEN as int,
        ),
        offset: c.offset + RECORD_OVERHEAD + n,
    }
}

/// One step of the reader at `c`, with reading bounded by `bound`.
pub open spec fn step(bytes: Seq<u8>, bound: int, c: Cursor) -> (Outcome, Cursor) {
    let len = bytes.len() as int;
    let n = field_at(bytes, c.pos);
    let p = after_read(len, c.pos, LENGTH_LEN as int);
    if c.offset >= bound {
        (Outcome::End, c)
    } else if n < 0 {
        (Outcome::Malformed, c)
    } else if p + n <= len {
        (
            Outcome::Record(bytes.subrange(p, p + n), c.offset + RECORD_OVERHEAD + n >= bound),
            after_record(bytes, c, n),
        )
    } else {
        (Outcome::Truncated, after_record(bytes, c, n))
    }
}

/// The reader goes forward only: a step moves neither the position nor the
/// running offset back, and the position stays within the file.
pub proof fn lemma_step_goes_forward(bytes: Seq<u8>, bound: int, c: Cursor)
    requires
        0 <= c.pos <= bytes.len(),
    ensures
        c.pos <= step(bytes, bound, c).1.pos <= bytes.len(),
        c.offset <= step(bytes, bound, c).1.offset,
        step(bytes, bound, c).0 is Record || step(bytes, bound, c).0 is Truncated ==> c.offset
            + RECORD_OVERHEAD <= step(bytes, bound, c).1.offset,
{
}

/// What reading to the end yields.
pub struct Replay {
    /// The records that are published, in file order: each payload, and
    /// whether the running offset had reached the end once it was read.
    pub records: Seq<(Seq<u8>, bool)>,
    /// Where the reader stands when it stops.
    pub end: Cursor,
    /// Whether it stopped at a negative length field.
    pub malformed: bool,
}

/// How far the running offset is from the end.
pub open spec fn distance(bound: int, offset: int) -> nat {
    if offset < bound {
        (bound - offset) as nat
    } else {
        0
    }
}

/// Reading from `c` to the end.
pub open spec fn run(bytes: Seq<u8>, bound: int, c: Cursor) -> Replay
    decreases distance(bound, c.offset),
{
    let n = field_at(bytes, c.pos);
    if c.offset >= bound {
        Replay { records: Seq::empty(), end: c, malformed: false }
    } else if n < 0 {
        Replay { records: Seq::empty(), end: c, malformed: true }
    } else {
        let rest = run(bytes, bound, after_record(bytes, c, n));
        match step(bytes, bound, c).0 {
            Outcome::Record(payload, is_last) => Replay {
                records: seq![(payload, is_last)] + rest.records,
                end: rest.end,
                malformed: rest.malformed,
            },
            _ => rest,
        }
    }
}

/// Reading a whole file.
pub open spec fn replay(bytes: Seq<u8>) -> Replay {
    run(bytes, header_data_offset(bytes), start(bytes.len() as int))
}

/// The payloads of published records, without their flags.
pub open spec fn payloads_of(records: Seq<(Seq<u8>, bool)>) -> Seq<Seq<u8>> {
    records.map_values(|r: (Seq<u8>, bool)| r.0)
}

/// The header's three fields. The reader acts on `data_offset` alone.
#[derive(Clone, Copy, Debug, PartialEq, Eq, Structural)]
pub struct Header {
    pub active: bool,
    pub seq_lock: i32,
    pub data_offset: i32,
}

fn decode_i32(b0: u8, b1: u8, b2: u8, b3: u8) -> (v: i32)
    ensures
        v == le_i32(seq![b0, b1, b2, b3]),
{
    let u: u64 = b0 as u64 + 256 * (b1 as u64) + 65536 * (b2 as u64) + 16777216 * (b3 as u64);
    if u < 0x8000_0000 {
        u as i32
    } else {
        (u as i64 - 0x1_0000_0000) as i32
    }
}

fn read_field(bytes: &[u8], pos: usize) -> (v: i32)
    requires
        pos <= bytes.len(),
    ensures
        v == field_at(bytes@, pos as int),
{
    if bytes.len() - pos >= 4 {
        let v: i32 = decode_i32(bytes[pos], bytes[pos + 1], bytes[pos + 2], bytes[pos + 3]);
        proof {
            assert(bytes@.subrange(pos as int, pos as int + 4) =~= seq![
                bytes@[pos as int],
                bytes@[pos as int + 1],
                bytes@[pos as int + 2],
                bytes@[pos as int + 3],
            ]);
        }
        v
    } else {
        0
    }
}

fn skip(len: usize, pos: usize, n: usize) -> (next: usize)
    requires
        pos <= len,
    ensures
        next == after_read(len as int, pos as int, n as int),
        next <= len,
{
    if len - pos >= n {
        pos + n
    } else {
        len
    }
}

/// Reads the header of a log file.
pub fn read_header(bytes: &[u8]) -> (header: Header)
    ensures
        header.active == header_active(bytes@),
        header.seq_lock == header_seq_lock(bytes@),
        header.data_offset == header_data_offset(bytes@),
{
    let active: bool = bytes.len() >= 1 && bytes[0] != 0;
    let seq_lock: i32 = if bytes.len() >= 5 {
        read_field(bytes, 1)
    } else {
        0
    };
    let data_offset: i32 = if bytes.len() >= HEADER_LEN {
        read_field(bytes, 5)
    } else {
        0
    };
    Header { active, seq_lock, data_offset }
}

/// A reader over the bytes of one log file, handing out its records one by one.
pub struct LogReader<'a> {
    bytes: &'a [u8],
    bound: i32,
    pos: usize,
    offset: u64,
}

impl<'a> LogReader<'a> {
    #[verifier::type_invariant]
    spec fn inv(self) -> bool {
        &&& self.pos <= self.bytes@.len()
        &&& self.bound == header_data_offset(self.bytes@)
        &&& 9 <= self.offset <= 0x1_0000_0000_0
    }

    /// The file that is read.
    pub closed spec fn bytes(self) -> Seq<u8> {
        self.bytes@
    }

    /// Where the reader stands.
    pub closed spec fn cursor(self) -> Cursor {
        Cursor { pos: self.pos as int, offset: self.offset as int }
    }

    /// A reader that stands behind the header of `bytes`.
    pub fn new(bytes: &'a [u8]) -> (reader: Self)
        ensures
            reader.bytes() == bytes@,
            reader.cursor() == start(bytes@.len() as int),
    {
        let header = read_header(bytes);
        let pos: usize = skip(bytes.len(), 0, HEADER_LEN);
        LogReader { bytes, bound: header.data_offset, pos, offset: HEADER_LEN as u64 }
    }

    /// The header of the file that is read.
    pub fn header(&self) -> (header: Header)
        ensures
            header.active == header_active(self.bytes()),
            header.seq_lock == header_seq_lock(self.bytes()),
            header.data_offset == header_data_offset(self.bytes()),
    {
        read_header(self.bytes)
    }

    /// The running offset.
    pub fn offset(&self) -> (offset: u64)
        ensures
            offset == self.cursor().offset,
    {
        self.offset
    }

    /// The position in the file.
    pub fn position(&self) -> (pos: usize)
        ensures
            pos == self.cursor().pos,
            pos <= self.bytes().len(),
    {
        proof {
            use_type_invariant(self);
        }
        self.pos
    }

    /// Reads the next record.
    ///
    /// `End` and `Malformed` leave the reader where it stood, so they repeat
    /// on every later call.
    pub fn next(&mut self) -> (found: Step)
        ensures
            final(self).bytes() == old(self).bytes(),
            found.outcome() == step(
                old(self).bytes(),
                header_data_offset(old(self).bytes()),
                old(self).cursor(),
            ).0,
            final(self).cursor() == step(
                old(self).bytes(),
                header_data_offset(old(self).bytes()),
                old(self).cursor(),
            ).1,
    {
        proof {
            use_type_invariant(&*self);
        }
        if self.offset >= 0x8000_0000 || self.offset as i64 >= self.bound as i64 {
            return Step::End;
        }
        let len: usize = self.bytes.len();
        let n: i32 = read_field(self.bytes, self.pos);
        if n < 0 {
            return Step::Malformed;
        }
        let size: usize = n as usize;
        let start: usize = skip(len, self.pos, LENGTH_LEN);
        let whole: bool = len - start >= size;
        let payload_end: usize = skip(len, start, size);
        let next_offset: u64 = self.offset + RECORD_OVERHEAD as u64 + n as u64;
        let found = if whole {
            let payload = slice_to_vec(slice_subrange(self.bytes, start, payload_end));
            Step::Record(Record { payload, is_last: next_offset as i64 >= self.bound as i64 })
        } else {
            Step::Truncated
        };
        self.pos = skip(len, payload_end, TIMESTAMP_LEN);
        self.offset = next_offset;
        found
    }
}

/// A whole log file, read to the end.
#[derive(Debug, PartialEq, Eq)]
pub struct LogContents {
    /// The records to publish, in file order.
    pub records: Vec<Record>,
    /// Set when reading stopped at a negative length field.
    pub malformed: bool,
    /// How many bytes of the file were read.
    pub consumed: usize,
}

/// The views of a vector of records.
pub open spec fn record_views(records: Seq<Record>) -> Seq<(Seq<u8>, bool)> {
    records.map_values(|r: Record| r@)
}

/// Reads a log file to the end.
pub fn read_log(bytes: &[u8]) -> (log: LogContents)
    ensures
        record_views(log.records@) == replay(bytes@).records,
        log.records@.len() == replay(bytes@).records.len(),
        log.malformed == replay(bytes@).malformed,
        log.consumed == replay(bytes@).end.pos,
{
    let ghost bound = header_data_offset(bytes@);
    let mut reader = LogReader::new(bytes);
    let mut records: Vec<Record> = Vec::new();
    assert(record_views(records@) + replay(bytes@).records =~= replay(bytes@).records);
    loop
        invariant
            bound == header_data_offset(bytes@),
            reader.bytes() == bytes@,
            replay(bytes@).records == record_views(records@) + run(
                bytes@,
                bound,
                reader.cursor(),
            ).records,
            replay(bytes@).end == run(bytes@, bound, reader.cursor()).end,
            replay(bytes@).malformed == run(bytes@, bound, reader.cursor()).malformed,
        decreases distance(bound, reader.cursor().offset),
    {
        let ghost seen = record_views(records@);
        match reader.next() {
            Step::Record(record) => {
                let ghost rest = run(bytes@, bound, reader.cursor()).records;
                records.push(record);
                assert(record_views(records@) =~= seen.push(record@));
                assert(record_views(records@) + rest =~= seen + (seq![record@] + rest));
            },
            Step::Truncated | Step::Blank => {},
            Step::Malformed | Step::NotText => {
                assert(record_views(records@) + Seq::<(Seq<u8>, bool)>::empty() =~= record_views(
                    records@,
                ));
                return LogContents { records, malformed: true, consumed: reader.position() };
            },
            Step::End => {
                assert(record_views(records@) + Seq::<(Seq<u8>, bool)>::empty() =~= record_views(
                    records@,
                ));
                return LogContents { records, malformed: false, consumed: reader.position() };
            },
        }
    }
}

} // verus!
