//! Telling a text log from a binary one, and reading either.
//!
//! The format is chosen once, from the first bytes of the file: if they are
//! valid UTF-8 the whole file is read as text, line by line; if not, it is
//! read as a binary record log.

use crate::display::is_utf8;
use crate::record::{Outcome, Step};
use crate::record_log::{header_data_offset, start, step, Cursor, LogReader};
use crate::text_log::{text_step, TextReader};
use vstd::prelude::*;
use vstd::slice::slice_subrange;
use vstd::utf8::valid_utf8;

verus! {

/// How many bytes are looked at to choose the format.
pub const PROBE_LEN: usize = 1024;

/// The two formats of a replay file.
#[derive(Clone, Copy, Debug, PartialEq, Eq, Structural)]
pub enum LogKind {
    /// One message per line.
    Text,
    /// Length-prefixed records under a header.
    Binary,
}

/// The bytes that the choice of format looks at: the first `PROBE_LEN`, or
/// the whole file if it is shorter.
pub open spec fn probe(bytes: Seq<u8>) -> Seq<u8> {
    if bytes.len() <= PROBE_LEN {
        bytes
    } else {
        bytes.take(PROBE_LEN as int)
    }
}

/// The format of a file.
pub open spec fn kind_of(bytes: Seq<u8>) -> LogKind {
    if valid_utf8(probe(bytes)) {
        LogKind::Text
    } else {
        LogKind::Binary
    }
}

/// Chooses the format of a file.
pub fn detect(bytes: &[u8]) -> (kind: LogKind)
    ensures
        kind == kind_of(bytes@),
{
    let head: &[u8] = if bytes.len() <= PROBE_LEN {
        bytes
    } else {
        slice_subrange(bytes, 0, PROBE_LEN)
    };
    if is_utf8(head) {
        LogKind::Text
    } else {
        LogKind::Binary
    }
}

/// The choice of format looks at the first `PROBE_LEN` bytes and at nothing
/// else.
///
/// Two files that start with the same `PROBE_LEN` bytes or more have the same
/// format, whatever follows: text if those first bytes are valid UTF-8, binary
/// if they are not.
pub proof fn lemma_kind_ignores_what_follows(head: Seq<u8>, tail_a: Seq<u8>, tail_b: Seq<u8>)
    requires
        head.len() >= PROBE_LEN,
    ensures
        kind_of(head + tail_a) == kind_of(head + tail_b),
        valid_utf8(head.take(PROBE_LEN as int)) ==> kind_of(head + tail_a) == LogKind::Text,
        !valid_utf8(head.take(PROBE_LEN as int)) ==> kind_of(head + tail_a) == LogKind::Binary,
{
    assert(probe(head + tail_a) =~= head.take(PROBE_LEN as int));
    assert(probe(head + tail_b) =~= head.take(PROBE_LEN as int));
}

/// A file shorter than `PROBE_LEN` is text exactly if all of it is valid
/// UTF-8.
pub proof fn lemma_kind_of_short_file(bytes: Seq<u8>)
    requires
        bytes.len() <= PROBE_LEN,
    ensures
        kind_of(bytes) == LogKind::Text <==> valid_utf8(bytes),
{
}

/// Where a reader of either format stands.
pub enum Place {
    /// In a text log, at this position.
    Text(int),
    /// In a binary log, at this cursor.
    Binary(Cursor),
}

/// Where reading of a file starts.
pub open spec fn first_place(bytes: Seq<u8>) -> Place {
    match kind_of(bytes) {
        LogKind::Text => Place::Text(0),
        LogKind::Binary => Place::Binary(start(bytes.len() as int)),
    }
}

/// One step of reading `bytes` from `place`.
pub open spec fn source_step(bytes: Seq<u8>, place: Place) -> (Outcome, Place) {
    match place {
        Place::Text(pos) => (text_step(bytes, pos).0, Place::Text(text_step(bytes, pos).1)),
        Place::Binary(c) => (
            step(bytes, header_data_offset(bytes), c).0,
            Place::Binary(step(bytes, header_data_offset(bytes), c).1),
        ),
    }
}

/// A reader over a replay file of either format.
pub enum Source<'a> {
    /// The file is read as text.
    Text(TextReader<'a>),
    /// The file is read as a binary record log.
    Binary(LogReader<'a>),
}

impl<'a> Source<'a> {
    /// The file that is read.
    pub open spec fn bytes(self) -> Seq<u8> {
        match self {
            Source::Text(reader) => reader.bytes(),
            Source::Binary(reader) => reader.bytes(),
        }
    }

    /// Where the reader stands.
    pub open spec fn place(self) -> Place {
        match self {
            Source::Text(reader) => Place::Text(reader.pos()),
            Source::Binary(reader) => Place::Binary(reader.cursor()),
        }
    }

    /// Chooses the format of `bytes` and stands at the first message.
    pub fn open(bytes: &'a [u8]) -> (source: Self)
        ensures
            source.bytes() == bytes@,
            source.place() == first_place(bytes@),
    {
        match detect(bytes) {
            LogKind::Text => Source::Text(TextReader::new(bytes)),
            LogKind::Binary => Source::Binary(LogReader::new(bytes)),
        }
    }

    /// The format in which the file is read.
    pub fn kind(&self) -> (kind: LogKind)
        ensures
            kind == LogKind::Text <==> self.place() is Text,
    {
        match self {
            Source::Text(_) => LogKind::Text,
            Source::Binary(_) => LogKind::Binary,
        }
    }

    /// Reads the next message.
    pub fn next(&mut self) -> (found: Step)
        ensures
            final(self).bytes() == old(self).bytes(),
            found.outcome() == source_step(old(self).bytes(), old(self).place()).0,
            final(self).place() == source_step(old(self).bytes(), old(self).place()).1,
    {
        match self {
            Source::Text(reader) => reader.next(),
            Source::Binary(reader) => reader.next(),
        }
    }
}

} // verus!
