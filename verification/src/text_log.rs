//! The text log: one message per line.
//!
//! A line ends at a line feed or at the end of the file. The line feed is not
//! part of the message, nor is a carriage return that stands right before it.
//! Empty lines are not messages. Every line has to be valid UTF-8.

use crate::display::is_utf8;
use crate::record::{Outcome, Record, Step};
use vstd::prelude::*;
use vstd::slice::{slice_subrange, slice_to_vec};
use vstd::utf8::valid_utf8;

verus! {

/// The byte that ends a line.
pub const LINE_FEED: u8 = 0x0A;

/// The byte that is dropped when it stands right before a line feed.
pub const CARRIAGE_RETURN: u8 = 0x0D;

/// The index of the first line feed at or after `pos`, or the length of the
/// file if there is none.
pub open spec fn line_end(bytes: Seq<u8>, pos: int) -> int
    decreases bytes.len() - pos,
{
    if pos < 0 || pos >= bytes.len() {
        bytes.len() as int
    } else if bytes[pos] == LINE_FEED {
        pos
    } else {
        line_end(bytes, pos + 1)
    }
}

/// The message on the line that starts at `pos`, without its line ending.
pub open spec fn line_at(bytes: Seq<u8>, pos: int) -> Seq<u8> {
    let end = line_end(bytes, pos);
    let raw = bytes.subrange(pos, end);
    if end < bytes.len() && raw.len() > 0 && raw.last() == CARRIAGE_RETURN {
        raw.drop_last()
    } else {
        raw
    }
}

/// Where the line after the one at `pos` starts.
pub open spec fn after_line(bytes: Seq<u8>, pos: int) -> int {
    let end = line_end(bytes, pos);
    if end < bytes.len() {
        end + 1
    } else {
        bytes.len() as int
    }
}

/// One step of the text reader at `pos`: what it finds, and where it then
/// stands.
pub open spec fn text_step(bytes: Seq<u8>, pos: int) -> (Outcome, int) {
    let line = line_at(bytes, pos);
    let next = after_line(bytes, pos);
    if pos >= bytes.len() {
        (Outcome::End, pos)
    } else if !valid_utf8(line) {
        (Outcome::NotText, pos)
    } else if line.len() == 0 {
        (Outcome::Blank, next)
    } else {
        (Outcome::Record(line, next >= bytes.len()), next)
    }
}

/// A line ends at or after the place where it starts, within the file.
pub proof fn lemma_line_end_bounds(bytes: Seq<u8>, pos: int)
    requires
        0 <= pos <= bytes.len(),
    ensures
        pos <= line_end(bytes, pos) <= bytes.len(),
        forall|i: int| pos <= i < line_end(bytes, pos) ==> bytes[i] != LINE_FEED,
        line_end(bytes, pos) < bytes.len() ==> bytes[line_end(bytes, pos)] == LINE_FEED,
    decreases bytes.len() - pos,
{
    if pos < bytes.len() && bytes[pos] != LINE_FEED {
        lemma_line_end_bounds(bytes, pos + 1);
    }
}

/// A reader over the bytes of one text log, handing out its lines one by one.
pub struct TextReader<'a> {
    bytes: &'a [u8],
    pos: usize,
}

impl<'a> TextReader<'a> {
    #[verifier::type_invariant]
    spec fn inv(self) -> bool {
        self.pos <= self.bytes@.len()
    }

    /// The file that is read.
    pub closed spec fn bytes(self) -> Seq<u8> {
        self.bytes@
    }

    /// The position of the next line.
    pub closed spec fn pos(self) -> int {
        self.pos as int
    }

    /// A reader that stands at the start of `bytes`.
    pub fn new(bytes: &'a [u8]) -> (reader: Self)
        ensures
            reader.bytes() == bytes@,
            reader.pos() == 0,
    {
        TextReader { bytes, pos: 0 }
    }

    /// The position of the next line.
    pub fn position(&self) -> (pos: usize)
        ensures
            pos == self.pos(),
            pos <= self.bytes().len(),
    {
        proof {
            use_type_invariant(self);
        }
        self.pos
    }

    /// Reads the next line.
    ///
    /// A message that comes out is never empty and is valid UTF-8. `End` and
    /// `NotText` leave the reader where it stood, so they repeat on every
    /// later call.
    pub fn next(&mut self) -> (found: Step)
        ensures
            final(self).bytes() == old(self).bytes(),
            found.outcome() == text_step(old(self).bytes(), old(self).pos()).0,
            final(self).pos() == text_step(old(self).bytes(), old(self).pos()).1,
            found matches Step::Record(record) ==> record.payload@.len() > 0 && valid_utf8(
                record.payload@,
            ),
    {
        proof {
            use_type_invariant(&*self);
        }
        let bytes: &[u8] = self.bytes;
        let len: usize = bytes.len();
        let start: usize = self.pos;
        if start >= len {
            return Step::End;
        }
        let mut end: usize = start;
        while end < len && bytes[end] != LINE_FEED
            invariant
                start <= end <= len,
                len == bytes@.len(),
                line_end(bytes@, end as int) == line_end(bytes@, start as int),
            decreases len - end,
        {
            end = end + 1;
        }
        let terminated: bool = end < len;
        let content_end: usize = if terminated && end > start && bytes[end - 1] == CARRIAGE_RETURN {
            end - 1
        } else {
            end
        };
        let line: &[u8] = slice_subrange(bytes, start, content_end);
        proof {
            assert(line_end(bytes@, start as int) == end);
            assert(line@ =~= line_at(bytes@, start as int));
        }
        if !is_utf8(line) {
            return Step::NotText;
        }
        let next: usize = if terminated {
            end + 1
        } else {
            len
        };
        self.pos = next;
        if content_end == start {
            Step::Blank
        } else {
            Step::Record(Record { payload: slice_to_vec(line), is_last: next >= len })
        }
    }
}

} // verus!
