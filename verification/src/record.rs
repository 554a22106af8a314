//! What a reader of a replay file hands out, whichever format the file has.

use vstd::prelude::*;

verus! {

/// What one step of a reader finds.
pub enum Outcome {
    /// A message to publish: its payload, and whether the file holds nothing
    /// after it.
    Record(Seq<u8>, bool),
    /// A binary record whose payload the file is too short to hold.
    Truncated,
    /// An empty line of a text file.
    Blank,
    /// A binary record with a negative length field.
    Malformed,
    /// A line of a text file that is not valid UTF-8.
    NotText,
    /// Nothing is left to read.
    End,
}

/// A message to publish.
#[derive(Debug, PartialEq, Eq)]
pub struct Record {
    /// The message body. A binary log may hold empty ones.
    pub payload: Vec<u8>,
    /// Set when the reader has nothing left after this message.
    pub is_last: bool,
}

impl View for Record {
    type V = (Seq<u8>, bool);

    open spec fn view(&self) -> (Seq<u8>, bool) {
        (self.payload@, self.is_last)
    }
}

/// What one call of a reader hands out.
#[derive(Debug, PartialEq, Eq)]
pub enum Step {
    /// A message to publish.
    Record(Record),
    /// A binary record whose payload the file is too short to hold: nothing
    /// to publish, reading goes on.
    Truncated,
    /// An empty line of a text file: nothing to publish, reading goes on.
    Blank,
    /// A binary record with a negative length field: reading cannot go on.
    Malformed,
    /// A line of a text file that is not valid UTF-8: reading cannot go on.
    NotText,
    /// Nothing is left to read.
    End,
}

impl Step {
    /// The outcome that this step stands for.
    pub open spec fn outcome(self) -> Outcome {
        match self {
            Step::Record(record) => Outcome::Record(record.payload@, record.is_last),
            Step::Truncated => Outcome::Truncated,
            Step::Blank => Outcome::Blank,
            Step::Malformed => Outcome::Malformed,
            Step::NotText => Outcome::NotText,
            Step::End => Outcome::End,
        }
    }
}

} // verus!
