//! The publisher's decisions: what goes on the wire for each message, and
//! when the replay of a file pauses.
//!
//! A message is two frames, the topic and then the payload. The replay of a
//! file is paced by a [`Throttle`]; messages typed in afterwards are not.

use crate::record::{Outcome, Step};
use crate::record_log::{distance, header_data_offset};
use crate::source::{first_place, source_step, Place, Source};
use crate::text_log::lemma_line_end_bounds;
use crate::throttle::{tick, Throttle, COOL_DOWN_MS};
use vstd::prelude::*;
use vstd::slice::slice_to_vec;
use vstd::string::StringSliceAdditionalSpecFns;
use vstd::utf8::encode_utf8;

verus! {

/// One frame of a message.
#[derive(Debug, PartialEq, Eq)]
pub struct Frame {
    /// What the frame holds.
    pub bytes: Vec<u8>,
    /// Set when another frame of the same message follows.
    pub more: bool,
}

impl View for Frame {
    type V = (Seq<u8>, bool);

    open spec fn view(&self) -> (Seq<u8>, bool) {
        (self.bytes@, self.more)
    }
}

/// The two frames of a message: the topic, marked as followed by more, and
/// the payload, which ends the message.
pub open spec fn envelope(topic: Seq<char>, payload: Seq<u8>) -> ((Seq<u8>, bool), (Seq<u8>, bool)) {
    ((encode_utf8(topic), true), (payload, false))
}

/// How long to pause, in milliseconds.
pub open spec fn pause_ms(pause: bool) -> u64 {
    if pause {
        COOL_DOWN_MS
    } else {
        0
    }
}

/// Why the replay of a file was given up.
#[derive(Clone, Copy, Debug, PartialEq, Eq, Structural)]
pub enum Fault {
    /// A binary record has a negative length field.
    Malformed,
    /// A line of a text file is not valid UTF-8.
    NotText,
}

/// What the publisher does next, as a value.
pub enum Plan {
    /// Send the two frames in this order, then pause for so many milliseconds.
    Publish((Seq<u8>, bool), (Seq<u8>, bool), u64),
    /// Send nothing, and pause for so many milliseconds.
    Skip(u64),
    /// Give the replay up.
    Abort(Fault),
    /// The replay is over.
    Done,
}

/// What the publisher does next.
#[derive(Debug, PartialEq, Eq)]
pub enum Action {
    /// Send `topic`, then `payload`, then pause for `pause_ms` milliseconds if
    /// that is not zero.
    Publish { topic: Frame, payload: Frame, pause_ms: u64 },
    /// Send nothing; pause for `pause_ms` milliseconds if that is not zero.
    Skip { pause_ms: u64 },
    /// The rest of the file cannot be read.
    Abort(Fault),
    /// The file, if there was one, holds nothing more.
    Done,
}

impl View for Action {
    type V = Plan;

    open spec fn view(&self) -> Plan {
        match *self {
            Action::Publish { topic, payload, pause_ms } => Plan::Publish(
                topic@,
                payload@,
                pause_ms,
            ),
            Action::Skip { pause_ms } => Plan::Skip(pause_ms),
            Action::Abort(fault) => Plan::Abort(fault),
            Action::Done => Plan::Done,
        }
    }
}

/// The state of a publishing session.
pub struct Session {
    /// The topic of every message.
    pub topic: Seq<char>,
    /// The high-water mark that paces the replay.
    pub hwm: int,
    /// The messages sent since the last pause.
    pub count: int,
    /// The file that is replayed, and where its reader stands.
    pub file: Option<(Seq<u8>, Place)>,
}

/// One step of the replay: what to do, and the session afterwards.
///
/// A message that is read is sent and counted. A record or line that yields
/// no message is counted as a step that sent nothing. The end of the file and
/// a fault change nothing, so they repeat.
pub open spec fn replay_step(s: Session) -> (Plan, Session) {
    match s.file {
        None => (Plan::Done, s),
        Some((bytes, place)) => {
            let found = source_step(bytes, place);
            let moved = Some((bytes, found.1));
            match found.0 {
                Outcome::End => (Plan::Done, s),
                Outcome::Malformed => (Plan::Abort(Fault::Malformed), s),
                Outcome::NotText => (Plan::Abort(Fault::NotText), s),
                Outcome::Record(payload, _) => (
                    Plan::Publish(
                        envelope(s.topic, payload).0,
                        envelope(s.topic, payload).1,
                        pause_ms(tick(s.hwm, s.count, true).1),
                    ),
                    Session { count: tick(s.hwm, s.count, true).0, file: moved, ..s },
                ),
                _ => (
                    Plan::Skip(pause_ms(tick(s.hwm, s.count, false).1)),
                    Session { count: tick(s.hwm, s.count, false).0, file: moved, ..s },
                ),
            }
        },
    }
}

/// A bound on the steps that a replay has before it: what is left of the file.
pub open spec fn left(s: Session) -> nat {
    match s.file {
        None => 0,
        Some((bytes, Place::Text(pos))) => if pos < bytes.len() {
            (bytes.len() - pos) as nat
        } else {
            0
        },
        Some((bytes, Place::Binary(c))) => distance(header_data_offset(bytes), c.offset),
    }
}

/// The whole replay from `s` on: every step up to and with the one that ends
/// it or gives it up.
pub open spec fn plan(s: Session) -> Seq<Plan>
    decreases left(s),
    via plan_decreases
{
    match replay_step(s).0 {
        Plan::Done => seq![Plan::Done],
        Plan::Abort(fault) => seq![Plan::Abort(fault)],
        act => seq![act] + plan(replay_step(s).1),
    }
}

#[via_fn]
proof fn plan_decreases(s: Session) {
    match s.file {
        Some((bytes, Place::Text(pos))) => {
            if 0 <= pos < bytes.len() {
                lemma_line_end_bounds(bytes, pos);
            }
        },
        _ => {},
    }
}

/// Builds the two frames of a message.
pub fn frames(topic: &str, payload: Vec<u8>) -> (pair: (Frame, Frame))
    ensures
        (pair.0@, pair.1@) == envelope(topic@, payload@),
{
    (Frame { bytes: slice_to_vec(topic.as_bytes()), more: true }, Frame { bytes: payload, more: false })
}

/// A publishing session: the topic, the counter of outstanding sends and,
/// while a file is replayed, the reader of that file.
pub struct Publisher<'a> {
    topic: String,
    throttle: Throttle,
    source: Option<Source<'a>>,
}

impl<'a> Publisher<'a> {
    /// The state of the session.
    pub closed spec fn session(self) -> Session {
        Session {
            topic: self.topic@,
            hwm: self.throttle.hwm(),
            count: self.throttle.count(),
            file: match self.source {
                Some(source) => Some((source.bytes(), source.place())),
                None => None,
            },
        }
    }

    /// A session without a file to replay.
    pub fn new(topic: String, hwm: i32) -> (publisher: Self)
        ensures
            publisher.session() == (Session { topic: topic@, hwm: hwm as int, count: 0, file: None }),
    {
        Publisher { topic, throttle: Throttle::new(hwm), source: None }
    }

    /// A session that first replays the file `bytes`.
    pub fn with_file(topic: String, hwm: i32, bytes: &'a [u8]) -> (publisher: Self)
        ensures
            publisher.session() == (Session {
                topic: topic@,
                hwm: hwm as int,
                count: 0,
                file: Some((bytes@, first_place(bytes@))),
            }),
    {
        Publisher { topic, throttle: Throttle::new(hwm), source: Some(Source::open(bytes)) }
    }

    /// The next step of the replay.
    pub fn next_from_file(&mut self) -> (action: Action)
        ensures
            action@ == replay_step(old(self).session()).0,
            final(self).session() == replay_step(old(self).session()).1,
    {
        let found = match &mut self.source {
            Some(source) => source.next(),
            None => {
                return Action::Done;
            },
        };
        match found {
            Step::End => Action::Done,
            Step::Malformed => Action::Abort(Fault::Malformed),
            Step::NotText => Action::Abort(Fault::NotText),
            Step::Record(record) => {
                let pause: bool = self.throttle.step(true);
                let pair = frames(self.topic.as_str(), record.payload);
                Action::Publish {
                    topic: pair.0,
                    payload: pair.1,
                    pause_ms: if pause {
                        COOL_DOWN_MS
                    } else {
                        0
                    },
                }
            },
            Step::Truncated | Step::Blank => {
                let pause: bool = self.throttle.step(false);
                Action::Skip {
                    pause_ms: if pause {
                        COOL_DOWN_MS
                    } else {
                        0
                    },
                }
            },
        }
    }

    /// The frames of a message typed in after the replay. Such messages are
    /// sent as they come, empty or not, and are not counted.
    pub fn typed_message(&self, line: &str) -> (pair: (Frame, Frame))
        ensures
            (pair.0@, pair.1@) == envelope(self.session().topic, line.spec_bytes()),
    {
        frames(self.topic.as_str(), slice_to_vec(line.as_bytes()))
    }
}

} // verus!
