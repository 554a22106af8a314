//! The subscriber's decisions: which messages to ask for, how frames pair up
//! into messages, and what line is written for each.
//!
//! A message arrives as two frames, the topic and then the payload. Messages
//! are counted from one. A line written to a file carries the count; a line
//! written to the console carries a fixed marker in its place.

use crate::display::{bytes_to_display, digit_str, display_text, hex_digit};
use crate::publisher::envelope;
use vstd::prelude::*;
use vstd::slice::slice_to_vec;
use vstd::utf8::{encode_utf8, encode_utf8_decode_utf8, encode_utf8_valid_utf8};

verus! {

/// How often the output file is flushed, in seconds.
pub const FLUSH_INTERVAL_SECS: u64 = 3;

/// Where the lines go.
#[derive(Clone, Copy, Debug, PartialEq, Eq, Structural)]
pub enum Sink {
    /// To a file: each line carries the message's number.
    File,
    /// To the console: each line carries the marker `*`.
    Console,
}

/// The filter to subscribe with: the bytes of the topic, or nothing, which
/// lets every message through.
pub open spec fn subscription_bytes(topic: Option<Seq<char>>) -> Seq<u8> {
    match topic {
        Some(t) => encode_utf8(t),
        None => Seq::empty(),
    }
}

/// The filter to subscribe with.
pub fn subscription(topic: Option<&str>) -> (filter: Vec<u8>)
    ensures
        filter@ == subscription_bytes(
            match topic {
                Some(t) => Some(t@),
                None => None,
            },
        ),
{
    match topic {
        Some(t) => slice_to_vec(t.as_bytes()),
        None => Vec::new(),
    }
}

/// A number in decimal, without leading zeros. The digits below ten are the
/// same in decimal and in hexadecimal.
pub open spec fn decimal(n: nat) -> Seq<char>
    decreases n,
{
    if n < 10 {
        seq![hex_digit(n as int)]
    } else {
        decimal(n / 10).push(hex_digit((n % 10) as int))
    }
}

/// What stands between the brackets of a line.
pub open spec fn tag(sink: Sink, count: nat) -> Seq<char> {
    match sink {
        Sink::File => decimal(count),
        Sink::Console => seq!['*'],
    }
}

/// The line for one message: `[tag] topic => payload`.
pub open spec fn line(tag: Seq<char>, topic: Seq<char>, payload: Seq<char>) -> Seq<char> {
    seq!['['] + tag + seq![']', ' '] + topic + seq![' ', '=', '>', ' '] + payload
}

fn push_decimal(text: &mut String, n: u64)
    ensures
        final(text)@ == old(text)@ + decimal(n as nat),
    decreases n,
{
    if n >= 10 {
        push_decimal(text, n / 10);
    }
    text.append(digit_str((n % 10) as u8));
    proof {
        if n >= 10 {
            assert(text@ =~= old(text)@ + decimal(n as nat / 10).push(hex_digit((n % 10) as int)));
        } else {
            assert(text@ =~= old(text)@ + seq![hex_digit(n as int)]);
        }
    }
}

/// Writes a number in decimal.
pub fn to_decimal(n: u64) -> (text: String)
    ensures
        text@ == decimal(n as nat),
{
    let mut text = String::new();
    push_decimal(&mut text, n);
    proof {
        assert(Seq::<char>::empty() + decimal(n as nat) =~= decimal(n as nat));
    }
    text
}

/// Builds the line for one message from its tag and the two rendered frames.
pub fn render_line(tag: &str, topic: &str, payload: &str) -> (text: String)
    ensures
        text@ == line(tag@, topic@, payload@),
{
    proof {
        reveal_strlit("[");
        reveal_strlit("] ");
        reveal_strlit(" => ");
    }
    let mut text = String::new();
    text.append("[");
    text.append(tag);
    text.append("] ");
    text.append(topic);
    text.append(" => ");
    text.append(payload);
    proof {
        assert("["@ =~= seq!['[']);
        assert("] "@ =~= seq![']', ' ']);
        assert(" => "@ =~= seq![' ', '=', '>', ' ']);
        assert(text@ =~= line(tag@, topic@, payload@));
    }
    text
}

/// What the subscriber holds between frames.
pub struct Received {
    /// Where the lines go.
    pub sink: Sink,
    /// How many messages are complete.
    pub count: nat,
    /// The rendered topic of a message whose payload has not come yet.
    pub pending: Option<Seq<char>>,
}

/// What a frame does to the subscriber: the state afterwards, and the line to
/// write if the frame completes a message.
pub open spec fn on_frame(state: Received, frame: Seq<u8>) -> (Received, Option<Seq<char>>) {
    match state.pending {
        None => (Received { pending: Some(display_text(frame)), ..state }, None),
        Some(topic) => (
            Received { count: state.count + 1, pending: None, ..state },
            Some(line(tag(state.sink, state.count + 1), topic, display_text(frame))),
        ),
    }
}

/// A subscribing session: the message counter and the topic frame that waits
/// for its payload.
pub struct Subscriber {
    sink: Sink,
    count: u64,
    pending: Option<String>,
}

impl Subscriber {
    /// The state of the session.
    pub closed spec fn state(self) -> Received {
        Received {
            sink: self.sink,
            count: self.count as nat,
            pending: match self.pending {
                Some(topic) => Some(topic@),
                None => None,
            },
        }
    }

    /// A session that has received nothing.
    pub fn new(sink: Sink) -> (subscriber: Self)
        ensures
            subscriber.state() == (Received { sink, count: 0, pending: None }),
    {
        Subscriber { sink, count: 0, pending: None }
    }

    /// How many messages are complete.
    pub fn received(&self) -> (count: u64)
        ensures
            count == self.state().count,
    {
        self.count
    }

    /// Takes one frame off the wire.
    ///
    /// The first frame of a message is its topic and yields nothing. The
    /// second is its payload: the message is counted, and its line comes back.
    pub fn frame(&mut self, bytes: &[u8]) -> (written: Option<String>)
        requires
            old(self).state().count < u64::MAX,
        ensures
            final(self).state() == on_frame(old(self).state(), bytes@).0,
            match written {
                Some(text) => on_frame(old(self).state(), bytes@).1 == Some(text@),
                None => on_frame(old(self).state(), bytes@).1 is None,
            },
    {
        let shown: String = bytes_to_display(bytes);
        match self.pending.take() {
            None => {
                self.pending = Some(shown);
                None
            },
            Some(topic) => {
                self.count = self.count + 1;
                let text: String = match self.sink {
                    Sink::File => {
                        let number: String = to_decimal(self.count);
                        render_line(number.as_str(), topic.as_str(), shown.as_str())
                    },
                    Sink::Console => {
                        proof {
                            reveal_strlit("*");
                            assert("*"@ =~= seq!['*']);
                        }
                        render_line("*", topic.as_str(), shown.as_str())
                    },
                };
                Some(text)
            },
        }
    }
}

/// Text that is published comes out as it went in.
pub proof fn lemma_text_is_shown_as_written(text: Seq<char>)
    ensures
        display_text(encode_utf8(text)) == text,
{
    encode_utf8_valid_utf8(text);
    encode_utf8_decode_utf8(text);
}

/// A published message is shown as it was sent.
///
/// When the two frames of a message reach a subscriber that waits for a
/// topic, the first yields nothing and the second yields the message's line.
/// The line holds the topic as it was given and the payload as text if its
/// bytes are valid UTF-8, in hexadecimal if not; and the message is counted.
pub proof fn lemma_published_message_is_shown(
    state: Received,
    topic: Seq<char>,
    payload: Seq<u8>,
)
    requires
        state.pending is None,
    ensures
        on_frame(state, envelope(topic, payload).0.0).1 is None,
        on_frame(on_frame(state, envelope(topic, payload).0.0).0, envelope(topic, payload).1.0).1
            == Some(line(tag(state.sink, state.count + 1), topic, display_text(payload))),
        on_frame(on_frame(state, envelope(topic, payload).0.0).0, envelope(topic, payload).1.0).0
            == (Received { count: state.count + 1, ..state }),
{
    lemma_text_is_shown_as_written(topic);
}

} // verus!
