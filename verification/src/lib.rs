//! The decisions of a publish/subscribe command-line client, apart from its
//! sockets and files.
//!
//! A publisher replays a file of messages and then sends what is typed in.
//! The file is either text, one message per line, or a binary log of
//! length-prefixed records; [`source`] tells the two apart, [`text_log`] and
//! [`record_log`] read them, and [`throttle`] paces the replay. [`publisher`]
//! puts these together into a session that says, step by step, what to send
//! and when to pause. A subscriber pairs frames into messages and renders each
//! as a line ([`subscriber`], [`display`]). [`prompt`] reads what the user
//! types at a prompt. [`well_formed`] states what the replay of a well-formed
//! binary log yields.

pub mod display;
pub mod prompt;
pub mod publisher;
pub mod record;
pub mod record_log;
pub mod source;
pub mod subscriber;
pub mod text_log;
pub mod throttle;
pub mod well_formed;
