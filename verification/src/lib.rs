//! The rules by which a client talks to a scanning daemon: command tokens,
//! the framing of content that is streamed for a scan, the order of one
//! exchange on one stream, and the reading of the daemon's verdict.
//!
//! Nothing here touches a socket or a file. An [`Exchange`] is told what has
//! happened and says what to do next; whoever holds the stream does it.

pub mod command;
pub mod exchange;
pub mod frame;
pub mod target;
pub mod transcript;
pub mod trusted;
pub mod verdict;

pub use command::PONG;
pub use exchange::{
    get_version, ping, scan, scan_stream, send_command, shutdown, Action, Event, Exchange, Kind,
    Phase,
};
pub use target::Socket;
pub use verdict::{clean, DecodeFailure, Utf8Result};
