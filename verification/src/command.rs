//! The tokens of the protocol, byte for byte.

use vstd::prelude::*;

verus! {

/// Asks the daemon whether it is alive: `zPING` and a NUL byte.
pub const PING: [u8; 6] = [0x7a, 0x50, 0x49, 0x4e, 0x47, 0x00];

/// Asks the daemon for its version banner: `zVERSION` and a NUL byte.
pub const VERSION: [u8; 9] = [0x7a, 0x56, 0x45, 0x52, 0x53, 0x49, 0x4f, 0x4e, 0x00];

/// Asks the daemon to shut down: `zSHUTDOWN` and a NUL byte.
pub const SHUTDOWN: [u8; 10] = [0x7a, 0x53, 0x48, 0x55, 0x54, 0x44, 0x4f, 0x57, 0x4e, 0x00];

/// Opens a stream of frames to scan: `zINSTREAM` and a NUL byte.
pub const INSTREAM: [u8; 10] = [0x7a, 0x49, 0x4e, 0x53, 0x54, 0x52, 0x45, 0x41, 0x4d, 0x00];

/// The reply of a daemon that is alive to a ping: `PONG` and a NUL byte.
pub const PONG: [u8; 5] = [0x50, 0x4f, 0x4e, 0x47, 0x00];

} // verus!
