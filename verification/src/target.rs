//! Where a daemon is reached.

use vstd::prelude::*;

verus! {

/// A daemon that is reached over a Unix socket: the path of the socket.
#[derive(Debug, Clone)]
pub struct Socket(pub std::path::PathBuf);

} // verus!
