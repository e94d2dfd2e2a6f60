//! Messages and records of the front end's terminal sessions.

use vstd::prelude::*;

verus! {

/// What the front end sends to a session.
#[derive(Debug)]
pub enum SshInput {
    /// Terminal keystrokes or data.
    Data(Vec<u8>),
    /// Close the session.
    Close,
}

/// A session as the front end lists it.
#[derive(Debug, Clone)]
pub struct SshSessionInfo {
    pub id: u32,
    pub host: String,
    pub user: String,
}

} // verus!
