//! A session with the daemon: the history first, then live snapshots.
use vstd::prelude::*;
use vstd::string::*;
use crate::daemon::{announced, parse_history_header};
use crate::error::ClientError;

pub use crate::paths::socket_path;

verus! {

/// How far a session is into the history that the daemon announced.
#[derive(Debug, Clone, Copy, PartialEq, Eq, Structural)]
pub struct DaemonStream {
    history_len: u64,
    history_remaining: u64,
}

impl DaemonStream {
    /// How many snapshots the daemon announced.
    pub closed spec fn len(&self) -> u64 {
        self.history_len
    }

    /// How many of them are still to come.
    pub closed spec fn remaining(&self) -> u64 {
        self.history_remaining
    }

    /// Starts a session from the daemon's first line; an empty one where the
    /// daemon sent none. Any line but the history's is an error.
    pub fn attach(header: &str) -> (r: Result<DaemonStream, ClientError>)
        ensures
            r is Ok == announced(header@) is Some,
            r is Ok ==> r->Ok_0.len() == announced(header@)->0 && r->Ok_0.remaining() == announced(
                header@,
            )->0,
            r is Err ==> r->Err_0 is Protocol && r->Err_0->Protocol_reply@ == header@,
    {
        match parse_history_header(header) {
            Some(n) => Ok(DaemonStream { history_len: n, history_remaining: n }),
            None => Err(ClientError::Protocol { reply: header.to_owned() }),
        }
    }

    /// How many snapshots the daemon announced.
    pub fn history_len(&self) -> (r: u64)
        ensures
            r == self.len(),
    {
        self.history_len
    }

    /// How many announced snapshots are still to come; once there are none, every
    /// snapshot is live.
    pub fn history_remaining(&self) -> (r: u64)
        ensures
            r == self.remaining(),
    {
        self.history_remaining
    }

    /// Takes account of a line. One that is no snapshot still takes its place in
    /// the history.
    pub fn next(&mut self)
        ensures
            final(self).len() == old(self).len(),
            final(self).remaining() == left_after(old(self).remaining(), 1),
    {
        self.history_remaining = self.history_remaining.saturating_sub(1);
    }
}

/// What is left of an announced history after so many lines.
pub open spec fn left_after(announced: u64, lines: nat) -> u64 {
    if lines >= announced {
        0
    } else {
        (announced - lines) as u64
    }
}

/// The announced history is over after exactly as many lines as were announced,
/// however they were read, and stays over.
pub proof fn law_history_ends(announced: u64, lines: nat)
    ensures
        left_after(announced, lines) == 0 <==> lines >= announced,
        left_after(left_after(announced, lines), 1) == left_after(announced, lines + 1),
        left_after(announced, 0) == announced,
{
}

} // verus!
