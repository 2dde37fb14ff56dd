//! Error kinds surfaced by the engine; none is fatal to a peer except a
//! dropped timer channel.

use vstd::prelude::*;

verus! {

/// Why the engine rejected or abandoned a piece of work.
#[derive(Clone, Debug, PartialEq, Eq)]
pub enum ConsensusError {
    /// A signature or aggregate failed to verify.
    Crypto,
    /// A message was malformed: mismatched hash, height or proposer.
    MsgMalformed,
    /// A byte-identical message was inserted twice.
    AlreadyExists,
    /// A voter sent a different message in the same slot: equivocation.
    InsertDiff,
    /// An adapter call failed.
    Adapter,
    /// The timer channel was dropped; the authority must shut down.
    TimerChannelDropped,
    /// A message fell outside the retained height window.
    OutOfWindow,
}

impl ConsensusError {
    /// A short name for logs.
    pub fn name(&self) -> (r: &'static str)
        ensures
            r@.len() > 0,
    {
        let s: &'static str = match self {
            ConsensusError::Crypto => "crypto",
            ConsensusError::MsgMalformed => "msg_malformed",
            ConsensusError::AlreadyExists => "already_exists",
            ConsensusError::InsertDiff => "insert_diff",
            ConsensusError::Adapter => "adapter",
            ConsensusError::TimerChannelDropped => "timer_channel_dropped",
            ConsensusError::OutOfWindow => "out_of_window",
        };
        proof {
            reveal_strlit("crypto");
            reveal_strlit("msg_malformed");
            reveal_strlit("already_exists");
            reveal_strlit("insert_diff");
            reveal_strlit("adapter");
            reveal_strlit("timer_channel_dropped");
            reveal_strlit("out_of_window");
        }
        s
    }
}

} // verus!
