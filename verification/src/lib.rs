//! A Byzantine-fault-tolerant consensus engine: a fixed set of weighted
//! authorities agrees, height by height, on a totally ordered log of blocks.
//! Each committed block carries a quorum certificate proving that a weighted
//! super-majority endorsed it.

use vstd::prelude::*;

pub mod auth;
pub mod cabinet;
pub mod codec;
pub mod driver;
pub mod error;
pub mod safety;
pub mod smr;
pub mod timer;
pub mod traits;
pub mod types;

verus! {

/// A block hash, as raw bytes.
pub type Hash = Vec<u8>;

/// An authority's address, as raw bytes.
pub type Address = Vec<u8>;

/// An opaque signature, as raw bytes.
pub type Signature = Vec<u8>;

/// A height in the committed log; the genesis block sits below height 1.
pub type Height = u64;

/// A round within a height, starting at 0.
pub type Round = u64;

/// A voting or proposing weight.
pub type Weight = u32;

/// The BFT vote-weight threshold for `total`: strictly more than two thirds.
pub open spec fn spec_threshold(total: int) -> int {
    2 * total / 3 + 1
}

/// Computes the quorum threshold `floor(2 * total / 3) + 1`.
pub fn threshold(total: u64) -> (t: u64)
    requires
        total < 0x8000_0000_0000_0000,
    ensures
        t == spec_threshold(total as int),
{
    2 * total / 3 + 1
}

} // verus!
