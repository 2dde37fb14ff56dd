//! Capability contracts the application supplies: blocks and cryptography.

use vstd::prelude::*;
use crate::types::PreCommitQC;
use crate::error::ConsensusError;
use crate::Height;

verus! {

/// An application block. The engine treats it as opaque: it only encodes,
/// decodes, clones and compares blocks, and reads the metadata below.
///
/// `repr` is the block's canonical encoding; it identifies the block, so an
/// implementation must encode injectively, as the same serialization must be
/// produced in every environment.
pub trait Blk: Sized {
    /// The canonical encoding of this block.
    spec fn repr(&self) -> Seq<u8>;

    /// Encodes the block deterministically.
    fn fixed_encode(&self) -> (r: Vec<u8>)
        ensures
            r@ == self.repr(),
    ;

    /// Decodes a block from its canonical encoding.
    fn fixed_decode(data: &Vec<u8>) -> (r: Option<Self>)
        ensures
            r matches Some(b) ==> b.repr() == data@,
    ;

    /// Compares two blocks by their canonical encodings.
    fn blk_eq(&self, other: &Self) -> (r: bool)
        ensures
            r == (self.repr() == other.repr()),
    ;

    /// Clones the block.
    fn blk_clone(&self) -> (r: Self)
        ensures
            r.repr() == self.repr(),
    ;

    /// The hash the application assigns to this block.
    fn get_block_hash(&self) -> crate::Hash;

    /// The hash of the block's predecessor.
    fn get_pre_hash(&self) -> crate::Hash;

    /// The height this block was built for.
    fn get_height(&self) -> Height;

    /// The executed height at the time this block was created.
    fn get_exec_height(&self) -> Height;

    /// The pre-commit certificate proving the predecessor's commit.
    fn get_proof(&self) -> PreCommitQC;
}

/// The signature scheme an authority uses. The engine never inspects
/// signatures; it only carries them and asks this trait to check them.
pub trait Crypto: Sized {
    /// Hashes a message.
    fn hash(&self, msg: &Vec<u8>) -> crate::Hash;

    /// Signs a hash with this authority's key.
    fn sign(&self, hash: &crate::Hash) -> Result<crate::Signature, ConsensusError>;

    /// Checks one signature against a hash and a signer address.
    fn verify_signature(
        &self,
        signature: &crate::Signature,
        hash: &crate::Hash,
        signer: &crate::Address,
    ) -> Result<(), ConsensusError>;

    /// Aggregates the given signatures, keyed by signer, into one.
    fn aggregate_sign(
        &self,
        signatures: &Vec<(crate::Address, crate::Signature)>,
    ) -> Result<crate::Signature, ConsensusError>;

    /// Checks an aggregate signature against a message hash and a signer list.
    fn verify_aggregated_signature(
        &self,
        aggregate_signature: &crate::Signature,
        msg_hash: &crate::Hash,
        signers: &Vec<crate::Address>,
    ) -> Result<(), ConsensusError>;
}

} // verus!
