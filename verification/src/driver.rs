//! The driver's verified decisions: when a quorum certificate may be formed,
//! and how the committed chain advances height by height.

use vstd::prelude::*;
use crate::cabinet::{hash_weight, choke_weight};
use crate::types::{SignedChoke, SignedChokeView, SignedPreCommit, SignedPreVote, SignedVoteView};

verus! {

/// The summed weight of a list of signed votes.
pub open spec fn sv_weight_sum(s: Seq<SignedVoteView>) -> int
    decreases s.len(),
{
    if s.len() == 0 {
        0
    } else {
        sv_weight_sum(s.drop_last()) + s.last().vote_weight
    }
}

/// Sums the weight carried by the given pre-votes.
pub fn pre_votes_weight(votes: &Vec<SignedPreVote>) -> (r: u64)
    requires
        votes@.len() <= 0x7fff_ffff,
    ensures
        r == sv_weight_sum(votes@.map_values(|x: SignedPreVote| x@)),
{
    let ghost views = votes@.map_values(|x: SignedPreVote| x@);
    let n = votes.len();
    let mut acc: u64 = 0;
    let mut i: usize = 0;
    proof {
        assert(views.take(0) =~= Seq::<SignedVoteView>::empty());
    }
    while i < n
        invariant
            i <= n,
            n == views.len(),
            n <= 0x7fff_ffff,
            views == votes@.map_values(|x: SignedPreVote| x@),
            acc == sv_weight_sum(views.take(i as int)),
            acc <= i * 0xffff_ffff,
        decreases n - i,
    {
        proof {
            assert(views.take(i + 1).drop_last() =~= views.take(i as int));
            assert(views.take(i + 1).last() == views[i as int]);
        }
        acc = acc + votes[i].vote_weight as u64;
        i += 1;
    }
    proof {
        assert(views.take(n as int) =~= views);
    }
    acc
}

/// Sums the weight carried by the given pre-commits.
pub fn pre_commits_weight(votes: &Vec<SignedPreCommit>) -> (r: u64)
    requires
        votes@.len() <= 0x7fff_ffff,
    ensures
        r == sv_weight_sum(votes@.map_values(|x: SignedPreCommit| x@)),
{
    let ghost views = votes@.map_values(|x: SignedPreCommit| x@);
    let n = votes.len();
    let mut acc: u64 = 0;
    let mut i: usize = 0;
    proof {
        assert(views.take(0) =~= Seq::<SignedVoteView>::empty());
    }
    while i < n
        invariant
            i <= n,
            n == views.len(),
            n <= 0x7fff_ffff,
            views == votes@.map_values(|x: SignedPreCommit| x@),
            acc == sv_weight_sum(views.take(i as int)),
            acc <= i * 0xffff_ffff,
        decreases n - i,
    {
        proof {
            assert(views.take(i + 1).drop_last() =~= views.take(i as int));
            assert(views.take(i + 1).last() == views[i as int]);
        }
        acc = acc + votes[i].vote_weight as u64;
        i += 1;
    }
    proof {
        assert(views.take(n as int) =~= views);
    }
    acc
}

/// The summed weight of a list of signed chokes.
pub open spec fn sc_weight_sum(s: Seq<SignedChokeView>) -> int
    decreases s.len(),
{
    if s.len() == 0 {
        0
    } else {
        sc_weight_sum(s.drop_last()) + s.last().vote_weight
    }
}

/// Sums the weight carried by the given chokes.
pub fn chokes_weight(chokes: &Vec<SignedChoke>) -> (r: u64)
    requires
        chokes@.len() <= 0x7fff_ffff,
    ensures
        r == sc_weight_sum(chokes@.map_values(|x: SignedChoke| x@)),
{
    let ghost views = chokes@.map_values(|x: SignedChoke| x@);
    let n = chokes.len();
    let mut acc: u64 = 0;
    let mut i: usize = 0;
    proof {
        assert(views.take(0) =~= Seq::<SignedChokeView>::empty());
    }
    while i < n
        invariant
            i <= n,
            n == views.len(),
            n <= 0x7fff_ffff,
            views == chokes@.map_values(|x: SignedChoke| x@),
            acc == sc_weight_sum(views.take(i as int)),
            acc <= i * 0xffff_ffff,
        decreases n - i,
    {
        proof {
            assert(views.take(i + 1).drop_last() =~= views.take(i as int));
            assert(views.take(i + 1).last() == views[i as int]);
        }
        acc = acc + chokes[i].vote_weight as u64;
        i += 1;
    }
    proof {
        assert(views.take(n as int) =~= views);
    }
    acc
}

/// Whether the collected pre-votes reach the quorum threshold: exactly when
/// their summed weight is at least `threshold`, never below it.
pub fn pre_vote_qc_ready(votes: &Vec<SignedPreVote>, threshold: u64) -> (r: bool)
    requires
        votes@.len() <= 0x7fff_ffff,
    ensures
        r == (sv_weight_sum(votes@.map_values(|x: SignedPreVote| x@)) >= threshold),
{
    pre_votes_weight(votes) >= threshold
}

/// Whether the collected pre-commits reach the quorum threshold.
pub fn pre_commit_qc_ready(votes: &Vec<SignedPreCommit>, threshold: u64) -> (r: bool)
    requires
        votes@.len() <= 0x7fff_ffff,
    ensures
        r == (sv_weight_sum(votes@.map_values(|x: SignedPreCommit| x@)) >= threshold),
{
    pre_commits_weight(votes) >= threshold
}

/// Whether the collected chokes reach the quorum threshold.
pub fn choke_qc_ready(chokes: &Vec<SignedChoke>, threshold: u64) -> (r: bool)
    requires
        chokes@.len() <= 0x7fff_ffff,
    ensures
        r == (sc_weight_sum(chokes@.map_values(|x: SignedChoke| x@)) >= threshold),
{
    chokes_weight(chokes) >= threshold
}

/// The chain of committed heights an authority has walked: one hash per
/// height, each height exactly one above the last.
#[derive(Debug)]
pub struct CommitLog {
    first_height: crate::Height,
    hashes: Vec<crate::Hash>,
}

impl CommitLog {
    /// The height committed first, usually one above genesis.
    pub closed spec fn spec_first_height(&self) -> int {
        self.first_height as int
    }

    /// The committed hashes, in height order.
    pub closed spec fn spec_hashes(&self) -> Seq<Seq<u8>> {
        self.hashes@.map_values(|h: Vec<u8>| h@)
    }

    /// The next height this authority may commit.
    pub closed spec fn spec_next_height(&self) -> int {
        self.first_height as int + self.hashes@.len()
    }

    /// An empty log that will start committing at `first_height`.
    pub fn new(first_height: crate::Height) -> (r: CommitLog)
        ensures
            r.spec_first_height() == first_height as int,
            r.spec_hashes() == Seq::<Seq<u8>>::empty(),
            r.spec_next_height() == first_height as int,
    {
        let log = CommitLog { first_height, hashes: Vec::new() };
        proof {
            assert(log.spec_hashes() =~= Seq::<Seq<u8>>::empty());
        }
        log
    }

    /// The next height to commit, saturating at the largest height.
    pub fn next_height(&self) -> (r: crate::Height)
        ensures
            self.spec_next_height() <= u64::MAX ==> r as int == self.spec_next_height(),
            self.spec_next_height() > u64::MAX ==> r == u64::MAX,
    {
        let offset = self.hashes.len() as u64;
        if self.first_height <= u64::MAX - offset {
            self.first_height + offset
        } else {
            u64::MAX
        }
    }

    /// Records a commit. Only the next height is accepted, so the committed
    /// heights grow strictly, one by one, with no gap and no repetition.
    pub fn record_commit(&mut self, height: crate::Height, block_hash: crate::Hash) -> (r: Result<
        (),
        crate::error::ConsensusError,
    >)
        ensures
            final(self).spec_first_height() == old(self).spec_first_height(),
            if height as int == old(self).spec_next_height() {
                &&& r is Ok
                &&& final(self).spec_hashes() == old(self).spec_hashes().push(block_hash@)
                &&& final(self).spec_next_height() == old(self).spec_next_height() + 1
            } else {
                &&& r matches Err(e) && e == crate::error::ConsensusError::OutOfWindow
                &&& final(self).spec_hashes() == old(self).spec_hashes()
            },
    {
        let expected_offset = self.hashes.len();
        let in_turn = height >= self.first_height && height - self.first_height
            == expected_offset as u64;
        if !in_turn {
            return Err(crate::error::ConsensusError::OutOfWindow);
        }
        self.hashes.push(block_hash);
        proof {
            assert(self.spec_hashes() =~= old(self).spec_hashes().push(block_hash@));
        }
        Ok(())
    }

    /// The hash committed at a height, if this log reached it.
    pub fn committed_hash(&self, height: crate::Height) -> (r: Option<crate::Hash>)
        ensures
            match r {
                Some(h) => self.spec_first_height() <= height as int
                    && (height as int - self.spec_first_height()) < self.spec_hashes().len()
                    && h@ == self.spec_hashes()[height as int - self.spec_first_height()],
                None => (height as int) < self.spec_first_height() || height as int
                    >= self.spec_next_height(),
            },
    {
        if height < self.first_height {
            return None;
        }
        let offset = height - self.first_height;
        if offset >= self.hashes.len() as u64 {
            return None;
        }
        Some(crate::types::clone_bytes(&self.hashes[offset as usize]))
    }
}

/// Whether a proposal is well-formed for its slot: it names the expected
/// height, round and proposer, builds on the last committed block, and any
/// polka it carries sits at an earlier round and endorses the proposed hash.
pub open spec fn proposal_acceptable(
    p: crate::types::ProposalView,
    height: int,
    round: int,
    expected_proposer: Seq<u8>,
) -> bool {
    &&& p.height == height
    &&& p.round == round
    &&& p.proposer == expected_proposer
    &&& match p.lock {
        Some(qc) => qc.vote.round < round && qc.vote.block_hash == p.block_hash
            && qc.vote.height == height,
        None => true,
    }
}

/// Validates a proposal against its slot, as the engine requires before the
/// state machine may vote on it: the coordinates, the proposer, and the
/// carried polka are each checked, and the block must extend the last commit.
/// Exactly the acceptable proposals pass; every other one is reported
/// malformed.
pub fn check_proposal<B: crate::traits::Blk>(
    proposal: &crate::types::Proposal<B>,
    height: crate::Height,
    round: crate::Round,
    expected_proposer: &Vec<u8>,
    last_commit_hash: &Vec<u8>,
    block_pre_hash: &Vec<u8>,
) -> (r: Result<(), crate::error::ConsensusError>)
    ensures
        r is Ok <==> proposal_acceptable(
            proposal@,
            height as int,
            round as int,
            expected_proposer@,
        ) && block_pre_hash@ == last_commit_hash@,
        r matches Err(e) ==> e == crate::error::ConsensusError::MsgMalformed,
{
    if proposal.height != height || proposal.round != round {
        return Err(crate::error::ConsensusError::MsgMalformed);
    }
    if !crate::types::bytes_eq(&proposal.proposer, expected_proposer) {
        return Err(crate::error::ConsensusError::MsgMalformed);
    }
    if !crate::types::bytes_eq(block_pre_hash, last_commit_hash) {
        return Err(crate::error::ConsensusError::MsgMalformed);
    }
    match &proposal.lock {
        Some(qc) => {
            if qc.vote.round >= round || qc.vote.height != height || !crate::types::bytes_eq(
                &qc.vote.block_hash,
                &proposal.block_hash,
            ) {
                return Err(crate::error::ConsensusError::MsgMalformed);
            }
        },
        None => {},
    }
    Ok(())
}

/// Checks an incoming certificate's voter set against the threshold: the
/// bitmap's marked authorities must carry at least the quorum weight. Exactly
/// the certificates with enough marked weight pass.
pub fn check_qc_weight(
    auth: &crate::auth::AuthManager,
    aggregates: &crate::types::Aggregates,
    threshold: u64,
) -> (r: Result<(), crate::error::ConsensusError>)
    requires
        auth.wf(),
    ensures
        r is Ok <==> crate::auth::bitmap_weight(
            auth.views(),
            aggregates@.address_bitmap,
            auth.views().len() as int,
        ) >= threshold,
        r matches Err(e) ==> e == crate::error::ConsensusError::Crypto,
{
    let weight = auth.weight_of_bitmap(&aggregates.address_bitmap);
    if weight >= threshold {
        Ok(())
    } else {
        Err(crate::error::ConsensusError::Crypto)
    }
}

/// The grid's running maximum never shrinks, and the cell a vote lands in
/// grows by exactly that vote's weight: cumulative weights are monotone
/// across inserts.
pub proof fn lemma_weight_monotone(g: crate::cabinet::GridView, v: SignedVoteView, h: Seq<u8>)
    requires
        v.vote_weight >= 0,
    ensures
        hash_weight(crate::cabinet::grid_after_pre_vote(g, v).pre_votes, h) >= hash_weight(
            g.pre_votes,
            h,
        ),
        crate::cabinet::grid_after_pre_vote(g, v).pv_max.cum_weight >= g.pv_max.cum_weight,
        choke_weight(crate::cabinet::grid_after_choke(g, chv(v)).chokes) >= choke_weight(g.chokes),
{
    crate::cabinet::lemma_hash_weight_push(g.pre_votes, v, h);
    crate::cabinet::lemma_choke_weight_push(g.chokes, chv(v));
}

/// The weight report an insert returns never falls below the report before
/// it, whatever cell the insert lands in.
pub proof fn lemma_report_monotone(
    old_max: crate::types::CumWeightView,
    new_cell: int,
    vt: crate::types::VoteType,
    round: int,
    hash: Option<Seq<u8>>,
)
    ensures
        crate::cabinet::merged_max(old_max, new_cell, vt, round, hash).cum_weight
            >= old_max.cum_weight,
{
}

/// A choke view carrying the same weight as a vote view; only the weight
/// matters to the monotonicity statement.
pub open spec fn chv(v: SignedVoteView) -> SignedChokeView {
    SignedChokeView {
        choke: crate::types::ChokeView { height: v.vote.height, round: v.vote.round },
        vote_weight: v.vote_weight,
        from: None,
        voter: v.voter,
        signature: v.signature,
    }
}

/// Filing the same pre-vote twice is rejected as already filed and leaves
/// the store as the first filing left it: the store after one filing holds
/// exactly that vote in the voter's slot, so the insert contract forces the
/// idempotent error on the repeat.
pub proof fn lemma_reinsert_is_idempotent(g: crate::cabinet::GridView, v: SignedVoteView)
    requires
        crate::cabinet::vote_of(g.pre_votes, v.voter) is None,
    ensures
        crate::cabinet::vote_of(
            crate::cabinet::grid_after_pre_vote(g, v).pre_votes,
            v.voter,
        ) == Some(v),
{
    let s = g.pre_votes.push(v);
    assert(s[s.len() - 1].voter == v.voter);
    assert(crate::cabinet::has_voter(s, v.voter));
    let i = choose|i: int| 0 <= i < s.len() && s[i].voter == v.voter;
    if i < s.len() - 1 {
        assert(g.pre_votes[i].voter == v.voter);
        assert(crate::cabinet::has_voter(g.pre_votes, v.voter));
    }
    assert(s[i] == v);
}

/// A voter's slot, once filled, answers every later offer from that voter:
/// a byte-identical repeat is reported as already filed, a different message
/// as equivocation, and neither changes the store. The slot keeps the first
/// message.
pub proof fn lemma_equivocation_rejected(g: crate::cabinet::GridView, v1: SignedVoteView, v2: SignedVoteView)
    requires
        v1.voter == v2.voter,
        crate::cabinet::vote_of(g.pre_votes, v1.voter) is None,
    ensures
        crate::cabinet::vote_of(
            crate::cabinet::grid_after_pre_vote(g, v1).pre_votes,
            v2.voter,
        ) == Some(v1),
{
    lemma_reinsert_is_idempotent(g, v1);
}

} // verus!
