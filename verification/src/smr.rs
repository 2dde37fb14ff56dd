//! The per-height state machine: it consumes the round's proposal, the
//! quorum certificates and the timer's triggers, and decides the votes,
//! chokes and the commit, carrying its lock across rounds.

use vstd::prelude::*;
use crate::types::{Choke, PreCommitQC, PreVoteQC, QcView, Vote, VoteView};
use crate::{Height, Round};

verus! {

/// The phase the machine is in within the current round.
#[derive(Clone, Copy, Debug, PartialEq, Eq)]
pub enum Step {
    /// Waiting for the round's proposal.
    Propose,
    /// Voted; waiting for a pre-vote quorum.
    PreVote,
    /// Pre-committed; waiting for a pre-commit quorum.
    PreCommit,
    /// The round failed; waiting for a choke quorum.
    Brake,
    /// The height is decided; the machine is done.
    Commit,
}

/// The polka the machine has adopted: it must propose and defend this block
/// until a newer polka replaces it or the height commits.
#[derive(Clone, Debug)]
pub struct Lock {
    pub round: Round,
    pub hash: crate::Hash,
    pub qc: PreVoteQC,
}

/// The mathematical content of a [`Lock`].
pub ghost struct LockView {
    pub round: int,
    pub hash: Seq<u8>,
    pub qc: QcView,
}

impl View for Lock {
    type V = LockView;

    open spec fn view(&self) -> LockView {
        LockView { round: self.round as int, hash: self.hash@, qc: self.qc@ }
    }
}

/// The view of an optional lock.
pub open spec fn opt_lock_view(o: Option<Lock>) -> Option<LockView> {
    match o {
        Some(l) => Some(l@),
        None => None,
    }
}

/// A commit the machine surfaced: the decided block hash and its proof.
#[derive(Clone, Debug)]
pub struct CommitOutput {
    pub height: Height,
    pub block_hash: crate::Hash,
    pub proof: PreCommitQC,
}

/// The state machine for one height.
#[derive(Debug)]
pub struct Smr {
    height: Height,
    round: Round,
    step: Step,
    lock: Option<Lock>,
    last_commit_hash: crate::Hash,
}

impl Smr {
    /// The height this machine decides.
    pub closed spec fn spec_height(&self) -> int {
        self.height as int
    }

    /// The current round.
    pub closed spec fn spec_round(&self) -> int {
        self.round as int
    }

    /// The current step.
    pub closed spec fn spec_step(&self) -> Step {
        self.step
    }

    /// The adopted lock, if any.
    pub closed spec fn spec_lock(&self) -> Option<LockView> {
        opt_lock_view(self.lock)
    }

    /// The hash of the block committed at the previous height.
    pub closed spec fn spec_last_commit_hash(&self) -> Seq<u8> {
        self.last_commit_hash@
    }

    /// The machine's internal invariant: a lock names a non-empty hash, the
    /// hash its certificate voted for, at a round this height has reached.
    pub closed spec fn wf(&self) -> bool {
        match self.lock {
            Some(l) => l.hash@.len() > 0 && l.qc@.vote.block_hash == l.hash@
                && l.qc@.vote.height == self.height as int && l.round == l.qc.vote.round
                && l.round <= self.round,
            None => true,
        }
    }

    /// A fresh machine at round 0, waiting to propose, holding no lock.
    pub fn new(height: Height, last_commit_hash: crate::Hash) -> (r: Smr)
        ensures
            r.wf(),
            r.spec_height() == height as int,
            r.spec_round() == 0,
            r.spec_step() == Step::Propose,
            r.spec_lock() is None,
            r.spec_last_commit_hash() == last_commit_hash@,
    {
        Smr { height, round: 0, step: Step::Propose, lock: None, last_commit_hash }
    }

    /// The current round, for the driver.
    pub fn round(&self) -> (r: Round)
        ensures
            r as int == self.spec_round(),
    {
        self.round
    }

    /// The current step, for the driver.
    pub fn step(&self) -> (r: Step)
        ensures
            r == self.spec_step(),
    {
        self.step
    }

    /// The adopted lock's certificate and hash, for a proposer that must
    /// re-propose its locked block.
    pub fn lock(&self) -> (r: Option<Lock>)
        ensures
            opt_lock_view(r) == self.spec_lock(),
    {
        match &self.lock {
            Some(l) => Some(
                Lock {
                    round: l.round,
                    hash: crate::types::clone_bytes(&l.hash),
                    qc: l.qc.duplicate(),
                },
            ),
            None => None,
        }
    }

    /// What the round's proposer must put into its proposal: a held lock
    /// forces the locked block's hash, carrying the lock's polka; with no
    /// lock the freshly built block is proposed and no polka is carried.
    pub fn propose_content(&self, fresh_block_hash: crate::Hash) -> (r: (crate::Hash, Option<
        Lock,
    >))
        requires
            self.wf(),
        ensures
            match self.spec_lock() {
                Some(l) => r.0@ == l.hash && opt_lock_view(r.1) == Some(l),
                None => r.0@ == fresh_block_hash@ && r.1 is None,
            },
    {
        match &self.lock {
            Some(l) => {
                let held = Lock {
                    round: l.round,
                    hash: crate::types::clone_bytes(&l.hash),
                    qc: l.qc.duplicate(),
                };
                (crate::types::clone_bytes(&l.hash), Some(held))
            },
            None => (fresh_block_hash, None),
        }
    }

    /// Whether the machine refuses to adopt a proposal: its lock sits at a
    /// strictly higher round than the proposal's polka.
    pub open spec fn refuses(lock: Option<LockView>, proposal_lock_round: Option<int>) -> bool {
        match lock {
            Some(l) => match proposal_lock_round {
                Some(plr) => l.round > plr,
                None => true,
            },
            None => false,
        }
    }

    /// Decides the pre-vote for the round's proposal, already validated by
    /// the driver: the signature, the proposer, the block hash and the
    /// polka's certificate are checked before this call. A machine locked at
    /// a higher round than the proposal's polka refuses and votes for no
    /// block; otherwise it votes for the proposed hash. A proposal for
    /// another round, or outside the propose step, changes nothing.
    pub fn handle_proposal(
        &mut self,
        round: Round,
        block_hash: crate::Hash,
        proposal_lock_round: Option<Round>,
    ) -> (r: Option<Vote>)
        requires
            old(self).wf(),
        ensures
            final(self).wf(),
            final(self).spec_height() == old(self).spec_height(),
            final(self).spec_round() == old(self).spec_round(),
            final(self).spec_lock() == old(self).spec_lock(),
            final(self).spec_last_commit_hash() == old(self).spec_last_commit_hash(),
            if round as int == old(self).spec_round() && old(self).spec_step() == Step::Propose {
                &&& final(self).spec_step() == Step::PreVote
                &&& r matches Some(v) && v@ == (VoteView {
                    height: old(self).spec_height(),
                    round: round as int,
                    block_hash: if Self::refuses(
                        old(self).spec_lock(),
                        match proposal_lock_round {
                            Some(plr) => Some(plr as int),
                            None => None,
                        },
                    ) {
                        Seq::<u8>::empty()
                    } else {
                        block_hash@
                    },
                })
            } else {
                r is None && final(self).spec_step() == old(self).spec_step()
            },
    {
        if round != self.round || !matches!(self.step, Step::Propose) {
            return None;
        }
        let refuse = match &self.lock {
            Some(l) => match proposal_lock_round {
                Some(plr) => l.round > plr,
                None => true,
            },
            None => false,
        };
        self.step = Step::PreVote;
        if refuse {
            Some(Vote::empty_vote(self.height, round))
        } else {
            Some(Vote::new(self.height, round, block_hash))
        }
    }

    /// Consumes a pre-vote quorum for this height and decides the pre-commit.
    /// A polka for a block adopts the lock; an empty polka leaves the lock in
    /// place. A quorum from a newer round first advances the machine to that
    /// round. A quorum from an older round changes nothing.
    pub fn handle_pre_vote_qc(&mut self, qc: PreVoteQC) -> (r: Option<Vote>)
        requires
            old(self).wf(),
            qc@.vote.height == old(self).spec_height(),
            qc@.vote.round <= u64::MAX,
        ensures
            final(self).wf(),
            final(self).spec_height() == old(self).spec_height(),
            final(self).spec_last_commit_hash() == old(self).spec_last_commit_hash(),
            if qc@.vote.round >= old(self).spec_round() && (old(self).spec_step() == Step::Propose
                || old(self).spec_step() == Step::PreVote || qc@.vote.round > old(
                self,
            ).spec_round()) && old(self).spec_step() != Step::Commit {
                &&& final(self).spec_round() == qc@.vote.round
                &&& final(self).spec_step() == Step::PreCommit
                &&& final(self).spec_lock() == if qc@.vote.block_hash.len() > 0 {
                    Some(
                        LockView {
                            round: qc@.vote.round,
                            hash: qc@.vote.block_hash,
                            qc: qc@,
                        },
                    )
                } else {
                    old(self).spec_lock()
                }
                &&& r matches Some(v) && v@ == (VoteView {
                    height: old(self).spec_height(),
                    round: qc@.vote.round,
                    block_hash: qc@.vote.block_hash,
                })
            } else {
                r is None && *final(self) == *old(self)
            },
    {
        let qc_round = qc.vote.round;
        let stale = qc_round < self.round || (qc_round == self.round && !(matches!(
            self.step,
            Step::Propose,
        ) || matches!(self.step, Step::PreVote))) || matches!(self.step, Step::Commit);
        if stale {
            return None;
        }
        self.round = qc_round;
        self.step = Step::PreCommit;
        let hash = crate::types::clone_bytes(&qc.vote.block_hash);
        let vote = Vote::new(self.height, qc_round, crate::types::clone_bytes(&hash));
        if hash.len() > 0 {
            self.lock = Some(Lock { round: qc_round, hash, qc });
        }
        Some(vote)
    }

    /// Consumes a pre-commit quorum for this height. A quorum for a block
    /// decides the height: the machine commits and surfaces the block hash
    /// with the quorum as proof. An empty quorum sends the round to the brake
    /// step. A quorum from an older round, or anything after the commit,
    /// changes nothing.
    pub fn handle_pre_commit_qc(&mut self, qc: PreCommitQC) -> (r: Option<CommitOutput>)
        requires
            old(self).wf(),
            qc@.vote.height == old(self).spec_height(),
        ensures
            final(self).wf(),
            final(self).spec_height() == old(self).spec_height(),
            final(self).spec_lock() == old(self).spec_lock(),
            final(self).spec_last_commit_hash() == old(self).spec_last_commit_hash(),
            if qc@.vote.round >= old(self).spec_round() && old(self).spec_step() != Step::Commit {
                &&& final(self).spec_round() == qc@.vote.round
                &&& if qc@.vote.block_hash.len() > 0 {
                    &&& final(self).spec_step() == Step::Commit
                    &&& r matches Some(c) && c.height as int == old(self).spec_height()
                        && c.block_hash@ == qc@.vote.block_hash && c.proof@ == qc@
                } else {
                    &&& final(self).spec_step() == Step::Brake
                    &&& r is None
                }
            } else {
                r is None && *final(self) == *old(self)
            },
    {
        if qc.vote.round < self.round || matches!(self.step, Step::Commit) {
            return None;
        }
        self.round = qc.vote.round;
        if qc.vote.block_hash.len() > 0 {
            self.step = Step::Commit;
            let block_hash = crate::types::clone_bytes(&qc.vote.block_hash);
            Some(CommitOutput { height: self.height, block_hash, proof: qc })
        } else {
            self.step = Step::Brake;
            None
        }
    }

    /// Consumes a choke quorum: the round is abandoned and the next one
    /// entered, back at the propose step. The lock survives. An old quorum,
    /// or anything after the commit, changes nothing.
    pub fn handle_choke_qc(&mut self, round: Round) -> (r: Option<Round>)
        requires
            old(self).wf(),
            round + 1 <= u64::MAX,
        ensures
            final(self).wf(),
            final(self).spec_height() == old(self).spec_height(),
            final(self).spec_lock() == old(self).spec_lock(),
            final(self).spec_last_commit_hash() == old(self).spec_last_commit_hash(),
            if round as int >= old(self).spec_round() && old(self).spec_step() != Step::Commit {
                &&& final(self).spec_round() == round as int + 1
                &&& final(self).spec_step() == Step::Propose
                &&& r matches Some(next) && next as int == round as int + 1
            } else {
                r is None && *final(self) == *old(self)
            },
    {
        if round < self.round || matches!(self.step, Step::Commit) {
            return None;
        }
        self.round = round + 1;
        self.step = Step::Propose;
        Some(self.round)
    }

    /// What a timeout makes the machine do.
    ///
    /// A propose timeout still in the propose step pre-votes for no block; a
    /// pre-vote timeout pre-commits for no block; a pre-commit or brake
    /// timeout asks to abandon the round with a choke. A timeout for another
    /// round, or one arriving after its step already passed, changes nothing.
    pub fn handle_timeout(&mut self, round: Round, phase: crate::timer::TimerPhase) -> (r: Option<
        TimeoutAction,
    >)
        requires
            old(self).wf(),
        ensures
            final(self).wf(),
            final(self).spec_height() == old(self).spec_height(),
            final(self).spec_round() == old(self).spec_round(),
            final(self).spec_lock() == old(self).spec_lock(),
            final(self).spec_last_commit_hash() == old(self).spec_last_commit_hash(),
            if round as int == old(self).spec_round() {
                match phase {
                    crate::timer::TimerPhase::Propose => if old(self).spec_step() == Step::Propose {
                        &&& final(self).spec_step() == Step::PreVote
                        &&& r matches Some(TimeoutAction::BroadcastPreVote(v)) && v@ == (VoteView {
                            height: old(self).spec_height(),
                            round: round as int,
                            block_hash: Seq::<u8>::empty(),
                        })
                    } else {
                        r is None && final(self).spec_step() == old(self).spec_step()
                    },
                    crate::timer::TimerPhase::PreVote => if old(self).spec_step() == Step::PreVote {
                        &&& final(self).spec_step() == Step::PreCommit
                        &&& r matches Some(TimeoutAction::BroadcastPreCommit(v)) && v@ == (VoteView {
                            height: old(self).spec_height(),
                            round: round as int,
                            block_hash: Seq::<u8>::empty(),
                        })
                    } else {
                        r is None && final(self).spec_step() == old(self).spec_step()
                    },
                    crate::timer::TimerPhase::PreCommit => if old(self).spec_step()
                        == Step::PreCommit {
                        &&& final(self).spec_step() == Step::Brake
                        &&& r matches Some(TimeoutAction::BroadcastChoke(c)) && c@.height == old(
                            self,
                        ).spec_height() && c@.round == round as int
                    } else {
                        r is None && final(self).spec_step() == old(self).spec_step()
                    },
                    crate::timer::TimerPhase::Brake => if old(self).spec_step() == Step::Brake {
                        &&& final(self).spec_step() == Step::Brake
                        &&& r matches Some(TimeoutAction::BroadcastChoke(c)) && c@.height == old(
                            self,
                        ).spec_height() && c@.round == round as int
                    } else {
                        r is None && final(self).spec_step() == old(self).spec_step()
                    },
                }
            } else {
                r is None && final(self).spec_step() == old(self).spec_step()
            },
    {
        if round != self.round {
            return None;
        }
        match phase {
            crate::timer::TimerPhase::Propose => {
                if matches!(self.step, Step::Propose) {
                    self.step = Step::PreVote;
                    Some(TimeoutAction::BroadcastPreVote(Vote::empty_vote(self.height, round)))
                } else {
                    None
                }
            },
            crate::timer::TimerPhase::PreVote => {
                if matches!(self.step, Step::PreVote) {
                    self.step = Step::PreCommit;
                    Some(TimeoutAction::BroadcastPreCommit(Vote::empty_vote(self.height, round)))
                } else {
                    None
                }
            },
            crate::timer::TimerPhase::PreCommit => {
                if matches!(self.step, Step::PreCommit) {
                    self.step = Step::Brake;
                    Some(TimeoutAction::BroadcastChoke(Choke::new(self.height, round)))
                } else {
                    None
                }
            },
            crate::timer::TimerPhase::Brake => {
                if matches!(self.step, Step::Brake) {
                    Some(TimeoutAction::BroadcastChoke(Choke::new(self.height, round)))
                } else {
                    None
                }
            },
        }
    }
}

/// What the driver must broadcast after a timeout.
#[derive(Clone, Debug)]
pub enum TimeoutAction {
    BroadcastPreVote(Vote),
    BroadcastPreCommit(Vote),
    BroadcastChoke(Choke),
}

/// Lock preservation: a machine holding a lock refuses every proposal whose
/// polka sits below the lock's round, and votes for the proposed block only
/// when shown a polka from the lock's round or a newer one. Together with the
/// lock-update rule of the pre-vote quorum handler, a locked block can only
/// be abandoned for a block that itself gathered a newer polka.
pub proof fn lemma_lock_preservation(l: LockView, proposal_lock_round: Option<int>)
    ensures
        Smr::refuses(Some(l), proposal_lock_round) <==> !(proposal_lock_round matches Some(p)
            && p >= l.round),
{
}

} // verus!
