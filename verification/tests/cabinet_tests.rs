use overlord::cabinet::{Cabinet, Capsule, CollectionError};
use overlord::types::{
    Aggregates, Choke, ChokeQC, CumWeight, PreCommitQC, PreVoteQC, Proposal, SignedChoke,
    SignedPreCommit, SignedPreVote, SignedProposal, TestBlock, Vote, VoteType,
};

type Block = TestBlock;

fn empty_proposal() -> SignedProposal<Block> {
    SignedProposal::new(
        Proposal::new(0, 0, TestBlock::genesis_block(), Vec::new(), None, Vec::new()),
        Vec::new(),
    )
}

trait TestVote: Sized + Clone + Default {
    fn set(&mut self, round: u64, weight: u32, voter: Vec<u8>);
    fn capsule(&self) -> Capsule<Block>;
}

impl TestVote for SignedPreVote {
    fn set(&mut self, round: u64, weight: u32, voter: Vec<u8>) {
        self.vote.round = round;
        self.vote_weight = weight;
        self.voter = voter;
    }

    fn capsule(&self) -> Capsule<Block> {
        Capsule::SignedPreVote(self.clone())
    }
}

impl TestVote for SignedPreCommit {
    fn set(&mut self, round: u64, weight: u32, voter: Vec<u8>) {
        self.vote.round = round;
        self.vote_weight = weight;
        self.voter = voter;
    }

    fn capsule(&self) -> Capsule<Block> {
        Capsule::SignedPreCommit(self.clone())
    }
}

impl TestVote for SignedChoke {
    fn set(&mut self, round: u64, weight: u32, voter: Vec<u8>) {
        self.choke.round = round;
        self.vote_weight = weight;
        self.voter = voter;
    }

    fn capsule(&self) -> Capsule<Block> {
        Capsule::SignedChoke(self.clone())
    }
}

fn check_vote<V: TestVote>(
    cabinet: &mut Cabinet<Block>,
    vote: &mut V,
    vote_type: VoteType,
    opt_hash: Option<Vec<u8>>,
) {
    vote.set(0, 10, b"wcc".to_vec());
    assert_eq!(
        cabinet.insert(0, 0, vote.capsule()).unwrap(),
        Some(CumWeight::new(10, vote_type, 0, opt_hash.clone()))
    );

    assert!(cabinet.insert(0, 0, vote.capsule()).is_err());
    vote.set(0, 12, b"wcc".to_vec());
    assert!(cabinet.insert(0, 0, vote.capsule()).is_err());
    vote.set(0, 4, b"zyc".to_vec());
    assert_eq!(
        cabinet.insert(0, 0, vote.capsule()).unwrap(),
        Some(CumWeight::new(14, vote_type, 0, opt_hash.clone()))
    );
    vote.set(1, 21, b"yjy".to_vec());
    assert_eq!(
        cabinet.insert(0, 1, vote.capsule()).unwrap(),
        Some(CumWeight::new(21, vote_type, 1, opt_hash.clone()))
    );
    // The report is scoped to the (height, round) cell: round 0 now totals
    // 19, and round 1's heavier 21 does not leak into it.
    vote.set(0, 5, b"zy".to_vec());
    assert_eq!(
        cabinet.insert(0, 0, vote.capsule()).unwrap(),
        Some(CumWeight::new(19, vote_type, 0, opt_hash))
    );
}

#[test]
fn test_cabinet() {
    let mut cabinet = Cabinet::<Block>::default();

    let mut signed_pre_vote = SignedPreVote::default();
    check_vote(
        &mut cabinet,
        &mut signed_pre_vote,
        VoteType::PreVote,
        Some(Vec::new()),
    );

    let mut signed_pre_commit = SignedPreCommit::default();
    check_vote(
        &mut cabinet,
        &mut signed_pre_commit,
        VoteType::PreCommit,
        Some(Vec::new()),
    );

    let mut signed_choke = SignedChoke::default();
    check_vote(&mut cabinet, &mut signed_choke, VoteType::Choke, None);

    let signed_proposal = empty_proposal();
    assert_eq!(
        cabinet
            .insert(0, 0, Capsule::SignedProposal(signed_proposal.duplicate()))
            .unwrap(),
        None
    );
    assert_eq!(cabinet.get_signed_proposal(0, 0).unwrap(), signed_proposal);

    let pre_vote_qc = PreVoteQC::default();
    assert_eq!(cabinet.insert(0, 0, Capsule::PreVoteQC(pre_vote_qc.clone())).unwrap(), None);
    assert_eq!(cabinet.get_pre_vote_qc(0, 0).unwrap(), pre_vote_qc);

    let pre_commit_qc = PreCommitQC::default();
    assert_eq!(cabinet.insert(0, 0, Capsule::PreCommitQC(pre_commit_qc.clone())).unwrap(), None);
    assert_eq!(cabinet.get_pre_commit_qc(0, 0).unwrap(), pre_commit_qc);

    let choke_qc = ChokeQC::default();
    assert_eq!(cabinet.insert(0, 0, Capsule::ChokeQC(choke_qc.clone())).unwrap(), None);
    assert_eq!(cabinet.get_choke_qc(0, 0).unwrap(), choke_qc);

    // test pop
    assert!(cabinet.height_count() != 0);
    let grids = cabinet.pop(0).unwrap();
    assert_eq!(cabinet.height_count(), 0);
    assert_eq!(grids.len(), 2);

    // test remove
    cabinet.insert(98, 0, Capsule::ChokeQC(choke_qc.clone())).unwrap();
    cabinet.insert(99, 0, Capsule::ChokeQC(choke_qc.clone())).unwrap();
    cabinet.insert(100, 0, Capsule::ChokeQC(choke_qc)).unwrap();
    cabinet.remove_below(100);
    assert_eq!(cabinet.height_count(), 1);
}

#[test]
fn reinsert_identical_message_is_idempotent() {
    let mut cabinet = Cabinet::<Block>::default();
    let vote = SignedPreVote::new(Vote::new(5, 0, b"xx".to_vec()), 3, b"alice".to_vec(), b"sig".to_vec());
    let first = cabinet.insert(5, 0, Capsule::SignedPreVote(vote.clone())).unwrap();
    assert_eq!(first, Some(CumWeight::new(3, VoteType::PreVote, 0, Some(b"xx".to_vec()))));

    // A byte-identical repeat must fail as AlreadyExists...
    match cabinet.insert(5, 0, Capsule::SignedPreVote(vote.clone())) {
        Err(CollectionError::AlreadyExists(_)) => {}
        other => panic!("expected AlreadyExists, got {:?}", other),
    }
    // ...and leave the observable state unchanged: the same query answers.
    let stored = cabinet.get_signed_pre_votes_by_hash(5, 0, &b"xx".to_vec()).unwrap();
    assert_eq!(stored.len(), 1);
    assert_eq!(stored[0], vote);
}

#[test]
fn conflicting_message_is_equivocation() {
    let mut cabinet = Cabinet::<Block>::default();
    let vote1 = SignedPreVote::new(Vote::new(5, 0, b"xx".to_vec()), 3, b"alice".to_vec(), b"s1".to_vec());
    let vote2 = SignedPreVote::new(Vote::new(5, 0, b"yy".to_vec()), 3, b"alice".to_vec(), b"s2".to_vec());
    cabinet.insert(5, 0, Capsule::SignedPreVote(vote1.clone())).unwrap();
    match cabinet.insert(5, 0, Capsule::SignedPreVote(vote2)) {
        Err(CollectionError::InsertDiff(stored, _offered)) => match stored {
            Capsule::SignedPreVote(s) => assert_eq!(s, vote1),
            other => panic!("wrong capsule kind: {:?}", other),
        },
        other => panic!("expected InsertDiff, got {:?}", other),
    }
    // The first vote is retained.
    let stored = cabinet.get_signed_pre_votes_by_hash(5, 0, &b"xx".to_vec()).unwrap();
    assert_eq!(stored.len(), 1);
    assert_eq!(stored[0], vote1);
    assert!(cabinet.get_signed_pre_votes_by_hash(5, 0, &b"yy".to_vec()).is_none());
}

#[test]
fn cumulative_weight_is_monotone() {
    let mut cabinet = Cabinet::<Block>::default();
    let mut last = 0u32;
    for (i, weight) in [4u32, 1, 7, 2].iter().enumerate() {
        let voter = vec![i as u8];
        let vote = SignedPreVote::new(Vote::new(9, 0, b"h".to_vec()), *weight, voter, Vec::new());
        let cum = cabinet
            .insert(9, 0, Capsule::SignedPreVote(vote))
            .unwrap()
            .unwrap();
        assert!(cum.cum_weight >= last);
        last = cum.cum_weight;
    }
    assert_eq!(last, 14);
}

#[test]
fn aggregates_and_choke_accessors() {
    let mut cabinet = Cabinet::<Block>::default();
    let choke = SignedChoke::new(Choke::new(2, 1), 1, None, b"carol".to_vec(), b"s".to_vec());
    cabinet.insert(2, 1, Capsule::SignedChoke(choke.clone())).unwrap();
    let chokes = cabinet.get_signed_chokes(2, 1).unwrap();
    assert_eq!(chokes, vec![choke]);
    assert!(cabinet.get_signed_chokes(2, 0).is_none());

    let qc = PreVoteQC::new(
        Vote::new(2, 1, b"zz".to_vec()),
        Aggregates::new(b"\xF0".to_vec(), b"agg".to_vec()),
    );
    cabinet.insert(2, 1, Capsule::PreVoteQC(qc.clone())).unwrap();
    assert_eq!(cabinet.get_pre_vote_qc(2, 1).unwrap(), qc);
    assert!(cabinet.get_pre_vote_qc(2, 0).is_none());
}

#[test]
fn weight_report_is_scoped_to_the_round() {
    let mut cabinet = Cabinet::<Block>::default();
    let mut vote = SignedPreVote::default();
    vote.set(0, 10, b"wcc".to_vec());
    cabinet.insert(0, 0, vote.capsule()).unwrap();
    vote.set(0, 4, b"zyc".to_vec());
    cabinet.insert(0, 0, vote.capsule()).unwrap();
    vote.set(1, 21, b"yjy".to_vec());
    cabinet.insert(0, 1, vote.capsule()).unwrap();
    // A later insert at round 0 reports round 0's own total, not round 1's.
    vote.set(0, 5, b"zy".to_vec());
    assert_eq!(
        cabinet.insert(0, 0, vote.capsule()).unwrap(),
        Some(CumWeight::new(19, VoteType::PreVote, 0, Some(Vec::new())))
    );
}
