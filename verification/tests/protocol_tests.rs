use overlord::auth::AuthManager;
use overlord::driver::{check_proposal, check_qc_weight, pre_vote_qc_ready, CommitLog};
use overlord::error::ConsensusError;
use overlord::smr::{Smr, Step};
use overlord::timer::{Timer, TimerPhase};
use overlord::types::{
    Aggregates, AuthConfig, Node, PreVoteQC, Proposal, SelectMode, SignedPreVote, TestBlock,
    TimeConfig, Vote,
};

fn four_nodes() -> Vec<Node> {
    // Deliberately unsorted: the manager must sort by address.
    vec![
        Node::new(b"dave".to_vec(), String::new(), 1, 1),
        Node::new(b"alice".to_vec(), String::new(), 1, 1),
        Node::new(b"carol".to_vec(), String::new(), 1, 1),
        Node::new(b"bob".to_vec(), String::new(), 1, 1),
    ]
}

fn manager() -> AuthManager {
    AuthManager::new(AuthConfig {
        common_ref: String::new(),
        mode: SelectMode::InTurn,
        auth_list: four_nodes(),
    })
}

#[test]
fn threshold_of_four_equal_authorities_is_three() {
    let auth = manager();
    assert_eq!(auth.total_weight(), 4);
    assert_eq!(auth.threshold_weight(), 3);
}

#[test]
fn exactly_threshold_weight_triggers_qc_and_one_less_does_not() {
    let votes: Vec<SignedPreVote> = (0..3)
        .map(|i| SignedPreVote::new(Vote::new(1, 0, b"x".to_vec()), 1, vec![i as u8], Vec::new()))
        .collect();
    let two = votes[..2].to_vec();
    assert!(!pre_vote_qc_ready(&two, 3));
    assert!(pre_vote_qc_ready(&votes, 3));
}

#[test]
fn round_zero_proposer_is_height_mod_n_in_turn() {
    let auth = manager();
    // sorted order: alice, bob, carol, dave
    let names: [&[u8]; 4] = [b"alice", b"bob", b"carol", b"dave"];
    for h in 1u64..=8 {
        let p = auth.proposer(h, 0, &Vec::new()).unwrap();
        assert_eq!(p, names[(h % 4) as usize].to_vec());
    }
    // Within a height the proposer rotates per round.
    assert_eq!(auth.proposer(1, 1, &Vec::new()).unwrap(), b"carol".to_vec());
}

#[test]
fn propose_backoff_doubles_and_caps_at_ten() {
    let config = TimeConfig {
        interval: 1000,
        propose_ratio: 15,
        pre_vote_ratio: 10,
        pre_commit_ratio: 7,
        brake_ratio: 10,
    };
    let mut timer = Timer::new(1000, Some(config));
    // t_propose = 1500; rounds 0..=3 give 1500, 3000, 6000, 12000.
    assert_eq!(timer.set_round_timer(1, 0), 1500);
    assert_eq!(timer.set_round_timer(1, 1), 3000);
    assert_eq!(timer.set_round_timer(1, 2), 6000);
    assert_eq!(timer.set_round_timer(1, 3), 12000);
    // The back-off caps at two to the tenth.
    assert_eq!(timer.set_round_timer(1, 10), 1500 * 1024);
    assert_eq!(timer.set_round_timer(1, 11), 1500 * 1024);
    assert_eq!(timer.set_round_timer(1, 63), 1500 * 1024);
}

#[test]
fn stale_trigger_is_a_no_op() {
    let mut timer = Timer::new(1000, None);
    timer.set_round_timer(5, 2);
    // An old height or an old round is dropped, whatever the phase.
    assert!(timer.trigger(4, 2, TimerPhase::Propose).is_none());
    assert!(timer.trigger(5, 1, TimerPhase::Propose).is_none());
    assert!(timer.trigger(4, 9, TimerPhase::PreVote).is_none());
    assert!(timer.trigger(5, 1, TimerPhase::PreVote).is_none());
    assert!(timer.trigger(5, 1, TimerPhase::PreCommit).is_none());
    assert!(timer.trigger(5, 1, TimerPhase::Brake).is_none());
    // A current trigger passes through unchanged.
    let t = timer.trigger(5, 2, TimerPhase::Propose).unwrap();
    assert_eq!((t.height, t.round, t.phase), (5, 2, TimerPhase::Propose));
    assert!(timer.trigger(5, 2, TimerPhase::PreVote).is_some());
}

#[test]
fn non_propose_phase_timeouts_use_their_ratio() {
    let timer = Timer::new(1000, None);
    assert_eq!(timer.set_phase_timer(TimerPhase::PreVote), 1000);
    assert_eq!(timer.set_phase_timer(TimerPhase::PreCommit), 700);
    assert_eq!(timer.set_phase_timer(TimerPhase::Brake), 1000);
}

#[test]
fn commit_log_is_strictly_increasing_by_one() {
    let mut log = CommitLog::new(1);
    assert_eq!(log.next_height(), 1);
    log.record_commit(1, b"a".to_vec()).unwrap();
    log.record_commit(2, b"b".to_vec()).unwrap();
    assert_eq!(log.next_height(), 3);
    // A gap or a repeat is refused.
    assert_eq!(log.record_commit(2, b"x".to_vec()), Err(ConsensusError::OutOfWindow));
    assert_eq!(log.record_commit(4, b"x".to_vec()), Err(ConsensusError::OutOfWindow));
    assert_eq!(log.committed_hash(1).unwrap(), b"a".to_vec());
    assert_eq!(log.committed_hash(2).unwrap(), b"b".to_vec());
    assert!(log.committed_hash(3).is_none());
}

#[test]
fn smr_votes_once_per_round() {
    let mut smr = Smr::new(1, Vec::new());
    let vote = smr.handle_proposal(0, b"x".to_vec(), None).unwrap();
    assert_eq!(vote, Vote::new(1, 0, b"x".to_vec()));
    assert_eq!(smr.step(), Step::PreVote);
    // A second proposal for the same round finds the propose step gone.
    assert!(smr.handle_proposal(0, b"y".to_vec(), None).is_none());
    // So does a propose timeout.
    assert!(smr.handle_timeout(0, TimerPhase::Propose).is_none());
}

#[test]
fn error_name_covers_every_kind() {
    let kinds = [
        ConsensusError::Crypto,
        ConsensusError::MsgMalformed,
        ConsensusError::AlreadyExists,
        ConsensusError::InsertDiff,
        ConsensusError::Adapter,
        ConsensusError::TimerChannelDropped,
        ConsensusError::OutOfWindow,
    ];
    for kind in kinds {
        assert!(!kind.name().is_empty());
    }
}

#[test]
fn proposal_validation_accepts_only_the_slot_it_names() {
    let last_commit: Vec<u8> = b"parent".to_vec();
    let block = TestBlock {
        pre_hash: last_commit.clone(),
        height: 3,
        exec_height: 2,
        pre_proof: Default::default(),
    };
    let hash: Vec<u8> = b"blockhash".to_vec();
    let good = Proposal::new(3, 1, block, hash.clone(), None, b"bob".to_vec());
    assert!(check_proposal(&good, 3, 1, &b"bob".to_vec(), &last_commit, &last_commit).is_ok());
    // The wrong round, proposer or parent hash is malformed.
    assert!(check_proposal(&good, 3, 2, &b"bob".to_vec(), &last_commit, &last_commit).is_err());
    assert!(check_proposal(&good, 3, 1, &b"eve".to_vec(), &last_commit, &last_commit).is_err());
    assert!(check_proposal(&good, 3, 1, &b"bob".to_vec(), &b"other".to_vec(), &last_commit).is_err());

    // A carried polka must be older than the round and endorse the block.
    let polka = PreVoteQC::new(
        Vote::new(3, 0, hash.clone()),
        Aggregates::new(Vec::new(), Vec::new()),
    );
    let locked = Proposal::new(
        3,
        1,
        TestBlock { pre_hash: last_commit.clone(), height: 3, exec_height: 2, pre_proof: Default::default() },
        hash.clone(),
        Some(polka.clone()),
        b"bob".to_vec(),
    );
    assert!(check_proposal(&locked, 3, 1, &b"bob".to_vec(), &last_commit, &last_commit).is_ok());
    let stale_polka = PreVoteQC::new(
        Vote::new(3, 1, hash.clone()),
        Aggregates::new(Vec::new(), Vec::new()),
    );
    let bad_lock = Proposal::new(
        3,
        1,
        TestBlock { pre_hash: last_commit.clone(), height: 3, exec_height: 2, pre_proof: Default::default() },
        hash,
        Some(stale_polka),
        b"bob".to_vec(),
    );
    assert!(check_proposal(&bad_lock, 3, 1, &b"bob".to_vec(), &last_commit, &last_commit).is_err());
}

#[test]
fn qc_weight_check_needs_a_marked_quorum() {
    let auth = manager();
    let all: Vec<Vec<u8>> = vec![
        b"alice".to_vec(),
        b"bob".to_vec(),
        b"carol".to_vec(),
        b"dave".to_vec(),
    ];
    let three = all[..3].to_vec();
    let two = all[..2].to_vec();
    let bm3 = auth.bitmap_of_voters(&three);
    let bm2 = auth.bitmap_of_voters(&two);
    let t = auth.threshold_weight();
    assert!(check_qc_weight(&auth, &Aggregates::new(bm3, Vec::new()), t).is_ok());
    assert!(check_qc_weight(&auth, &Aggregates::new(bm2, Vec::new()), t).is_err());
}

#[test]
fn random_mode_is_deterministic_across_authorities() {
    let build = || {
        AuthManager::new(AuthConfig {
            common_ref: String::new(),
            mode: SelectMode::Random,
            auth_list: four_nodes(),
        })
    };
    let auth1 = build();
    let auth2 = build();
    let seed = b"previous-block-hash".to_vec();
    // Two authorities with the same list, height, round and seed pick the
    // same proposer.
    for r in 0u64..6 {
        assert_eq!(
            auth1.proposer(7, r, &seed).unwrap(),
            auth2.proposer(7, r, &seed).unwrap()
        );
    }
}

#[test]
fn unlocked_proposer_uses_the_fresh_block() {
    let smr = Smr::new(1, Vec::new());
    let (hash, carried) = smr.propose_content(b"fresh".to_vec());
    assert_eq!(hash, b"fresh".to_vec());
    assert!(carried.is_none());
}
