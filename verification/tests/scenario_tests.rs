//! Four-node walks through whole heights: every node runs its own state
//! machine, store and commit log, while the test routes the messages.

use overlord::auth::AuthManager;
use overlord::cabinet::{Cabinet, Capsule, CollectionError};
use overlord::driver::{pre_commit_qc_ready, pre_vote_qc_ready, CommitLog};
use overlord::smr::{Smr, Step, TimeoutAction};
use overlord::timer::TimerPhase;
use overlord::traits::Blk;
use overlord::types::{
    Aggregates, AuthConfig, Choke, ChokeQC, PreCommitQC, PreVoteQC, SelectMode, SignedChoke,
    SignedPreCommit, SignedPreVote, TestBlock, Vote,
};

const ADDRS: [&[u8]; 4] = [b"0", b"a", b"b", b"c"];

fn auth() -> AuthManager {
    AuthManager::new(AuthConfig {
        common_ref: String::new(),
        mode: SelectMode::InTurn,
        auth_list: ADDRS
            .iter()
            .map(|a| overlord::types::Node::new(a.to_vec(), String::new(), 1, 1))
            .collect(),
    })
}

struct TestNode {
    address: Vec<u8>,
    smr: Smr,
    cabinet: Cabinet<TestBlock>,
    log: CommitLog,
}

fn nodes() -> Vec<TestNode> {
    ADDRS
        .iter()
        .map(|a| TestNode {
            address: a.to_vec(),
            smr: Smr::new(1, Vec::new()),
            cabinet: Cabinet::default(),
            log: CommitLog::new(1),
        })
        .collect()
}

fn block_x() -> TestBlock {
    TestBlock { pre_hash: Vec::new(), height: 1, exec_height: 0, pre_proof: PreCommitQC::default() }
}

fn block_y() -> TestBlock {
    TestBlock {
        pre_hash: Vec::new(),
        height: 1,
        exec_height: 1,
        pre_proof: PreCommitQC::default(),
    }
}

fn pre_vote(h: u64, r: u64, hash: &[u8], voter: &[u8]) -> SignedPreVote {
    SignedPreVote::new(Vote::new(h, r, hash.to_vec()), 1, voter.to_vec(), voter.to_vec())
}

fn pre_commit(h: u64, r: u64, hash: &[u8], voter: &[u8]) -> SignedPreCommit {
    SignedPreCommit::new(Vote::new(h, r, hash.to_vec()), 1, voter.to_vec(), voter.to_vec())
}

fn form_pre_vote_qc(auth: &AuthManager, votes: &[SignedPreVote]) -> PreVoteQC {
    let list = votes.to_vec();
    assert!(pre_vote_qc_ready(&list, auth.threshold_weight()));
    let voters: Vec<Vec<u8>> = list.iter().map(|v| v.voter.clone()).collect();
    let bitmap = auth.bitmap_of_voters(&voters);
    let mut agg_sig = Vec::new();
    for v in &list {
        agg_sig.extend_from_slice(&v.signature);
    }
    PreVoteQC::new(list[0].vote.clone(), Aggregates::new(bitmap, agg_sig))
}

fn form_pre_commit_qc(auth: &AuthManager, votes: &[SignedPreCommit]) -> PreCommitQC {
    let list = votes.to_vec();
    assert!(pre_commit_qc_ready(&list, auth.threshold_weight()));
    let voters: Vec<Vec<u8>> = list.iter().map(|v| v.voter.clone()).collect();
    let bitmap = auth.bitmap_of_voters(&voters);
    let mut agg_sig = Vec::new();
    for v in &list {
        agg_sig.extend_from_slice(&v.signature);
    }
    PreCommitQC::new(list[0].vote.clone(), Aggregates::new(bitmap, agg_sig))
}

/// Every node proposes, votes and commits the same block in round zero.
#[test]
fn happy_path_commits_at_round_zero() {
    let auth = auth();
    let mut net = nodes();
    let x = block_x();
    let hash_x = x.get_block_hash();

    // The in-turn proposer of (1, 0) is node A.
    assert_eq!(auth.proposer(1, 0, &Vec::new()).unwrap(), b"a".to_vec());

    // A's proposal reaches everyone; each node pre-votes X.
    let mut pre_votes = Vec::new();
    for node in net.iter_mut() {
        let vote = node.smr.handle_proposal(0, hash_x.clone(), None).unwrap();
        assert_eq!(vote.block_hash, hash_x);
        let signed = pre_vote(1, 0, &vote.block_hash, &node.address.clone());
        node.cabinet
            .insert(1, 0, Capsule::SignedPreVote(signed.clone()))
            .unwrap();
        pre_votes.push(signed);
    }

    // All four pre-votes form the polka; everyone pre-commits X.
    let pv_qc = form_pre_vote_qc(&auth, &pre_votes);
    let mut pre_commits = Vec::new();
    for node in net.iter_mut() {
        let vote = node.smr.handle_pre_vote_qc(pv_qc.duplicate()).unwrap();
        assert_eq!(vote.block_hash, hash_x);
        pre_commits.push(pre_commit(1, 0, &vote.block_hash, &node.address.clone()));
    }

    // The pre-commit quorum decides the height on every node.
    let pc_qc = form_pre_commit_qc(&auth, &pre_commits);
    for node in net.iter_mut() {
        let commit = node.smr.handle_pre_commit_qc(pc_qc.duplicate()).unwrap();
        assert_eq!(commit.block_hash, hash_x);
        assert_eq!(commit.height, 1);
        node.log.record_commit(commit.height, commit.block_hash).unwrap();
        node.cabinet.remove_below(2);
        assert_eq!(node.smr.step(), Step::Commit);
    }

    // Agreement: all four committed the same hash at height one.
    for node in &net {
        assert_eq!(node.log.committed_hash(1).unwrap(), hash_x);
        assert_eq!(node.log.next_height(), 2);
    }

    // The next height's in-turn proposer is node B.
    assert_eq!(auth.proposer(2, 0, &Vec::new()).unwrap(), b"b".to_vec());
}

/// The round-zero proposer stays silent; the round is choked away and the
/// next proposer's block commits in round one.
#[test]
fn silent_leader_is_choked_and_round_one_commits() {
    let auth = auth();
    let mut net = nodes();

    // No proposal arrives: the propose timers fire and everyone pre-votes
    // for no block.
    let mut pre_votes = Vec::new();
    for node in net.iter_mut() {
        match node.smr.handle_timeout(0, TimerPhase::Propose).unwrap() {
            TimeoutAction::BroadcastPreVote(v) => {
                assert!(v.is_empty_vote());
                pre_votes.push(pre_vote(1, 0, &v.block_hash, &node.address.clone()));
            }
            other => panic!("unexpected action {:?}", other),
        }
    }

    // The empty polka forms; everyone pre-commits empty and no lock appears.
    let pv_qc = form_pre_vote_qc(&auth, &pre_votes);
    let mut pre_commits = Vec::new();
    for node in net.iter_mut() {
        let vote = node.smr.handle_pre_vote_qc(pv_qc.duplicate()).unwrap();
        assert!(vote.is_empty_vote());
        assert!(node.smr.lock().is_none());
        pre_commits.push(pre_commit(1, 0, &vote.block_hash, &node.address.clone()));
    }

    // The empty pre-commit quorum brakes the round instead of committing.
    let pc_qc = form_pre_commit_qc(&auth, &pre_commits);
    let mut chokes = Vec::new();
    for node in net.iter_mut() {
        assert!(node.smr.handle_pre_commit_qc(pc_qc.duplicate()).is_none());
        assert_eq!(node.smr.step(), Step::Brake);
        match node.smr.handle_timeout(0, TimerPhase::Brake).unwrap() {
            TimeoutAction::BroadcastChoke(c) => {
                assert_eq!(c, Choke::new(1, 0));
                chokes.push(SignedChoke::new(c, 1, None, node.address.clone(), Vec::new()));
            }
            other => panic!("unexpected action {:?}", other),
        }
    }
    assert!(overlord::driver::choke_qc_ready(&chokes, auth.threshold_weight()));

    // The choke quorum advances everyone to round one; B is the proposer.
    for node in net.iter_mut() {
        assert_eq!(node.smr.handle_choke_qc(0).unwrap(), 1);
        assert_eq!(node.smr.step(), Step::Propose);
    }
    assert_eq!(auth.proposer(1, 1, &Vec::new()).unwrap(), b"b".to_vec());

    // B proposes Y; the height commits in round one.
    let y = block_y();
    let hash_y = y.get_block_hash();
    let mut pre_votes = Vec::new();
    for node in net.iter_mut() {
        let vote = node.smr.handle_proposal(1, hash_y.clone(), None).unwrap();
        assert_eq!(vote.block_hash, hash_y);
        pre_votes.push(pre_vote(1, 1, &vote.block_hash, &node.address.clone()));
    }
    let pv_qc = form_pre_vote_qc(&auth, &pre_votes);
    let mut pre_commits = Vec::new();
    for node in net.iter_mut() {
        let vote = node.smr.handle_pre_vote_qc(pv_qc.duplicate()).unwrap();
        pre_commits.push(pre_commit(1, 1, &vote.block_hash, &node.address.clone()));
    }
    let pc_qc = form_pre_commit_qc(&auth, &pre_commits);
    for node in net.iter_mut() {
        let commit = node.smr.handle_pre_commit_qc(pc_qc.duplicate()).unwrap();
        assert_eq!(commit.block_hash, hash_y);
        node.log.record_commit(1, commit.block_hash).unwrap();
    }
    for node in &net {
        assert_eq!(node.log.committed_hash(1).unwrap(), hash_y);
    }
}

/// A polka locks the nodes on X; the round fails, and the next proposer must
/// carry the polka over, so X still commits in round one.
#[test]
fn lock_carries_over_a_failed_round() {
    let auth = auth();
    let mut net = nodes();
    let x = block_x();
    let hash_x = x.get_block_hash();

    // A, B and C pre-vote X; their three votes already form the polka.
    let mut pre_votes = Vec::new();
    for node in net.iter_mut().take(3) {
        let vote = node.smr.handle_proposal(0, hash_x.clone(), None).unwrap();
        pre_votes.push(pre_vote(1, 0, &vote.block_hash, &node.address.clone()));
    }
    let pv_qc = form_pre_vote_qc(&auth, &pre_votes);

    // Everyone sees the polka and locks on X; only two pre-commits arrive,
    // which is below the threshold, so no commit happens.
    let mut arrived = Vec::new();
    for (i, node) in net.iter_mut().enumerate() {
        let vote = node.smr.handle_pre_vote_qc(pv_qc.duplicate()).unwrap();
        assert_eq!(vote.block_hash, hash_x);
        let lock = node.smr.lock().unwrap();
        assert_eq!(lock.round, 0);
        assert_eq!(lock.hash, hash_x);
        if i == 0 || i == 3 {
            arrived.push(pre_commit(1, 0, &vote.block_hash, &node.address.clone()));
        }
    }
    assert!(!pre_commit_qc_ready(&arrived, auth.threshold_weight()));

    // The round brakes and the choke quorum advances everyone to round one.
    for node in net.iter_mut() {
        match node.smr.handle_timeout(0, TimerPhase::PreCommit).unwrap() {
            TimeoutAction::BroadcastChoke(c) => assert_eq!(c, Choke::new(1, 0)),
            other => panic!("unexpected action {:?}", other),
        }
        assert_eq!(node.smr.handle_choke_qc(0).unwrap(), 1);
        // The lock survives the round change.
        assert_eq!(node.smr.lock().unwrap().hash, hash_x);
    }

    // B's round entry is decided by the verified machine: the held lock
    // forces the locked X, carrying the polka from round zero.
    let (proposed_hash, carried) = net[2].smr.propose_content(b"fresh-unused".to_vec());
    assert_eq!(proposed_hash, hash_x);
    let carried = carried.unwrap();
    assert_eq!(carried.qc, pv_qc);
    assert_eq!(carried.round, 0);
    let mut pre_votes = Vec::new();
    for node in net.iter_mut() {
        let vote = node
            .smr
            .handle_proposal(1, proposed_hash.clone(), Some(carried.round))
            .unwrap();
        // Locked at round zero, shown a polka from round zero: adopt.
        assert_eq!(vote.block_hash, hash_x);
        let _ = &vote;
        pre_votes.push(pre_vote(1, 1, &vote.block_hash, &node.address.clone()));
    }
    let pv_qc1 = form_pre_vote_qc(&auth, &pre_votes);
    let mut pre_commits = Vec::new();
    for node in net.iter_mut() {
        let vote = node.smr.handle_pre_vote_qc(pv_qc1.duplicate()).unwrap();
        pre_commits.push(pre_commit(1, 1, &vote.block_hash, &node.address.clone()));
    }
    let pc_qc = form_pre_commit_qc(&auth, &pre_commits);
    for node in net.iter_mut() {
        let commit = node.smr.handle_pre_commit_qc(pc_qc.duplicate()).unwrap();
        assert_eq!(commit.block_hash, hash_x);
        node.log.record_commit(1, commit.block_hash).unwrap();
    }
    for node in &net {
        assert_eq!(node.log.committed_hash(1).unwrap(), hash_x);
    }
}

/// One voter equivocates; the store keeps its first vote, reports the
/// conflict, and the honest majority still commits the proposed block.
#[test]
fn equivocating_voter_cannot_stop_the_commit() {
    let auth = auth();
    let mut net = nodes();
    let x = block_x();
    let hash_x = x.get_block_hash();
    let hash_x2 = b"another".to_vec();

    // Honest nodes A, B and D pre-vote X. C sends X to some peers and a
    // different hash to others.
    let honest: Vec<SignedPreVote> = [b"a" as &[u8], b"b", b"0"]
        .iter()
        .map(|addr| pre_vote(1, 0, &hash_x, addr))
        .collect();
    let c_first = pre_vote(1, 0, &hash_x, b"c");
    let c_second = pre_vote(1, 0, &hash_x2, b"c");

    // A node that sees both of C's votes keeps the first and reports the
    // second as equivocation.
    let observer = &mut net[1];
    for v in honest.iter().chain([&c_first]) {
        observer
            .cabinet
            .insert(1, 0, Capsule::SignedPreVote(v.clone()))
            .unwrap();
    }
    match observer.cabinet.insert(1, 0, Capsule::SignedPreVote(c_second)) {
        Err(CollectionError::InsertDiff(stored, _)) => match stored {
            Capsule::SignedPreVote(s) => assert_eq!(s, c_first),
            other => panic!("wrong capsule kind: {:?}", other),
        },
        other => panic!("expected InsertDiff, got {:?}", other),
    }
    let for_x = observer
        .cabinet
        .get_signed_pre_votes_by_hash(1, 0, &hash_x)
        .unwrap();
    assert_eq!(for_x.len(), 4);

    // Three honest votes alone already reach the threshold, so X commits.
    let pv_qc = form_pre_vote_qc(&auth, &honest);
    let mut pre_commits = Vec::new();
    for node in net.iter_mut() {
        node.smr.handle_proposal(0, hash_x.clone(), None).unwrap();
        let vote = node.smr.handle_pre_vote_qc(pv_qc.duplicate()).unwrap();
        assert_eq!(vote.block_hash, hash_x);
        pre_commits.push(pre_commit(1, 0, &vote.block_hash, &node.address.clone()));
    }
    let pc_qc = form_pre_commit_qc(&auth, &pre_commits[..3].to_vec());
    for node in net.iter_mut() {
        let commit = node.smr.handle_pre_commit_qc(pc_qc.duplicate()).unwrap();
        assert_eq!(commit.block_hash, hash_x);
        node.log.record_commit(1, commit.block_hash).unwrap();
    }
    for node in &net {
        assert_eq!(node.log.committed_hash(1).unwrap(), hash_x);
    }
}
