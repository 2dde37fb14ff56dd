//! The vote and certificate store: every signed message is filed by height
//! and round, deduplicated by voter, and the cumulative vote weight per
//! (round, block hash, phase) is tracked so that the driver learns exactly
//! when a quorum becomes reachable.

use vstd::prelude::*;
use crate::traits::Blk;
use crate::types::{
    Aggregates, ChokeQC, ChokeQcView, ChokeView, CumWeight, CumWeightView, PreCommitQC, PreVoteQC,
    QcView, SignedChoke, SignedChokeView, SignedPreCommit, SignedPreVote, SignedProposal,
    SignedProposalView, SignedVoteView, Vote, VoteType, VoteView,
    bytes_eq, signed_pre_vote_eq, signed_pre_commit_eq, signed_choke_eq, signed_proposal_eq,
    pre_vote_qc_eq, pre_commit_qc_eq, choke_qc_eq, opt_bytes_view,
};
use crate::{Height, Round, Weight};

verus! {

/// Any message the cabinet can file.
#[derive(Debug)]
pub enum Capsule<B: Blk> {
    SignedProposal(SignedProposal<B>),
    SignedPreVote(SignedPreVote),
    SignedPreCommit(SignedPreCommit),
    SignedChoke(SignedChoke),
    PreVoteQC(PreVoteQC),
    PreCommitQC(PreCommitQC),
    ChokeQC(ChokeQC),
}

/// The mathematical content of a [`Capsule`].
pub ghost enum CapsuleView {
    SignedProposal(SignedProposalView),
    SignedPreVote(SignedVoteView),
    SignedPreCommit(SignedVoteView),
    SignedChoke(SignedChokeView),
    PreVoteQC(QcView),
    PreCommitQC(QcView),
    ChokeQC(ChokeQcView),
}

impl<B: Blk> View for Capsule<B> {
    type V = CapsuleView;

    open spec fn view(&self) -> CapsuleView {
        match self {
            Capsule::SignedProposal(x) => CapsuleView::SignedProposal(x@),
            Capsule::SignedPreVote(x) => CapsuleView::SignedPreVote(x@),
            Capsule::SignedPreCommit(x) => CapsuleView::SignedPreCommit(x@),
            Capsule::SignedChoke(x) => CapsuleView::SignedChoke(x@),
            Capsule::PreVoteQC(x) => CapsuleView::PreVoteQC(x@),
            Capsule::PreCommitQC(x) => CapsuleView::PreCommitQC(x@),
            Capsule::ChokeQC(x) => CapsuleView::ChokeQC(x@),
        }
    }
}

/// Filing failed: the slot already holds a message.
#[derive(Debug)]
pub enum CollectionError<B: Blk> {
    /// A byte-identical message was filed before; the insert is idempotent.
    AlreadyExists(Capsule<B>),
    /// The slot holds a different message from the same sender: equivocation.
    /// Carries the stored message first, the offered one second.
    InsertDiff(Capsule<B>, Capsule<B>),
}

/// The weights of a sequence of signed votes, restricted to one block hash.
pub open spec fn hash_weight(s: Seq<SignedVoteView>, h: Seq<u8>) -> int
    decreases s.len(),
{
    if s.len() == 0 {
        0
    } else {
        hash_weight(s.drop_last(), h) + if s.last().vote.block_hash == h {
            s.last().vote_weight
        } else {
            0int
        }
    }
}

/// The total weight of a sequence of signed chokes.
pub open spec fn choke_weight(s: Seq<SignedChokeView>) -> int
    decreases s.len(),
{
    if s.len() == 0 {
        0
    } else {
        choke_weight(s.drop_last()) + s.last().vote_weight
    }
}

/// No two votes in `s` come from the same voter.
pub open spec fn voters_unique(s: Seq<SignedVoteView>) -> bool {
    forall|i: int, j: int| 0 <= i < j < s.len() ==> s[i].voter != s[j].voter
}

/// No two chokes in `s` come from the same voter.
pub open spec fn choke_voters_unique(s: Seq<SignedChokeView>) -> bool {
    forall|i: int, j: int| 0 <= i < j < s.len() ==> s[i].voter != s[j].voter
}

/// Every vote weight in `s` fits a `u32`.
pub open spec fn weights_in_range(s: Seq<SignedVoteView>) -> bool {
    forall|i: int| 0 <= i < s.len() ==> 0 <= #[trigger] s[i].vote_weight <= u32::MAX
}

/// Every choke weight in `s` fits a `u32`.
pub open spec fn choke_weights_in_range(s: Seq<SignedChokeView>) -> bool {
    forall|i: int| 0 <= i < s.len() ==> 0 <= #[trigger] s[i].vote_weight <= u32::MAX
}

/// Some vote in `s` comes from `voter`.
pub open spec fn has_voter(s: Seq<SignedVoteView>, voter: Seq<u8>) -> bool {
    exists|i: int| 0 <= i < s.len() && s[i].voter == voter
}

/// The vote in `s` from `voter`, if any.
pub open spec fn vote_of(s: Seq<SignedVoteView>, voter: Seq<u8>) -> Option<SignedVoteView> {
    if has_voter(s, voter) {
        Some(s[choose|i: int| 0 <= i < s.len() && s[i].voter == voter])
    } else {
        None
    }
}

/// Some choke in `s` comes from `voter`.
pub open spec fn has_choke_voter(s: Seq<SignedChokeView>, voter: Seq<u8>) -> bool {
    exists|i: int| 0 <= i < s.len() && s[i].voter == voter
}

/// The choke in `s` from `voter`, if any.
pub open spec fn choke_of(s: Seq<SignedChokeView>, voter: Seq<u8>) -> Option<SignedChokeView> {
    if has_choke_voter(s, voter) {
        Some(s[choose|i: int| 0 <= i < s.len() && s[i].voter == voter])
    } else {
        None
    }
}

/// The votes in `s` for block hash `h`, in order.
pub open spec fn votes_for_hash(s: Seq<SignedVoteView>, h: Seq<u8>) -> Seq<SignedVoteView>
    decreases s.len(),
{
    if s.len() == 0 {
        Seq::empty()
    } else if s.last().vote.block_hash == h {
        votes_for_hash(s.drop_last(), h).push(s.last())
    } else {
        votes_for_hash(s.drop_last(), h)
    }
}

/// Appending one vote extends the hash-restricted weight by that vote's
/// weight on its own hash and leaves every other hash's weight unchanged.
pub proof fn lemma_hash_weight_push(s: Seq<SignedVoteView>, v: SignedVoteView, h: Seq<u8>)
    ensures
        hash_weight(s.push(v), h) == hash_weight(s, h) + if v.vote.block_hash == h {
            v.vote_weight
        } else {
            0int
        },
        votes_for_hash(s.push(v), h) == if v.vote.block_hash == h {
            votes_for_hash(s, h).push(v)
        } else {
            votes_for_hash(s, h)
        },
{
    assert(s.push(v).drop_last() =~= s);
}

/// Appending one choke extends the total weight by its weight.
pub proof fn lemma_choke_weight_push(s: Seq<SignedChokeView>, v: SignedChokeView)
    ensures
        choke_weight(s.push(v)) == choke_weight(s) + v.vote_weight,
{
    assert(s.push(v).drop_last() =~= s);
}

/// The hash-restricted weight of votes in range is non-negative.
pub proof fn lemma_hash_weight_nonneg(s: Seq<SignedVoteView>, h: Seq<u8>)
    requires
        weights_in_range(s),
    ensures
        hash_weight(s, h) >= 0,
    decreases s.len(),
{
    if s.len() > 0 {
        assert(weights_in_range(s.drop_last())) by {
            assert(forall|i: int|
                0 <= i < s.drop_last().len() ==> s.drop_last()[i] == s[i]);
        }
        lemma_hash_weight_nonneg(s.drop_last(), h);
    }
}

/// A hash with non-zero weight appears in some vote.
pub proof fn lemma_hash_weight_nonzero_has_vote(s: Seq<SignedVoteView>, h: Seq<u8>)
    requires
        hash_weight(s, h) != 0,
    ensures
        exists|i: int| 0 <= i < s.len() && s[i].vote.block_hash == h,
    decreases s.len(),
{
    if s.len() > 0 {
        if s.last().vote.block_hash == h {
            assert(s[s.len() - 1].vote.block_hash == h);
        } else {
            lemma_hash_weight_nonzero_has_vote(s.drop_last(), h);
            let i = choose|i: int|
                0 <= i < s.drop_last().len() && s.drop_last()[i].vote.block_hash == h;
            assert(s[i].vote.block_hash == h);
        }
    }
}

/// The views of a sequence of weight-cache entries.
pub open spec fn weight_entry_views(s: Seq<(Vec<u8>, u32)>) -> Seq<(Seq<u8>, int)> {
    s.map_values(|p: (Vec<u8>, u32)| (p.0@, p.1 as int))
}

/// Some entry in `w` caches hash `h`.
pub open spec fn has_hash_entry(w: Seq<(Seq<u8>, int)>, h: Seq<u8>) -> bool {
    exists|i: int| 0 <= i < w.len() && w[i].0 == h
}

/// The weight cache `w` is faithful to the votes `s`: entries have unique
/// hashes, each caches the exact restricted weight, and every voted hash has
/// an entry.
pub open spec fn weights_wf(w: Seq<(Seq<u8>, int)>, s: Seq<SignedVoteView>) -> bool {
    &&& forall|i: int, j: int| 0 <= i < j < w.len() ==> w[i].0 != w[j].0
    &&& forall|i: int| 0 <= i < w.len() ==> #[trigger] w[i].1 == hash_weight(s, w[i].0)
    &&& forall|i: int|
        0 <= i < s.len() ==> has_hash_entry(w, #[trigger] s[i].vote.block_hash)
}

/// How one insert moves a running maximum: the new cell total replaces the
/// stored report only when it is strictly heavier.
pub open spec fn merged_max(
    old_max: CumWeightView,
    new_cell: int,
    vt: VoteType,
    round: int,
    hash: Option<Seq<u8>>,
) -> CumWeightView {
    if new_cell > old_max.cum_weight {
        CumWeightView { cum_weight: new_cell, vote_type: vt, round: round, block_hash: hash }
    } else {
        old_max
    }
}

/// All signed messages filed for one (height, round) cell.
#[derive(Debug)]
pub struct Grid<B: Blk> {
    signed_proposal: Option<SignedProposal<B>>,

    signed_pre_votes: Vec<SignedPreVote>,
    pre_vote_vote_weights: Vec<(Vec<u8>, u32)>,
    pre_vote_max_vote_weight: CumWeight,

    signed_pre_commits: Vec<SignedPreCommit>,
    pre_commit_vote_weights: Vec<(Vec<u8>, u32)>,
    pre_commit_max_vote_weight: CumWeight,

    signed_chokes: Vec<SignedChoke>,
    choke_vote_weight: CumWeight,

    pre_vote_qc: Option<PreVoteQC>,
    pre_commit_qc: Option<PreCommitQC>,
    choke_qc: Option<ChokeQC>,
}

/// The view of an optional signed proposal.
pub open spec fn opt_sp_view<B: Blk>(o: Option<SignedProposal<B>>) -> Option<SignedProposalView> {
    match o {
        Some(p) => Some(p@),
        None => None,
    }
}

/// The view of an optional pre-vote certificate.
pub open spec fn opt_pv_qc_view(o: Option<PreVoteQC>) -> Option<QcView> {
    match o {
        Some(qc) => Some(qc@),
        None => None,
    }
}

/// The view of an optional pre-commit certificate.
pub open spec fn opt_pc_qc_view(o: Option<PreCommitQC>) -> Option<QcView> {
    match o {
        Some(qc) => Some(qc@),
        None => None,
    }
}

/// The view of an optional choke certificate.
pub open spec fn opt_ck_qc_view(o: Option<ChokeQC>) -> Option<ChokeQcView> {
    match o {
        Some(qc) => Some(qc@),
        None => None,
    }
}

impl<B: Blk> Grid<B> {
    /// The filed pre-votes, as views.
    pub closed spec fn pv(&self) -> Seq<SignedVoteView> {
        self.signed_pre_votes@.map_values(|x: SignedPreVote| x@)
    }

    /// The filed pre-commits, as views.
    pub closed spec fn pc(&self) -> Seq<SignedVoteView> {
        self.signed_pre_commits@.map_values(|x: SignedPreCommit| x@)
    }

    /// The filed chokes, as views.
    pub closed spec fn ck(&self) -> Seq<SignedChokeView> {
        self.signed_chokes@.map_values(|x: SignedChoke| x@)
    }

    /// The filed proposal, as a view.
    pub closed spec fn proposal_view(&self) -> Option<SignedProposalView> {
        opt_sp_view(self.signed_proposal)
    }

    /// The filed pre-vote certificate, as a view.
    pub closed spec fn pre_vote_qc_view(&self) -> Option<QcView> {
        opt_pv_qc_view(self.pre_vote_qc)
    }

    /// The filed pre-commit certificate, as a view.
    pub closed spec fn pre_commit_qc_view(&self) -> Option<QcView> {
        opt_pc_qc_view(self.pre_commit_qc)
    }

    /// The filed choke certificate, as a view.
    pub closed spec fn choke_qc_view(&self) -> Option<ChokeQcView> {
        opt_ck_qc_view(self.choke_qc)
    }

    /// The stored pre-vote maximum, as a view.
    pub closed spec fn pv_max(&self) -> CumWeightView {
        self.pre_vote_max_vote_weight@
    }

    /// The stored pre-commit maximum, as a view.
    pub closed spec fn pc_max(&self) -> CumWeightView {
        self.pre_commit_max_vote_weight@
    }

    /// The stored choke total, as a view.
    pub closed spec fn ck_max(&self) -> CumWeightView {
        self.choke_vote_weight@
    }

    /// The grid's internal invariant.
    pub closed spec fn wf(&self) -> bool {
        &&& voters_unique(self.pv())
        &&& voters_unique(self.pc())
        &&& choke_voters_unique(self.ck())
        &&& weights_in_range(self.pv())
        &&& weights_in_range(self.pc())
        &&& choke_weights_in_range(self.ck())
        &&& weights_wf(weight_entry_views(self.pre_vote_vote_weights@), self.pv())
        &&& weights_wf(weight_entry_views(self.pre_commit_vote_weights@), self.pc())
        &&& forall|h: Seq<u8>| hash_weight(self.pv(), h) <= self.pv_max().cum_weight
        &&& forall|h: Seq<u8>| hash_weight(self.pc(), h) <= self.pc_max().cum_weight
        &&& (self.pv_max().cum_weight == 0 || exists|h: Seq<u8>|
            self.pv_max().cum_weight == hash_weight(self.pv(), h))
        &&& (self.pc_max().cum_weight == 0 || exists|h: Seq<u8>|
            self.pc_max().cum_weight == hash_weight(self.pc(), h))
        &&& (self.pv_max().cum_weight > 0 ==> self.pv_max().vote_type == VoteType::PreVote)
        &&& (self.pc_max().cum_weight > 0 ==> self.pc_max().vote_type == VoteType::PreCommit)
        &&& self.ck_max().cum_weight == choke_weight(self.ck())
        &&& (self.ck_max().cum_weight > 0 ==> self.ck_max().vote_type == VoteType::Choke)
    }
}

impl<B: Blk> Default for Grid<B> {
    /// The empty grid.
    fn default() -> (r: Self)
        ensures
            r.wf(),
            r.pv() == Seq::<SignedVoteView>::empty(),
            r.pc() == Seq::<SignedVoteView>::empty(),
            r.ck() == Seq::<SignedChokeView>::empty(),
            r.proposal_view() == Option::<SignedProposalView>::None,
            r.pre_vote_qc_view() == Option::<QcView>::None,
            r.pre_commit_qc_view() == Option::<QcView>::None,
            r.choke_qc_view() == Option::<ChokeQcView>::None,
            r.pv_max() == default_cum_view(),
            r.pc_max() == default_cum_view(),
            r.ck_max() == default_cum_view(),
            r@ == empty_grid_view(),
    {
        let g = Grid {
            signed_proposal: None,
            signed_pre_votes: Vec::new(),
            pre_vote_vote_weights: Vec::new(),
            pre_vote_max_vote_weight: CumWeight::default(),
            signed_pre_commits: Vec::new(),
            pre_commit_vote_weights: Vec::new(),
            pre_commit_max_vote_weight: CumWeight::default(),
            signed_chokes: Vec::new(),
            choke_vote_weight: CumWeight::default(),
            pre_vote_qc: None,
            pre_commit_qc: None,
            choke_qc: None,
        };
        proof {
            assert(g.pv() =~= Seq::<SignedVoteView>::empty());
            assert(g.pc() =~= Seq::<SignedVoteView>::empty());
            assert(g.ck() =~= Seq::<SignedChokeView>::empty());
            assert(weight_entry_views(g.pre_vote_vote_weights@) =~= Seq::<(Seq<u8>, int)>::empty());
            assert(weight_entry_views(g.pre_commit_vote_weights@) =~= Seq::<(Seq<u8>, int)>::empty());
        }
        g
    }
}

/// Finds the index of the pre-vote from `voter`, if one is filed.
fn find_pre_vote(votes: &Vec<SignedPreVote>, voter: &Vec<u8>) -> (r: Option<usize>)
    ensures
        match r {
            Some(i) => i < votes@.len() && votes@[i as int]@.voter == voter@,
            None => forall|j: int| 0 <= j < votes@.len() ==> votes@[j]@.voter != voter@,
        },
{
    let n = votes.len();
    let mut i: usize = 0;
    while i < n
        invariant
            i <= n,
            votes@.len() == n,
            forall|j: int| 0 <= j < i ==> votes@[j]@.voter != voter@,
        decreases n - i,
    {
        if bytes_eq(&votes[i].voter, voter) {
            return Some(i);
        }
        i += 1;
    }
    None
}

/// Finds the index of the weight-cache entry for `hash`, if one exists.
fn find_weight_entry(map: &Vec<(Vec<u8>, u32)>, hash: &Vec<u8>) -> (r: Option<usize>)
    ensures
        match r {
            Some(i) => i < map@.len() && map@[i as int].0@ == hash@,
            None => forall|j: int| 0 <= j < map@.len() ==> map@[j].0@ != hash@,
        },
{
    let n = map.len();
    let mut i: usize = 0;
    while i < n
        invariant
            i <= n,
            map@.len() == n,
            forall|j: int| 0 <= j < i ==> map@[j].0@ != hash@,
        decreases n - i,
    {
        if bytes_eq(&map[i].0, hash) {
            return Some(i);
        }
        i += 1;
    }
    None
}

/// Looks up the cached weight for `hash`, adds `weight` to it, stores the sum
/// back, and returns the new cumulative weight for that hash. The ghost
/// argument names the vote view being filed alongside, so that the cache's
/// faithfulness to the extended vote list is re-established.
fn update_vote_weight_map(
    vote_weight_map: &mut Vec<(Vec<u8>, u32)>,
    hash: &Vec<u8>,
    weight: Weight,
    votes: Ghost<Seq<SignedVoteView>>,
    new_vote: Ghost<SignedVoteView>,
) -> (cum: u32)
    requires
        weights_wf(weight_entry_views(old(vote_weight_map)@), votes@),
        weights_in_range(votes@),
        hash_weight(votes@, hash@) + weight <= u32::MAX,
        new_vote@.vote.block_hash == hash@,
        new_vote@.vote_weight == weight as int,
    ensures
        cum == hash_weight(votes@, hash@) + weight,
        cum == hash_weight(votes@.push(new_vote@), hash@),
        weights_wf(weight_entry_views(final(vote_weight_map)@), votes@.push(new_vote@)),
{
    proof {
        lemma_hash_weight_nonneg(votes@, hash@);
    }
    let found = find_weight_entry(vote_weight_map, hash);
    match found {
        Some(i) => {
            let ghost old_map = weight_entry_views(vote_weight_map@);
            let prior: u32 = vote_weight_map[i].1;
            proof {
                assert(old_map[i as int].1 == hash_weight(votes@, hash@));
            }
            let cum: u32 = prior + weight;
            let fresh_hash = crate::types::clone_bytes(hash);
            vote_weight_map[i] = (fresh_hash, cum);
            proof {
                let new_map = weight_entry_views(vote_weight_map@);
                assert(new_map =~= old_map.update(i as int, (hash@, cum as int)));
                lemma_hash_weight_push(votes@, new_vote@, hash@);
                assert forall|k: int| 0 <= k < new_map.len() implies #[trigger] new_map[k].1
                    == hash_weight(votes@.push(new_vote@), new_map[k].0) by {
                    lemma_hash_weight_push(votes@, new_vote@, new_map[k].0);
                    if k != i {
                        assert(new_map[k] == old_map[k]);
                        assert(old_map[k].0 != old_map[i as int].0);
                    }
                }
                assert forall|k: int| 0 <= k < votes@.push(new_vote@).len() implies has_hash_entry(
                    new_map,
                    #[trigger] votes@.push(new_vote@)[k].vote.block_hash,
                ) by {
                    if k < votes@.len() {
                        assert(votes@.push(new_vote@)[k] == votes@[k]);
                        let j = choose|j: int|
                            0 <= j < old_map.len() && old_map[j].0 == votes@[k].vote.block_hash;
                        assert(new_map[j].0 == old_map[j].0);
                    } else {
                        assert(new_map[i as int].0 == hash@);
                    }
                }
            }
            cum
        },
        None => {
            let ghost old_map = weight_entry_views(vote_weight_map@);
            proof {
                if hash_weight(votes@, hash@) != 0 {
                    lemma_hash_weight_nonzero_has_vote(votes@, hash@);
                    let i = choose|i: int|
                        0 <= i < votes@.len() && votes@[i].vote.block_hash == hash@;
                    assert(has_hash_entry(old_map, hash@));
                    let j = choose|j: int| 0 <= j < old_map.len() && old_map[j].0 == hash@;
                    assert(false);
                }
            }
            let fresh_hash = crate::types::clone_bytes(hash);
            vote_weight_map.push((fresh_hash, weight));
            proof {
                let new_map = weight_entry_views(vote_weight_map@);
                assert(new_map =~= old_map.push((hash@, weight as int)));
                lemma_hash_weight_push(votes@, new_vote@, hash@);
                assert forall|k: int| 0 <= k < new_map.len() implies #[trigger] new_map[k].1
                    == hash_weight(votes@.push(new_vote@), new_map[k].0) by {
                    lemma_hash_weight_push(votes@, new_vote@, new_map[k].0);
                    if k < old_map.len() {
                        assert(new_map[k] == old_map[k]);
                    }
                }
                assert forall|k: int| 0 <= k < votes@.push(new_vote@).len() implies has_hash_entry(
                    new_map,
                    #[trigger] votes@.push(new_vote@)[k].vote.block_hash,
                ) by {
                    if k < votes@.len() {
                        assert(votes@.push(new_vote@)[k] == votes@[k]);
                        let j = choose|j: int|
                            0 <= j < old_map.len() && old_map[j].0 == votes@[k].vote.block_hash;
                        assert(new_map[j].0 == old_map[j].0);
                    } else {
                        assert(new_map[old_map.len() as int].0 == hash@);
                    }
                }
            }
            weight
        },
    }
}

/// The outcome owed when a slot is already filled: the idempotence error on a
/// byte-identical offer, the equivocation error otherwise, each carrying the
/// capsules it names.
pub open spec fn occupied_outcome<B: Blk>(
    r: Result<Option<CumWeight>, CollectionError<B>>,
    existing: CapsuleView,
    offered: CapsuleView,
) -> bool {
    if existing == offered {
        r matches Err(CollectionError::AlreadyExists(c)) && c@ == offered
    } else {
        r matches Err(CollectionError::InsertDiff(a, b)) && a@ == existing && b@ == offered
    }
}

/// Replaces the running maximum when the new report is strictly heavier.
fn update_max_vote_weight(max_weight: &mut CumWeight, cum_weight: CumWeight)
    ensures
        final(max_weight)@ == merged_max(
            old(max_weight)@,
            cum_weight@.cum_weight,
            cum_weight@.vote_type,
            cum_weight@.round,
            cum_weight@.block_hash,
        ),
{
    if max_weight.cum_weight < cum_weight.cum_weight {
        *max_weight = cum_weight;
    }
}

impl<B: Blk> Grid<B> {
    /// Files one pre-vote. Each voter may fill the slot once: a byte-identical
    /// repeat is reported idempotent, a differing one as equivocation, and
    /// neither changes the grid. A fresh vote is appended, its hash's
    /// cumulative weight grows by the vote's weight, and the returned report
    /// is the grid's running pre-vote maximum after the insert.
    pub fn insert_signed_pre_vote(&mut self, signed_pre_vote: SignedPreVote) -> (r: Result<
        Option<CumWeight>,
        CollectionError<B>,
    >)
        requires
            old(self).wf(),
            hash_weight(old(self).pv(), signed_pre_vote@.vote.block_hash)
                + signed_pre_vote@.vote_weight <= u32::MAX,
        ensures
            final(self).wf(),
            match vote_of(old(self).pv(), signed_pre_vote@.voter) {
                Some(existing) => *final(self) == *old(self) && occupied_outcome(
                    r,
                    CapsuleView::SignedPreVote(existing),
                    CapsuleView::SignedPreVote(signed_pre_vote@),
                ),
                None => {
                    &&& r matches Ok(Some(cw)) && cw@ == merged_max(
                        old(self).pv_max(),
                        hash_weight(old(self).pv(), signed_pre_vote@.vote.block_hash)
                            + signed_pre_vote@.vote_weight,
                        VoteType::PreVote,
                        signed_pre_vote@.vote.round,
                        Some(signed_pre_vote@.vote.block_hash),
                    )
                    &&& final(self).pv() == old(self).pv().push(signed_pre_vote@)
                    &&& final(self).pv_max() == merged_max(
                        old(self).pv_max(),
                        hash_weight(old(self).pv(), signed_pre_vote@.vote.block_hash)
                            + signed_pre_vote@.vote_weight,
                        VoteType::PreVote,
                        signed_pre_vote@.vote.round,
                        Some(signed_pre_vote@.vote.block_hash),
                    )
                    &&& final(self).pc() == old(self).pc()
                    &&& final(self).ck() == old(self).ck()
                    &&& final(self).pc_max() == old(self).pc_max()
                    &&& final(self).ck_max() == old(self).ck_max()
                    &&& final(self).proposal_view() == old(self).proposal_view()
                    &&& final(self).pre_vote_qc_view() == old(self).pre_vote_qc_view()
                    &&& final(self).pre_commit_qc_view() == old(self).pre_commit_qc_view()
                    &&& final(self).choke_qc_view() == old(self).choke_qc_view()
                },
            },
    {
        let found = find_pre_vote(&self.signed_pre_votes, &signed_pre_vote.voter);
        match found {
            Some(i) => {
                proof {
                    let pv = self.pv();
                    let voter = signed_pre_vote@.voter;
                    assert(pv[i as int].voter == voter);
                    assert(has_voter(pv, voter));
                    let j = choose|j: int| 0 <= j < pv.len() && pv[j].voter == voter;
                    assert(j == i);
                }
                let stored = &self.signed_pre_votes[i];
                if signed_pre_vote_eq(stored, &signed_pre_vote) {
                    Err(CollectionError::AlreadyExists(Capsule::SignedPreVote(signed_pre_vote)))
                } else {
                    Err(CollectionError::InsertDiff(
                        Capsule::SignedPreVote(stored.duplicate()),
                        Capsule::SignedPreVote(signed_pre_vote),
                    ))
                }
            },
            None => {
                let ghost old_pv = self.pv();
                let weight = signed_pre_vote.vote_weight;
                let cum = update_vote_weight_map(
                    &mut self.pre_vote_vote_weights,
                    &signed_pre_vote.vote.block_hash,
                    weight,
                    Ghost(old_pv),
                    Ghost(signed_pre_vote@),
                );
                let report = CumWeight::new(
                    cum,
                    VoteType::PreVote,
                    signed_pre_vote.vote.round,
                    Some(crate::types::clone_bytes(&signed_pre_vote.vote.block_hash)),
                );
                update_max_vote_weight(&mut self.pre_vote_max_vote_weight, report);
                self.signed_pre_votes.push(signed_pre_vote);
                proof {
                    assert(self.pv() =~= old_pv.push(signed_pre_vote@));
                    assert forall|h: Seq<u8>| hash_weight(self.pv(), h)
                        <= self.pv_max().cum_weight by {
                        lemma_hash_weight_push(old_pv, signed_pre_vote@, h);
                        lemma_hash_weight_nonneg(old_pv, h);
                    }
                    let vh = signed_pre_vote@.vote.block_hash;
                    let ncw = hash_weight(old_pv, vh) + signed_pre_vote@.vote_weight;
                    lemma_hash_weight_push(old_pv, signed_pre_vote@, vh);
                    if ncw > old(self).pv_max().cum_weight {
                        assert(self.pv_max().cum_weight == hash_weight(self.pv(), vh));
                    } else {
                        assert(self.pv_max() == old(self).pv_max());
                        if old(self).pv_max().cum_weight != 0 {
                            let h0 = choose|h: Seq<u8>|
                                old(self).pv_max().cum_weight == hash_weight(old_pv, h);
                            lemma_hash_weight_push(old_pv, signed_pre_vote@, h0);
                            if h0 == vh {
                                assert(hash_weight(self.pv(), h0)
                                    == old(self).pv_max().cum_weight);
                            } else {
                                assert(hash_weight(self.pv(), h0) == hash_weight(old_pv, h0));
                            }
                        }
                    }
                }
                Ok(Some(self.pre_vote_max_vote_weight.duplicate()))
            },
        }
    }

    /// Files one pre-commit, under the same slot discipline as pre-votes.
    pub fn insert_signed_pre_commit(&mut self, signed_pre_commit: SignedPreCommit) -> (r: Result<
        Option<CumWeight>,
        CollectionError<B>,
    >)
        requires
            old(self).wf(),
            hash_weight(old(self).pc(), signed_pre_commit@.vote.block_hash)
                + signed_pre_commit@.vote_weight <= u32::MAX,
        ensures
            final(self).wf(),
            match vote_of(old(self).pc(), signed_pre_commit@.voter) {
                Some(existing) => *final(self) == *old(self) && occupied_outcome(
                    r,
                    CapsuleView::SignedPreCommit(existing),
                    CapsuleView::SignedPreCommit(signed_pre_commit@),
                ),
                None => {
                    &&& r matches Ok(Some(cw)) && cw@ == merged_max(
                        old(self).pc_max(),
                        hash_weight(old(self).pc(), signed_pre_commit@.vote.block_hash)
                            + signed_pre_commit@.vote_weight,
                        VoteType::PreCommit,
                        signed_pre_commit@.vote.round,
                        Some(signed_pre_commit@.vote.block_hash),
                    )
                    &&& final(self).pc() == old(self).pc().push(signed_pre_commit@)
                    &&& final(self).pc_max() == merged_max(
                        old(self).pc_max(),
                        hash_weight(old(self).pc(), signed_pre_commit@.vote.block_hash)
                            + signed_pre_commit@.vote_weight,
                        VoteType::PreCommit,
                        signed_pre_commit@.vote.round,
                        Some(signed_pre_commit@.vote.block_hash),
                    )
                    &&& final(self).pv() == old(self).pv()
                    &&& final(self).ck() == old(self).ck()
                    &&& final(self).pv_max() == old(self).pv_max()
                    &&& final(self).ck_max() == old(self).ck_max()
                    &&& final(self).proposal_view() == old(self).proposal_view()
                    &&& final(self).pre_vote_qc_view() == old(self).pre_vote_qc_view()
                    &&& final(self).pre_commit_qc_view() == old(self).pre_commit_qc_view()
                    &&& final(self).choke_qc_view() == old(self).choke_qc_view()
                },
            },
    {
        let found = find_pre_commit(&self.signed_pre_commits, &signed_pre_commit.voter);
        match found {
            Some(i) => {
                proof {
                    let pc = self.pc();
                    let voter = signed_pre_commit@.voter;
                    assert(pc[i as int].voter == voter);
                    assert(has_voter(pc, voter));
                    let j = choose|j: int| 0 <= j < pc.len() && pc[j].voter == voter;
                    assert(j == i);
                }
                let stored = &self.signed_pre_commits[i];
                if signed_pre_commit_eq(stored, &signed_pre_commit) {
                    Err(CollectionError::AlreadyExists(Capsule::SignedPreCommit(signed_pre_commit)))
                } else {
                    Err(CollectionError::InsertDiff(
                        Capsule::SignedPreCommit(stored.duplicate()),
                        Capsule::SignedPreCommit(signed_pre_commit),
                    ))
                }
            },
            None => {
                let ghost old_pc = self.pc();
                let weight = signed_pre_commit.vote_weight;
                let cum = update_vote_weight_map(
                    &mut self.pre_commit_vote_weights,
                    &signed_pre_commit.vote.block_hash,
                    weight,
                    Ghost(old_pc),
                    Ghost(signed_pre_commit@),
                );
                let report = CumWeight::new(
                    cum,
                    VoteType::PreCommit,
                    signed_pre_commit.vote.round,
                    Some(crate::types::clone_bytes(&signed_pre_commit.vote.block_hash)),
                );
                update_max_vote_weight(&mut self.pre_commit_max_vote_weight, report);
                self.signed_pre_commits.push(signed_pre_commit);
                proof {
                    assert(self.pc() =~= old_pc.push(signed_pre_commit@));
                    assert forall|h: Seq<u8>| hash_weight(self.pc(), h)
                        <= self.pc_max().cum_weight by {
                        lemma_hash_weight_push(old_pc, signed_pre_commit@, h);
                        lemma_hash_weight_nonneg(old_pc, h);
                    }
                    let vh = signed_pre_commit@.vote.block_hash;
                    let ncw = hash_weight(old_pc, vh) + signed_pre_commit@.vote_weight;
                    lemma_hash_weight_push(old_pc, signed_pre_commit@, vh);
                    if ncw > old(self).pc_max().cum_weight {
                        assert(self.pc_max().cum_weight == hash_weight(self.pc(), vh));
                    } else {
                        assert(self.pc_max() == old(self).pc_max());
                        if old(self).pc_max().cum_weight != 0 {
                            let h0 = choose|h: Seq<u8>|
                                old(self).pc_max().cum_weight == hash_weight(old_pc, h);
                            lemma_hash_weight_push(old_pc, signed_pre_commit@, h0);
                            if h0 == vh {
                                assert(hash_weight(self.pc(), h0)
                                    == old(self).pc_max().cum_weight);
                            } else {
                                assert(hash_weight(self.pc(), h0) == hash_weight(old_pc, h0));
                            }
                        }
                    }
                }
                Ok(Some(self.pre_commit_max_vote_weight.duplicate()))
            },
        }
    }

    /// Files one choke. The slot discipline is the same; the report carries
    /// the round's total choke weight, with no hash.
    pub fn insert_signed_choke(&mut self, signed_choke: SignedChoke) -> (r: Result<
        Option<CumWeight>,
        CollectionError<B>,
    >)
        requires
            old(self).wf(),
            choke_weight(old(self).ck()) + signed_choke@.vote_weight <= u32::MAX,
        ensures
            final(self).wf(),
            match choke_of(old(self).ck(), signed_choke@.voter) {
                Some(existing) => *final(self) == *old(self) && occupied_outcome(
                    r,
                    CapsuleView::SignedChoke(existing),
                    CapsuleView::SignedChoke(signed_choke@),
                ),
                None => {
                    &&& r matches Ok(Some(cw)) && cw@ == merged_max(
                        old(self).ck_max(),
                        choke_weight(old(self).ck()) + signed_choke@.vote_weight,
                        VoteType::Choke,
                        signed_choke@.choke.round,
                        None,
                    )
                    &&& final(self).ck() == old(self).ck().push(signed_choke@)
                    &&& final(self).ck_max() == merged_max(
                        old(self).ck_max(),
                        choke_weight(old(self).ck()) + signed_choke@.vote_weight,
                        VoteType::Choke,
                        signed_choke@.choke.round,
                        None,
                    )
                    &&& final(self).pv() == old(self).pv()
                    &&& final(self).pc() == old(self).pc()
                    &&& final(self).pv_max() == old(self).pv_max()
                    &&& final(self).pc_max() == old(self).pc_max()
                    &&& final(self).proposal_view() == old(self).proposal_view()
                    &&& final(self).pre_vote_qc_view() == old(self).pre_vote_qc_view()
                    &&& final(self).pre_commit_qc_view() == old(self).pre_commit_qc_view()
                    &&& final(self).choke_qc_view() == old(self).choke_qc_view()
                },
            },
    {
        let found = find_choke(&self.signed_chokes, &signed_choke.voter);
        match found {
            Some(i) => {
                proof {
                    let ck = self.ck();
                    let voter = signed_choke@.voter;
                    assert(ck[i as int].voter == voter);
                    assert(has_choke_voter(ck, voter));
                    let j = choose|j: int| 0 <= j < ck.len() && ck[j].voter == voter;
                    assert(j == i);
                }
                let stored = &self.signed_chokes[i];
                if signed_choke_eq(stored, &signed_choke) {
                    Err(CollectionError::AlreadyExists(Capsule::SignedChoke(signed_choke)))
                } else {
                    Err(CollectionError::InsertDiff(
                        Capsule::SignedChoke(stored.duplicate()),
                        Capsule::SignedChoke(signed_choke),
                    ))
                }
            },
            None => {
                let ghost old_ck = self.ck();
                let weight = signed_choke.vote_weight;
                let cum: u32 = self.choke_vote_weight.cum_weight + weight;
                let report = CumWeight::new(cum, VoteType::Choke, signed_choke.choke.round, None);
                update_max_vote_weight(&mut self.choke_vote_weight, report);
                self.signed_chokes.push(signed_choke);
                proof {
                    assert(self.ck() =~= old_ck.push(signed_choke@));
                    lemma_choke_weight_push(old_ck, signed_choke@);
                    assert(self.pv() =~= old(self).pv());
                    assert(self.pc() =~= old(self).pc());
                }
                Ok(Some(self.choke_vote_weight.duplicate()))
            },
        }
    }

    /// Files the round's proposal; the slot holds at most one.
    pub fn insert_signed_proposal(&mut self, signed_proposal: SignedProposal<B>) -> (r: Result<
        Option<CumWeight>,
        CollectionError<B>,
    >)
        requires
            old(self).wf(),
        ensures
            final(self).wf(),
            match old(self).proposal_view() {
                Some(existing) => *final(self) == *old(self) && occupied_outcome(
                    r,
                    CapsuleView::SignedProposal(existing),
                    CapsuleView::SignedProposal(signed_proposal@),
                ),
                None => {
                    &&& r matches Ok(cw) && cw is None
                    &&& final(self).proposal_view() == Some(signed_proposal@)
                    &&& final(self).pv() == old(self).pv()
                    &&& final(self).pc() == old(self).pc()
                    &&& final(self).ck() == old(self).ck()
                    &&& final(self).pv_max() == old(self).pv_max()
                    &&& final(self).pc_max() == old(self).pc_max()
                    &&& final(self).ck_max() == old(self).ck_max()
                    &&& final(self).pre_vote_qc_view() == old(self).pre_vote_qc_view()
                    &&& final(self).pre_commit_qc_view() == old(self).pre_commit_qc_view()
                    &&& final(self).choke_qc_view() == old(self).choke_qc_view()
                },
            },
    {
        match &self.signed_proposal {
            Some(stored) => {
                if signed_proposal_eq(stored, &signed_proposal) {
                    Err(CollectionError::AlreadyExists(Capsule::SignedProposal(signed_proposal)))
                } else {
                    Err(CollectionError::InsertDiff(
                        Capsule::SignedProposal(stored.duplicate()),
                        Capsule::SignedProposal(signed_proposal),
                    ))
                }
            },
            None => {
                self.signed_proposal = Some(signed_proposal);
                proof {
                    assert(self.pv() =~= old(self).pv());
                    assert(self.pc() =~= old(self).pc());
                    assert(self.ck() =~= old(self).ck());
                }
                Ok(None)
            },
        }
    }

    /// Files the round's pre-vote certificate; the slot holds at most one.
    pub fn insert_pre_vote_qc(&mut self, pre_vote_qc: PreVoteQC) -> (r: Result<
        Option<CumWeight>,
        CollectionError<B>,
    >)
        requires
            old(self).wf(),
        ensures
            final(self).wf(),
            match old(self).pre_vote_qc_view() {
                Some(existing) => *final(self) == *old(self) && occupied_outcome(
                    r,
                    CapsuleView::PreVoteQC(existing),
                    CapsuleView::PreVoteQC(pre_vote_qc@),
                ),
                None => {
                    &&& r matches Ok(cw) && cw is None
                    &&& final(self).pre_vote_qc_view() == Some(pre_vote_qc@)
                    &&& final(self).pv() == old(self).pv()
                    &&& final(self).pc() == old(self).pc()
                    &&& final(self).ck() == old(self).ck()
                    &&& final(self).pv_max() == old(self).pv_max()
                    &&& final(self).pc_max() == old(self).pc_max()
                    &&& final(self).ck_max() == old(self).ck_max()
                    &&& final(self).proposal_view() == old(self).proposal_view()
                    &&& final(self).pre_commit_qc_view() == old(self).pre_commit_qc_view()
                    &&& final(self).choke_qc_view() == old(self).choke_qc_view()
                },
            },
    {
        match &self.pre_vote_qc {
            Some(stored) => {
                if pre_vote_qc_eq(stored, &pre_vote_qc) {
                    Err(CollectionError::AlreadyExists(Capsule::PreVoteQC(pre_vote_qc)))
                } else {
                    Err(CollectionError::InsertDiff(
                        Capsule::PreVoteQC(stored.duplicate()),
                        Capsule::PreVoteQC(pre_vote_qc),
                    ))
                }
            },
            None => {
                self.pre_vote_qc = Some(pre_vote_qc);
                proof {
                    assert(self.pv() =~= old(self).pv());
                    assert(self.pc() =~= old(self).pc());
                    assert(self.ck() =~= old(self).ck());
                }
                Ok(None)
            },
        }
    }

    /// Files the round's pre-commit certificate; the slot holds at most one.
    pub fn insert_pre_commit_qc(&mut self, pre_commit_qc: PreCommitQC) -> (r: Result<
        Option<CumWeight>,
        CollectionError<B>,
    >)
        requires
            old(self).wf(),
        ensures
            final(self).wf(),
            match old(self).pre_commit_qc_view() {
                Some(existing) => *final(self) == *old(self) && occupied_outcome(
                    r,
                    CapsuleView::PreCommitQC(existing),
                    CapsuleView::PreCommitQC(pre_commit_qc@),
                ),
                None => {
                    &&& r matches Ok(cw) && cw is None
                    &&& final(self).pre_commit_qc_view() == Some(pre_commit_qc@)
                    &&& final(self).pv() == old(self).pv()
                    &&& final(self).pc() == old(self).pc()
                    &&& final(self).ck() == old(self).ck()
                    &&& final(self).pv_max() == old(self).pv_max()
                    &&& final(self).pc_max() == old(self).pc_max()
                    &&& final(self).ck_max() == old(self).ck_max()
                    &&& final(self).proposal_view() == old(self).proposal_view()
                    &&& final(self).pre_vote_qc_view() == old(self).pre_vote_qc_view()
                    &&& final(self).choke_qc_view() == old(self).choke_qc_view()
                },
            },
    {
        match &self.pre_commit_qc {
            Some(stored) => {
                if pre_commit_qc_eq(stored, &pre_commit_qc) {
                    Err(CollectionError::AlreadyExists(Capsule::PreCommitQC(pre_commit_qc)))
                } else {
                    Err(CollectionError::InsertDiff(
                        Capsule::PreCommitQC(stored.duplicate()),
                        Capsule::PreCommitQC(pre_commit_qc),
                    ))
                }
            },
            None => {
                self.pre_commit_qc = Some(pre_commit_qc);
                proof {
                    assert(self.pv() =~= old(self).pv());
                    assert(self.pc() =~= old(self).pc());
                    assert(self.ck() =~= old(self).ck());
                }
                Ok(None)
            },
        }
    }

    /// Files the round's choke certificate; the slot holds at most one.
    pub fn insert_choke_qc(&mut self, choke_qc: ChokeQC) -> (r: Result<
        Option<CumWeight>,
        CollectionError<B>,
    >)
        requires
            old(self).wf(),
        ensures
            final(self).wf(),
            match old(self).choke_qc_view() {
                Some(existing) => *final(self) == *old(self) && occupied_outcome(
                    r,
                    CapsuleView::ChokeQC(existing),
                    CapsuleView::ChokeQC(choke_qc@),
                ),
                None => {
                    &&& r matches Ok(cw) && cw is None
                    &&& final(self).choke_qc_view() == Some(choke_qc@)
                    &&& final(self).pv() == old(self).pv()
                    &&& final(self).pc() == old(self).pc()
                    &&& final(self).ck() == old(self).ck()
                    &&& final(self).pv_max() == old(self).pv_max()
                    &&& final(self).pc_max() == old(self).pc_max()
                    &&& final(self).ck_max() == old(self).ck_max()
                    &&& final(self).proposal_view() == old(self).proposal_view()
                    &&& final(self).pre_vote_qc_view() == old(self).pre_vote_qc_view()
                    &&& final(self).pre_commit_qc_view() == old(self).pre_commit_qc_view()
                },
            },
    {
        match &self.choke_qc {
            Some(stored) => {
                if choke_qc_eq(stored, &choke_qc) {
                    Err(CollectionError::AlreadyExists(Capsule::ChokeQC(choke_qc)))
                } else {
                    Err(CollectionError::InsertDiff(
                        Capsule::ChokeQC(stored.duplicate()),
                        Capsule::ChokeQC(choke_qc),
                    ))
                }
            },
            None => {
                self.choke_qc = Some(choke_qc);
                proof {
                    assert(self.pv() =~= old(self).pv());
                    assert(self.pc() =~= old(self).pc());
                    assert(self.ck() =~= old(self).ck());
                }
                Ok(None)
            },
        }
    }
}

impl<B: Blk> Grid<B> {
    /// The round's proposal, if one was filed.
    pub fn get_signed_proposal(&self) -> (r: Option<SignedProposal<B>>)
        ensures
            opt_sp_view(r) == self.proposal_view(),
    {
        match &self.signed_proposal {
            Some(p) => Some(p.duplicate()),
            None => None,
        }
    }

    /// All filed pre-votes, in filing order.
    pub fn get_signed_pre_votes(&self) -> (r: Vec<SignedPreVote>)
        ensures
            r@.map_values(|x: SignedPreVote| x@) == self.pv(),
    {
        let n = self.signed_pre_votes.len();
        let mut out: Vec<SignedPreVote> = Vec::new();
        let mut i: usize = 0;
        while i < n
            invariant
                i <= n,
                self.signed_pre_votes@.len() == n,
                out@.len() == i,
                forall|j: int| 0 <= j < i ==> out@[j]@ == self.pv()[j],
            decreases n - i,
        {
            out.push(self.signed_pre_votes[i].duplicate());
            i += 1;
        }
        proof {
            assert(out@.map_values(|x: SignedPreVote| x@) =~= self.pv());
        }
        out
    }

    /// All filed pre-commits, in filing order.
    pub fn get_signed_pre_commits(&self) -> (r: Vec<SignedPreCommit>)
        ensures
            r@.map_values(|x: SignedPreCommit| x@) == self.pc(),
    {
        let n = self.signed_pre_commits.len();
        let mut out: Vec<SignedPreCommit> = Vec::new();
        let mut i: usize = 0;
        while i < n
            invariant
                i <= n,
                self.signed_pre_commits@.len() == n,
                out@.len() == i,
                forall|j: int| 0 <= j < i ==> out@[j]@ == self.pc()[j],
            decreases n - i,
        {
            out.push(self.signed_pre_commits[i].duplicate());
            i += 1;
        }
        proof {
            assert(out@.map_values(|x: SignedPreCommit| x@) =~= self.pc());
        }
        out
    }

    /// All filed chokes, in filing order.
    pub fn get_signed_chokes(&self) -> (r: Vec<SignedChoke>)
        ensures
            r@.map_values(|x: SignedChoke| x@) == self.ck(),
    {
        let n = self.signed_chokes.len();
        let mut out: Vec<SignedChoke> = Vec::new();
        let mut i: usize = 0;
        while i < n
            invariant
                i <= n,
                self.signed_chokes@.len() == n,
                out@.len() == i,
                forall|j: int| 0 <= j < i ==> out@[j]@ == self.ck()[j],
            decreases n - i,
        {
            out.push(self.signed_chokes[i].duplicate());
            i += 1;
        }
        proof {
            assert(out@.map_values(|x: SignedChoke| x@) =~= self.ck());
        }
        out
    }

    /// The round's pre-vote certificate, if one was filed.
    pub fn get_pre_vote_qc(&self) -> (r: Option<PreVoteQC>)
        ensures
            opt_pv_qc_view(r) == self.pre_vote_qc_view(),
    {
        match &self.pre_vote_qc {
            Some(qc) => Some(qc.duplicate()),
            None => None,
        }
    }

    /// The round's pre-commit certificate, if one was filed.
    pub fn get_pre_commit_qc(&self) -> (r: Option<PreCommitQC>)
        ensures
            opt_pc_qc_view(r) == self.pre_commit_qc_view(),
    {
        match &self.pre_commit_qc {
            Some(qc) => Some(qc.duplicate()),
            None => None,
        }
    }

    /// The round's choke certificate, if one was filed.
    pub fn get_choke_qc(&self) -> (r: Option<ChokeQC>)
        ensures
            opt_ck_qc_view(r) == self.choke_qc_view(),
    {
        match &self.choke_qc {
            Some(qc) => Some(qc.duplicate()),
            None => None,
        }
    }

    /// The filed pre-votes for one block hash, in filing order; absent when
    /// no pre-vote names the hash.
    pub fn get_signed_pre_votes_by_hash(&self, block_hash: &Vec<u8>) -> (r: Option<
        Vec<SignedPreVote>,
    >)
        ensures
            match r {
                Some(v) => votes_for_hash(self.pv(), block_hash@).len() > 0 && v@.map_values(
                    |x: SignedPreVote| x@,
                ) == votes_for_hash(self.pv(), block_hash@),
                None => votes_for_hash(self.pv(), block_hash@).len() == 0,
            },
    {
        let n = self.signed_pre_votes.len();
        let mut out: Vec<SignedPreVote> = Vec::new();
        let mut i: usize = 0;
        proof {
            assert(self.pv().take(0) =~= Seq::<SignedVoteView>::empty());
        }
        while i < n
            invariant
                i <= n,
                self.signed_pre_votes@.len() == n,
                out@.map_values(|x: SignedPreVote| x@) == votes_for_hash(
                    self.pv().take(i as int),
                    block_hash@,
                ),
            decreases n - i,
        {
            let ghost pre = self.pv().take(i as int);
            proof {
                assert(self.pv().take(i + 1).drop_last() =~= pre);
                assert(self.pv().take(i + 1).last() == self.pv()[i as int]);
            }
            if bytes_eq(&self.signed_pre_votes[i].vote.block_hash, block_hash) {
                out.push(self.signed_pre_votes[i].duplicate());
                proof {
                    assert(out@.map_values(|x: SignedPreVote| x@) =~= votes_for_hash(
                        self.pv().take(i + 1),
                        block_hash@,
                    ));
                }
            }
            i += 1;
        }
        proof {
            assert(self.pv().take(n as int) =~= self.pv());
        }
        if out.len() == 0 {
            None
        } else {
            Some(out)
        }
    }

    /// The filed pre-commits for one block hash, in filing order; absent when
    /// no pre-commit names the hash.
    pub fn get_signed_pre_commits_by_hash(&self, block_hash: &Vec<u8>) -> (r: Option<
        Vec<SignedPreCommit>,
    >)
        ensures
            match r {
                Some(v) => votes_for_hash(self.pc(), block_hash@).len() > 0 && v@.map_values(
                    |x: SignedPreCommit| x@,
                ) == votes_for_hash(self.pc(), block_hash@),
                None => votes_for_hash(self.pc(), block_hash@).len() == 0,
            },
    {
        let n = self.signed_pre_commits.len();
        let mut out: Vec<SignedPreCommit> = Vec::new();
        let mut i: usize = 0;
        proof {
            assert(self.pc().take(0) =~= Seq::<SignedVoteView>::empty());
        }
        while i < n
            invariant
                i <= n,
                self.signed_pre_commits@.len() == n,
                out@.map_values(|x: SignedPreCommit| x@) == votes_for_hash(
                    self.pc().take(i as int),
                    block_hash@,
                ),
            decreases n - i,
        {
            let ghost pre = self.pc().take(i as int);
            proof {
                assert(self.pc().take(i + 1).drop_last() =~= pre);
                assert(self.pc().take(i + 1).last() == self.pc()[i as int]);
            }
            if bytes_eq(&self.signed_pre_commits[i].vote.block_hash, block_hash) {
                out.push(self.signed_pre_commits[i].duplicate());
                proof {
                    assert(out@.map_values(|x: SignedPreCommit| x@) =~= votes_for_hash(
                        self.pc().take(i + 1),
                        block_hash@,
                    ));
                }
            }
            i += 1;
        }
        proof {
            assert(self.pc().take(n as int) =~= self.pc());
        }
        if out.len() == 0 {
            None
        } else {
            Some(out)
        }
    }
}

/// The mathematical content of a [`Grid`].
#[verifier::ext_equal]
pub ghost struct GridView {
    pub proposal: Option<SignedProposalView>,
    pub pre_votes: Seq<SignedVoteView>,
    pub pre_commits: Seq<SignedVoteView>,
    pub chokes: Seq<SignedChokeView>,
    pub pre_vote_qc: Option<QcView>,
    pub pre_commit_qc: Option<QcView>,
    pub choke_qc: Option<ChokeQcView>,
    pub pv_max: CumWeightView,
    pub pc_max: CumWeightView,
    pub ck_max: CumWeightView,
}

impl<B: Blk> View for Grid<B> {
    type V = GridView;

    open spec fn view(&self) -> GridView {
        GridView {
            proposal: self.proposal_view(),
            pre_votes: self.pv(),
            pre_commits: self.pc(),
            chokes: self.ck(),
            pre_vote_qc: self.pre_vote_qc_view(),
            pre_commit_qc: self.pre_commit_qc_view(),
            choke_qc: self.choke_qc_view(),
            pv_max: self.pv_max(),
            pc_max: self.pc_max(),
            ck_max: self.ck_max(),
        }
    }
}

/// The weight report every store starts from: nothing seen yet.
pub open spec fn default_cum_view() -> CumWeightView {
    CumWeightView { cum_weight: 0, vote_type: VoteType::PreVote, round: 0, block_hash: None }
}

/// The view of a grid nothing has been filed in.
pub open spec fn empty_grid_view() -> GridView {
    GridView {
        proposal: None,
        pre_votes: Seq::empty(),
        pre_commits: Seq::empty(),
        chokes: Seq::empty(),
        pre_vote_qc: None,
        pre_commit_qc: None,
        choke_qc: None,
        pv_max: default_cum_view(),
        pc_max: default_cum_view(),
        ck_max: default_cum_view(),
    }
}

/// Some entry in `s` carries key `k`.
pub open spec fn has_key<T>(s: Seq<(u64, T)>, k: int) -> bool {
    exists|i: int| 0 <= i < s.len() && s[i].0 == k
}

/// No two entries in `s` carry the same key.
pub open spec fn keys_unique<T>(s: Seq<(u64, T)>) -> bool {
    forall|i: int, j: int| 0 <= i < j < s.len() ==> s[i].0 != s[j].0
}

/// The keyed entries of `s`, as a map from key to the entry's view.
pub open spec fn keyed_views<T: View>(s: Seq<(u64, T)>) -> Map<int, T::V> {
    Map::new(
        |k: int| has_key(s, k),
        |k: int| s[choose|i: int| 0 <= i < s.len() && s[i].0 == k].1@,
    )
}

/// Under unique keys, the entry found at an index is the map's value at its
/// key.
pub proof fn lemma_keyed_views_found<T: View>(s: Seq<(u64, T)>, i: int)
    requires
        keys_unique(s),
        0 <= i < s.len(),
    ensures
        keyed_views(s).dom().contains(s[i].0 as int),
        keyed_views(s)[s[i].0 as int] == s[i].1@,
{
    let k = s[i].0 as int;
    assert(has_key(s, k));
    let j = choose|j: int| 0 <= j < s.len() && s[j].0 == k;
    assert(j == i);
}

/// Replacing the entry at an index, key kept, updates the map at that key
/// alone.
pub proof fn lemma_keyed_views_update<T: View>(s: Seq<(u64, T)>, i: int, x: (u64, T))
    requires
        keys_unique(s),
        0 <= i < s.len(),
        x.0 == s[i].0,
    ensures
        keys_unique(s.update(i, x)),
        keyed_views(s.update(i, x)) == keyed_views(s).insert(s[i].0 as int, x.1@),
{
    let s2 = s.update(i, x);
    assert forall|k: int| has_key(s2, k) <==> has_key(s, k) by {
        if has_key(s2, k) {
            let j = choose|j: int| 0 <= j < s2.len() && s2[j].0 == k;
            if j == i {
                assert(s[i].0 == k);
            } else {
                assert(s[j].0 == k);
            }
        }
        if has_key(s, k) {
            let j = choose|j: int| 0 <= j < s.len() && s[j].0 == k;
            if j == i {
                assert(s2[i].0 == k);
            } else {
                assert(s2[j].0 == k);
            }
        }
    }
    assert forall|k: int| #[trigger] keyed_views(s2).dom().contains(k) implies keyed_views(s2)[k]
        == keyed_views(s).insert(s[i].0 as int, x.1@)[k] by {
        let j = choose|j: int| 0 <= j < s2.len() && s2[j].0 == k;
        if k == s[i].0 {
            assert(j == i);
        } else {
            assert(j != i);
            assert(s[j].0 == k);
            let j2 = choose|j2: int| 0 <= j2 < s.len() && s[j2].0 == k;
            assert(j2 == j);
        }
    }
    assert(keyed_views(s2) =~= keyed_views(s).insert(s[i].0 as int, x.1@));
}

/// Appending an entry with a fresh key adds exactly that key to the map.
pub proof fn lemma_keyed_views_push<T: View>(s: Seq<(u64, T)>, x: (u64, T))
    requires
        keys_unique(s),
        !has_key(s, x.0 as int),
    ensures
        keys_unique(s.push(x)),
        keyed_views(s.push(x)) == keyed_views(s).insert(x.0 as int, x.1@),
{
    let s2 = s.push(x);
    assert forall|i: int, j: int| 0 <= i < j < s2.len() implies s2[i].0 != s2[j].0 by {
        if j == s.len() {
            assert(s2[i] == s[i]);
            if s[i].0 == x.0 {
                assert(has_key(s, x.0 as int));
            }
        }
    }
    assert forall|k: int| has_key(s2, k) <==> (has_key(s, k) || k == x.0) by {
        if has_key(s2, k) {
            let j = choose|j: int| 0 <= j < s2.len() && s2[j].0 == k;
            if j < s.len() {
                assert(s[j].0 == k);
            }
        }
        if has_key(s, k) {
            let j = choose|j: int| 0 <= j < s.len() && s[j].0 == k;
            assert(s2[j].0 == k);
        }
        if k == x.0 {
            assert(s2[s.len() as int].0 == k);
        }
    }
    assert forall|k: int| #[trigger] keyed_views(s2).dom().contains(k) implies keyed_views(s2)[k]
        == keyed_views(s).insert(x.0 as int, x.1@)[k] by {
        let j = choose|j: int| 0 <= j < s2.len() && s2[j].0 == k;
        if k == x.0 {
            assert(j == s.len()) by {
                if j < s.len() {
                    assert(has_key(s, x.0 as int));
                }
            }
        } else {
            assert(j < s.len());
            assert(s[j].0 == k);
            let j2 = choose|j2: int| 0 <= j2 < s.len() && s[j2].0 == k;
            assert(j2 == j);
        }
    }
    assert(keyed_views(s2) =~= keyed_views(s).insert(x.0 as int, x.1@));
}

/// Finds the index of the entry carrying key `k`, if one exists.
fn find_key<T>(s: &Vec<(u64, T)>, k: u64) -> (r: Option<usize>)
    ensures
        match r {
            Some(i) => i < s@.len() && s@[i as int].0 == k,
            None => !has_key(s@, k as int),
        },
{
    let n = s.len();
    let mut i: usize = 0;
    while i < n
        invariant
            i <= n,
            s@.len() == n,
            forall|j: int| 0 <= j < i ==> s@[j].0 != k,
        decreases n - i,
    {
        if s[i].0 == k {
            return Some(i);
        }
        i += 1;
    }
    None
}

/// The mathematical content of a [`Drawer`]: the grids of one height, keyed
/// by round.
#[verifier::ext_equal]
pub ghost struct DrawerView {
    pub grids: Map<int, GridView>,
}

/// The grid filed under round `r`, or the empty grid if none is.
pub open spec fn grid_or_empty(m: Map<int, GridView>, r: int) -> GridView {
    if m.dom().contains(r) {
        m[r]
    } else {
        empty_grid_view()
    }
}

/// A grid after filing one pre-commit.
pub open spec fn grid_after_pre_commit(g: GridView, v: SignedVoteView) -> GridView {
    GridView {
        proposal: g.proposal,
        pre_votes: g.pre_votes,
        pre_commits: g.pre_commits.push(v),
        chokes: g.chokes,
        pre_vote_qc: g.pre_vote_qc,
        pre_commit_qc: g.pre_commit_qc,
        choke_qc: g.choke_qc,
        pv_max: g.pv_max,
        pc_max: merged_max(
            g.pc_max,
            hash_weight(g.pre_commits, v.vote.block_hash) + v.vote_weight,
            VoteType::PreCommit,
            v.vote.round,
            Some(v.vote.block_hash),
        ),
        ck_max: g.ck_max,
    }
}

/// A grid after filing one choke.
pub open spec fn grid_after_choke(g: GridView, v: SignedChokeView) -> GridView {
    GridView {
        proposal: g.proposal,
        pre_votes: g.pre_votes,
        pre_commits: g.pre_commits,
        chokes: g.chokes.push(v),
        pre_vote_qc: g.pre_vote_qc,
        pre_commit_qc: g.pre_commit_qc,
        choke_qc: g.choke_qc,
        pv_max: g.pv_max,
        pc_max: g.pc_max,
        ck_max: merged_max(
            g.ck_max,
            choke_weight(g.chokes) + v.vote_weight,
            VoteType::Choke,
            v.choke.round,
            None,
        ),
    }
}

/// A grid after filing the proposal.
pub open spec fn grid_after_proposal(g: GridView, p: SignedProposalView) -> GridView {
    GridView {
        proposal: Some(p),
        pre_votes: g.pre_votes,
        pre_commits: g.pre_commits,
        chokes: g.chokes,
        pre_vote_qc: g.pre_vote_qc,
        pre_commit_qc: g.pre_commit_qc,
        choke_qc: g.choke_qc,
        pv_max: g.pv_max,
        pc_max: g.pc_max,
        ck_max: g.ck_max,
    }
}

/// A grid after filing the pre-vote certificate.
pub open spec fn grid_after_pre_vote_qc(g: GridView, qc: QcView) -> GridView {
    GridView {
        proposal: g.proposal,
        pre_votes: g.pre_votes,
        pre_commits: g.pre_commits,
        chokes: g.chokes,
        pre_vote_qc: Some(qc),
        pre_commit_qc: g.pre_commit_qc,
        choke_qc: g.choke_qc,
        pv_max: g.pv_max,
        pc_max: g.pc_max,
        ck_max: g.ck_max,
    }
}

/// A grid after filing the pre-commit certificate.
pub open spec fn grid_after_pre_commit_qc(g: GridView, qc: QcView) -> GridView {
    GridView {
        proposal: g.proposal,
        pre_votes: g.pre_votes,
        pre_commits: g.pre_commits,
        chokes: g.chokes,
        pre_vote_qc: g.pre_vote_qc,
        pre_commit_qc: Some(qc),
        choke_qc: g.choke_qc,
        pv_max: g.pv_max,
        pc_max: g.pc_max,
        ck_max: g.ck_max,
    }
}

/// A grid after filing the choke certificate.
pub open spec fn grid_after_choke_qc(g: GridView, qc: ChokeQcView) -> GridView {
    GridView {
        proposal: g.proposal,
        pre_votes: g.pre_votes,
        pre_commits: g.pre_commits,
        chokes: g.chokes,
        pre_vote_qc: g.pre_vote_qc,
        pre_commit_qc: g.pre_commit_qc,
        choke_qc: Some(qc),
        pv_max: g.pv_max,
        pc_max: g.pc_max,
        ck_max: g.ck_max,
    }
}

/// A grid after filing one pre-vote.
pub open spec fn grid_after_pre_vote(g: GridView, v: SignedVoteView) -> GridView {
    GridView {
        proposal: g.proposal,
        pre_votes: g.pre_votes.push(v),
        pre_commits: g.pre_commits,
        chokes: g.chokes,
        pre_vote_qc: g.pre_vote_qc,
        pre_commit_qc: g.pre_commit_qc,
        choke_qc: g.choke_qc,
        pv_max: merged_max(
            g.pv_max,
            hash_weight(g.pre_votes, v.vote.block_hash) + v.vote_weight,
            VoteType::PreVote,
            v.vote.round,
            Some(v.vote.block_hash),
        ),
        pc_max: g.pc_max,
        ck_max: g.ck_max,
    }
}

/// All signed messages filed for one height, grouped by round.
#[derive(Debug)]
pub struct Drawer<B: Blk> {
    collectors: Vec<(u64, Grid<B>)>,
}

impl<B: Blk> View for Drawer<B> {
    type V = DrawerView;

    closed spec fn view(&self) -> DrawerView {
        DrawerView { grids: keyed_views(self.collectors@) }
    }
}

impl<B: Blk> Drawer<B> {
    /// The drawer's internal invariant.
    pub closed spec fn wf(&self) -> bool {
        &&& keys_unique(self.collectors@)
        &&& forall|i: int|
            0 <= i < self.collectors@.len() ==> (#[trigger] self.collectors@[i].1).wf()
    }

    /// Files one pre-vote under `round`; the returned report is that round's
    /// running pre-vote maximum after the insert.
    pub fn insert_pre_vote(&mut self, round: Round, signed_pre_vote: SignedPreVote) -> (r: Result<
        Option<CumWeight>,
        CollectionError<B>,
    >)
        requires
            old(self).wf(),
            hash_weight(
                grid_or_empty(old(self)@.grids, round as int).pre_votes,
                signed_pre_vote@.vote.block_hash,
            ) + signed_pre_vote@.vote_weight <= u32::MAX,
        ensures
            final(self).wf(),
            match vote_of(
                grid_or_empty(old(self)@.grids, round as int).pre_votes,
                signed_pre_vote@.voter,
            ) {
                Some(existing) => final(self)@ == old(self)@ && occupied_outcome(
                    r,
                    CapsuleView::SignedPreVote(existing),
                    CapsuleView::SignedPreVote(signed_pre_vote@),
                ),
                None => {
                    let g_old = grid_or_empty(old(self)@.grids, round as int);
                    let new_cell = hash_weight(g_old.pre_votes, signed_pre_vote@.vote.block_hash)
                        + signed_pre_vote@.vote_weight;
                    &&& r matches Ok(Some(cw)) && cw@ == merged_max(
                        g_old.pv_max,
                        new_cell,
                        VoteType::PreVote,
                        signed_pre_vote@.vote.round,
                        Some(signed_pre_vote@.vote.block_hash),
                    )
                    &&& final(self)@.grids == old(self)@.grids.insert(
                        round as int,
                        grid_after_pre_vote(g_old, signed_pre_vote@),
                    )
                },
            },
    {
        let idx: usize;
        match find_key(&self.collectors, round) {
            Some(i) => {
                idx = i;
                proof {
                    lemma_keyed_views_found(self.collectors@, i as int);
                }
            },
            None => {
                let fresh: Grid<B> = Grid::default();
                proof {
                    assert(fresh@ =~= empty_grid_view());
                    lemma_keyed_views_push(self.collectors@, (round, fresh));
                }
                self.collectors.push((round, fresh));
                idx = self.collectors.len() - 1;
            },
        }
        let ghost mid = self.collectors@;
        let ghost g_old_view = mid[idx as int].1@;
        proof {
            lemma_keyed_views_found(mid, idx as int);
        }
        let res = self.collectors[idx].1.insert_signed_pre_vote(signed_pre_vote);
        proof {
            assert(self.collectors@ == mid.update(
                idx as int,
                (mid[idx as int].0, self.collectors@[idx as int].1),
            ));
            lemma_keyed_views_update(
                mid,
                idx as int,
                (mid[idx as int].0, self.collectors@[idx as int].1),
            );
        }
        match res {
            Ok(opt) => {
                proof {
                    assert(self@.grids =~= old(self)@.grids.insert(
                        round as int,
                        grid_after_pre_vote(g_old_view, signed_pre_vote@),
                    ));
                }
                Ok(opt)
            },
            Err(e) => {
                proof {
                    if !old(self)@.grids.dom().contains(round as int) {
                        assert(vote_of(Seq::<SignedVoteView>::empty(), signed_pre_vote@.voter)
                            is None);
                    }
                    assert(self.collectors@ =~= mid);
                    assert(self@.grids =~= old(self)@.grids);
                }
                Err(e)
            },
        }
    }
}

impl<B: Blk> Drawer<B> {
    /// Files one pre-commit under `round`; the returned report is that round's
    /// running pre-commit maximum after the insert.
    pub fn insert_pre_commit(&mut self, round: Round, signed_pre_commit: SignedPreCommit) -> (r: Result<
        Option<CumWeight>,
        CollectionError<B>,
    >)
        requires
            old(self).wf(),
            hash_weight(
                grid_or_empty(old(self)@.grids, round as int).pre_commits,
                signed_pre_commit@.vote.block_hash,
            ) + signed_pre_commit@.vote_weight <= u32::MAX,
        ensures
            final(self).wf(),
            match vote_of(
                grid_or_empty(old(self)@.grids, round as int).pre_commits,
                signed_pre_commit@.voter,
            ) {
                Some(existing) => final(self)@ == old(self)@ && occupied_outcome(
                    r,
                    CapsuleView::SignedPreCommit(existing),
                    CapsuleView::SignedPreCommit(signed_pre_commit@),
                ),
                None => {
                    let g_old = grid_or_empty(old(self)@.grids, round as int);
                    let new_cell = hash_weight(g_old.pre_commits, signed_pre_commit@.vote.block_hash)
                        + signed_pre_commit@.vote_weight;
                    &&& r matches Ok(Some(cw)) && cw@ == merged_max(
                        g_old.pc_max,
                        new_cell,
                        VoteType::PreCommit,
                        signed_pre_commit@.vote.round,
                        Some(signed_pre_commit@.vote.block_hash),
                    )
                    &&& final(self)@.grids == old(self)@.grids.insert(
                        round as int,
                        grid_after_pre_commit(g_old, signed_pre_commit@),
                    )
                },
            },
    {
        let idx: usize;
        match find_key(&self.collectors, round) {
            Some(i) => {
                idx = i;
                proof {
                    lemma_keyed_views_found(self.collectors@, i as int);
                }
            },
            None => {
                let fresh: Grid<B> = Grid::default();
                proof {
                    lemma_keyed_views_push(self.collectors@, (round, fresh));
                }
                self.collectors.push((round, fresh));
                idx = self.collectors.len() - 1;
            },
        }
        let ghost mid = self.collectors@;
        let ghost g_old_view = mid[idx as int].1@;
        proof {
            lemma_keyed_views_found(mid, idx as int);
        }
        let res = self.collectors[idx].1.insert_signed_pre_commit(signed_pre_commit);
        proof {
            assert(self.collectors@ == mid.update(
                idx as int,
                (mid[idx as int].0, self.collectors@[idx as int].1),
            ));
            lemma_keyed_views_update(
                mid,
                idx as int,
                (mid[idx as int].0, self.collectors@[idx as int].1),
            );
        }
        match res {
            Ok(opt) => {
                proof {
                    assert(self@.grids =~= old(self)@.grids.insert(
                        round as int,
                        grid_after_pre_commit(g_old_view, signed_pre_commit@),
                    ));
                }
                Ok(opt)
            },
            Err(e) => {
                proof {
                    assert(self.collectors@ =~= mid);
                    assert(self@.grids =~= old(self)@.grids);
                }
                Err(e)
            },
        }
    }

    /// Files one choke under `round`; the returned report is that round's
    /// choke total after the insert.
    pub fn insert_choke(&mut self, round: Round, signed_choke: SignedChoke) -> (r: Result<
        Option<CumWeight>,
        CollectionError<B>,
    >)
        requires
            old(self).wf(),
            choke_weight(grid_or_empty(old(self)@.grids, round as int).chokes)
                + signed_choke@.vote_weight <= u32::MAX,
        ensures
            final(self).wf(),
            match choke_of(
                grid_or_empty(old(self)@.grids, round as int).chokes,
                signed_choke@.voter,
            ) {
                Some(existing) => final(self)@ == old(self)@ && occupied_outcome(
                    r,
                    CapsuleView::SignedChoke(existing),
                    CapsuleView::SignedChoke(signed_choke@),
                ),
                None => {
                    let g_old = grid_or_empty(old(self)@.grids, round as int);
                    let new_total = choke_weight(g_old.chokes) + signed_choke@.vote_weight;
                    &&& r matches Ok(Some(cw)) && cw@ == merged_max(
                        g_old.ck_max,
                        new_total,
                        VoteType::Choke,
                        signed_choke@.choke.round,
                        None,
                    )
                    &&& final(self)@.grids == old(self)@.grids.insert(
                        round as int,
                        grid_after_choke(g_old, signed_choke@),
                    )
                },
            },
    {
        let idx: usize;
        match find_key(&self.collectors, round) {
            Some(i) => {
                idx = i;
                proof {
                    lemma_keyed_views_found(self.collectors@, i as int);
                }
            },
            None => {
                let fresh: Grid<B> = Grid::default();
                proof {
                    lemma_keyed_views_push(self.collectors@, (round, fresh));
                }
                self.collectors.push((round, fresh));
                idx = self.collectors.len() - 1;
            },
        }
        let ghost mid = self.collectors@;
        let ghost g_old_view = mid[idx as int].1@;
        proof {
            lemma_keyed_views_found(mid, idx as int);
        }
        let res = self.collectors[idx].1.insert_signed_choke(signed_choke);
        proof {
            assert(self.collectors@ == mid.update(
                idx as int,
                (mid[idx as int].0, self.collectors@[idx as int].1),
            ));
            lemma_keyed_views_update(
                mid,
                idx as int,
                (mid[idx as int].0, self.collectors@[idx as int].1),
            );
        }
        match res {
            Ok(opt) => {
                proof {
                    assert(self@.grids =~= old(self)@.grids.insert(
                        round as int,
                        grid_after_choke(g_old_view, signed_choke@),
                    ));
                }
                Ok(opt)
            },
            Err(e) => {
                proof {
                    assert(self.collectors@ =~= mid);
                    assert(self@.grids =~= old(self)@.grids);
                }
                Err(e)
            },
        }
    }

    /// Files the round's proposal under `round`; the slot holds at most one.
    pub fn insert_proposal(&mut self, round: Round, signed_proposal: SignedProposal<B>) -> (r: Result<
        Option<CumWeight>,
        CollectionError<B>,
    >)
        requires
            old(self).wf(),
        ensures
            final(self).wf(),
            match grid_or_empty(old(self)@.grids, round as int).proposal {
                Some(existing) => final(self)@ == old(self)@ && occupied_outcome(
                    r,
                    CapsuleView::SignedProposal(existing),
                    CapsuleView::SignedProposal(signed_proposal@),
                ),
                None => {
                    let g_old = grid_or_empty(old(self)@.grids, round as int);
                    &&& r matches Ok(cw) && cw is None
                    &&& final(self)@.grids == old(self)@.grids.insert(
                        round as int,
                        grid_after_proposal(g_old, signed_proposal@),
                    )
                },
            },
    {
        let idx: usize;
        match find_key(&self.collectors, round) {
            Some(i) => {
                idx = i;
                proof {
                    lemma_keyed_views_found(self.collectors@, i as int);
                }
            },
            None => {
                let fresh: Grid<B> = Grid::default();
                proof {
                    lemma_keyed_views_push(self.collectors@, (round, fresh));
                }
                self.collectors.push((round, fresh));
                idx = self.collectors.len() - 1;
            },
        }
        let ghost mid = self.collectors@;
        let ghost g_old_view = mid[idx as int].1@;
        proof {
            lemma_keyed_views_found(mid, idx as int);
        }
        let res = self.collectors[idx].1.insert_signed_proposal(signed_proposal);
        proof {
            assert(self.collectors@ == mid.update(
                idx as int,
                (mid[idx as int].0, self.collectors@[idx as int].1),
            ));
            lemma_keyed_views_update(
                mid,
                idx as int,
                (mid[idx as int].0, self.collectors@[idx as int].1),
            );
        }
        match res {
            Ok(opt) => {
                proof {
                    assert(self@.grids =~= old(self)@.grids.insert(
                        round as int,
                        grid_after_proposal(g_old_view, signed_proposal@),
                    ));
                }
                Ok(opt)
            },
            Err(e) => {
                proof {
                    assert(self.collectors@ =~= mid);
                    assert(self@.grids =~= old(self)@.grids);
                }
                Err(e)
            },
        }
    }

    /// Files the round's pre-vote certificate under `round`; the slot holds at most one.
    pub fn insert_pre_vote_qc(&mut self, round: Round, pre_vote_qc: PreVoteQC) -> (r: Result<
        Option<CumWeight>,
        CollectionError<B>,
    >)
        requires
            old(self).wf(),
        ensures
            final(self).wf(),
            match grid_or_empty(old(self)@.grids, round as int).pre_vote_qc {
                Some(existing) => final(self)@ == old(self)@ && occupied_outcome(
                    r,
                    CapsuleView::PreVoteQC(existing),
                    CapsuleView::PreVoteQC(pre_vote_qc@),
                ),
                None => {
                    let g_old = grid_or_empty(old(self)@.grids, round as int);
                    &&& r matches Ok(cw) && cw is None
                    &&& final(self)@.grids == old(self)@.grids.insert(
                        round as int,
                        grid_after_pre_vote_qc(g_old, pre_vote_qc@),
                    )
                },
            },
    {
        let idx: usize;
        match find_key(&self.collectors, round) {
            Some(i) => {
                idx = i;
                proof {
                    lemma_keyed_views_found(self.collectors@, i as int);
                }
            },
            None => {
                let fresh: Grid<B> = Grid::default();
                proof {
                    lemma_keyed_views_push(self.collectors@, (round, fresh));
                }
                self.collectors.push((round, fresh));
                idx = self.collectors.len() - 1;
            },
        }
        let ghost mid = self.collectors@;
        let ghost g_old_view = mid[idx as int].1@;
        proof {
            lemma_keyed_views_found(mid, idx as int);
        }
        let res = self.collectors[idx].1.insert_pre_vote_qc(pre_vote_qc);
        proof {
            assert(self.collectors@ == mid.update(
                idx as int,
                (mid[idx as int].0, self.collectors@[idx as int].1),
            ));
            lemma_keyed_views_update(
                mid,
                idx as int,
                (mid[idx as int].0, self.collectors@[idx as int].1),
            );
        }
        match res {
            Ok(opt) => {
                proof {
                    assert(self@.grids =~= old(self)@.grids.insert(
                        round as int,
                        grid_after_pre_vote_qc(g_old_view, pre_vote_qc@),
                    ));
                }
                Ok(opt)
            },
            Err(e) => {
                proof {
                    assert(self.collectors@ =~= mid);
                    assert(self@.grids =~= old(self)@.grids);
                }
                Err(e)
            },
        }
    }

    /// Files the round's pre-commit certificate under `round`; the slot holds at most one.
    pub fn insert_pre_commit_qc(&mut self, round: Round, pre_commit_qc: PreCommitQC) -> (r: Result<
        Option<CumWeight>,
        CollectionError<B>,
    >)
        requires
            old(self).wf(),
        ensures
            final(self).wf(),
            match grid_or_empty(old(self)@.grids, round as int).pre_commit_qc {
                Some(existing) => final(self)@ == old(self)@ && occupied_outcome(
                    r,
                    CapsuleView::PreCommitQC(existing),
                    CapsuleView::PreCommitQC(pre_commit_qc@),
                ),
                None => {
                    let g_old = grid_or_empty(old(self)@.grids, round as int);
                    &&& r matches Ok(cw) && cw is None
                    &&& final(self)@.grids == old(self)@.grids.insert(
                        round as int,
                        grid_after_pre_commit_qc(g_old, pre_commit_qc@),
                    )
                },
            },
    {
        let idx: usize;
        match find_key(&self.collectors, round) {
            Some(i) => {
                idx = i;
                proof {
                    lemma_keyed_views_found(self.collectors@, i as int);
                }
            },
            None => {
                let fresh: Grid<B> = Grid::default();
                proof {
                    lemma_keyed_views_push(self.collectors@, (round, fresh));
                }
                self.collectors.push((round, fresh));
                idx = self.collectors.len() - 1;
            },
        }
        let ghost mid = self.collectors@;
        let ghost g_old_view = mid[idx as int].1@;
        proof {
            lemma_keyed_views_found(mid, idx as int);
        }
        let res = self.collectors[idx].1.insert_pre_commit_qc(pre_commit_qc);
        proof {
            assert(self.collectors@ == mid.update(
                idx as int,
                (mid[idx as int].0, self.collectors@[idx as int].1),
            ));
            lemma_keyed_views_update(
                mid,
                idx as int,
                (mid[idx as int].0, self.collectors@[idx as int].1),
            );
        }
        match res {
            Ok(opt) => {
                proof {
                    assert(self@.grids =~= old(self)@.grids.insert(
                        round as int,
                        grid_after_pre_commit_qc(g_old_view, pre_commit_qc@),
                    ));
                }
                Ok(opt)
            },
            Err(e) => {
                proof {
                    assert(self.collectors@ =~= mid);
                    assert(self@.grids =~= old(self)@.grids);
                }
                Err(e)
            },
        }
    }

    /// Files the round's choke certificate under `round`; the slot holds at most one.
    pub fn insert_choke_qc(&mut self, round: Round, choke_qc: ChokeQC) -> (r: Result<
        Option<CumWeight>,
        CollectionError<B>,
    >)
        requires
            old(self).wf(),
        ensures
            final(self).wf(),
            match grid_or_empty(old(self)@.grids, round as int).choke_qc {
                Some(existing) => final(self)@ == old(self)@ && occupied_outcome(
                    r,
                    CapsuleView::ChokeQC(existing),
                    CapsuleView::ChokeQC(choke_qc@),
                ),
                None => {
                    let g_old = grid_or_empty(old(self)@.grids, round as int);
                    &&& r matches Ok(cw) && cw is None
                    &&& final(self)@.grids == old(self)@.grids.insert(
                        round as int,
                        grid_after_choke_qc(g_old, choke_qc@),
                    )
                },
            },
    {
        let idx: usize;
        match find_key(&self.collectors, round) {
            Some(i) => {
                idx = i;
                proof {
                    lemma_keyed_views_found(self.collectors@, i as int);
                }
            },
            None => {
                let fresh: Grid<B> = Grid::default();
                proof {
                    lemma_keyed_views_push(self.collectors@, (round, fresh));
                }
                self.collectors.push((round, fresh));
                idx = self.collectors.len() - 1;
            },
        }
        let ghost mid = self.collectors@;
        let ghost g_old_view = mid[idx as int].1@;
        proof {
            lemma_keyed_views_found(mid, idx as int);
        }
        let res = self.collectors[idx].1.insert_choke_qc(choke_qc);
        proof {
            assert(self.collectors@ == mid.update(
                idx as int,
                (mid[idx as int].0, self.collectors@[idx as int].1),
            ));
            lemma_keyed_views_update(
                mid,
                idx as int,
                (mid[idx as int].0, self.collectors@[idx as int].1),
            );
        }
        match res {
            Ok(opt) => {
                proof {
                    assert(self@.grids =~= old(self)@.grids.insert(
                        round as int,
                        grid_after_choke_qc(g_old_view, choke_qc@),
                    ));
                }
                Ok(opt)
            },
            Err(e) => {
                proof {
                    assert(self.collectors@ =~= mid);
                    assert(self@.grids =~= old(self)@.grids);
                }
                Err(e)
            },
        }
    }
}

/// The view of a drawer nothing has been filed in.
pub open spec fn empty_drawer_view() -> DrawerView {
    DrawerView { grids: Map::empty() }
}

/// The drawer filed under height `h`, or the empty drawer if none is.
pub open spec fn drawer_or_empty(m: Map<int, DrawerView>, h: int) -> DrawerView {
    if m.dom().contains(h) {
        m[h]
    } else {
        empty_drawer_view()
    }
}

/// A drawer after filing one pre-vote under round `r`.
pub open spec fn drawer_after_pre_vote(d: DrawerView, r: int, v: SignedVoteView) -> DrawerView {
    DrawerView { grids: d.grids.insert(r, grid_after_pre_vote(grid_or_empty(d.grids, r), v)) }
}

/// A drawer after filing one pre-commit under round `r`.
pub open spec fn drawer_after_pre_commit(d: DrawerView, r: int, v: SignedVoteView) -> DrawerView {
    DrawerView { grids: d.grids.insert(r, grid_after_pre_commit(grid_or_empty(d.grids, r), v)) }
}

/// A drawer after filing one choke under round `r`.
pub open spec fn drawer_after_choke(d: DrawerView, r: int, v: SignedChokeView) -> DrawerView {
    DrawerView { grids: d.grids.insert(r, grid_after_choke(grid_or_empty(d.grids, r), v)) }
}

/// A drawer after filing the proposal under round `r`.
pub open spec fn drawer_after_proposal(d: DrawerView, r: int, p: SignedProposalView) -> DrawerView {
    DrawerView { grids: d.grids.insert(r, grid_after_proposal(grid_or_empty(d.grids, r), p)) }
}

/// A drawer after filing the pre-vote certificate under round `r`.
pub open spec fn drawer_after_pre_vote_qc(d: DrawerView, r: int, qc: QcView) -> DrawerView {
    DrawerView { grids: d.grids.insert(r, grid_after_pre_vote_qc(grid_or_empty(d.grids, r), qc)) }
}

/// A drawer after filing the pre-commit certificate under round `r`.
pub open spec fn drawer_after_pre_commit_qc(d: DrawerView, r: int, qc: QcView) -> DrawerView {
    DrawerView { grids: d.grids.insert(r, grid_after_pre_commit_qc(grid_or_empty(d.grids, r), qc)) }
}

/// A drawer after filing the choke certificate under round `r`.
pub open spec fn drawer_after_choke_qc(d: DrawerView, r: int, qc: ChokeQcView) -> DrawerView {
    DrawerView { grids: d.grids.insert(r, grid_after_choke_qc(grid_or_empty(d.grids, r), qc)) }
}

impl<B: Blk> Default for Drawer<B> {
    /// The empty drawer.
    fn default() -> (r: Self)
        ensures
            r.wf(),
            r@ == empty_drawer_view(),
    {
        let d = Drawer { collectors: Vec::new() };
        proof {
            assert forall|k: int| !has_key(d.collectors@, k) by {}
            assert(keyed_views(d.collectors@) =~= Map::<int, GridView>::empty());
            assert(d@ =~= empty_drawer_view());
        }
        d
    }
}

/// Under unique keys, a keyed view map has one entry per sequence element.
pub proof fn lemma_keyed_views_dom_len<T: View>(s: Seq<(u64, T)>)
    requires
        keys_unique(s),
    ensures
        keyed_views(s).dom().finite(),
        keyed_views(s).dom().len() == s.len(),
    decreases s.len(),
{
    if s.len() == 0 {
        assert(keyed_views(s).dom() =~= Set::<int>::empty());
    } else {
        let s0 = s.drop_last();
        let x = s.last();
        assert(keys_unique(s0));
        assert(!has_key(s0, x.0 as int)) by {
            if has_key(s0, x.0 as int) {
                let j = choose|j: int| 0 <= j < s0.len() && s0[j].0 == x.0;
                assert(s[j].0 == s[s.len() - 1].0);
            }
        }
        lemma_keyed_views_dom_len(s0);
        assert(s0.push(x) =~= s);
        lemma_keyed_views_push(s0, x);
        assert(keyed_views(s).dom() =~= keyed_views(s0).dom().insert(x.0 as int));
    }
}

/// The whole store: one drawer per height.
#[derive(Debug)]
pub struct Cabinet<B: Blk> {
    drawers: Vec<(u64, Drawer<B>)>,
}

impl<B: Blk> View for Cabinet<B> {
    type V = Map<int, DrawerView>;

    closed spec fn view(&self) -> Map<int, DrawerView> {
        keyed_views(self.drawers@)
    }
}

impl<B: Blk> Default for Cabinet<B> {
    /// The empty store.
    fn default() -> (r: Self)
        ensures
            r.wf(),
            r@ == Map::<int, DrawerView>::empty(),
    {
        let c = Cabinet { drawers: Vec::new() };
        proof {
            assert forall|k: int| !has_key(c.drawers@, k) by {}
            assert(keyed_views(c.drawers@) =~= Map::<int, DrawerView>::empty());
        }
        c
    }
}

impl<B: Blk> Cabinet<B> {
    /// The store's internal invariant.
    pub closed spec fn wf(&self) -> bool {
        &&& keys_unique(self.drawers@)
        &&& forall|i: int|
            0 <= i < self.drawers@.len() ==> (#[trigger] self.drawers@[i].1).wf()
    }

    /// Files one capsule under `(height, round)`. A proposal or certificate
    /// fills a one-shot slot and returns no report; a signed vote or choke is
    /// deduplicated by voter and returns that `(height, round)` cell's
    /// running maximum cumulative weight for its phase. A byte-identical
    /// repeat fails idempotently, a conflicting message from the same voter
    /// fails as equivocation, and neither changes the store.
    pub fn insert(&mut self, height: Height, round: Round, data: Capsule<B>) -> (r: Result<
        Option<CumWeight>,
        CollectionError<B>,
    >)
        requires
            old(self).wf(),
            match data@ {
                CapsuleView::SignedPreVote(v) => hash_weight(
                    grid_or_empty(
                        drawer_or_empty(old(self)@, height as int).grids,
                        round as int,
                    ).pre_votes,
                    v.vote.block_hash,
                ) + v.vote_weight <= u32::MAX,
                CapsuleView::SignedPreCommit(v) => hash_weight(
                    grid_or_empty(
                        drawer_or_empty(old(self)@, height as int).grids,
                        round as int,
                    ).pre_commits,
                    v.vote.block_hash,
                ) + v.vote_weight <= u32::MAX,
                CapsuleView::SignedChoke(v) => choke_weight(
                    grid_or_empty(
                        drawer_or_empty(old(self)@, height as int).grids,
                        round as int,
                    ).chokes,
                ) + v.vote_weight <= u32::MAX,
                _ => true,
            },
        ensures
            final(self).wf(),
            ({
                let d_old = drawer_or_empty(old(self)@, height as int);
                let g_old = grid_or_empty(d_old.grids, round as int);
                match data@ {
                    CapsuleView::SignedPreVote(v) => match vote_of(g_old.pre_votes, v.voter) {
                        Some(existing) => final(self)@ == old(self)@ && occupied_outcome(
                            r,
                            CapsuleView::SignedPreVote(existing),
                            data@,
                        ),
                        None => {
                            &&& r matches Ok(Some(cw)) && cw@ == merged_max(
                                g_old.pv_max,
                                hash_weight(g_old.pre_votes, v.vote.block_hash) + v.vote_weight,
                                VoteType::PreVote,
                                v.vote.round,
                                Some(v.vote.block_hash),
                            )
                            &&& final(self)@ == old(self)@.insert(
                                height as int,
                                drawer_after_pre_vote(d_old, round as int, v),
                            )
                        },
                    },
                    CapsuleView::SignedPreCommit(v) => match vote_of(g_old.pre_commits, v.voter) {
                        Some(existing) => final(self)@ == old(self)@ && occupied_outcome(
                            r,
                            CapsuleView::SignedPreCommit(existing),
                            data@,
                        ),
                        None => {
                            &&& r matches Ok(Some(cw)) && cw@ == merged_max(
                                g_old.pc_max,
                                hash_weight(g_old.pre_commits, v.vote.block_hash) + v.vote_weight,
                                VoteType::PreCommit,
                                v.vote.round,
                                Some(v.vote.block_hash),
                            )
                            &&& final(self)@ == old(self)@.insert(
                                height as int,
                                drawer_after_pre_commit(d_old, round as int, v),
                            )
                        },
                    },
                    CapsuleView::SignedChoke(v) => match choke_of(g_old.chokes, v.voter) {
                        Some(existing) => final(self)@ == old(self)@ && occupied_outcome(
                            r,
                            CapsuleView::SignedChoke(existing),
                            data@,
                        ),
                        None => {
                            &&& r matches Ok(Some(cw)) && cw@ == merged_max(
                                g_old.ck_max,
                                choke_weight(g_old.chokes) + v.vote_weight,
                                VoteType::Choke,
                                v.choke.round,
                                None,
                            )
                            &&& final(self)@ == old(self)@.insert(
                                height as int,
                                drawer_after_choke(d_old, round as int, v),
                            )
                        },
                    },
                    CapsuleView::SignedProposal(p) => match g_old.proposal {
                        Some(existing) => final(self)@ == old(self)@ && occupied_outcome(
                            r,
                            CapsuleView::SignedProposal(existing),
                            data@,
                        ),
                        None => {
                            &&& r matches Ok(cw) && cw is None
                            &&& final(self)@ == old(self)@.insert(
                                height as int,
                                drawer_after_proposal(d_old, round as int, p),
                            )
                        },
                    },
                    CapsuleView::PreVoteQC(qc) => match g_old.pre_vote_qc {
                        Some(existing) => final(self)@ == old(self)@ && occupied_outcome(
                            r,
                            CapsuleView::PreVoteQC(existing),
                            data@,
                        ),
                        None => {
                            &&& r matches Ok(cw) && cw is None
                            &&& final(self)@ == old(self)@.insert(
                                height as int,
                                drawer_after_pre_vote_qc(d_old, round as int, qc),
                            )
                        },
                    },
                    CapsuleView::PreCommitQC(qc) => match g_old.pre_commit_qc {
                        Some(existing) => final(self)@ == old(self)@ && occupied_outcome(
                            r,
                            CapsuleView::PreCommitQC(existing),
                            data@,
                        ),
                        None => {
                            &&& r matches Ok(cw) && cw is None
                            &&& final(self)@ == old(self)@.insert(
                                height as int,
                                drawer_after_pre_commit_qc(d_old, round as int, qc),
                            )
                        },
                    },
                    CapsuleView::ChokeQC(qc) => match g_old.choke_qc {
                        Some(existing) => final(self)@ == old(self)@ && occupied_outcome(
                            r,
                            CapsuleView::ChokeQC(existing),
                            data@,
                        ),
                        None => {
                            &&& r matches Ok(cw) && cw is None
                            &&& final(self)@ == old(self)@.insert(
                                height as int,
                                drawer_after_choke_qc(d_old, round as int, qc),
                            )
                        },
                    },
                }
            }),
    {
        let ghost dv = data@;
        let idx: usize;
        match find_key(&self.drawers, height) {
            Some(i) => {
                idx = i;
                proof {
                    lemma_keyed_views_found(self.drawers@, i as int);
                }
            },
            None => {
                let fresh: Drawer<B> = Drawer::default();
                proof {
                    lemma_keyed_views_push(self.drawers@, (height, fresh));
                }
                self.drawers.push((height, fresh));
                idx = self.drawers.len() - 1;
            },
        }
        let ghost mid = self.drawers@;
        let ghost d_old_view = mid[idx as int].1@;
        proof {
            lemma_keyed_views_found(mid, idx as int);
            assert(d_old_view == drawer_or_empty(old(self)@, height as int));
        }
        let res = match data {
            Capsule::SignedProposal(p) => self.drawers[idx].1.insert_proposal(round, p),
            Capsule::SignedPreVote(v) => self.drawers[idx].1.insert_pre_vote(round, v),
            Capsule::SignedPreCommit(v) => self.drawers[idx].1.insert_pre_commit(round, v),
            Capsule::SignedChoke(v) => self.drawers[idx].1.insert_choke(round, v),
            Capsule::PreVoteQC(qc) => self.drawers[idx].1.insert_pre_vote_qc(round, qc),
            Capsule::PreCommitQC(qc) => self.drawers[idx].1.insert_pre_commit_qc(round, qc),
            Capsule::ChokeQC(qc) => self.drawers[idx].1.insert_choke_qc(round, qc),
        };
        proof {
            assert(self.drawers@ == mid.update(
                idx as int,
                (mid[idx as int].0, self.drawers@[idx as int].1),
            ));
            lemma_keyed_views_update(
                mid,
                idx as int,
                (mid[idx as int].0, self.drawers@[idx as int].1),
            );
            let d_new_view = self.drawers@[idx as int].1@;
            if res is Err {
                assert(d_new_view == d_old_view);
                assert(old(self)@.dom().contains(height as int));
                assert(self@ =~= old(self)@);
            } else {
                let h = height as int;
                let rr = round as int;
                match dv {
                    CapsuleView::SignedPreVote(v) => {
                        assert(self@ =~= old(self)@.insert(h, drawer_after_pre_vote(d_old_view, rr, v)));
                    },
                    CapsuleView::SignedPreCommit(v) => {
                        assert(self@ =~= old(self)@.insert(h, drawer_after_pre_commit(d_old_view, rr, v)));
                    },
                    CapsuleView::SignedChoke(v) => {
                        assert(self@ =~= old(self)@.insert(h, drawer_after_choke(d_old_view, rr, v)));
                    },
                    CapsuleView::SignedProposal(p) => {
                        assert(self@ =~= old(self)@.insert(h, drawer_after_proposal(d_old_view, rr, p)));
                    },
                    CapsuleView::PreVoteQC(qc) => {
                        assert(self@ =~= old(self)@.insert(h, drawer_after_pre_vote_qc(d_old_view, rr, qc)));
                    },
                    CapsuleView::PreCommitQC(qc) => {
                        assert(self@ =~= old(self)@.insert(h, drawer_after_pre_commit_qc(d_old_view, rr, qc)));
                    },
                    CapsuleView::ChokeQC(qc) => {
                        assert(self@ =~= old(self)@.insert(h, drawer_after_choke_qc(d_old_view, rr, qc)));
                    },
                }
            }
        }
        res
    }

    /// The number of heights with a drawer.
    pub fn height_count(&self) -> (r: usize)
        requires
            self.wf(),
        ensures
            r == self@.dom().len(),
    {
        proof {
            lemma_keyed_views_dom_len(self.drawers@);
        }
        self.drawers.len()
    }
}

/// Whether some round of the drawer holds exactly this grid.
pub open spec fn drawer_holds_grid(d: DrawerView, g: GridView) -> bool {
    exists|rd: int| d.grids.dom().contains(rd) && d.grids[rd] == g
}

/// Removing the entry at an index removes exactly its key from the map.
pub proof fn lemma_keyed_views_remove<T: View>(s: Seq<(u64, T)>, i: int)
    requires
        keys_unique(s),
        0 <= i < s.len(),
    ensures
        keys_unique(s.remove(i)),
        keyed_views(s.remove(i)) == keyed_views(s).remove(s[i].0 as int),
{
    let s2 = s.remove(i);
    assert forall|j1: int, j2: int| 0 <= j1 < j2 < s2.len() implies s2[j1].0 != s2[j2].0 by {
        let k1: int = if j1 < i { j1 } else { j1 + 1 };
        let k2: int = if j2 < i { j2 } else { j2 + 1 };
        assert(s2[j1] == s[k1]);
        assert(s2[j2] == s[k2]);
    }
    assert forall|k: int| has_key(s2, k) <==> (has_key(s, k) && k != s[i].0) by {
        if has_key(s2, k) {
            let j = choose|j: int| 0 <= j < s2.len() && s2[j].0 == k;
            let jj: int = if j < i { j } else { j + 1 };
            assert(s[jj].0 == k);
            if k == s[i].0 {
                assert(jj != i);
            }
        }
        if has_key(s, k) && k != s[i].0 {
            let j = choose|j: int| 0 <= j < s.len() && s[j].0 == k;
            assert(j != i);
            let jj: int = if j < i { j } else { j - 1 };
            assert(s2[jj].0 == k);
        }
    }
    assert forall|k: int| #[trigger] keyed_views(s2).dom().contains(k) implies keyed_views(s2)[k]
        == keyed_views(s).remove(s[i].0 as int)[k] by {
        let j = choose|j: int| 0 <= j < s2.len() && s2[j].0 == k;
        let jj: int = if j < i { j } else { j + 1 };
        assert(s[jj].0 == k);
        let j2 = choose|j2: int| 0 <= j2 < s.len() && s[j2].0 == k;
        assert(j2 == jj);
    }
    assert(keyed_views(s2) =~= keyed_views(s).remove(s[i].0 as int));
}

impl<B: Blk> Cabinet<B> {
    /// The proposal filed under `(height, round)`, if any.
    pub fn get_signed_proposal(&self, height: Height, round: Round) -> (r: Option<
        SignedProposal<B>,
    >)
        requires
            self.wf(),
        ensures
            opt_sp_view(r) == grid_or_empty(
                drawer_or_empty(self@, height as int).grids,
                round as int,
            ).proposal,
    {
        match find_key(&self.drawers, height) {
            Some(i) => {
                proof {
                    lemma_keyed_views_found(self.drawers@, i as int);
                }
                let d = &self.drawers[i].1;
                match find_key(&d.collectors, round) {
                    Some(j) => {
                        proof {
                            lemma_keyed_views_found(d.collectors@, j as int);
                        }
                        d.collectors[j].1.get_signed_proposal()
                    },
                    None => None,
                }
            },
            None => None,
        }
    }

    /// The pre-vote certificate filed under `(height, round)`, if any.
    pub fn get_pre_vote_qc(&self, height: Height, round: Round) -> (r: Option<PreVoteQC>)
        requires
            self.wf(),
        ensures
            opt_pv_qc_view(r) == grid_or_empty(
                drawer_or_empty(self@, height as int).grids,
                round as int,
            ).pre_vote_qc,
    {
        match find_key(&self.drawers, height) {
            Some(i) => {
                proof {
                    lemma_keyed_views_found(self.drawers@, i as int);
                }
                let d = &self.drawers[i].1;
                match find_key(&d.collectors, round) {
                    Some(j) => {
                        proof {
                            lemma_keyed_views_found(d.collectors@, j as int);
                        }
                        d.collectors[j].1.get_pre_vote_qc()
                    },
                    None => None,
                }
            },
            None => None,
        }
    }

    /// The pre-commit certificate filed under `(height, round)`, if any.
    pub fn get_pre_commit_qc(&self, height: Height, round: Round) -> (r: Option<PreCommitQC>)
        requires
            self.wf(),
        ensures
            opt_pc_qc_view(r) == grid_or_empty(
                drawer_or_empty(self@, height as int).grids,
                round as int,
            ).pre_commit_qc,
    {
        match find_key(&self.drawers, height) {
            Some(i) => {
                proof {
                    lemma_keyed_views_found(self.drawers@, i as int);
                }
                let d = &self.drawers[i].1;
                match find_key(&d.collectors, round) {
                    Some(j) => {
                        proof {
                            lemma_keyed_views_found(d.collectors@, j as int);
                        }
                        d.collectors[j].1.get_pre_commit_qc()
                    },
                    None => None,
                }
            },
            None => None,
        }
    }

    /// The choke certificate filed under `(height, round)`, if any.
    pub fn get_choke_qc(&self, height: Height, round: Round) -> (r: Option<ChokeQC>)
        requires
            self.wf(),
        ensures
            opt_ck_qc_view(r) == grid_or_empty(
                drawer_or_empty(self@, height as int).grids,
                round as int,
            ).choke_qc,
    {
        match find_key(&self.drawers, height) {
            Some(i) => {
                proof {
                    lemma_keyed_views_found(self.drawers@, i as int);
                }
                let d = &self.drawers[i].1;
                match find_key(&d.collectors, round) {
                    Some(j) => {
                        proof {
                            lemma_keyed_views_found(d.collectors@, j as int);
                        }
                        d.collectors[j].1.get_choke_qc()
                    },
                    None => None,
                }
            },
            None => None,
        }
    }

    /// The pre-votes filed under `(height, round)` for one block hash, in
    /// filing order; absent when no such pre-vote exists.
    pub fn get_signed_pre_votes_by_hash(
        &self,
        height: Height,
        round: Round,
        block_hash: &Vec<u8>,
    ) -> (r: Option<Vec<SignedPreVote>>)
        requires
            self.wf(),
        ensures
            ({
                let cell = votes_for_hash(
                    grid_or_empty(
                        drawer_or_empty(self@, height as int).grids,
                        round as int,
                    ).pre_votes,
                    block_hash@,
                );
                match r {
                    Some(v) => cell.len() > 0 && v@.map_values(|x: SignedPreVote| x@) == cell,
                    None => cell.len() == 0,
                }
            }),
    {
        match find_key(&self.drawers, height) {
            Some(i) => {
                proof {
                    lemma_keyed_views_found(self.drawers@, i as int);
                }
                let d = &self.drawers[i].1;
                match find_key(&d.collectors, round) {
                    Some(j) => {
                        proof {
                            lemma_keyed_views_found(d.collectors@, j as int);
                        }
                        d.collectors[j].1.get_signed_pre_votes_by_hash(block_hash)
                    },
                    None => None,
                }
            },
            None => None,
        }
    }

    /// The pre-commits filed under `(height, round)` for one block hash, in
    /// filing order; absent when no such pre-commit exists.
    pub fn get_signed_pre_commits_by_hash(
        &self,
        height: Height,
        round: Round,
        block_hash: &Vec<u8>,
    ) -> (r: Option<Vec<SignedPreCommit>>)
        requires
            self.wf(),
        ensures
            ({
                let cell = votes_for_hash(
                    grid_or_empty(
                        drawer_or_empty(self@, height as int).grids,
                        round as int,
                    ).pre_commits,
                    block_hash@,
                );
                match r {
                    Some(v) => cell.len() > 0 && v@.map_values(|x: SignedPreCommit| x@) == cell,
                    None => cell.len() == 0,
                }
            }),
    {
        match find_key(&self.drawers, height) {
            Some(i) => {
                proof {
                    lemma_keyed_views_found(self.drawers@, i as int);
                }
                let d = &self.drawers[i].1;
                match find_key(&d.collectors, round) {
                    Some(j) => {
                        proof {
                            lemma_keyed_views_found(d.collectors@, j as int);
                        }
                        d.collectors[j].1.get_signed_pre_commits_by_hash(block_hash)
                    },
                    None => None,
                }
            },
            None => None,
        }
    }

    /// The chokes filed under `(height, round)`; absent when no grid exists
    /// for that cell.
    pub fn get_signed_chokes(&self, height: Height, round: Round) -> (r: Option<Vec<SignedChoke>>)
        requires
            self.wf(),
        ensures
            match r {
                Some(v) => self@.dom().contains(height as int)
                    && self@[height as int].grids.dom().contains(round as int) && v@.map_values(
                    |x: SignedChoke| x@,
                ) == self@[height as int].grids[round as int].chokes,
                None => !(self@.dom().contains(height as int)
                    && self@[height as int].grids.dom().contains(round as int)),
            },
    {
        match find_key(&self.drawers, height) {
            Some(i) => {
                proof {
                    lemma_keyed_views_found(self.drawers@, i as int);
                }
                let d = &self.drawers[i].1;
                match find_key(&d.collectors, round) {
                    Some(j) => {
                        proof {
                            lemma_keyed_views_found(d.collectors@, j as int);
                        }
                        Some(d.collectors[j].1.get_signed_chokes())
                    },
                    None => None,
                }
            },
            None => None,
        }
    }

    /// Takes the whole height out of the store, returning its grids; the
    /// drawer is discarded.
    pub fn pop(&mut self, height: Height) -> (r: Option<Vec<Grid<B>>>)
        requires
            old(self).wf(),
        ensures
            final(self).wf(),
            final(self)@ == old(self)@.remove(height as int),
            match r {
                Some(v) => old(self)@.dom().contains(height as int) && v@.len() == old(
                    self,
                )@[height as int].grids.dom().len() && forall|i: int|
                    0 <= i < v@.len() ==> drawer_holds_grid(
                        old(self)@[height as int],
                        (#[trigger] v@[i])@,
                    ),
                None => !old(self)@.dom().contains(height as int),
            },
    {
        match find_key(&self.drawers, height) {
            Some(i) => {
                proof {
                    lemma_keyed_views_found(self.drawers@, i as int);
                    lemma_keyed_views_remove(self.drawers@, i as int);
                }
                proof {
                    assert(self.drawers@[i as int].1.wf());
                }
                let entry = self.drawers.remove(i);
                let mut drawer = entry.1;
                let ghost gseq = drawer.collectors@;
                proof {
                    assert(keys_unique(gseq));
                    lemma_keyed_views_dom_len(gseq);
                }
                let mut grids: Vec<Grid<B>> = Vec::new();
                while drawer.collectors.len() > 0
                    invariant
                        drawer.collectors@.len() <= gseq.len(),
                        drawer.collectors@ == gseq.take(drawer.collectors@.len() as int),
                        grids@.len() == gseq.len() - drawer.collectors@.len(),
                        forall|k: int|
                            0 <= k < grids@.len() ==> #[trigger] grids@[k] == gseq[gseq.len() - 1
                                - k].1,
                    decreases drawer.collectors@.len(),
                {
                    let ghost pre = drawer.collectors@;
                    let e = drawer.collectors.pop();
                    match e {
                        Some(x) => {
                            proof {
                                assert(x == pre.last());
                                assert(pre.drop_last() =~= gseq.take(pre.len() - 1));
                            }
                            grids.push(x.1);
                        },
                        None => {},
                    }
                }
                proof {
                    assert(grids@.len() == gseq.len());
                    assert(old(self)@[height as int].grids == keyed_views(gseq));
                    assert forall|k: int| 0 <= k < grids@.len() implies drawer_holds_grid(
                        old(self)@[height as int],
                        (#[trigger] grids@[k])@,
                    ) by {
                        let idx = gseq.len() - 1 - k;
                        lemma_keyed_views_found(gseq, idx);
                        assert(old(self)@[height as int].grids.dom().contains(gseq[idx].0 as int)
                            && old(self)@[height as int].grids[gseq[idx].0 as int] == grids@[k]@);
                    }
                }
                Some(grids)
            },
            None => {
                proof {
                    assert(self@ =~= old(self)@.remove(height as int));
                }
                None
            },
        }
    }

    /// Discards every drawer below `height`, keeping the rest unchanged.
    #[verifier::rlimit(30)]
    pub fn remove_below(&mut self, height: Height)
        requires
            old(self).wf(),
        ensures
            final(self).wf(),
            forall|h2: int|
                h2 >= height ==> (final(self)@.dom().contains(h2) <==> old(self)@.dom().contains(
                    h2,
                )),
            forall|h2: int|
                h2 >= height && old(self)@.dom().contains(h2) ==> final(self)@[h2] == old(
                    self,
                )@[h2],
            forall|h2: int| h2 < height ==> !final(self)@.dom().contains(h2),
    {
        let ghost s0 = self.drawers@;
        let mut kept: Vec<(u64, Drawer<B>)> = Vec::new();
        while self.drawers.len() > 0
            invariant
                keys_unique(s0),
                forall|i: int| 0 <= i < s0.len() ==> (#[trigger] s0[i].1).wf(),
                self.drawers@.len() <= s0.len(),
                self.drawers@ == s0.take(self.drawers@.len() as int),
                keys_unique(kept@),
                forall|j: int|
                    0 <= j < kept@.len() ==> (#[trigger] kept@[j]).0 >= height,
                forall|j: int|
                    0 <= j < kept@.len() ==> exists|k: int|
                        self.drawers@.len() <= k < s0.len() && s0[k] == #[trigger] kept@[j],
                forall|k: int|
                    self.drawers@.len() <= k < s0.len() && (#[trigger] s0[k]).0 >= height
                        ==> exists|j: int| 0 <= j < kept@.len() && kept@[j] == s0[k],
            decreases self.drawers@.len(),
        {
            let ghost pre = self.drawers@;
            let ghost kept0 = kept@;
            let e = self.drawers.pop();
            proof {
                assert(pre == s0.take(pre.len() as int));
                assert(pre[pre.len() - 1] == s0[pre.len() - 1]);
            }
            match e {
                Some(x) => {
                    proof {
                        assert(x == pre[pre.len() - 1]);
                        assert(pre.drop_last() =~= s0.take(pre.len() - 1));
                        assert(s0[pre.len() - 1] == x);
                    }
                    let ghost cur = self.drawers@.len() as int;
                    if x.0 >= height {
                        proof {
                            assert forall|j: int| 0 <= j < kept@.len() implies (
                            #[trigger] kept@[j]).0 != x.0 by {
                                let k = choose|k: int|
                                    cur + 1 <= k < s0.len() && s0[k] == kept@[j];
                                assert(s0[k].0 != s0[cur].0);
                            }
                        }
                        kept.push(x);
                        proof {
                            assert forall|k: int|
                                cur <= k < s0.len() && (#[trigger] s0[k]).0 >= height implies
                                exists|j: int| 0 <= j < kept@.len() && kept@[j] == s0[k] by {
                                if k == cur {
                                    assert(kept@[kept@.len() - 1] == s0[cur]);
                                } else {
                                    let j = choose|j: int|
                                        0 <= j < kept0.len() && kept0[j] == s0[k];
                                    assert(kept@[j] == s0[k]);
                                }
                            }
                            assert forall|j: int| 0 <= j < kept@.len() implies exists|k: int|
                                cur <= k < s0.len() && s0[k] == #[trigger] kept@[j] by {
                                if j < kept0.len() {
                                    let k = choose|k: int|
                                        cur + 1 <= k < s0.len() && s0[k] == kept0[j];
                                    assert(s0[k] == kept@[j]);
                                } else {
                                    assert(kept@[j] == s0[cur]);
                                }
                            }
                        }
                    } else {
                        proof {
                            assert forall|k: int|
                                cur <= k < s0.len() && (#[trigger] s0[k]).0 >= height implies
                                exists|j: int| 0 <= j < kept@.len() && kept@[j] == s0[k] by {
                                if k > cur {
                                    let j = choose|j: int|
                                        0 <= j < kept@.len() && kept@[j] == s0[k];
                                }
                            }
                        }
                    }
                },
                None => {},
            }
        }
        self.drawers = kept;
        proof {
            assert forall|h2: int|
                h2 >= height implies (self@.dom().contains(h2) <==> keyed_views(s0).dom().contains(
                    h2,
                )) by {
                if has_key(self.drawers@, h2) {
                    let j = choose|j: int|
                        0 <= j < self.drawers@.len() && self.drawers@[j].0 == h2;
                    let k = choose|k: int| 0 <= k < s0.len() && s0[k] == self.drawers@[j];
                    assert(s0[k].0 == h2);
                }
                if has_key(s0, h2) {
                    let k = choose|k: int| 0 <= k < s0.len() && s0[k].0 == h2;
                    assert(s0[k].0 >= height);
                    let j = choose|j: int|
                        0 <= j < self.drawers@.len() && self.drawers@[j] == s0[k];
                    assert(self.drawers@[j].0 == h2);
                }
            }
            assert forall|h2: int|
                h2 >= height && keyed_views(s0).dom().contains(h2) implies self@[h2]
                    == keyed_views(s0)[h2] by {
                let k = choose|k: int| 0 <= k < s0.len() && s0[k].0 == h2;
                lemma_keyed_views_found(s0, k);
                assert(s0[k].0 >= height);
                let j = choose|j: int| 0 <= j < self.drawers@.len() && self.drawers@[j] == s0[k];
                lemma_keyed_views_found(self.drawers@, j);
            }
            assert forall|h2: int| h2 < height implies !self@.dom().contains(h2) by {
                if has_key(self.drawers@, h2) {
                    let j = choose|j: int|
                        0 <= j < self.drawers@.len() && self.drawers@[j].0 == h2;
                }
            }
        }
    }
}

/// Finds the index of the pre-commit from `voter`, if one is filed.
fn find_pre_commit(votes: &Vec<SignedPreCommit>, voter: &Vec<u8>) -> (r: Option<usize>)
    ensures
        match r {
            Some(i) => i < votes@.len() && votes@[i as int]@.voter == voter@,
            None => forall|j: int| 0 <= j < votes@.len() ==> votes@[j]@.voter != voter@,
        },
{
    let n = votes.len();
    let mut i: usize = 0;
    while i < n
        invariant
            i <= n,
            votes@.len() == n,
            forall|j: int| 0 <= j < i ==> votes@[j]@.voter != voter@,
        decreases n - i,
    {
        if bytes_eq(&votes[i].voter, voter) {
            return Some(i);
        }
        i += 1;
    }
    None
}

/// Finds the index of the choke from `voter`, if one is filed.
fn find_choke(chokes: &Vec<SignedChoke>, voter: &Vec<u8>) -> (r: Option<usize>)
    ensures
        match r {
            Some(i) => i < chokes@.len() && chokes@[i as int]@.voter == voter@,
            None => forall|j: int| 0 <= j < chokes@.len() ==> chokes@[j]@.voter != voter@,
        },
{
    let n = chokes.len();
    let mut i: usize = 0;
    while i < n
        invariant
            i <= n,
            chokes@.len() == n,
            forall|j: int| 0 <= j < i ==> chokes@[j]@.voter != voter@,
        decreases n - i,
    {
        if bytes_eq(&chokes[i].voter, voter) {
            return Some(i);
        }
        i += 1;
    }
    None
}

} // verus!
