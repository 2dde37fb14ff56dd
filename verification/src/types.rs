//! Protocol data types: votes, chokes, quorum certificates and their
//! mathematical views.

use vstd::prelude::*;
use crate::{Address, Height, Round, Signature, Weight};
use crate::traits::Blk;

verus! {

/// Compares two byte strings for equality.
pub fn bytes_eq(a: &Vec<u8>, b: &Vec<u8>) -> (r: bool)
    ensures
        r == (a@ == b@),
{
    if a.len() != b.len() {
        return false;
    }
    let n = a.len();
    let mut i: usize = 0;
    while i < n
        invariant
            i <= n,
            a@.len() == n,
            b@.len() == n,
            forall|j: int| 0 <= j < i ==> a@[j] == b@[j],
        decreases n - i,
    {
        if a[i] != b[i] {
            return false;
        }
        i += 1;
    }
    proof {
        assert(a@ =~= b@);
    }
    true
}

/// The phase a signed message belongs to.
#[derive(Clone, Copy, Debug, PartialEq, Eq)]
pub enum VoteType {
    PreVote,
    PreCommit,
    Choke,
}

impl Default for VoteType {
    fn default() -> (r: Self)
        ensures
            r == VoteType::PreVote,
    {
        VoteType::PreVote
    }
}

impl VoteType {
    /// The wire tag of this phase.
    pub fn to_u8(self) -> (r: u8)
        ensures
            r == self.spec_tag(),
    {
        match self {
            VoteType::PreVote => 0,
            VoteType::PreCommit => 1,
            VoteType::Choke => 2,
        }
    }

    /// The phase a wire tag names; tags above 2 name none.
    pub fn from_u8(s: u8) -> (r: VoteType)
        requires
            s <= 2,
        ensures
            r.spec_tag() == s,
    {
        if s == 0 {
            VoteType::PreVote
        } else if s == 1 {
            VoteType::PreCommit
        } else {
            VoteType::Choke
        }
    }

    pub open spec fn spec_tag(self) -> u8 {
        match self {
            VoteType::PreVote => 0,
            VoteType::PreCommit => 1,
            VoteType::Choke => 2,
        }
    }
}

/// The mathematical content of a [`Vote`].
pub ghost struct VoteView {
    pub height: int,
    pub round: int,
    pub block_hash: Seq<u8>,
}

/// A vote for a block hash at a height and round; the empty hash signals
/// "no block this round".
#[derive(Clone, Debug, PartialEq, Eq)]
pub struct Vote {
    pub height: Height,
    pub round: Round,
    pub block_hash: crate::Hash,
}

impl View for Vote {
    type V = VoteView;

    open spec fn view(&self) -> VoteView {
        VoteView { height: self.height as int, round: self.round as int, block_hash: self.block_hash@ }
    }
}

impl Vote {
    pub fn new(height: Height, round: Round, block_hash: crate::Hash) -> (r: Self)
        ensures
            r@ == (VoteView { height: height as int, round: round as int, block_hash: block_hash@ }),
    {
        Vote { height, round, block_hash }
    }

    /// The vote that endorses no block at `(height, round)`.
    pub fn empty_vote(height: Height, round: Round) -> (r: Vote)
        ensures
            r@ == (VoteView { height: height as int, round: round as int, block_hash: Seq::empty() }),
            r@.block_hash.len() == 0,
    {
        Vote { height, round, block_hash: Vec::new() }
    }

    /// Whether this vote endorses no block.
    pub fn is_empty_vote(&self) -> (r: bool)
        ensures
            r == (self@.block_hash.len() == 0),
    {
        self.block_hash.len() == 0
    }
}

/// Compares two votes by content.
pub fn vote_eq(a: &Vote, b: &Vote) -> (r: bool)
    ensures
        r == (a@ == b@),
{
    a.height == b.height && a.round == b.round && bytes_eq(&a.block_hash, &b.block_hash)
}

/// The mathematical content of a signed vote, shared by pre-votes and
/// pre-commits.
pub ghost struct SignedVoteView {
    pub vote: VoteView,
    pub vote_weight: int,
    pub voter: Seq<u8>,
    pub signature: Seq<u8>,
}

/// A pre-vote carrying the voter's address, weight and signature.
#[derive(Clone, Debug, PartialEq, Eq)]
pub struct SignedPreVote {
    pub vote: Vote,
    pub vote_weight: Weight,
    pub voter: Address,
    pub signature: Signature,
}

impl View for SignedPreVote {
    type V = SignedVoteView;

    open spec fn view(&self) -> SignedVoteView {
        SignedVoteView {
            vote: self.vote@,
            vote_weight: self.vote_weight as int,
            voter: self.voter@,
            signature: self.signature@,
        }
    }
}

impl SignedPreVote {
    pub fn new(vote: Vote, vote_weight: Weight, voter: Address, signature: Signature) -> (r: Self)
        ensures
            r@ == (SignedVoteView {
                vote: vote@,
                vote_weight: vote_weight as int,
                voter: voter@,
                signature: signature@,
            }),
    {
        SignedPreVote { vote, vote_weight, voter, signature }
    }
}

/// A pre-commit carrying the voter's address, weight and signature.
#[derive(Clone, Debug, PartialEq, Eq)]
pub struct SignedPreCommit {
    pub vote: Vote,
    pub vote_weight: Weight,
    pub voter: Address,
    pub signature: Signature,
}

impl View for SignedPreCommit {
    type V = SignedVoteView;

    open spec fn view(&self) -> SignedVoteView {
        SignedVoteView {
            vote: self.vote@,
            vote_weight: self.vote_weight as int,
            voter: self.voter@,
            signature: self.signature@,
        }
    }
}

impl SignedPreCommit {
    pub fn new(vote: Vote, vote_weight: Weight, voter: Address, signature: Signature) -> (r: Self)
        ensures
            r@ == (SignedVoteView {
                vote: vote@,
                vote_weight: vote_weight as int,
                voter: voter@,
                signature: signature@,
            }),
    {
        SignedPreCommit { vote, vote_weight, voter, signature }
    }
}

/// Compares two signed pre-votes by content.
pub fn signed_pre_vote_eq(a: &SignedPreVote, b: &SignedPreVote) -> (r: bool)
    ensures
        r == (a@ == b@),
{
    a.vote_weight == b.vote_weight && vote_eq(&a.vote, &b.vote) && bytes_eq(&a.voter, &b.voter)
        && bytes_eq(&a.signature, &b.signature)
}

/// Compares two signed pre-commits by content.
pub fn signed_pre_commit_eq(a: &SignedPreCommit, b: &SignedPreCommit) -> (r: bool)
    ensures
        r == (a@ == b@),
{
    a.vote_weight == b.vote_weight && vote_eq(&a.vote, &b.vote) && bytes_eq(&a.voter, &b.voter)
        && bytes_eq(&a.signature, &b.signature)
}

/// The mathematical content of a [`Choke`].
pub ghost struct ChokeView {
    pub height: int,
    pub round: int,
}

/// A request to abandon a round.
#[derive(Clone, Debug, PartialEq, Eq)]
pub struct Choke {
    pub height: Height,
    pub round: Round,
}

impl View for Choke {
    type V = ChokeView;

    open spec fn view(&self) -> ChokeView {
        ChokeView { height: self.height as int, round: self.round as int }
    }
}

impl Choke {
    pub fn new(height: Height, round: Round) -> (r: Self)
        ensures
            r@ == (ChokeView { height: height as int, round: round as int }),
    {
        Choke { height, round }
    }
}

/// The mathematical content of an [`Aggregates`].
pub ghost struct AggregatesView {
    pub address_bitmap: Seq<u8>,
    pub signature: Seq<u8>,
}

/// A voter-set bitmap, positional against the sorted authority list, with one
/// aggregate signature over all the votes it covers.
#[derive(Clone, Debug, PartialEq, Eq)]
pub struct Aggregates {
    pub address_bitmap: Vec<u8>,
    pub signature: Signature,
}

impl View for Aggregates {
    type V = AggregatesView;

    open spec fn view(&self) -> AggregatesView {
        AggregatesView { address_bitmap: self.address_bitmap@, signature: self.signature@ }
    }
}

impl Aggregates {
    pub fn new(address_bitmap: Vec<u8>, signature: Signature) -> (r: Self)
        ensures
            r@ == (AggregatesView { address_bitmap: address_bitmap@, signature: signature@ }),
    {
        Aggregates { address_bitmap, signature }
    }
}

/// Compares two aggregates by content.
pub fn aggregates_eq(a: &Aggregates, b: &Aggregates) -> (r: bool)
    ensures
        r == (a@ == b@),
{
    bytes_eq(&a.address_bitmap, &b.address_bitmap) && bytes_eq(&a.signature, &b.signature)
}

/// The mathematical content of a [`PreVoteQC`] or a [`PreCommitQC`].
pub ghost struct QcView {
    pub vote: VoteView,
    pub aggregates: AggregatesView,
}

/// A quorum certificate over pre-votes: the vote plus the aggregate evidence
/// that voters of threshold weight cast it.
#[derive(Clone, Debug, PartialEq, Eq)]
pub struct PreVoteQC {
    pub vote: Vote,
    pub aggregates: Aggregates,
}

impl View for PreVoteQC {
    type V = QcView;

    open spec fn view(&self) -> QcView {
        QcView { vote: self.vote@, aggregates: self.aggregates@ }
    }
}

impl PreVoteQC {
    pub fn new(vote: Vote, aggregates: Aggregates) -> (r: Self)
        ensures
            r@ == (QcView { vote: vote@, aggregates: aggregates@ }),
    {
        PreVoteQC { vote, aggregates }
    }
}

/// A quorum certificate over pre-commits; attached to a block it proves the
/// commit of the block's predecessor.
#[derive(Clone, Debug, PartialEq, Eq)]
pub struct PreCommitQC {
    pub vote: Vote,
    pub aggregates: Aggregates,
}

impl View for PreCommitQC {
    type V = QcView;

    open spec fn view(&self) -> QcView {
        QcView { vote: self.vote@, aggregates: self.aggregates@ }
    }
}

impl PreCommitQC {
    pub fn new(vote: Vote, aggregates: Aggregates) -> (r: Self)
        ensures
            r@ == (QcView { vote: vote@, aggregates: aggregates@ }),
    {
        PreCommitQC { vote, aggregates }
    }
}

/// Compares two pre-vote certificates by content.
pub fn pre_vote_qc_eq(a: &PreVoteQC, b: &PreVoteQC) -> (r: bool)
    ensures
        r == (a@ == b@),
{
    vote_eq(&a.vote, &b.vote) && aggregates_eq(&a.aggregates, &b.aggregates)
}

/// Compares two pre-commit certificates by content.
pub fn pre_commit_qc_eq(a: &PreCommitQC, b: &PreCommitQC) -> (r: bool)
    ensures
        r == (a@ == b@),
{
    vote_eq(&a.vote, &b.vote) && aggregates_eq(&a.aggregates, &b.aggregates)
}

/// The mathematical content of a [`ChokeQC`].
pub ghost struct ChokeQcView {
    pub choke: ChokeView,
    pub aggregates: AggregatesView,
}

/// A quorum certificate over chokes: threshold weight asked to leave the round.
#[derive(Clone, Debug, PartialEq, Eq)]
pub struct ChokeQC {
    pub choke: Choke,
    pub aggregates: Aggregates,
}

impl View for ChokeQC {
    type V = ChokeQcView;

    open spec fn view(&self) -> ChokeQcView {
        ChokeQcView { choke: self.choke@, aggregates: self.aggregates@ }
    }
}

impl ChokeQC {
    pub fn new(choke: Choke, aggregates: Aggregates) -> (r: Self)
        ensures
            r@ == (ChokeQcView { choke: choke@, aggregates: aggregates@ }),
    {
        ChokeQC { choke, aggregates }
    }
}

/// Compares two choke certificates by content.
pub fn choke_qc_eq(a: &ChokeQC, b: &ChokeQC) -> (r: bool)
    ensures
        r == (a@ == b@),
{
    a.choke.height == b.choke.height && a.choke.round == b.choke.round
        && aggregates_eq(&a.aggregates, &b.aggregates)
}

/// The mathematical content of an [`UpdateFrom`].
pub ghost enum UpdateFromView {
    PreVoteQC(QcView),
    PreCommitQC(QcView),
    ChokeQC(ChokeQcView),
}

/// A certificate from a higher round, carried in a choke to bump a lagging
/// peer.
#[derive(Clone, Debug, PartialEq, Eq)]
pub enum UpdateFrom {
    PreVoteQC(PreVoteQC),
    PreCommitQC(PreCommitQC),
    ChokeQC(ChokeQC),
}

impl View for UpdateFrom {
    type V = UpdateFromView;

    open spec fn view(&self) -> UpdateFromView {
        match self {
            UpdateFrom::PreVoteQC(qc) => UpdateFromView::PreVoteQC(qc@),
            UpdateFrom::PreCommitQC(qc) => UpdateFromView::PreCommitQC(qc@),
            UpdateFrom::ChokeQC(qc) => UpdateFromView::ChokeQC(qc@),
        }
    }
}

impl Default for UpdateFrom {
    fn default() -> (r: Self)
        ensures
            r matches UpdateFrom::PreVoteQC(_),
    {
        UpdateFrom::PreVoteQC(PreVoteQC::default())
    }
}

/// Compares two update sources by content.
pub fn update_from_eq(a: &UpdateFrom, b: &UpdateFrom) -> (r: bool)
    ensures
        r == (a@ == b@),
{
    match (a, b) {
        (UpdateFrom::PreVoteQC(x), UpdateFrom::PreVoteQC(y)) => pre_vote_qc_eq(x, y),
        (UpdateFrom::PreCommitQC(x), UpdateFrom::PreCommitQC(y)) => pre_commit_qc_eq(x, y),
        (UpdateFrom::ChokeQC(x), UpdateFrom::ChokeQC(y)) => choke_qc_eq(x, y),
        _ => false,
    }
}

/// The mathematical content of a [`SignedChoke`].
pub ghost struct SignedChokeView {
    pub choke: ChokeView,
    pub vote_weight: int,
    pub from: Option<UpdateFromView>,
    pub voter: Seq<u8>,
    pub signature: Seq<u8>,
}

/// A signed choke, optionally carrying a certificate from a higher round.
#[derive(Clone, Debug, PartialEq, Eq)]
pub struct SignedChoke {
    pub choke: Choke,
    pub vote_weight: Weight,
    pub from: Option<UpdateFrom>,
    pub voter: Address,
    pub signature: Signature,
}

/// The view of an optional update source.
pub open spec fn opt_update_from_view(o: Option<UpdateFrom>) -> Option<UpdateFromView> {
    match o {
        Some(u) => Some(u@),
        None => None,
    }
}

impl View for SignedChoke {
    type V = SignedChokeView;

    open spec fn view(&self) -> SignedChokeView {
        SignedChokeView {
            choke: self.choke@,
            vote_weight: self.vote_weight as int,
            from: opt_update_from_view(self.from),
            voter: self.voter@,
            signature: self.signature@,
        }
    }
}

impl SignedChoke {
    pub fn new(
        choke: Choke,
        vote_weight: Weight,
        from: Option<UpdateFrom>,
        voter: Address,
        signature: Signature,
    ) -> (r: Self)
        ensures
            r@ == (SignedChokeView {
                choke: choke@,
                vote_weight: vote_weight as int,
                from: opt_update_from_view(from),
                voter: voter@,
                signature: signature@,
            }),
    {
        SignedChoke { choke, vote_weight, from, voter, signature }
    }
}

/// Compares two signed chokes by content.
pub fn signed_choke_eq(a: &SignedChoke, b: &SignedChoke) -> (r: bool)
    ensures
        r == (a@ == b@),
{
    let from_same = match (&a.from, &b.from) {
        (Some(x), Some(y)) => update_from_eq(x, y),
        (None, None) => true,
        _ => false,
    };
    a.choke.height == b.choke.height && a.choke.round == b.choke.round
        && a.vote_weight == b.vote_weight && from_same && bytes_eq(&a.voter, &b.voter)
        && bytes_eq(&a.signature, &b.signature)
}

/// The mathematical content of a [`CumWeight`].
pub ghost struct CumWeightView {
    pub cum_weight: int,
    pub vote_type: VoteType,
    pub round: int,
    pub block_hash: Option<Seq<u8>>,
}

/// The cumulative vote weight the store has seen for one phase: the heaviest
/// (round, hash) cell, or the choke total.
#[derive(Clone, Debug, PartialEq, Eq)]
pub struct CumWeight {
    pub cum_weight: Weight,
    pub vote_type: VoteType,
    pub round: Round,
    pub block_hash: Option<crate::Hash>,
}

/// The view of an optional byte string.
pub open spec fn opt_bytes_view(o: Option<Vec<u8>>) -> Option<Seq<u8>> {
    match o {
        Some(b) => Some(b@),
        None => None,
    }
}

impl View for CumWeight {
    type V = CumWeightView;

    open spec fn view(&self) -> CumWeightView {
        CumWeightView {
            cum_weight: self.cum_weight as int,
            vote_type: self.vote_type,
            round: self.round as int,
            block_hash: opt_bytes_view(self.block_hash),
        }
    }
}

impl CumWeight {
    pub fn new(
        cum_weight: Weight,
        vote_type: VoteType,
        round: Round,
        block_hash: Option<crate::Hash>,
    ) -> (r: Self)
        ensures
            r@ == (CumWeightView {
                cum_weight: cum_weight as int,
                vote_type: vote_type,
                round: round as int,
                block_hash: opt_bytes_view(block_hash),
            }),
    {
        CumWeight { cum_weight, vote_type, round, block_hash }
    }
}

/// The mathematical content of a [`Node`].
pub ghost struct NodeView {
    pub address: Seq<u8>,
    pub pub_key: Seq<char>,
    pub propose_weight: int,
    pub vote_weight: int,
}

/// One authority: its address, public key and weights.
#[derive(Clone, Debug, Default, PartialEq, Eq)]
pub struct Node {
    pub address: Address,
    pub pub_key: String,
    pub propose_weight: Weight,
    pub vote_weight: Weight,
}

impl View for Node {
    type V = NodeView;

    open spec fn view(&self) -> NodeView {
        NodeView {
            address: self.address@,
            pub_key: self.pub_key@,
            propose_weight: self.propose_weight as int,
            vote_weight: self.vote_weight as int,
        }
    }
}

impl Node {
    pub fn new(
        address: Address,
        pub_key: String,
        propose_weight: Weight,
        vote_weight: Weight,
    ) -> (r: Self)
        ensures
            r@ == (NodeView {
                address: address@,
                pub_key: pub_key@,
                propose_weight: propose_weight as int,
                vote_weight: vote_weight as int,
            }),
    {
        Node { address, pub_key, propose_weight, vote_weight }
    }
}

/// How the proposer of a round is selected.
#[derive(Clone, Copy, Debug, PartialEq, Eq)]
pub enum SelectMode {
    InTurn,
    Random,
}

impl Default for SelectMode {
    fn default() -> (r: Self)
        ensures
            r == SelectMode::InTurn,
    {
        SelectMode::InTurn
    }
}

/// The authority configuration for a height: a common reference string, the
/// selection mode and the authority list.
#[derive(Clone, Debug, Default)]
pub struct AuthConfig {
    pub common_ref: String,
    pub mode: SelectMode,
    pub auth_list: Vec<Node>,
}

/// Timeout configuration: a base interval and per-phase ratios in tenths.
#[derive(Clone, Copy, Debug, PartialEq, Eq)]
pub struct TimeConfig {
    pub interval: u64,
    pub propose_ratio: u64,
    pub pre_vote_ratio: u64,
    pub pre_commit_ratio: u64,
    pub brake_ratio: u64,
}

impl Default for TimeConfig {
    /// The nominal defaults: a three-second interval and ratios 15/10/7/10.
    fn default() -> (r: TimeConfig)
        ensures
            r.interval == 3000,
            r.propose_ratio == 15,
            r.pre_vote_ratio == 10,
            r.pre_commit_ratio == 7,
            r.brake_ratio == 10,
    {
        TimeConfig {
            interval: 3000,
            propose_ratio: 15,
            pre_vote_ratio: 10,
            pre_commit_ratio: 7,
            brake_ratio: 10,
        }
    }
}

/// The whole consensus configuration.
#[derive(Clone, Debug, Default)]
pub struct OverlordConfig {
    pub max_exec_behind: u64,
    pub auth_config: AuthConfig,
    pub time_config: TimeConfig,
}

/// A height announcement, used by lagging peers to notice they are behind.
#[derive(Clone, Debug, Default, PartialEq, Eq)]
pub struct SignedHeight {
    pub height: Height,
    pub address: Address,
    pub signature: Signature,
}

/// A request for the committed blocks in a height range.
#[derive(Clone, Debug, Default, PartialEq, Eq)]
pub struct SyncRequest {
    pub request_id: crate::Hash,
    pub request_range: HeightRange,
    pub requester: Address,
    pub signature: Signature,
}

/// A half-open request window of heights.
#[derive(Clone, Copy, Debug, Default, PartialEq, Eq)]
pub struct HeightRange {
    pub from: Height,
    pub to: Height,
}

impl HeightRange {
    pub fn new(start: Height, number: u64) -> (r: Self)
        requires
            start + number <= u64::MAX,
        ensures
            r.from == start,
            r.to == start + number,
    {
        HeightRange { from: start, to: start + number }
    }
}

/// A full block fetched from the network, with the hash it was requested by.
#[derive(Clone, Debug, Default, PartialEq, Eq)]
pub struct FetchedFullBlock {
    pub height: Height,
    pub block_hash: crate::Hash,
    pub full_block: Vec<u8>,
}

impl FetchedFullBlock {
    pub fn new(height: Height, block_hash: crate::Hash, full_block: Vec<u8>) -> (r: Self)
        ensures
            r.height == height,
            r.block_hash@ == block_hash@,
            r.full_block@ == full_block@,
    {
        FetchedFullBlock { height, block_hash, full_block }
    }
}

/// The state the executor reports for a height.
#[derive(Clone, Debug, Default)]
pub struct BlockState<S> {
    pub height: Height,
    pub state: S,
}

impl<S> BlockState<S> {
    pub fn new(height: Height, state: S) -> (r: Self)
        ensures
            r.height == height,
    {
        BlockState { height, state }
    }
}

/// What executing a block returns: the next consensus configuration and the
/// resulting block state.
#[derive(Clone, Debug, Default)]
pub struct ExecResult<S> {
    pub consensus_config: OverlordConfig,
    pub block_states: BlockState<S>,
}


/// The view of the all-empty vote.
pub open spec fn default_vote_view() -> VoteView {
    VoteView { height: 0, round: 0, block_hash: Seq::empty() }
}

impl Default for Vote {
    fn default() -> (r: Self)
        ensures
            r@ == default_vote_view(),
    {
        Vote { height: 0, round: 0, block_hash: Vec::new() }
    }
}

impl Default for SignedPreVote {
    fn default() -> (r: Self)
        ensures
            r@ == (SignedVoteView {
                vote: default_vote_view(),
                vote_weight: 0,
                voter: Seq::<u8>::empty(),
                signature: Seq::<u8>::empty(),
            }),
    {
        SignedPreVote { vote: Vote::default(), vote_weight: 0, voter: Vec::new(), signature: Vec::new() }
    }
}

impl Default for SignedPreCommit {
    fn default() -> (r: Self)
        ensures
            r@ == (SignedVoteView {
                vote: default_vote_view(),
                vote_weight: 0,
                voter: Seq::<u8>::empty(),
                signature: Seq::<u8>::empty(),
            }),
    {
        SignedPreCommit { vote: Vote::default(), vote_weight: 0, voter: Vec::new(), signature: Vec::new() }
    }
}

impl Default for Choke {
    fn default() -> (r: Self)
        ensures
            r@ == (ChokeView { height: 0, round: 0 }),
    {
        Choke { height: 0, round: 0 }
    }
}

/// The view of the empty aggregate.
pub open spec fn default_aggregates_view() -> AggregatesView {
    AggregatesView { address_bitmap: Seq::empty(), signature: Seq::empty() }
}

impl Default for Aggregates {
    fn default() -> (r: Self)
        ensures
            r@ == default_aggregates_view(),
    {
        Aggregates { address_bitmap: Vec::new(), signature: Vec::new() }
    }
}

impl Default for PreVoteQC {
    fn default() -> (r: Self)
        ensures
            r@ == (QcView { vote: default_vote_view(), aggregates: default_aggregates_view() }),
    {
        PreVoteQC { vote: Vote::default(), aggregates: Aggregates::default() }
    }
}

impl Default for PreCommitQC {
    fn default() -> (r: Self)
        ensures
            r@ == (QcView { vote: default_vote_view(), aggregates: default_aggregates_view() }),
    {
        PreCommitQC { vote: Vote::default(), aggregates: Aggregates::default() }
    }
}

impl Default for ChokeQC {
    fn default() -> (r: Self)
        ensures
            r@ == (ChokeQcView {
                choke: ChokeView { height: 0, round: 0 },
                aggregates: default_aggregates_view(),
            }),
    {
        ChokeQC { choke: Choke::default(), aggregates: Aggregates::default() }
    }
}

impl Default for SignedChoke {
    fn default() -> (r: Self)
        ensures
            r@ == (SignedChokeView {
                choke: ChokeView { height: 0, round: 0 },
                vote_weight: 0,
                from: None,
                voter: Seq::<u8>::empty(),
                signature: Seq::<u8>::empty(),
            }),
    {
        SignedChoke {
            choke: Choke::default(),
            vote_weight: 0,
            from: None,
            voter: Vec::new(),
            signature: Vec::new(),
        }
    }
}

impl Default for CumWeight {
    fn default() -> (r: Self)
        ensures
            r@ == (CumWeightView {
                cum_weight: 0,
                vote_type: VoteType::PreVote,
                round: 0,
                block_hash: None,
            }),
    {
        CumWeight { cum_weight: 0, vote_type: VoteType::PreVote, round: 0, block_hash: None }
    }
}


/// The view of an optional pre-vote certificate.
pub open spec fn opt_qc_view(o: Option<PreVoteQC>) -> Option<QcView> {
    match o {
        Some(qc) => Some(qc@),
        None => None,
    }
}

/// The mathematical content of a [`Proposal`].
pub ghost struct ProposalView {
    pub height: int,
    pub round: int,
    pub block_repr: Seq<u8>,
    pub block_hash: Seq<u8>,
    pub lock: Option<QcView>,
    pub proposer: Seq<u8>,
}

/// A proposed block for a round, optionally carrying the pre-vote certificate
/// ("polka") that locked the proposer onto it.
#[derive(Debug, PartialEq, Eq)]
pub struct Proposal<B: Blk> {
    pub height: Height,
    pub round: Round,
    pub block: B,
    pub block_hash: crate::Hash,
    pub lock: Option<PreVoteQC>,
    pub proposer: Address,
}

impl<B: Blk> View for Proposal<B> {
    type V = ProposalView;

    open spec fn view(&self) -> ProposalView {
        ProposalView {
            height: self.height as int,
            round: self.round as int,
            block_repr: self.block.repr(),
            block_hash: self.block_hash@,
            lock: opt_qc_view(self.lock),
            proposer: self.proposer@,
        }
    }
}

impl<B: Blk> Proposal<B> {
    pub fn new(
        height: Height,
        round: Round,
        block: B,
        block_hash: crate::Hash,
        lock: Option<PreVoteQC>,
        proposer: Address,
    ) -> (r: Self)
        ensures
            r@ == (ProposalView {
                height: height as int,
                round: round as int,
                block_repr: block.repr(),
                block_hash: block_hash@,
                lock: opt_qc_view(lock),
                proposer: proposer@,
            }),
    {
        Proposal { height, round, block, block_hash, lock, proposer }
    }

    /// The vote this proposal asks for.
    pub fn as_vote(&self) -> (r: Vote)
        ensures
            r@ == (VoteView {
                height: self@.height,
                round: self@.round,
                block_hash: self@.block_hash,
            }),
    {
        Vote {
            height: self.height,
            round: self.round,
            block_hash: clone_bytes(&self.block_hash),
        }
    }

    /// Clones the proposal.
    pub fn duplicate(&self) -> (r: Self)
        ensures
            r@ == self@,
    {
        Proposal {
            height: self.height,
            round: self.round,
            block: self.block.blk_clone(),
            block_hash: clone_bytes(&self.block_hash),
            lock: match &self.lock {
                Some(qc) => Some(qc.duplicate()),
                None => None,
            },
            proposer: clone_bytes(&self.proposer),
        }
    }
}

/// Clones a byte string.
pub fn clone_bytes(a: &Vec<u8>) -> (r: Vec<u8>)
    ensures
        r@ == a@,
{
    let mut out: Vec<u8> = Vec::new();
    let n = a.len();
    let mut i: usize = 0;
    while i < n
        invariant
            i <= n,
            a@.len() == n,
            out@ == a@.subrange(0, i as int),
        decreases n - i,
    {
        out.push(a[i]);
        proof {
            assert(out@ =~= a@.subrange(0, i + 1 as int));
        }
        i += 1;
    }
    proof {
        assert(out@ =~= a@);
    }
    out
}

/// Compares two optional pre-vote certificates by content.
pub fn opt_pre_vote_qc_eq(a: &Option<PreVoteQC>, b: &Option<PreVoteQC>) -> (r: bool)
    ensures
        r == (opt_qc_view(*a) == opt_qc_view(*b)),
{
    match (a, b) {
        (Some(x), Some(y)) => pre_vote_qc_eq(x, y),
        (None, None) => true,
        _ => false,
    }
}

/// Compares two proposals by content.
pub fn proposal_eq<B: Blk>(a: &Proposal<B>, b: &Proposal<B>) -> (r: bool)
    ensures
        r == (a@ == b@),
{
    a.height == b.height && a.round == b.round && a.block.blk_eq(&b.block)
        && bytes_eq(&a.block_hash, &b.block_hash) && opt_pre_vote_qc_eq(&a.lock, &b.lock)
        && bytes_eq(&a.proposer, &b.proposer)
}

/// The mathematical content of a [`SignedProposal`].
pub ghost struct SignedProposalView {
    pub proposal: ProposalView,
    pub signature: Seq<u8>,
}

/// A proposal under the proposer's signature.
#[derive(Debug, PartialEq, Eq)]
pub struct SignedProposal<B: Blk> {
    pub proposal: Proposal<B>,
    pub signature: Signature,
}

impl<B: Blk> View for SignedProposal<B> {
    type V = SignedProposalView;

    open spec fn view(&self) -> SignedProposalView {
        SignedProposalView { proposal: self.proposal@, signature: self.signature@ }
    }
}

impl<B: Blk> SignedProposal<B> {
    pub fn new(proposal: Proposal<B>, signature: Signature) -> (r: Self)
        ensures
            r@ == (SignedProposalView { proposal: proposal@, signature: signature@ }),
    {
        SignedProposal { proposal, signature }
    }

    /// Clones the signed proposal.
    pub fn duplicate(&self) -> (r: Self)
        ensures
            r@ == self@,
    {
        SignedProposal {
            proposal: self.proposal.duplicate(),
            signature: clone_bytes(&self.signature),
        }
    }
}

/// Compares two signed proposals by content.
pub fn signed_proposal_eq<B: Blk>(a: &SignedProposal<B>, b: &SignedProposal<B>) -> (r: bool)
    ensures
        r == (a@ == b@),
{
    proposal_eq(&a.proposal, &b.proposal) && bytes_eq(&a.signature, &b.signature)
}

/// A reply to a sync request: the committed blocks with their proofs.
#[derive(Debug)]
pub struct SyncResponse<B: Blk> {
    pub request_id: crate::Hash,
    pub block_with_proofs: Vec<(B, PreCommitQC)>,
    pub responder: Address,
    pub signature: Signature,
}

/// Every message the engine sends or receives over the wire.
#[derive(Debug)]
pub enum OverlordMsg<B: Blk> {
    SignedProposal(SignedProposal<B>),
    SignedPreVote(SignedPreVote),
    SignedPreCommit(SignedPreCommit),
    PreVoteQC(PreVoteQC),
    PreCommitQC(PreCommitQC),
    SignedChoke(SignedChoke),
    SignedHeight(SignedHeight),
    SyncRequest(SyncRequest),
    SyncResponse(SyncResponse<B>),
    Stop,
}


impl Vote {
    /// Clones the vote.
    pub fn duplicate(&self) -> (r: Self)
        ensures
            r@ == self@,
    {
        Vote { height: self.height, round: self.round, block_hash: clone_bytes(&self.block_hash) }
    }
}

impl Aggregates {
    /// Clones the aggregate.
    pub fn duplicate(&self) -> (r: Self)
        ensures
            r@ == self@,
    {
        Aggregates {
            address_bitmap: clone_bytes(&self.address_bitmap),
            signature: clone_bytes(&self.signature),
        }
    }
}

impl PreVoteQC {
    /// Clones the certificate.
    pub fn duplicate(&self) -> (r: Self)
        ensures
            r@ == self@,
    {
        PreVoteQC { vote: self.vote.duplicate(), aggregates: self.aggregates.duplicate() }
    }
}

impl PreCommitQC {
    /// Clones the certificate.
    pub fn duplicate(&self) -> (r: Self)
        ensures
            r@ == self@,
    {
        PreCommitQC { vote: self.vote.duplicate(), aggregates: self.aggregates.duplicate() }
    }
}

impl ChokeQC {
    /// Clones the certificate.
    pub fn duplicate(&self) -> (r: Self)
        ensures
            r@ == self@,
    {
        ChokeQC {
            choke: Choke { height: self.choke.height, round: self.choke.round },
            aggregates: self.aggregates.duplicate(),
        }
    }
}

impl UpdateFrom {
    /// Clones the update source.
    pub fn duplicate(&self) -> (r: Self)
        ensures
            r@ == self@,
    {
        match self {
            UpdateFrom::PreVoteQC(qc) => UpdateFrom::PreVoteQC(qc.duplicate()),
            UpdateFrom::PreCommitQC(qc) => UpdateFrom::PreCommitQC(qc.duplicate()),
            UpdateFrom::ChokeQC(qc) => UpdateFrom::ChokeQC(qc.duplicate()),
        }
    }
}

impl SignedPreVote {
    /// Clones the signed pre-vote.
    pub fn duplicate(&self) -> (r: Self)
        ensures
            r@ == self@,
    {
        SignedPreVote {
            vote: self.vote.duplicate(),
            vote_weight: self.vote_weight,
            voter: clone_bytes(&self.voter),
            signature: clone_bytes(&self.signature),
        }
    }
}

impl SignedPreCommit {
    /// Clones the signed pre-commit.
    pub fn duplicate(&self) -> (r: Self)
        ensures
            r@ == self@,
    {
        SignedPreCommit {
            vote: self.vote.duplicate(),
            vote_weight: self.vote_weight,
            voter: clone_bytes(&self.voter),
            signature: clone_bytes(&self.signature),
        }
    }
}

impl SignedChoke {
    /// Clones the signed choke.
    pub fn duplicate(&self) -> (r: Self)
        ensures
            r@ == self@,
    {
        SignedChoke {
            choke: Choke { height: self.choke.height, round: self.choke.round },
            vote_weight: self.vote_weight,
            from: match &self.from {
                Some(u) => Some(u.duplicate()),
                None => None,
            },
            voter: clone_bytes(&self.voter),
            signature: clone_bytes(&self.signature),
        }
    }
}

impl CumWeight {
    /// Clones the cumulative weight report.
    pub fn duplicate(&self) -> (r: Self)
        ensures
            r@ == self@,
    {
        CumWeight {
            cum_weight: self.cum_weight,
            vote_type: self.vote_type,
            round: self.round,
            block_hash: match &self.block_hash {
                Some(h) => Some(clone_bytes(h)),
                None => None,
            },
        }
    }
}


/// The mathematical content of a [`TestBlock`].
pub ghost struct TestBlockView {
    pub pre_hash: Seq<u8>,
    pub height: int,
    pub exec_height: int,
    pub pre_proof: QcView,
}

/// A minimal block for exercising the engine: its predecessor's hash and
/// proof, its height, and the executed height at creation.
#[derive(Clone, Debug, PartialEq, Eq)]
pub struct TestBlock {
    pub pre_hash: crate::Hash,
    pub height: Height,
    pub exec_height: Height,
    pub pre_proof: PreCommitQC,
}

impl View for TestBlock {
    type V = TestBlockView;

    open spec fn view(&self) -> TestBlockView {
        TestBlockView {
            pre_hash: self.pre_hash@,
            height: self.height as int,
            exec_height: self.exec_height as int,
            pre_proof: self.pre_proof@,
        }
    }
}

/// The view of the genesis block.
pub open spec fn genesis_block_view() -> TestBlockView {
    TestBlockView {
        pre_hash: Seq::empty(),
        height: 0,
        exec_height: 0,
        pre_proof: QcView { vote: default_vote_view(), aggregates: default_aggregates_view() },
    }
}

impl TestBlock {
    /// The block below height one.
    pub fn genesis_block() -> (r: Self)
        ensures
            r@ == genesis_block_view(),
    {
        TestBlock {
            pre_hash: Vec::new(),
            height: 0,
            exec_height: 0,
            pre_proof: PreCommitQC::default(),
        }
    }
}

impl Default for TestBlock {
    fn default() -> (r: Self)
        ensures
            r@ == genesis_block_view(),
    {
        TestBlock::genesis_block()
    }
}

/// The lower-case hex digit for a nibble.
pub open spec fn hex_char(n: int) -> char {
    if n == 0 { '0' } else if n == 1 { '1' } else if n == 2 { '2' } else if n == 3 { '3' }
    else if n == 4 { '4' } else if n == 5 { '5' } else if n == 6 { '6' } else if n == 7 { '7' }
    else if n == 8 { '8' } else if n == 9 { '9' } else if n == 10 { 'a' } else if n == 11 { 'b' }
    else if n == 12 { 'c' } else if n == 13 { 'd' } else if n == 14 { 'e' } else { 'f' }
}

/// The short hex rendering of a byte string: the first four bytes, two digits
/// each.
pub open spec fn tiny_hex_of(s: Seq<u8>) -> Seq<char>
    decreases s.len(),
{
    if s.len() == 0 {
        Seq::empty()
    } else if s.len() > 4 {
        tiny_hex_of(s.take(4))
    } else {
        tiny_hex_of(s.drop_last()) + seq![
            hex_char(s.last() as int / 16),
            hex_char(s.last() as int % 16),
        ]
    }
}

/// A short, human-readable hex tag for logs.
pub trait TinyHex {
    /// Renders the first four bytes as eight lower-case hex digits.
    fn tiny_hex(&self) -> String;
}

/// Appends one hex digit.
fn push_hex_char(out: &mut String, n: u8)
    requires
        n < 16,
    ensures
        final(out)@ == old(out)@ + seq![hex_char(n as int)],
{
    proof {
        reveal_strlit("0");
        reveal_strlit("1");
        reveal_strlit("2");
        reveal_strlit("3");
        reveal_strlit("4");
        reveal_strlit("5");
        reveal_strlit("6");
        reveal_strlit("7");
        reveal_strlit("8");
        reveal_strlit("9");
        reveal_strlit("a");
        reveal_strlit("b");
        reveal_strlit("c");
        reveal_strlit("d");
        reveal_strlit("e");
        reveal_strlit("f");
    }
    let d: &str = if n == 0 { "0" } else if n == 1 { "1" } else if n == 2 { "2" }
        else if n == 3 { "3" } else if n == 4 { "4" } else if n == 5 { "5" }
        else if n == 6 { "6" } else if n == 7 { "7" } else if n == 8 { "8" }
        else if n == 9 { "9" } else if n == 10 { "a" } else if n == 11 { "b" }
        else if n == 12 { "c" } else if n == 13 { "d" } else if n == 14 { "e" } else { "f" };
    out.append(d);
    proof {
        assert(d@ =~= seq![hex_char(n as int)]);
    }
}

impl TinyHex for Vec<u8> {
    fn tiny_hex(&self) -> (r: String)
        ensures
            r@ == tiny_hex_of(self@),
    {
        let n = if self.len() < 4 {
            self.len()
        } else {
            4
        };
        let ghost prefix = if self@.len() > 4 {
            self@.take(4)
        } else {
            self@
        };
        let mut out = String::new();
        let mut i: usize = 0;
        proof {
            assert(prefix.take(0) =~= Seq::<u8>::empty());
            assert(out@ =~= Seq::<char>::empty());
        }
        while i < n
            invariant
                i <= n,
                n == prefix.len(),
                prefix == if self@.len() > 4 {
                    self@.take(4)
                } else {
                    self@
                },
                n == if self@.len() < 4 {
                    self@.len() as int
                } else {
                    4int
                },
                out@ == tiny_hex_of(prefix.take(i as int)),
            decreases n - i,
        {
            let b = self[i];
            proof {
                assert(prefix.take(i + 1).drop_last() =~= prefix.take(i as int));
                assert(prefix.take(i + 1).last() == prefix[i as int]);
                assert(prefix[i as int] == self@[i as int]);
            }
            push_hex_char(&mut out, b / 16);
            push_hex_char(&mut out, b % 16);
            proof {
                assert(out@ =~= tiny_hex_of(prefix.take(i as int)) + seq![
                    hex_char(b as int / 16),
                    hex_char(b as int % 16),
                ]);
            }
            i += 1;
        }
        proof {
            assert(prefix.take(n as int) =~= prefix);
            if self@.len() > 4 {
                assert(tiny_hex_of(self@) == tiny_hex_of(self@.take(4)));
            }
        }
        out
    }
}

} // verus!
