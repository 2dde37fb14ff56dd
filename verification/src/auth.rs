//! The authority manager for one height: the canonically sorted authority
//! list, the weight totals, the quorum threshold, and proposer selection.

use vstd::prelude::*;
use vstd::multiset::Multiset;
use vstd::seq_lib::group_to_multiset_ensures;
use crate::types::{AuthConfig, Node, NodeView, SelectMode};
use crate::{Height, Round, Weight};

verus! {

/// Strict lexicographic order on byte strings; a proper prefix sorts first.
pub open spec fn lex_lt(a: Seq<u8>, b: Seq<u8>) -> bool
    decreases a.len(),
{
    if b.len() == 0 {
        false
    } else if a.len() == 0 {
        true
    } else if a[0] < b[0] {
        true
    } else if a[0] > b[0] {
        false
    } else {
        lex_lt(a.drop_first(), b.drop_first())
    }
}

/// The order is decided after any equal prefix is dropped.
pub proof fn lemma_lex_lt_skip(a: Seq<u8>, b: Seq<u8>, i: int)
    requires
        0 <= i <= a.len(),
        i <= b.len(),
        forall|j: int| 0 <= j < i ==> a[j] == b[j],
    ensures
        lex_lt(a, b) == lex_lt(a.skip(i), b.skip(i)),
    decreases i,
{
    if i > 0 {
        assert(a.len() > 0 && b.len() > 0);
        assert(a[0] == b[0]);
        assert(a.drop_first().skip(i - 1) =~= a.skip(i));
        assert(b.drop_first().skip(i - 1) =~= b.skip(i));
        lemma_lex_lt_skip(a.drop_first(), b.drop_first(), i - 1);
    } else {
        assert(a.skip(0) =~= a);
        assert(b.skip(0) =~= b);
    }
}

/// Nothing sorts before itself.
pub proof fn lemma_lex_irrefl(a: Seq<u8>)
    ensures
        !lex_lt(a, a),
    decreases a.len(),
{
    if a.len() > 0 {
        lemma_lex_irrefl(a.drop_first());
    }
}

/// The order is transitive.
pub proof fn lemma_lex_trans(a: Seq<u8>, b: Seq<u8>, c: Seq<u8>)
    requires
        lex_lt(a, b),
        lex_lt(b, c),
    ensures
        lex_lt(a, c),
    decreases a.len(),
{
    if b.len() > 0 && c.len() > 0 && a.len() > 0 {
        if a[0] == b[0] && b[0] == c[0] {
            lemma_lex_trans(a.drop_first(), b.drop_first(), c.drop_first());
        }
    }
}

/// Compares two byte strings lexicographically.
pub fn bytes_lt(a: &Vec<u8>, b: &Vec<u8>) -> (r: bool)
    ensures
        r == lex_lt(a@, b@),
{
    let an = a.len();
    let bn = b.len();
    let n = if an < bn {
        an
    } else {
        bn
    };
    let mut i: usize = 0;
    while i < n
        invariant
            i <= n,
            n <= a@.len(),
            n <= b@.len(),
            n == if a@.len() < b@.len() {
                a@.len()
            } else {
                b@.len()
            },
            forall|j: int| 0 <= j < i ==> a@[j] == b@[j],
        decreases n - i,
    {
        let x = a[i];
        let y = b[i];
        if x != y {
            proof {
                lemma_lex_lt_skip(a@, b@, i as int);
                assert(a@.skip(i as int)[0] == a@[i as int]);
                assert(b@.skip(i as int)[0] == b@[i as int]);
            }
            return x < y;
        }
        i += 1;
    }
    proof {
        lemma_lex_lt_skip(a@, b@, n as int);
        if a@.len() < b@.len() {
            assert(a@.skip(n as int).len() == 0);
            assert(b@.skip(n as int).len() > 0);
        } else {
            assert(b@.skip(n as int).len() == 0);
        }
    }
    an < bn
}

/// The views of a node list.
pub open spec fn node_views(s: Seq<Node>) -> Seq<NodeView> {
    s.map_values(|n: Node| n@)
}

/// Neighbouring addresses never sort backwards: the list is in canonical
/// order.
pub open spec fn sorted_by_address(s: Seq<NodeView>) -> bool {
    forall|i: int| 0 <= i < s.len() - 1 ==> !lex_lt((#[trigger] s[i + 1]).address, s[i].address)
}

/// The summed propose weight of a node list.
pub open spec fn propose_weight_sum(s: Seq<NodeView>) -> int
    decreases s.len(),
{
    if s.len() == 0 {
        0
    } else {
        propose_weight_sum(s.drop_last()) + s.last().propose_weight
    }
}

/// The summed vote weight of a node list.
pub open spec fn vote_weight_sum(s: Seq<NodeView>) -> int
    decreases s.len(),
{
    if s.len() == 0 {
        0
    } else {
        vote_weight_sum(s.drop_last()) + s.last().vote_weight
    }
}

/// The index the virtual weighted list maps `idx` to: each node occupies
/// `propose_weight` consecutive slots.
pub open spec fn pick_by_weight(s: Seq<NodeView>, idx: int) -> int
    decreases s.len(),
{
    if s.len() == 0 {
        0
    } else if idx < s.first().propose_weight {
        0
    } else {
        1 + pick_by_weight(s.drop_first(), idx - s.first().propose_weight)
    }
}

/// The summed weight splits into the first node's weight and the rest.
pub proof fn lemma_propose_weight_sum_first(s: Seq<NodeView>)
    requires
        s.len() > 0,
    ensures
        propose_weight_sum(s) == s.first().propose_weight + propose_weight_sum(s.drop_first()),
    decreases s.len(),
{
    if s.len() == 1 {
        assert(s.drop_first().len() == 0);
        assert(propose_weight_sum(s.drop_first()) == 0);
        assert(s.drop_last().len() == 0);
        assert(propose_weight_sum(s.drop_last()) == 0);
        assert(propose_weight_sum(s) == propose_weight_sum(s.drop_last())
            + s.last().propose_weight);
        assert(s.first() == s.last());
    } else {
        assert(s.drop_last().len() > 0);
        assert(s.drop_last().first() == s.first());
        lemma_propose_weight_sum_first(s.drop_last());
        assert(s.drop_last().drop_first() =~= s.drop_first().drop_last());
        assert(s.drop_first().last() == s.last());
        assert(propose_weight_sum(s.drop_first()) == propose_weight_sum(
            s.drop_first().drop_last(),
        ) + s.drop_first().last().propose_weight);
        assert(propose_weight_sum(s) == propose_weight_sum(s.drop_last())
            + s.last().propose_weight);
    }
}

/// When every propose weight is one, the virtual list is the list itself.
pub proof fn lemma_pick_unit_weights(s: Seq<NodeView>, idx: int)
    requires
        0 <= idx < s.len(),
        forall|i: int| 0 <= i < s.len() ==> (#[trigger] s[i].propose_weight) == 1,
    ensures
        pick_by_weight(s, idx) == idx,
    decreases s.len(),
{
    if idx >= 1 {
        assert(s[0].propose_weight == 1);
        lemma_pick_unit_weights(s.drop_first(), idx - 1);
    }
}

/// Sorts the nodes by address, keeping exactly the given nodes.
fn sort_nodes(list: Vec<Node>) -> (r: Vec<Node>)
    ensures
        r@.len() == list@.len(),
        node_views(r@).to_multiset() == node_views(list@).to_multiset(),
        sorted_by_address(node_views(r@)),
{
    broadcast use group_to_multiset_ensures;
    broadcast use vstd::multiset::group_multiset_axioms;

    let mut working = list;
    let mut out: Vec<Node> = Vec::new();
    let ghost total = working@.len();
    let ghost orig = node_views(working@).to_multiset();
    proof {
        assert(node_views(out@) =~= Seq::<NodeView>::empty());
        assert(node_views(out@).to_multiset().add(node_views(working@).to_multiset()) =~= orig);
    }
    while working.len() > 0
        invariant
            out@.len() + working@.len() == total,
            node_views(out@).to_multiset().add(node_views(working@).to_multiset()) == orig,
            sorted_by_address(node_views(out@)),
            forall|w: int|
                0 <= w < working@.len() ==> out@.len() > 0 ==> !lex_lt(
                    (#[trigger] working@[w])@.address,
                    node_views(out@).last().address,
                ),
        decreases working@.len(),
    {
        let mut min_i: usize = 0;
        let mut j: usize = 1;
        proof {
            lemma_lex_irrefl(working@[0]@.address);
        }
        while j < working.len()
            invariant
                min_i < j <= working@.len(),
                working@.len() > 0,
                forall|k: int|
                    0 <= k < j ==> !lex_lt(
                        (#[trigger] working@[k])@.address,
                        working@[min_i as int]@.address,
                    ),
            decreases working@.len() - j,
        {
            if bytes_lt(&working[j].address, &working[min_i].address) {
                proof {
                    lemma_lex_irrefl(working@[j as int]@.address);
                    assert forall|k: int| 0 <= k < j implies !lex_lt(
                        (#[trigger] working@[k])@.address,
                        working@[j as int]@.address,
                    ) by {
                        if lex_lt(working@[k]@.address, working@[j as int]@.address) {
                            lemma_lex_trans(
                                working@[k]@.address,
                                working@[j as int]@.address,
                                working@[min_i as int]@.address,
                            );
                        }
                    }
                }
                min_i = j;
            }
            j += 1;
        }
        let ghost pre_working = working@;
        let ghost pre_out = out@;
        let picked = working.remove(min_i);
        proof {
            assert(node_views(working@) =~= node_views(pre_working).remove(min_i as int));
            lemma_lex_min_after_remove(pre_working, min_i as int);
            assert(node_views(pre_working)[min_i as int] == picked@);
            assert(node_views(pre_working).contains(picked@));
            vstd::seq_lib::to_multiset_remove(node_views(pre_working), min_i as int);
            vstd::seq_lib::to_multiset_contains(node_views(pre_working), picked@);
            assert(node_views(pre_working).to_multiset().count(picked@) > 0);
        }
        out.push(picked);
        proof {
            assert(node_views(out@) =~= node_views(pre_out).push(picked@));
            vstd::seq_lib::to_multiset_build(node_views(pre_out), picked@);
            assert(node_views(out@).to_multiset().add(node_views(working@).to_multiset()) =~= orig);
            assert(sorted_by_address(node_views(out@))) by {
                assert(forall|i: int|
                    0 <= i < node_views(pre_out).len() ==> node_views(out@)[i] == node_views(
                        pre_out,
                    )[i]);
                assert(node_views(out@).last() == picked@);
            }
            assert(forall|w: int|
                0 <= w < working@.len() ==> !lex_lt(
                    (#[trigger] working@[w])@.address,
                    node_views(out@).last().address,
                ));
        }
    }
    proof {
        assert(node_views(working@).to_multiset().len() == 0);
        assert(node_views(working@).to_multiset() =~= Multiset::<NodeView>::empty());
        assert(node_views(out@).to_multiset() =~= orig);
    }
    out
}

/// The view sequence restricted to one address: whether the address belongs
/// to some listed voter.
pub open spec fn address_listed(voters: Seq<Vec<u8>>, address: Seq<u8>) -> bool {
    exists|i: int| 0 <= i < voters.len() && voters[i]@ == address
}

/// Whether bit `i` of the bitmap is set, in most-significant-first order.
pub open spec fn spec_bit(bm: Seq<u8>, i: int) -> bool {
    0 <= i && i / 8 < bm.len() && (bm[i / 8] & (0x80u8 >> ((i % 8) as u8))) != 0
}

/// The authority manager for one height: the canonically sorted list and its
/// weight totals.
#[derive(Clone, Debug)]
pub struct AuthManager {
    list: Vec<Node>,
    mode: SelectMode,
    total_propose_weight: u64,
    total_vote_weight: u64,
}

impl AuthManager {
    /// The sorted authority list, as views.
    pub closed spec fn views(&self) -> Seq<NodeView> {
        node_views(self.list@)
    }

    /// The configured proposer-selection mode.
    pub closed spec fn spec_mode(&self) -> SelectMode {
        self.mode
    }

    /// The manager's internal invariant.
    pub closed spec fn wf(&self) -> bool {
        &&& sorted_by_address(self.views())
        &&& self.views().len() <= 0x7fff_ffff
        &&& self.total_propose_weight as int == propose_weight_sum(self.views())
        &&& self.total_vote_weight as int == vote_weight_sum(self.views())
    }

    /// Builds the manager for a height: sorts the authority list canonically
    /// and totals both weights.
    pub fn new(config: AuthConfig) -> (r: AuthManager)
        requires
            config.auth_list@.len() <= 0x7fff_ffff,
        ensures
            r.wf(),
            r.spec_mode() == config.mode,
            r.views().to_multiset() == node_views(config.auth_list@).to_multiset(),
            r.views().len() == config.auth_list@.len(),
            sorted_by_address(r.views()),
    {
        let sorted = sort_nodes(config.auth_list);
        let mut total_propose: u64 = 0;
        let mut total_vote: u64 = 0;
        let n = sorted.len();
        let mut i: usize = 0;
        proof {
            assert(node_views(sorted@).take(0) =~= Seq::<NodeView>::empty());
        }
        while i < n
            invariant
                i <= n,
                n == sorted@.len(),
                n <= 0x7fff_ffff,
                total_propose as int == propose_weight_sum(node_views(sorted@).take(i as int)),
                total_vote as int == vote_weight_sum(node_views(sorted@).take(i as int)),
                total_propose <= i * 0xffff_ffff,
                total_vote <= i * 0xffff_ffff,
            decreases n - i,
        {
            proof {
                assert(node_views(sorted@).take(i + 1).drop_last() =~= node_views(sorted@).take(
                    i as int,
                ));
                assert(node_views(sorted@).take(i + 1).last() == node_views(sorted@)[i as int]);
            }
            total_propose = total_propose + sorted[i].propose_weight as u64;
            total_vote = total_vote + sorted[i].vote_weight as u64;
            i += 1;
        }
        proof {
            assert(node_views(sorted@).take(n as int) =~= node_views(sorted@));
        }
        AuthManager {
            list: sorted,
            mode: config.mode,
            total_propose_weight: total_propose,
            total_vote_weight: total_vote,
        }
    }

    /// The number of authorities.
    pub fn len(&self) -> (r: usize)
        ensures
            r == self.views().len(),
    {
        self.list.len()
    }

    /// The summed vote weight of the height's authorities.
    pub fn total_weight(&self) -> (r: u64)
        requires
            self.wf(),
        ensures
            r == vote_weight_sum(self.views()),
    {
        self.total_vote_weight
    }

    /// The quorum threshold for this height: strictly more than two thirds of
    /// the total vote weight.
    pub fn threshold_weight(&self) -> (r: u64)
        requires
            self.wf(),
        ensures
            r == crate::spec_threshold(vote_weight_sum(self.views())),
    {
        proof {
            lemma_vote_weight_sum_bound(self.views());
        }
        crate::threshold(self.total_vote_weight)
    }

    /// The address at a position of the sorted list.
    pub fn address_at(&self, i: usize) -> (r: crate::Address)
        requires
            i < self.views().len(),
        ensures
            r@ == self.views()[i as int].address,
    {
        crate::types::clone_bytes(&self.list[i].address)
    }

    /// The vote weight of one authority, if it is listed.
    pub fn vote_weight_of(&self, address: &Vec<u8>) -> (r: Option<Weight>)
        ensures
            match r {
                Some(w) => exists|i: int|
                    0 <= i < self.views().len() && (#[trigger] self.views()[i]).address == address@
                        && self.views()[i].vote_weight == w as int,
                None => forall|i: int|
                    0 <= i < self.views().len() ==> (#[trigger] self.views()[i]).address
                        != address@,
            },
    {
        let n = self.list.len();
        let mut i: usize = 0;
        while i < n
            invariant
                i <= n,
                n == self.views().len(),
                forall|j: int|
                    0 <= j < i ==> (#[trigger] self.views()[j]).address != address@,
            decreases n - i,
        {
            if crate::types::bytes_eq(&self.list[i].address, address) {
                proof {
                    assert(self.views()[i as int].address == address@);
                }
                return Some(self.list[i].vote_weight);
            }
            i += 1;
        }
        None
    }

    /// The proposer for `(height, round)`. In in-turn mode the slot
    /// `(height + round) mod total_propose_weight` of the virtual list, in
    /// which each authority appears `propose_weight` times, names the
    /// proposer; in random mode the slot is drawn from a seed mixed
    /// deterministically from the height, the round and the previous block's
    /// hash. Absent only when no propose weight exists at all.
    pub fn proposer(&self, height: Height, round: Round, pre_hash: &Vec<u8>) -> (r: Option<
        crate::Address,
    >)
        requires
            self.wf(),
            height + round <= u64::MAX,
        ensures
            ({
                let idx = if self.spec_mode() is InTurn {
                    (height + round) as int % propose_weight_sum(self.views())
                } else {
                    mix_seed(pre_hash@, height, round) as int % propose_weight_sum(
                        self.views(),
                    )
                };
                match r {
                    Some(a) => propose_weight_sum(self.views()) > 0 && a@ == self.views()[
                        pick_by_weight(self.views(), idx)
                    ].address,
                    None => propose_weight_sum(self.views()) == 0,
                }
            }),
    {
        if self.total_propose_weight == 0 {
            return None;
        }
        let slot: u64 = match self.mode {
            SelectMode::InTurn => (height + round) % self.total_propose_weight,
            SelectMode::Random => mix(pre_hash, height, round) % self.total_propose_weight,
        };
        let ghost views = self.views();
        let ghost idx0 = slot as int;
        let mut i: usize = 0;
        let mut rem: u64 = slot;
        proof {
            assert(views.skip(0) =~= views);
        }
        while i < self.list.len()
            invariant
                self.wf(),
                views == self.views(),
                i <= views.len(),
                propose_weight_sum(views) > 0,
                0 <= rem < propose_weight_sum(views.skip(i as int)),
                pick_by_weight(views, idx0) == i + pick_by_weight(views.skip(i as int), rem as int),
                idx0 == if self.spec_mode() is InTurn {
                    (height + round) as int % propose_weight_sum(views)
                } else {
                    mix_seed(pre_hash@, height, round) as int % propose_weight_sum(views)
                },
            decreases views.len() - i,
        {
            let w = self.list[i].propose_weight as u64;
            proof {
                lemma_propose_weight_sum_first(views.skip(i as int));
                assert(views.skip(i as int).first() == views[i as int]);
                assert(views.skip(i as int).drop_first() =~= views.skip(i + 1));
            }
            if rem < w {
                proof {
                    assert(pick_by_weight(views.skip(i as int), rem as int) == 0);
                }
                return Some(crate::types::clone_bytes(&self.list[i].address));
            }
            rem = rem - w;
            i += 1;
        }
        proof {
            assert(views.skip(views.len() as int).len() == 0);
            assert(propose_weight_sum(views.skip(views.len() as int)) == 0);
        }
        None
    }

    /// The voter-set bitmap for the given voters, positional against the
    /// sorted authority list, most significant bit first.
    pub fn bitmap_of_voters(&self, voters: &Vec<crate::Address>) -> (bm: Vec<u8>)
        requires
            self.wf(),
        ensures
            bm@.len() == (self.views().len() + 7) / 8,
            forall|i: int|
                0 <= i < self.views().len() ==> spec_bit(bm@, i) == address_listed(
                    voters@,
                    (#[trigger] self.views()[i]).address,
                ),
    {
        let n = self.list.len();
        let len_bytes = (n + 7) / 8;
        let mut bm: Vec<u8> = Vec::new();
        let mut k: usize = 0;
        while k < len_bytes
            invariant
                k <= len_bytes,
                bm@.len() == k,
                forall|j: int| 0 <= j < k ==> bm@[j] == 0u8,
            decreases len_bytes - k,
        {
            bm.push(0u8);
            k += 1;
        }
        proof {
            assert forall|i: int| 0 <= i < n implies !spec_bit(bm@, i) by {
                assert(0u8 & (0x80u8 >> ((i % 8) as u8)) == 0) by (bit_vector);
            }
        }
        let mut i: usize = 0;
        while i < n
            invariant
                i <= n,
                n == self.views().len(),
                self.wf(),
                bm@.len() == len_bytes,
                len_bytes == (n + 7) / 8,
                forall|j: int|
                    0 <= j < i ==> spec_bit(bm@, j) == address_listed(
                        voters@,
                        (#[trigger] self.views()[j]).address,
                    ),
                forall|j: int| i <= j < n ==> !spec_bit(bm@, j),
            decreases n - i,
        {
            let listed = contains_address(voters, &self.list[i].address);
            if listed {
                let byte_i = i / 8;
                let bit_i = (i % 8) as u8;
                let ghost pre = bm@;
                let mask: u8 = 0x80u8 >> bit_i;
                let updated: u8 = bm[byte_i] | mask;
                bm[byte_i] = updated;
                proof {
                    let b0 = pre[i as int / 8];
                    assert(bit_i < 8 ==> (b0 | (0x80u8 >> bit_i)) & (0x80u8 >> bit_i) != 0)
                        by (bit_vector);
                    assert(bit_i < 8);
                    assert(spec_bit(bm@, i as int));
                    assert forall|j: int| 0 <= j < n && j != i implies spec_bit(bm@, j)
                        == spec_bit(pre, j) by {
                        if j / 8 == i as int / 8 {
                            let jb = (j % 8) as u8;
                            assert(jb < 8 && bit_i < 8 && jb != bit_i ==> ((b0 | (0x80u8 >> bit_i))
                                & (0x80u8 >> jb)) == (b0 & (0x80u8 >> jb))) by (bit_vector);
                            assert(jb != bit_i) by {
                                assert(j != i as int);
                                assert(8 * (j / 8) + (j % 8) == j);
                                assert(8 * (i as int / 8) + (i as int % 8) == i as int);
                            }
                        } else {
                            assert(bm@[j / 8] == pre[j / 8]);
                        }
                    }
                    assert forall|j: int| i + 1 <= j < n implies !spec_bit(bm@, j) by {
                        assert(spec_bit(bm@, j) == spec_bit(pre, j));
                        assert(!spec_bit(pre, j));
                    }
                }
            }
            i += 1;
        }
        bm
    }

    /// The summed vote weight of the authorities the bitmap marks.
    pub fn weight_of_bitmap(&self, bm: &Vec<u8>) -> (r: u64)
        requires
            self.wf(),
        ensures
            r == bitmap_weight(self.views(), bm@, self.views().len() as int),
    {
        let n = self.list.len();
        let mut acc: u64 = 0;
        let mut i: usize = 0;
        while i < n
            invariant
                i <= n,
                n == self.views().len(),
                self.wf(),
                acc as int == bitmap_weight(self.views(), bm@, i as int),
                acc <= i * 0xffff_ffff,
                n <= 0x7fff_ffff,
            decreases n - i,
        {
            let byte_i = i / 8;
            let set = if byte_i < bm.len() {
                (bm[byte_i] & (0x80u8 >> ((i % 8) as u8))) != 0
            } else {
                false
            };
            if set {
                acc = acc + self.list[i].vote_weight as u64;
            }
            i += 1;
        }
        acc
    }
}

/// The summed vote weight of the first `n` authorities whose bitmap bit is
/// set.
pub open spec fn bitmap_weight(views: Seq<NodeView>, bm: Seq<u8>, n: int) -> int
    decreases n,
{
    if n <= 0 {
        0
    } else {
        bitmap_weight(views, bm, n - 1) + if spec_bit(bm, n - 1) {
            views[n - 1].vote_weight
        } else {
            0int
        }
    }
}

/// Whether the address appears in the voter list.
fn contains_address(voters: &Vec<crate::Address>, address: &Vec<u8>) -> (r: bool)
    ensures
        r == address_listed(voters@, address@),
{
    let n = voters.len();
    let mut i: usize = 0;
    while i < n
        invariant
            i <= n,
            n == voters@.len(),
            forall|j: int| 0 <= j < i ==> voters@[j]@ != address@,
        decreases n - i,
    {
        if crate::types::bytes_eq(&voters[i], address) {
            return true;
        }
        i += 1;
    }
    false
}

/// Deterministically mixes a byte string with the height and round; every
/// authority computes the same slot from the same inputs.
pub open spec fn mix_seed(bytes: Seq<u8>, height: u64, round: u64) -> u64
    decreases bytes.len(),
{
    if bytes.len() == 0 {
        vstd::wrapping::u64_specs::wrapping_add(
            vstd::wrapping::u64_specs::wrapping_mul(height, 0x100000001b3u64),
            round,
        )
    } else {
        vstd::wrapping::u64_specs::wrapping_add(
            vstd::wrapping::u64_specs::wrapping_mul(mix_seed(bytes.drop_last(), height, round), 31u64),
            bytes.last() as u64,
        )
    }
}

/// Computes the deterministic slot seed.
fn mix(bytes: &Vec<u8>, height: Height, round: Round) -> (r: u64)
    ensures
        r == mix_seed(bytes@, height, round),
{
    let base: u64 = height.wrapping_mul(0x100000001b3).wrapping_add(round);
    let mut acc: u64 = base;
    let mut i: usize = 0;
    proof {
        assert(bytes@.take(0) =~= Seq::<u8>::empty());
    }
    while i < bytes.len()
        invariant
            i <= bytes@.len(),
            acc == mix_seed(bytes@.take(i as int), height, round),
        decreases bytes@.len() - i,
    {
        proof {
            assert(bytes@.take(i + 1).drop_last() =~= bytes@.take(i as int));
            assert(bytes@.take(i + 1).last() == bytes@[i as int]);
        }
        acc = acc.wrapping_mul(31).wrapping_add(bytes[i] as u64);
        i += 1;
    }
    proof {
        assert(bytes@.take(bytes@.len() as int) =~= bytes@);
    }
    acc
}

/// The vote-weight total of at most `0x7fff_ffff` authorities fits well below
/// the middle of `u64`.
pub proof fn lemma_vote_weight_sum_bound(s: Seq<NodeView>)
    requires
        s.len() <= 0x7fff_ffff,
        forall|i: int| 0 <= i < s.len() ==> 0 <= (#[trigger] s[i]).vote_weight <= 0xffff_ffff,
    ensures
        vote_weight_sum(s) <= s.len() * 0xffff_ffff,
        vote_weight_sum(s) >= 0,
    decreases s.len(),
{
    if s.len() > 0 {
        assert(forall|i: int|
            0 <= i < s.drop_last().len() ==> s.drop_last()[i] == s[i]);
        lemma_vote_weight_sum_bound(s.drop_last());
    }
}

/// Removing the minimum leaves only nodes it sorts no later than.
pub proof fn lemma_lex_min_after_remove(s: Seq<Node>, i: int)
    requires
        0 <= i < s.len(),
        forall|k: int| 0 <= k < s.len() ==> !lex_lt((#[trigger] s[k])@.address, s[i]@.address),
    ensures
        forall|k: int|
            0 <= k < s.remove(i).len() ==> !lex_lt(
                (#[trigger] s.remove(i)[k])@.address,
                s[i]@.address,
            ),
{
    assert forall|k: int| 0 <= k < s.remove(i).len() implies !lex_lt(
        (#[trigger] s.remove(i)[k])@.address,
        s[i]@.address,
    ) by {
        if k < i {
            assert(s.remove(i)[k] == s[k]);
        } else {
            assert(s.remove(i)[k] == s[k + 1]);
        }
    }
}

} // verus!
