//! Why the protocol is safe: two quorums at one height overlap in more than a
//! third of the total weight, so with less than a third of the weight
//! Byzantine they share an honest voter, and honest voters do not equivocate.

use vstd::prelude::*;
use crate::auth::vote_weight_sum;
use crate::types::NodeView;

verus! {

/// The summed vote weight of the authorities among the first `n` whose index
/// the set holds.
pub open spec fn subset_weight(views: Seq<NodeView>, s: Set<int>, n: int) -> int
    decreases n,
{
    if n <= 0 {
        0
    } else {
        subset_weight(views, s, n - 1) + if s.contains(n - 1) {
            views[n - 1].vote_weight
        } else {
            0int
        }
    }
}

/// Every authority's weight is non-negative.
pub open spec fn weights_nonneg(views: Seq<NodeView>) -> bool {
    forall|i: int| 0 <= i < views.len() ==> (#[trigger] views[i]).vote_weight >= 0
}

/// A subset never outweighs the whole list.
pub proof fn lemma_subset_weight_le_total(views: Seq<NodeView>, s: Set<int>, n: int)
    requires
        weights_nonneg(views),
        0 <= n <= views.len(),
    ensures
        subset_weight(views, s, n) <= vote_weight_sum(views.take(n)),
        subset_weight(views, s, n) >= 0,
    decreases n,
{
    if n > 0 {
        lemma_subset_weight_le_total(views, s, n - 1);
        assert(views.take(n).drop_last() =~= views.take(n - 1));
        assert(views.take(n).last() == views[n - 1]);
    } else {
        assert(vote_weight_sum(views.take(0)) == 0) by {
            assert(views.take(0) =~= Seq::<NodeView>::empty());
        }
    }
}

/// Inclusion–exclusion: two subsets weigh as much as their union and their
/// intersection together.
pub proof fn lemma_weight_inclusion_exclusion(views: Seq<NodeView>, a: Set<int>, b: Set<int>, n: int)
    ensures
        subset_weight(views, a, n) + subset_weight(views, b, n) == subset_weight(
            views,
            a.union(b),
            n,
        ) + subset_weight(views, a.intersect(b), n),
    decreases n,
{
    if n > 0 {
        lemma_weight_inclusion_exclusion(views, a, b, n - 1);
    }
}

/// A set with positive weight holds a listed index.
pub proof fn lemma_positive_weight_has_member(views: Seq<NodeView>, s: Set<int>, n: int)
    requires
        subset_weight(views, s, n) > 0,
    ensures
        exists|i: int| 0 <= i < n && s.contains(i),
    decreases n,
{
    if n > 0 {
        if s.contains(n - 1) && views[n - 1].vote_weight > 0 {
            assert(0 <= n - 1 < n && s.contains(n - 1));
        } else {
            lemma_positive_weight_has_member(views, s, n - 1);
            let i = choose|i: int| 0 <= i < n - 1 && s.contains(i);
            assert(0 <= i < n && s.contains(i));
        }
    }
}

/// Two quorums overlap in weight at least `2 * threshold - total`; at the BFT
/// threshold that is strictly more than a third of the total.
pub proof fn lemma_quorum_intersection(
    views: Seq<NodeView>,
    a: Set<int>,
    b: Set<int>,
    threshold: int,
)
    requires
        weights_nonneg(views),
        subset_weight(views, a, views.len() as int) >= threshold,
        subset_weight(views, b, views.len() as int) >= threshold,
        threshold == crate::spec_threshold(vote_weight_sum(views)),
    ensures
        subset_weight(views, a.intersect(b), views.len() as int) >= 2 * threshold
            - vote_weight_sum(views),
        3 * subset_weight(views, a.intersect(b), views.len() as int) > vote_weight_sum(views),
{
    let n = views.len() as int;
    let total = vote_weight_sum(views);
    lemma_weight_inclusion_exclusion(views, a, b, n);
    lemma_subset_weight_le_total(views, a.union(b), n);
    assert(views.take(n) =~= views);
    assert(subset_weight(views, a.intersect(b), n) >= 2 * threshold - total);
    assert(3 * (2 * (2 * total / 3 + 1) - total) > total) by {
        assert(total - 2 <= 3 * (2 * total / 3) <= 2 * total) by {
            assert(2 * total == 3 * (2 * total / 3) + (2 * total) % 3);
        }
    }
}

/// Agreement at one cell: if less than a third of the weight is Byzantine and
/// every honest voter pre-commits at most one hash at a height and round,
/// then two pre-commit quorums at that height and round carry the same hash.
/// `assign` records each honest voter's single pre-commit.
pub proof fn theorem_same_cell_agreement(
    views: Seq<NodeView>,
    honest: Set<int>,
    assign: Map<int, Seq<u8>>,
    a: Set<int>,
    b: Set<int>,
    h1: Seq<u8>,
    h2: Seq<u8>,
)
    requires
        weights_nonneg(views),
        subset_weight(views, a, views.len() as int) >= crate::spec_threshold(
            vote_weight_sum(views),
        ),
        subset_weight(views, b, views.len() as int) >= crate::spec_threshold(
            vote_weight_sum(views),
        ),
        // what the Byzantine voters weigh: at most a third of the total
        3 * subset_weight(
            views,
            Set::new(|i: int| 0 <= i < views.len() && !honest.contains(i)),
            views.len() as int,
        ) <= vote_weight_sum(views),
        // an honest member of a quorum cast the quorum's hash
        forall|i: int| a.contains(i) && honest.contains(i) ==> #[trigger] assign[i] == h1,
        forall|i: int| b.contains(i) && honest.contains(i) ==> #[trigger] assign[i] == h2,
    ensures
        h1 == h2,
{
    let n = views.len() as int;
    let total = vote_weight_sum(views);
    let t = crate::spec_threshold(total);
    let byz = Set::new(|i: int| 0 <= i < views.len() && !honest.contains(i));
    lemma_quorum_intersection(views, a, b, t);
    let both = a.intersect(b);
    let honest_overlap = both.intersect(honest);
    lemma_weight_split(views, both, honest, n);
    assert(subset_weight(views, both.intersect(byz_complement_helper(views, honest)), n)
        <= subset_weight(views, byz, n)) by {
        lemma_weight_subset_mono(
            views,
            both.intersect(byz_complement_helper(views, honest)),
            byz,
            n,
        );
    }
    assert(subset_weight(views, honest_overlap, n) > 0);
    lemma_positive_weight_has_member(views, honest_overlap, n);
    let i = choose|i: int| 0 <= i < n && honest_overlap.contains(i);
    assert(assign[i] == h1);
    assert(assign[i] == h2);
}

/// The indices below `n` that the set leaves out of `honest`.
pub open spec fn byz_complement_helper(views: Seq<NodeView>, honest: Set<int>) -> Set<int> {
    Set::new(|i: int| 0 <= i < views.len() && !honest.contains(i))
}

/// A set's weight splits into the part inside `honest` and the part outside.
pub proof fn lemma_weight_split(views: Seq<NodeView>, s: Set<int>, honest: Set<int>, n: int)
    requires
        0 <= n <= views.len(),
    ensures
        subset_weight(views, s, n) == subset_weight(views, s.intersect(honest), n)
            + subset_weight(views, s.intersect(byz_complement_helper(views, honest)), n),
    decreases n,
{
    if n > 0 {
        lemma_weight_split(views, s, honest, n - 1);
    }
}

/// Weight is monotone under subset, for non-negative weights.
pub proof fn lemma_weight_subset_mono(views: Seq<NodeView>, s: Set<int>, t: Set<int>, n: int)
    requires
        weights_nonneg(views),
        0 <= n <= views.len(),
        forall|i: int| s.contains(i) ==> t.contains(i),
    ensures
        subset_weight(views, s, n) <= subset_weight(views, t, n),
    decreases n,
{
    if n > 0 {
        lemma_weight_subset_mono(views, s, t, n - 1);
    }
}

} // verus!
