//! Which member of a duplicate group is kept, and in what order the others go.

use vstd::prelude::*;

use crate::text;

verus! {

/// What a member of a duplicate group is ranked by: three counts, the highest
/// first, then the creation date, the oldest first.
#[derive(Debug)]
pub struct Rank {
    pub first: i64,
    pub second: i64,
    pub third: i64,
    pub created: Option<String>,
}

/// Whether `a` is ranked above `b` on the counts or, these being equal, on the
/// creation date.
pub open spec fn outranks(a: Rank, b: Rank) -> bool {
    if a.first != b.first {
        a.first > b.first
    } else if a.second != b.second {
        a.second > b.second
    } else if a.third != b.third {
        a.third > b.third
    } else {
        text::optional_before(a.created, b.created)
    }
}

/// Whether member `i` goes ahead of member `j`: it outranks it, or neither
/// outranks the other and it came first.
pub open spec fn goes_ahead(ranks: Seq<Rank>, i: int, j: int) -> bool {
    outranks(ranks[i], ranks[j]) || (!outranks(ranks[j], ranks[i]) && i < j)
}

/// Whether `order` lists every position of `ranks` once, the highest rank first.
pub open spec fn is_ranking(order: Seq<usize>, ranks: Seq<Rank>) -> bool {
    &&& order.len() == ranks.len()
    &&& forall|k: int| 0 <= k < order.len() ==> 0 <= #[trigger] order[k] < ranks.len()
    &&& forall|k: int, l: int|
        0 <= k < l < order.len() ==> goes_ahead(ranks, #[trigger] order[k] as int, #[trigger] order[l] as int)
}

/// The one ranking that there is of `ranks`.
pub open spec fn ranking(ranks: Seq<Rank>) -> Seq<usize> {
    choose|order: Seq<usize>| is_ranking(order, ranks)
}

/// Executable [`outranks`].
fn ranks_above(a: &Rank, b: &Rank) -> (above: bool)
    ensures
        above == outranks(*a, *b),
{
    if a.first != b.first {
        a.first > b.first
    } else if a.second != b.second {
        a.second > b.second
    } else if a.third != b.third {
        a.third > b.third
    } else {
        text::optional_text_before(&a.created, &b.created)
    }
}

/// The order of dates is transitive, and so is being no earlier.
proof fn lemma_created_order(a: Option<String>, b: Option<String>, c: Option<String>)
    ensures
        text::optional_before(a, b) && text::optional_before(b, c) ==> text::optional_before(a, c),
        text::optional_before(a, b) && !text::optional_before(c, b) ==> text::optional_before(a, c),
        !text::optional_before(b, a) && text::optional_before(b, c) ==> text::optional_before(a, c),
        !text::optional_before(b, a) && !text::optional_before(c, b) ==> !text::optional_before(c, a),
        text::optional_before(a, b) ==> !text::optional_before(b, a),
{
    text::lemma_optional_order(a, b, c);
    text::lemma_optional_order(b, c, a);
    text::lemma_optional_order(c, a, b);
}

/// Going ahead is transitive, and of two members only one goes ahead.
proof fn lemma_goes_ahead(ranks: Seq<Rank>, i: int, j: int, k: int)
    ensures
        goes_ahead(ranks, i, j) && goes_ahead(ranks, j, k) ==> goes_ahead(ranks, i, k),
        goes_ahead(ranks, i, j) ==> !goes_ahead(ranks, j, i),
{
    lemma_created_order(ranks[i].created, ranks[j].created, ranks[k].created);
    lemma_created_order(ranks[k].created, ranks[j].created, ranks[i].created);
}

/// A position put in behind all that go ahead of it leaves the order a ranking.
proof fn lemma_insert(order: Seq<usize>, ranks: Seq<Rank>, i: usize, at: int)
    requires
        i < ranks.len(),
        is_ranking_of_prefix(order, ranks, i as int),
        0 <= at <= order.len(),
        forall|k: int| 0 <= k < at ==> goes_ahead(ranks, #[trigger] order[k] as int, i as int),
        at < order.len() ==> outranks(ranks[i as int], ranks[order[at] as int]),
    ensures
        is_ranking_of_prefix(order.insert(at, i), ranks, i + 1),
{
    let after = order.insert(at, i);
    assert forall|k: int| at <= k < order.len() implies goes_ahead(
        ranks,
        i as int,
        #[trigger] order[k] as int,
    ) by {
        lemma_goes_ahead(ranks, i as int, order[at] as int, order[k] as int);
    }
    assert forall|k: int, l: int| 0 <= k < l < after.len() implies goes_ahead(
        ranks,
        #[trigger] after[k] as int,
        #[trigger] after[l] as int,
    ) by {
        let a: int = if k < at { k } else { k - 1 };
        let b: int = if l < at { l } else { l - 1 };
        if k != at && l != at {
            assert(goes_ahead(ranks, order[a] as int, order[b] as int));
        } else if k == at {
            assert(goes_ahead(ranks, i as int, order[b] as int));
        } else {
            assert(goes_ahead(ranks, order[a] as int, i as int));
        }
    }
}

/// Where a position has to be put in, at `from` or behind it.
proof fn lemma_place(order: Seq<usize>, ranks: Seq<Rank>, i: usize, from: int) -> (at: int)
    requires
        i < ranks.len(),
        is_ranking_of_prefix(order, ranks, i as int),
        0 <= from <= order.len(),
        forall|k: int| 0 <= k < from ==> goes_ahead(ranks, #[trigger] order[k] as int, i as int),
    ensures
        from <= at <= order.len(),
        forall|k: int| 0 <= k < at ==> goes_ahead(ranks, #[trigger] order[k] as int, i as int),
        at < order.len() ==> outranks(ranks[i as int], ranks[order[at] as int]),
    decreases order.len() - from,
{
    if from < order.len() && !outranks(ranks[i as int], ranks[order[from] as int]) {
        assert(goes_ahead(ranks, order[from] as int, i as int));
        lemma_place(order, ranks, i, from + 1)
    } else {
        from
    }
}

proof fn lemma_prefix_has_ranking(ranks: Seq<Rank>, n: usize) -> (order: Seq<usize>)
    requires
        n <= ranks.len(),
    ensures
        is_ranking_of_prefix(order, ranks, n as int),
    decreases n,
{
    if n == 0 {
        Seq::empty()
    } else {
        let i: usize = (n - 1) as usize;
        let before = lemma_prefix_has_ranking(ranks, i);
        let at = lemma_place(before, ranks, i, 0);
        lemma_insert(before, ranks, i, at);
        before.insert(at, i)
    }
}

/// Every group of members has a ranking.
pub proof fn law_ranking_exists(ranks: Seq<Rank>)
    requires
        ranks.len() <= usize::MAX,
    ensures
        is_ranking(ranking(ranks), ranks),
{
    let order = lemma_prefix_has_ranking(ranks, ranks.len() as usize);
    assert(is_ranking(order, ranks));
}

/// The positions of `ranks`, the highest rank first and equal ranks in the
/// order in which they stand.
pub fn rank_order(ranks: &Vec<Rank>) -> (order: Vec<usize>)
    ensures
        is_ranking(order@, ranks@),
        order@ == ranking(ranks@),
{
    let mut order: Vec<usize> = Vec::new();
    for i in 0..ranks.len()
        invariant
            is_ranking_of_prefix(order@, ranks@, i as int),
            i <= ranks@.len(),
    {
        let mut at: usize = 0;
        while at < order.len() && !ranks_above(&ranks[i], &ranks[order[at]])
            invariant
                at <= order@.len(),
                i < ranks@.len(),
                is_ranking_of_prefix(order@, ranks@, i as int),
                forall|k: int| 0 <= k < at ==> goes_ahead(ranks@, #[trigger] order@[k] as int, i as int),
            decreases order@.len() - at,
        {
            at = at + 1;
        }
        proof {
            lemma_insert(order@, ranks@, i, at as int);
        }
        order.insert(at, i);
    }
    proof {
        assert(is_ranking(order@, ranks@));
        law_ranking_is_unique(order@, ranking(ranks@), ranks@);
    }
    order
}

/// Whether `order` ranks the first `upto` members.
spec fn is_ranking_of_prefix(order: Seq<usize>, ranks: Seq<Rank>, upto: int) -> bool {
    &&& order.len() == upto
    &&& forall|k: int| 0 <= k < order.len() ==> 0 <= #[trigger] order[k] < upto
    &&& forall|k: int, l: int|
        0 <= k < l < order.len() ==> goes_ahead(ranks, #[trigger] order[k] as int, #[trigger] order[l] as int)
}

/// No member is listed twice in a ranking, and every member is listed.
pub proof fn law_ranking_lists_each_member_once(order: Seq<usize>, ranks: Seq<Rank>)
    requires
        is_ranking(order, ranks),
        ranks.len() <= usize::MAX,
    ensures
        order.no_duplicates(),
        forall|i: usize| 0 <= i < ranks.len() ==> order.contains(i),
{
    assert forall|k: int, l: int| 0 <= k < order.len() && 0 <= l < order.len() && k != l implies order[k]
        != order[l] by {
        if k < l {
            lemma_goes_ahead(ranks, order[k] as int, order[l] as int, order[k] as int);
        } else {
            lemma_goes_ahead(ranks, order[l] as int, order[k] as int, order[l] as int);
        }
    }
    let all = Seq::new(ranks.len(), |i: int| i as usize);
    assert(all.no_duplicates());
    assert(order.to_set().subset_of(all.to_set())) by {
        assert forall|x: usize| order.to_set().contains(x) implies all.to_set().contains(x) by {
            let k = order.index_of(x);
            assert(order[k] == x);
            assert(all[x as int] == x);
        }
    }
    order.unique_seq_to_set();
    all.unique_seq_to_set();
    vstd::set_lib::lemma_subset_equality(order.to_set(), all.to_set());
    assert forall|i: usize| 0 <= i < ranks.len() implies order.contains(i) by {
        assert(all[i as int] == i);
        assert(all.to_set().contains(i));
        assert(order.to_set().contains(i));
    }
}

/// There is one ranking only: the keeper and the order of the others are
/// determined by the ranks alone.
pub proof fn law_ranking_is_unique(a: Seq<usize>, b: Seq<usize>, ranks: Seq<Rank>)
    requires
        is_ranking(a, ranks),
        is_ranking(b, ranks),
        ranks.len() <= usize::MAX,
    ensures
        a == b,
{
    law_ranking_lists_each_member_once(a, ranks);
    law_ranking_lists_each_member_once(b, ranks);
    if exists|k: int| 0 <= k < a.len() && a[k] != b[k] {
        let k = lemma_first_difference(a, b);
        // The member that `a` has at `k` stands later in `b`, and the other way round.
        assert(b.contains(a[k]) && a.contains(b[k]));
        let p = b.index_of(a[k]);
        let q = a.index_of(b[k]);
        assert(b[p] == a[k]);
        assert(a[q] == b[k]);
        assert(p > k) by {
            if p < k {
                assert(a[p] == b[p]);
            }
        }
        assert(q > k) by {
            if q < k {
                assert(a[q] == b[q]);
            }
        }
        assert(goes_ahead(ranks, b[k] as int, b[p] as int));
        assert(goes_ahead(ranks, a[k] as int, a[q] as int));
        lemma_goes_ahead(ranks, a[k] as int, b[k] as int, a[k] as int);
    }
    assert(a =~= b);
}

/// The first position at which two sequences differ.
proof fn lemma_first_difference(a: Seq<usize>, b: Seq<usize>) -> (at: int)
    requires
        a.len() == b.len(),
        exists|k: int| 0 <= k < a.len() && a[k] != b[k],
    ensures
        0 <= at < a.len(),
        a[at] != b[at],
        forall|j: int| 0 <= j < at ==> a[j] == b[j],
    decreases a.len(),
{
    if a[0] != b[0] {
        0
    } else {
        let k = choose|k: int| 0 <= k < a.len() && a[k] != b[k];
        assert(a.skip(1)[k - 1] != b.skip(1)[k - 1]);
        let at = lemma_first_difference(a.skip(1), b.skip(1)) + 1;
        assert forall|j: int| 0 <= j < at implies a[j] == b[j] by {
            if j > 0 {
                assert(a.skip(1)[j - 1] == b.skip(1)[j - 1]);
            }
        }
        at
    }
}

/// The keeper, first in the ranking, is outranked by no member.
pub proof fn law_keeper_is_outranked_by_none(order: Seq<usize>, ranks: Seq<Rank>, i: usize)
    requires
        is_ranking(order, ranks),
        0 <= i < ranks.len() <= usize::MAX,
    ensures
        !outranks(ranks[i as int], ranks[order[0] as int]),
{
    law_ranking_lists_each_member_once(order, ranks);
    assert(order.contains(i));
    let k = order.index_of(i);
    assert(order[k] == i);
    if k > 0 {
        assert(goes_ahead(ranks, order[0] as int, order[k] as int));
        lemma_goes_ahead(ranks, order[0] as int, order[k] as int, order[0] as int);
        lemma_created_order(ranks[i as int].created, ranks[order[0] as int].created, ranks[i as int].created);
    } else {
        lemma_created_order(ranks[i as int].created, ranks[i as int].created, ranks[i as int].created);
    }
}

} // verus!
