//! Folding groups of duplicate rows onto the one that is kept.
//!
//! The groups are taken one after the other. For each member of a group the
//! counts it is ranked by are asked for; then every member but the first of the
//! ranking is folded onto that one.

use vstd::prelude::*;

use crate::adoption_repairs::ranking::{rank_order, Rank};
use crate::adoption_repairs::ranking;
use crate::adoption_repairs::request::{Request, Rewrite};
use crate::adoption_repairs::transaction;
use crate::adoption_repairs::transaction::capped_sum;
use crate::text;

verus! {

/// What is folded, which settles how members are ranked and folded.
#[derive(Debug, Clone, Copy, PartialEq, Eq, Structural)]
pub enum FoldKind {
    /// Items that share a path.
    Paths,
    /// Music artists whose names differ in case only.
    Artists,
    /// Person items whose names differ in case only.
    Persons,
    /// People whose names differ in case only, with their credits.
    People,
}

/// A row that may be folded.
#[derive(Debug)]
pub struct FoldRow {
    pub id: String,
    pub created: Option<String>,
    /// Whether it is a plain folder.
    pub is_folder: bool,
    /// How many credits it has.
    pub credits: i64,
}

impl FoldKind {
    /// How many counts are asked for of each member.
    pub open spec fn spec_width(self) -> int {
        match self {
            FoldKind::Paths => 2,
            FoldKind::Artists | FoldKind::Persons => 4,
            FoldKind::People => 0,
        }
    }

    fn width(self) -> (width: usize)
        ensures
            width == self.spec_width(),
    {
        match self {
            FoldKind::Paths => 2,
            FoldKind::Artists | FoldKind::Persons => 4,
            FoldKind::People => 0,
        }
    }

    /// The question for count `n` of a member.
    pub open spec fn spec_question(self, id: String, n: int) -> Request {
        if self is Paths {
            if n == 0 { Request::CountChildren(id) } else { Request::CountOwned(id) }
        } else if n == 0 {
            Request::CountChildren(id)
        } else if n == 1 {
            Request::CountDescendants(id)
        } else if n == 2 {
            Request::CountLinks(id)
        } else {
            Request::CountUserData(id)
        }
    }

    fn question(self, id: &String, n: usize) -> (request: Request)
        ensures
            request == self.spec_question(*id, n as int),
    {
        match self {
            FoldKind::Paths => if n == 0 {
                Request::CountChildren(id.clone())
            } else {
                Request::CountOwned(id.clone())
            },
            _ => if n == 0 {
                Request::CountChildren(id.clone())
            } else if n == 1 {
                Request::CountDescendants(id.clone())
            } else if n == 2 {
                Request::CountLinks(id.clone())
            } else {
                Request::CountUserData(id.clone())
            },
        }
    }

    /// What a member is ranked by, from the counts that were asked for.
    ///
    /// Of items that share a path the one with children is kept, else one that
    /// owns extras, else one that is no plain folder. An artist goes by its
    /// children, descendants and links, a person item by its user data and
    /// links, then each by age. People go by their credits.
    pub open spec fn spec_rank(self, row: FoldRow, counts: Seq<i64>) -> Rank {
        match self {
            FoldKind::Paths => Rank {
                first: if counts[0] > 0 { 1 } else { 0 },
                second: if counts[1] > 0 { 1 } else { 0 },
                third: if row.is_folder { 0 } else { 1 },
                created: None,
            },
            FoldKind::Artists => Rank {
                first: counts[0],
                second: counts[1],
                third: counts[2],
                created: row.created,
            },
            FoldKind::Persons => Rank {
                first: counts[3],
                second: counts[2],
                third: 0,
                created: row.created,
            },
            FoldKind::People => Rank { first: row.credits, second: 0, third: 0, created: None },
        }
    }

    fn rank(self, row: &FoldRow, counts: &Vec<i64>) -> (rank: Rank)
        requires
            counts@.len() >= self.spec_width(),
        ensures
            rank == self.spec_rank(*row, counts@),
    {
        let created: Option<String> = text::copy_optional(&row.created);
        match self {
            FoldKind::Paths => Rank {
                first: if counts[0] > 0 { 1 } else { 0 },
                second: if counts[1] > 0 { 1 } else { 0 },
                third: if row.is_folder { 0 } else { 1 },
                created: None,
            },
            FoldKind::Artists => Rank {
                first: counts[0],
                second: counts[1],
                third: counts[2],
                created,
            },
            FoldKind::Persons => Rank { first: counts[3], second: counts[2], third: 0, created },
            FoldKind::People => Rank { first: row.credits, second: 0, third: 0, created: None },
        }
    }

    /// The requests that fold `duplicate` onto `keeper`.
    pub open spec fn spec_fold_one(self, duplicate: String, keeper: String) -> Seq<Request> {
        match self {
            FoldKind::Paths => seq![
                Request::DeleteLinksOf(duplicate),
                Request::ReleaseOwnedBy(duplicate),
                Request::DeleteItem(duplicate),
            ],
            FoldKind::Artists | FoldKind::Persons => repointing(duplicate, keeper).push(
                Request::DeleteItem(duplicate),
            ),
            FoldKind::People => seq![
                Request::DropSharedCredits { duplicate, keeper },
                Request::MoveCredits { duplicate, keeper },
                Request::DeletePerson(duplicate),
            ],
        }
    }

    fn fold_one(self, duplicate: &String, keeper: &String, block: &mut Vec<Request>)
        ensures
            final(block)@ == old(block)@ + self.spec_fold_one(*duplicate, *keeper),
    {
        match self {
            FoldKind::Paths => {
                block.push(Request::DeleteLinksOf(duplicate.clone()));
                block.push(Request::ReleaseOwnedBy(duplicate.clone()));
                block.push(Request::DeleteItem(duplicate.clone()));
            },
            FoldKind::Artists | FoldKind::Persons => {
                repoint_references(duplicate, keeper, block);
                block.push(Request::DeleteItem(duplicate.clone()));
            },
            FoldKind::People => {
                block.push(
                    Request::DropSharedCredits {
                        duplicate: duplicate.clone(),
                        keeper: keeper.clone(),
                    },
                );
                block.push(
                    Request::MoveCredits { duplicate: duplicate.clone(), keeper: keeper.clone() },
                );
                block.push(Request::DeletePerson(duplicate.clone()));
            },
        }
    }
}

/// The rewrites in the order in which they are made: of each kind of reference
/// first the rows that the keeper has as well are dropped, then the rest moved.
pub open spec fn rewrites() -> Seq<Rewrite> {
    seq![
        Rewrite::MoveChildren,
        Rewrite::MoveOwned,
        Rewrite::DropSharedDescendants,
        Rewrite::MoveDescendants,
        Rewrite::DropSharedMembers,
        Rewrite::MoveMembers,
        Rewrite::DropSharedMemberships,
        Rewrite::MoveMemberships,
        Rewrite::DropSharedUserData,
        Rewrite::MoveUserData,
    ]
}

/// The requests that move every reference from `duplicate` to `keeper`.
pub open spec fn repointing(duplicate: String, keeper: String) -> Seq<Request> {
    rewrites().map_values(|rewrite: Rewrite| Request::Repoint { rewrite, duplicate, keeper })
}

/// Appends the requests that move every reference from `duplicate` to `keeper`.
pub fn repoint_references(duplicate: &String, keeper: &String, block: &mut Vec<Request>)
    ensures
        final(block)@ == old(block)@ + repointing(*duplicate, *keeper),
{
    let order: [Rewrite; 10] = [
        Rewrite::MoveChildren,
        Rewrite::MoveOwned,
        Rewrite::DropSharedDescendants,
        Rewrite::MoveDescendants,
        Rewrite::DropSharedMembers,
        Rewrite::MoveMembers,
        Rewrite::DropSharedMemberships,
        Rewrite::MoveMemberships,
        Rewrite::DropSharedUserData,
        Rewrite::MoveUserData,
    ];
    assert(order@ =~= rewrites());
    for i in 0..10usize
        invariant
            order@ == rewrites(),
            block@ == old(block)@ + repointing(*duplicate, *keeper).take(i as int),
    {
        let rewrite: Rewrite = order[i];
        block.push(Request::Repoint { rewrite, duplicate: duplicate.clone(), keeper: keeper.clone() });
        assert(repointing(*duplicate, *keeper).take(i + 1) =~= repointing(*duplicate, *keeper).take(
            i as int,
        ).push(repointing(*duplicate, *keeper)[i as int]));
    }
    assert(repointing(*duplicate, *keeper).take(10) =~= repointing(*duplicate, *keeper));
}

/// The ids of a group in the order of its ranking.
pub open spec fn ranked_ids(rows: Seq<FoldRow>, group: Seq<usize>, ranks: Seq<Rank>) -> Seq<String> {
    ranking::ranking(ranks).map_values(|position: usize| rows[group[position as int] as int].id)
}

/// The requests that fold all but the first of `ids` onto that one, in order.
pub open spec fn folding(kind: FoldKind, ids: Seq<String>) -> Seq<Request>
    decreases ids.len(),
{
    if ids.len() <= 1 {
        Seq::empty()
    } else {
        folding(kind, ids.drop_last()) + kind.spec_fold_one(ids.last(), ids[0])
    }
}

/// How far the folding has come.
#[verifier::ext_equal]
pub struct FoldState {
    pub kind: FoldKind,
    pub rows: Seq<FoldRow>,
    pub groups: Seq<Vec<usize>>,
    /// The group that is being ranked.
    pub at: int,
    /// The ranks of its first members.
    pub ranks: Seq<Rank>,
    /// The counts known of the next member.
    pub counts: Seq<i64>,
    /// How many rows have been folded.
    pub folded: int,
}

impl FoldState {
    /// Whether the groups list rows, and a group is being ranked within its bounds.
    pub open spec fn well_formed(self) -> bool {
        &&& 0 <= self.at <= self.groups.len()
        &&& 0 <= self.folded <= usize::MAX
        &&& self.ranks.len() <= if self.at < self.groups.len() {
            self.groups[self.at]@.len()
        } else {
            0
        }
        &&& self.counts.len() <= self.kind.spec_width()
        &&& forall|g: int, m: int|
            0 <= g < self.groups.len() && 0 <= m < self.groups[g]@.len()
                ==> #[trigger] self.groups[g]@[m] < self.rows.len()
    }

    /// Whether every group has been folded.
    pub open spec fn is_over(self) -> bool {
        self.at >= self.groups.len()
    }

    /// Goes on as far as nothing has to be asked: the state then reached, and
    /// the requests made on the way, the last of them the question that is
    /// open unless the folding is over.
    pub open spec fn resumed(self) -> (FoldState, Seq<Request>)
        decreases
            self.groups.len() - self.at,
            self.groups[self.at]@.len() - self.ranks.len(),
    {
        if self.is_over() {
            (self, Seq::empty())
        } else {
            let group = self.groups[self.at]@;
            if self.ranks.len() < group.len() {
                let row = self.rows[group[self.ranks.len() as int] as int];
                if self.counts.len() < self.kind.spec_width() {
                    (self, seq![self.kind.spec_question(row.id, self.counts.len() as int)])
                } else {
                    let rank = self.kind.spec_rank(row, self.counts);
                    FoldState {
                        ranks: self.ranks.push(rank),
                        counts: Seq::empty(),
                        ..self
                    }.resumed()
                }
            } else {
                let then = self.next_group().resumed();
                (then.0, folding(self.kind, ranked_ids(self.rows, group, self.ranks)) + then.1)
            }
        }
    }

    /// The state behind the folding of a group.
    pub open spec fn next_group(self) -> FoldState {
        let size = self.groups[self.at]@.len();
        FoldState {
            at: self.at + 1,
            ranks: Seq::empty(),
            counts: Seq::empty(),
            folded: transaction::capped(self.folded + if size > 0 { size - 1 } else { 0 }),
            ..self
        }
    }
}

/// Groups of duplicates on their way to be folded.
#[derive(Debug)]
pub struct Fold {
    pub kind: FoldKind,
    pub rows: Vec<FoldRow>,
    pub groups: Vec<Vec<usize>>,
    pub at: usize,
    pub ranks: Vec<Rank>,
    pub counts: Vec<i64>,
    pub folded: usize,
}

impl View for Fold {
    type V = FoldState;

    open spec fn view(&self) -> FoldState {
        FoldState {
            kind: self.kind,
            rows: self.rows@,
            groups: self.groups@,
            at: self.at as int,
            ranks: self.ranks@,
            counts: self.counts@,
            folded: self.folded as int,
        }
    }
}

/// The state in which a folding starts.
pub open spec fn fold_start(kind: FoldKind, rows: Seq<FoldRow>, groups: Seq<Vec<usize>>) -> FoldState {
    FoldState {
        kind,
        rows,
        groups,
        at: 0,
        ranks: Seq::empty(),
        counts: Seq::empty(),
        folded: 0,
    }
}

impl Fold {
    /// A folding that has not begun.
    pub fn new(kind: FoldKind, rows: Vec<FoldRow>, groups: Vec<Vec<usize>>) -> (fold: Fold)
        ensures
            fold@ == fold_start(kind, rows@, groups@),
    {
        Fold { kind, rows, groups, at: 0, ranks: Vec::new(), counts: Vec::new(), folded: 0 }
    }

    /// Takes the answer to the open question.
    pub fn take_count(&mut self, count: i64)
        ensures
            final(self)@ == (FoldState { counts: old(self)@.counts.push(count), ..old(self)@ }),
    {
        self.counts.push(count);
    }

    /// Goes on until a question is open or the folding is over, appending the
    /// requests to `block`.
    pub fn resume(&mut self, block: &mut Vec<Request>) -> (is_over: bool)
        requires
            old(self)@.well_formed(),
        ensures
            final(self)@.well_formed(),
            final(self)@ == old(self)@.resumed().0,
            final(block)@ == old(block)@ + old(self)@.resumed().1,
            is_over == final(self)@.is_over(),
    {
        let width: usize = self.kind.width();
        while self.at < self.groups.len()
            invariant
                width == self.kind.spec_width(),
                self@.well_formed(),
                self@.resumed().0 == old(self)@.resumed().0,
                block@ + self@.resumed().1 == old(block)@ + old(self)@.resumed().1,
            decreases
                self.groups@.len() - self.at,
                self@.groups[self@.at]@.len() - self.ranks@.len(),
        {
            let ghost before = self@;
            let ghost block_before = block@;
            let known: usize = self.ranks.len();
            if known < self.groups[self.at].len() {
                let row: usize = self.groups[self.at][known];
                if self.counts.len() < width {
                    block.push(self.kind.question(&self.rows[row].id, self.counts.len()));
                    proof {
                        assert(self@ == before);
                        assert(block@ =~= block_before + before.resumed().1);
                    }
                    return false;
                }
                let rank: Rank = self.kind.rank(&self.rows[row], &self.counts);
                self.ranks.push(rank);
                self.counts = Vec::new();
                assert(self@ =~= FoldState {
                    ranks: before.ranks.push(before.kind.spec_rank(before.rows[row as int], before.counts)),
                    counts: Seq::empty(),
                    ..before
                });
            } else {
                let order: Vec<usize> = rank_order(&self.ranks);
                let size: usize = self.groups[self.at].len();
                let ghost ids = ranked_ids(before.rows, before.groups[before.at]@, before.ranks);
                let mut k: usize = 1;
                assert(ids.len() > 0 ==> block_before + folding(before.kind, ids.take(1))
                    =~= block_before);
                while k < order.len()
                    invariant
                        1 <= k,
                        k <= order@.len() || order@.len() == 0,
                        self@ == before,
                        before.well_formed(),
                        before.at < before.groups.len(),
                        before.ranks.len() == before.groups[before.at]@.len(),
                        order@ == ranking::ranking(before.ranks),
                        ranking::is_ranking(order@, before.ranks),
                        ids == ranked_ids(before.rows, before.groups[before.at]@, before.ranks),
                        order@.len() == 0 ==> block@ == block_before,
                        order@.len() > 0 ==> block@ == block_before + folding(
                            before.kind,
                            ids.take(k as int),
                        ),
                    decreases order@.len() - k,
                {
                    let keeper: usize = self.groups[self.at][order[0]];
                    let duplicate: usize = self.groups[self.at][order[k]];
                    self.kind.fold_one(&self.rows[duplicate].id, &self.rows[keeper].id, block);
                    proof {
                        assert(ids.take(k + 1).drop_last() =~= ids.take(k as int));
                        assert(ids[0] == before.rows[keeper as int].id);
                        assert(ids.take(k + 1).last() == before.rows[duplicate as int].id);
                    }
                    k = k + 1;
                }
                proof {
                    if order@.len() > 0 {
                        assert(ids.take(order@.len() as int) =~= ids);
                    }
                    assert(block@ =~= block_before + folding(before.kind, ids));
                }
                self.at = self.at + 1;
                self.ranks = Vec::new();
                self.counts = Vec::new();
                self.folded = capped_sum(self.folded, if size > 0 { size - 1 } else { 0 });
                proof {
                    assert(self@ =~= before.next_group());
                    assert(block@ + self@.resumed().1 =~= block_before + before.resumed().1);
                }
            }
        }
        assert(block@ + self@.resumed().1 =~= block@);
        true
    }
}

/// Folding rows onto another stays within the transaction, and takes away each
/// row but the one that is kept.
pub proof fn law_folding_takes_all_but_one(kind: FoldKind, ids: Seq<String>)
    ensures
        transaction::open_after_all(true, folding(kind, ids)) == Some(true),
        transaction::deletions(folding(kind, ids)) == if ids.len() > 0 { ids.len() - 1 } else { 0 },
        transaction::appended_links(folding(kind, ids)) == 0,
    decreases ids.len(),
{
    reveal_with_fuel(transaction::open_after_all, 4);
    reveal_with_fuel(transaction::deletions, 4);
    reveal_with_fuel(transaction::appended_links, 4);
    if ids.len() > 1 {
        law_folding_takes_all_but_one(kind, ids.drop_last());
        let one = kind.spec_fold_one(ids.last(), ids[0]);
        transaction::lemma_runs_join(true, folding(kind, ids.drop_last()), one);
        if kind is Artists || kind is Persons {
            let rewriting = repointing(ids.last(), ids[0]);
            lemma_repointing(ids.last(), ids[0], 10);
            assert(rewriting.take(10) =~= rewriting);
            assert(one.drop_last() =~= rewriting);
        } else {
            assert(one.drop_last().drop_last().drop_last() =~= Seq::<Request>::empty());
        }
    }
}

/// Going on with a folding stays within the transaction, counts every row that
/// it takes away, and leaves a question open or the folding over.
pub proof fn law_resuming_counts_deletions(state: FoldState)
    requires
        state.well_formed(),
    ensures
        transaction::open_after_all(true, state.resumed().1) == Some(true),
        state.resumed().0.folded == transaction::capped(
            state.folded + transaction::deletions(state.resumed().1),
        ),
        transaction::appended_links(state.resumed().1) == 0,
        state.resumed().0.well_formed(),
        state.resumed().0.kind == state.kind,
        state.resumed().0.rows == state.rows,
        state.resumed().0.groups == state.groups,
        !state.resumed().0.is_over() ==> {
            &&& state.resumed().0.counts.len() < state.kind.spec_width()
            &&& state.resumed().1.len() > 0
            &&& !(state.resumed().1.last() is Finish)
        },
    decreases state.groups.len() - state.at, state.groups[state.at]@.len() - state.ranks.len(),
{
    reveal_with_fuel(transaction::open_after_all, 2);
    reveal_with_fuel(transaction::deletions, 2);
    reveal_with_fuel(transaction::appended_links, 2);
    if !state.is_over() {
        let group = state.groups[state.at]@;
        if state.ranks.len() < group.len() {
            let row = state.rows[group[state.ranks.len() as int] as int];
            if state.counts.len() < state.kind.spec_width() {
                assert(state.resumed().1.drop_last() =~= Seq::<Request>::empty());
            } else {
                law_resuming_counts_deletions(
                    FoldState {
                        ranks: state.ranks.push(state.kind.spec_rank(row, state.counts)),
                        counts: Seq::empty(),
                        ..state
                    },
                );
            }
        } else {
            let ids = ranked_ids(state.rows, group, state.ranks);
            assert(state.ranks.len() == state.groups[state.at].len());
            ranking::law_ranking_exists(state.ranks);
            law_folding_takes_all_but_one(state.kind, ids);
            law_resuming_counts_deletions(state.next_group());
            transaction::lemma_runs_join(
                true,
                folding(state.kind, ids),
                state.next_group().resumed().1,
            );
            transaction::lemma_counts_are_natural(state.next_group().resumed().1);
        }
    }
}

proof fn lemma_repointing(duplicate: String, keeper: String, n: int)
    requires
        0 <= n <= 10,
    ensures
        transaction::open_after_all(true, repointing(duplicate, keeper).take(n)) == Some(true),
        transaction::deletions(repointing(duplicate, keeper).take(n)) == 0,
        transaction::appended_links(repointing(duplicate, keeper).take(n)) == 0,
    decreases n,
{
    let all = repointing(duplicate, keeper);
    if n > 0 {
        lemma_repointing(duplicate, keeper, n - 1);
        assert(all.take(n).drop_last() =~= all.take(n - 1));
        assert(all.take(n).last() == all[n - 1]);
    }
}

} // verus!
