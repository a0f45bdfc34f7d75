//! Removing the extras whose owner no longer exists.

use vstd::prelude::*;

use crate::adoption_repairs::request::{RepairKey, Reply, Request};
use crate::adoption_repairs::tables;
use crate::adoption_repairs::tables::Tables;
use crate::adoption_repairs::transaction;

verus! {

/// What the repair waits for.
#[derive(Debug, Clone, Copy, PartialEq, Eq, Structural)]
pub enum Stage {
    Marker,
    Items,
    Over,
}

/// The requests that take the items away, each after every link from or to it.
pub open spec fn removing(ids: Seq<String>) -> Seq<Request>
    decreases ids.len(),
{
    if ids.len() == 0 {
        Seq::empty()
    } else {
        removing(ids.drop_last()) + seq![
            Request::DeleteLinksOf(ids.last()),
            Request::DeleteItem(ids.last()),
        ]
    }
}

impl Stage {
    /// Whether `next` and `block` are what follows the reply.
    pub open spec fn follows(self, reply: Reply, next: Stage, block: Seq<Request>) -> bool {
        match (self, reply) {
            (Stage::Marker, Reply::Marker(found)) => if found is Some {
                next == Stage::Over && block == seq![Request::Finish(0)]
            } else {
                next == Stage::Items && block == seq![Request::SelectPlaceholderOwned]
            },
            (Stage::Items, Reply::Items(ids)) => {
                &&& next == Stage::Over
                &&& block == seq![Request::Begin] + removing(ids@) + transaction::closing(
                    RepairKey::CleanupOrphanedExtras,
                    ids@.len() as int,
                )
            },
            _ => next == Stage::Over && block == seq![Request::Reject],
        }
    }
}

/// The repair that removes every item owned by the placeholder, which dangling
/// owners were pointed at.
#[derive(Debug)]
pub struct CleanupExtras {
    pub stage: Stage,
}

impl CleanupExtras {
    /// The repair, waiting for the answer to its first request,
    /// [`Request::ReadMarker`].
    pub fn new() -> (repair: CleanupExtras)
        ensures
            repair.stage == Stage::Marker,
    {
        CleanupExtras { stage: Stage::Marker }
    }

    /// Takes the reply to the last request of the block before, and gives the
    /// next block.
    pub fn answer(self, reply: Reply) -> (step: (CleanupExtras, Vec<Request>))
        ensures
            self.stage.follows(reply, step.0.stage, step.1@),
            step.1@.len() > 0,
    {
        let mut block: Vec<Request> = Vec::new();
        let stage: Stage = match (self.stage, reply) {
            (Stage::Marker, Reply::Marker(found)) => {
                if found.is_some() {
                    block.push(Request::Finish(0));
                    Stage::Over
                } else {
                    block.push(Request::SelectPlaceholderOwned);
                    Stage::Items
                }
            },
            (Stage::Items, Reply::Items(ids)) => {
                block.push(Request::Begin);
                assert(block@ =~= seq![Request::Begin] + removing(ids@.take(0)));
                for i in 0..ids.len()
                    invariant
                        block@ == seq![Request::Begin] + removing(ids@.take(i as int)),
                {
                    block.push(Request::DeleteLinksOf(ids[i].clone()));
                    block.push(Request::DeleteItem(ids[i].clone()));
                    assert(ids@.take(i + 1).drop_last() =~= ids@.take(i as int));
                    assert(block@ =~= seq![Request::Begin] + removing(ids@.take(i + 1)));
                }
                assert(ids@.take(ids@.len() as int) =~= ids@);
                transaction::close(RepairKey::CleanupOrphanedExtras, ids.len(), &mut block);
                Stage::Over
            },
            _ => {
                block.push(Request::Reject);
                Stage::Over
            },
        };
        (CleanupExtras { stage }, block)
    }
}

proof fn lemma_removing(ids: Seq<String>)
    ensures
        transaction::open_after_all(true, removing(ids)) == Some(true),
        transaction::deletions(removing(ids)) == ids.len(),
    decreases ids.len(),
{
    if ids.len() > 0 {
        lemma_removing(ids.drop_last());
        let id = ids.last();
        let one = seq![Request::DeleteLinksOf(id), Request::DeleteItem(id)];
        assert(one =~= seq![Request::DeleteLinksOf(id)] + seq![Request::DeleteItem(id)]);
        transaction::lemma_single(true, Request::DeleteLinksOf(id));
        transaction::lemma_single(true, Request::DeleteItem(id));
        transaction::lemma_runs_join(
            true,
            seq![Request::DeleteLinksOf(id)],
            seq![Request::DeleteItem(id)],
        );
        transaction::lemma_runs_join(true, removing(ids.drop_last()), one);
    }
}

/// Every row that is taken away is counted in the report, and rows change
/// within one transaction only; no transaction is left open.
pub proof fn law_cleanup_reports_what_it_removes(
    stage: Stage,
    reply: Reply,
    next: Stage,
    block: Seq<Request>,
)
    requires
        stage.follows(reply, next, block),
    ensures
        transaction::open_after_all(false, block) == Some(false),
        block.last() matches Request::Finish(n) ==> n == transaction::deletions(block),
{
    match (stage, reply) {
        (Stage::Items, Reply::Items(ids)) => {
            let key = RepairKey::CleanupOrphanedExtras;
            let begin = seq![Request::Begin];
            assert(ids@.len() == ids.len());
            lemma_removing(ids@);
            transaction::lemma_single(false, Request::Begin);
            transaction::lemma_closing(key, ids@.len() as int);
            transaction::lemma_runs_join(false, begin, removing(ids@));
            transaction::lemma_runs_join(
                false,
                begin + removing(ids@),
                transaction::closing(key, ids@.len() as int),
            );
        },
        _ => {
            transaction::lemma_single(false, block[0]);
            assert(block =~= seq![block[0]]);
        },
    }
}

/// Whether `id` is one of `ids`.
pub open spec fn is_among(ids: Seq<String>, id: Seq<char>) -> bool {
    exists|i: int| 0 <= i < ids.len() && (#[trigger] ids[i])@ == id
}

/// The tables without the items.
proof fn lemma_removed(tables: Tables, ids: Seq<String>)
    ensures
        ({
            let after = tables.after_all(removing(ids));
            &&& forall|r: int| #[trigger]
                after.items.contains_key(r) <==> tables.items.contains_key(r) && !is_among(
                    ids,
                    tables.items[r].id,
                )
            &&& forall|r: int| #[trigger]
                after.items.contains_key(r) ==> after.items[r] == tables.items[r]
            &&& forall|r: int| #[trigger]
                after.links.contains_key(r) <==> tables.links.contains_key(r) && !is_among(
                    ids,
                    tables.links[r].parent,
                ) && !is_among(ids, tables.links[r].child)
            &&& forall|r: int| #[trigger]
                after.links.contains_key(r) ==> after.links[r] == tables.links[r]
            &&& after.ancestors == tables.ancestors
            &&& after.user_data == tables.user_data
            &&& after.people == tables.people
            &&& after.credits == tables.credits
        }),
    decreases ids.len(),
{
    if ids.len() > 0 {
        let shorter = ids.drop_last();
        let id = ids.last();
        let one = seq![Request::DeleteLinksOf(id), Request::DeleteItem(id)];
        let mid = tables.after_all(removing(shorter));
        let after = tables.after_all(removing(ids));
        lemma_removed(tables, shorter);
        tables::lemma_after_joined(tables, removing(shorter), one);
        reveal_with_fuel(Tables::after_all, 3);
        assert(one.drop_last().drop_last() =~= Seq::<Request>::empty());
        assert forall|other: Seq<char>| #[trigger]
            is_among(ids, other) <==> is_among(shorter, other) || other == id@ by {
            if is_among(ids, other) {
                let i = choose|i: int| 0 <= i < ids.len() && (#[trigger] ids[i])@ == other;
                if i < shorter.len() {
                    assert(shorter[i]@ == other);
                }
            }
            if is_among(shorter, other) {
                let i = choose|i: int| 0 <= i < shorter.len() && (#[trigger] shorter[i])@ == other;
                assert(ids[i]@ == other);
            }
            if other == id@ {
                assert(ids[ids.len() - 1]@ == other);
            }
        }
        assert forall|r: int| #[trigger] after.items.contains_key(r) <==> mid.items.contains_key(r)
            && mid.items[r].id != id@ by {}
        assert forall|r: int| #[trigger] after.links.contains_key(r) <==> mid.links.contains_key(r)
            && mid.links[r].parent != id@ && mid.links[r].child != id@ by {}
        assert forall|r: int| tables.items.contains_key(r) && !is_among(
            ids,
            tables.items[r].id,
        ) implies #[trigger] after.items.contains_key(r) by {
            assert(mid.items.contains_key(r));
        }
        assert forall|r: int| tables.links.contains_key(r) && !is_among(
            ids,
            tables.links[r].parent,
        ) && !is_among(ids, tables.links[r].child) implies #[trigger] after.links.contains_key(r) by {
            assert(mid.links.contains_key(r));
        }
    }
}

/// Of the items that were found each is taken away, with every link from and to
/// it; no other item or link is, and nothing else changes.
pub proof fn law_cleanup_removes_what_was_found(
    ids: Vec<String>,
    next: Stage,
    block: Seq<Request>,
    tables: Tables,
)
    requires
        Stage::Items.follows(Reply::Items(ids), next, block),
    ensures
        ({
            let after = tables.after_all(block);
            &&& forall|r: int| #[trigger]
                after.items.contains_key(r) <==> tables.items.contains_key(r) && !is_among(
                    ids@,
                    tables.items[r].id,
                )
            &&& forall|r: int| #[trigger]
                after.items.contains_key(r) ==> after.items[r] == tables.items[r]
            &&& forall|r: int| #[trigger]
                after.links.contains_key(r) <==> tables.links.contains_key(r) && !is_among(
                    ids@,
                    tables.links[r].parent,
                ) && !is_among(ids@, tables.links[r].child)
            &&& forall|r: int| #[trigger]
                after.links.contains_key(r) ==> after.links[r] == tables.links[r]
            &&& after.ancestors == tables.ancestors
            &&& after.user_data == tables.user_data
            &&& after.people == tables.people
            &&& after.credits == tables.credits
        }),
        block.last() matches Request::Finish(n) && n == ids@.len(),
{
    let closing = transaction::closing(RepairKey::CleanupOrphanedExtras, ids@.len() as int);
    let begin = seq![Request::Begin];
    assert(ids@.len() == ids.len());
    tables::lemma_after_joined(tables, begin, removing(ids@));
    tables::lemma_after_joined(tables, begin + removing(ids@), closing);
    lemma_removed(tables, ids@);
    reveal_with_fuel(Tables::after_all, 4);
    assert(begin.drop_last() =~= Seq::<Request>::empty());
    assert(closing.drop_last().drop_last().drop_last() =~= Seq::<Request>::empty());
}

} // verus!
