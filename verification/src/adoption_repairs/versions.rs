//! Writing the links of version groups that are known by their primary version
//! alone.

use vstd::prelude::*;

use crate::adoption_repairs::request::{
    ItemId, RepairKey, Reply, Request, VersionPair, LINKED_ALTERNATE_VERSION,
    LOCAL_ALTERNATE_VERSION,
};
use crate::adoption_repairs::tables;
use crate::adoption_repairs::tables::Tables;
use crate::adoption_repairs::transaction;
use crate::adoption_repairs::transaction::capped_sum;
use crate::outside;
use crate::text;

verus! {

/// The type of the link between two versions: local where their files lie in
/// the same directory.
pub open spec fn link_type(version: Option<String>, primary: Option<String>) -> i64 {
    if version is Some && primary is Some && version->0@ == primary->0@ {
        LOCAL_ALTERNATE_VERSION
    } else {
        LINKED_ALTERNATE_VERSION
    }
}

/// Executable [`link_type`].
pub fn alternate_version_type(version: &Option<String>, primary: &Option<String>) -> (child_type:
    i64)
    ensures
        child_type == link_type(*version, *primary),
{
    match (version, primary) {
        (Some(a), Some(b)) => if text::same_text(a.as_str(), b.as_str()) {
            LOCAL_ALTERNATE_VERSION
        } else {
            LINKED_ALTERNATE_VERSION
        },
        _ => LINKED_ALTERNATE_VERSION,
    }
}

/// The ids of a pair, where both are UUIDs.
pub open spec fn pair_ids(pair: VersionPair) -> Option<(u128, u128)> {
    match (outside::uuid_value(pair.child@), outside::uuid_value(pair.primary@)) {
        (Some(version), Some(primary)) => Some((version, primary)),
        _ => None,
    }
}

/// The first pair from `at` on whose ids are UUIDs.
pub open spec fn next_pair(pairs: Seq<VersionPair>, at: int) -> int
    decreases pairs.len() - at,
{
    if at >= pairs.len() || pair_ids(pairs[at]) is Some {
        at
    } else {
        next_pair(pairs, at + 1)
    }
}

/// What the repair waits for.
pub enum VersionsStage {
    Marker,
    Pairs,
    /// The directories of pair `at`; with the links written before.
    Linking { pairs: Seq<VersionPair>, at: int, written: int },
    Over,
}

impl VersionsStage {
    pub open spec fn well_formed(self) -> bool {
        match self {
            VersionsStage::Linking { pairs, at, written } => {
                &&& 0 <= at < pairs.len()
                &&& pair_ids(pairs[at]) is Some
                &&& 0 <= written <= usize::MAX
            },
            _ => true,
        }
    }

    /// Whether a transaction is open while it waits.
    pub open spec fn is_open(self) -> bool {
        self is Linking
    }

    /// How many links it has written.
    pub open spec fn written(self) -> int {
        match self {
            VersionsStage::Linking { written, .. } => written,
            _ => 0,
        }
    }

    /// What follows once the pairs before `at` have been dealt with.
    pub open spec fn going(pairs: Seq<VersionPair>, at: int, written: int) -> (
        VersionsStage,
        Seq<Request>,
    ) {
        let next = next_pair(pairs, at);
        if next >= pairs.len() {
            (
                VersionsStage::Over,
                transaction::closing(RepairKey::AlternateVersionLinks, written),
            )
        } else {
            let ids = pair_ids(pairs[next])->0;
            (
                VersionsStage::Linking { pairs, at: next, written },
                seq![Request::ReadDirectories { version: ids.0, primary: ids.1 }],
            )
        }
    }

    /// Whether `next` and `block` are what follows the reply.
    pub open spec fn follows(self, reply: Reply, next: VersionsStage, block: Seq<Request>) -> bool {
        match (self, reply) {
            (VersionsStage::Marker, Reply::Marker(found)) => if found is Some {
                next == VersionsStage::Over && block == seq![Request::Finish(0)]
            } else {
                next == VersionsStage::Pairs && block == seq![Request::SelectUnlinkedVersions]
            },
            (VersionsStage::Pairs, Reply::Versions(pairs)) => {
                let going = VersionsStage::going(pairs@, 0, 0);
                next == going.0 && block == seq![Request::Begin] + going.1
            },
            (
                VersionsStage::Linking { pairs, at, written },
                Reply::Directories { version, primary },
            ) => {
                let going = VersionsStage::going(pairs, at + 1, transaction::capped(written + 1));
                let link = Request::AppendLink {
                    parent: pairs[at].primary,
                    child: ItemId::Stored(pairs[at].child),
                    child_type: link_type(version, primary),
                };
                next == going.0 && block == seq![link] + going.1
            },
            _ => next == VersionsStage::Over && block == seq![Request::Reject],
        }
    }
}

/// The stage that [`BackfillVersions`] has reached.
#[derive(Debug)]
pub enum Stage {
    Marker,
    Pairs,
    Linking { pairs: Vec<VersionPair>, at: usize, written: usize },
    Over,
}

impl View for Stage {
    type V = VersionsStage;

    open spec fn view(&self) -> VersionsStage {
        match self {
            Stage::Marker => VersionsStage::Marker,
            Stage::Pairs => VersionsStage::Pairs,
            Stage::Linking { pairs, at, written } => VersionsStage::Linking {
                pairs: pairs@,
                at: *at as int,
                written: *written as int,
            },
            Stage::Over => VersionsStage::Over,
        }
    }
}

/// The repair that links every version to the primary that it names: as a local
/// version where the two files lie in one directory, else as a linked one.
/// Versions that are linked already are not among the pairs it is given.
#[derive(Debug)]
pub struct BackfillVersions {
    pub stage: Stage,
}

impl BackfillVersions {
    /// The repair, waiting for the answer to its first request,
    /// [`Request::ReadMarker`].
    pub fn new() -> (repair: BackfillVersions)
        ensures
            repair.stage@ == VersionsStage::Marker,
            repair.stage@.well_formed(),
    {
        BackfillVersions { stage: Stage::Marker }
    }

    /// Takes the reply to the last request of the block before, and gives the
    /// next block.
    pub fn answer(self, reply: Reply) -> (step: (BackfillVersions, Vec<Request>))
        requires
            self.stage@.well_formed(),
        ensures
            self.stage@.follows(reply, step.0.stage@, step.1@),
            step.0.stage@.well_formed(),
            step.1@.len() > 0,
    {
        let mut block: Vec<Request> = Vec::new();
        match (self.stage, reply) {
            (Stage::Marker, Reply::Marker(found)) => {
                if found.is_some() {
                    block.push(Request::Finish(0));
                    (BackfillVersions { stage: Stage::Over }, block)
                } else {
                    block.push(Request::SelectUnlinkedVersions);
                    (BackfillVersions { stage: Stage::Pairs }, block)
                }
            },
            (Stage::Pairs, Reply::Versions(pairs)) => {
                block.push(Request::Begin);
                assert(block@ =~= seq![Request::Begin]);
                BackfillVersions::go_on(pairs, 0, 0, block)
            },
            (
                Stage::Linking { pairs, at, written },
                Reply::Directories { version, primary },
            ) => {
                assert(at < pairs.len());
                let child_type: i64 = alternate_version_type(&version, &primary);
                block.push(
                    Request::AppendLink {
                        parent: pairs[at].primary.clone(),
                        child: ItemId::Stored(pairs[at].child.clone()),
                        child_type,
                    },
                );
                assert(block@ =~= seq![
                    Request::AppendLink {
                        parent: pairs@[at as int].primary,
                        child: ItemId::Stored(pairs@[at as int].child),
                        child_type: link_type(version, primary),
                    },
                ]);
                BackfillVersions::go_on(pairs, at + 1, capped_sum(written, 1), block)
            },
            _ => {
                block.push(Request::Reject);
                (BackfillVersions { stage: Stage::Over }, block)
            },
        }
    }

    fn go_on(pairs: Vec<VersionPair>, from: usize, written: usize, before: Vec<Request>) -> (step: (
        BackfillVersions,
        Vec<Request>,
    ))
        requires
            from <= pairs@.len(),
        ensures
            ({
                let going = VersionsStage::going(pairs@, from as int, written as int);
                step.0.stage@ == going.0 && step.1@ == before@ + going.1
            }),
            step.0.stage@.well_formed(),
            step.1@.len() > before@.len(),
    {
        let mut block: Vec<Request> = before;
        let mut at: usize = from;
        while at < pairs.len()
            invariant
                at <= pairs@.len(),
                block@ == before@,
                next_pair(pairs@, at as int) == next_pair(pairs@, from as int),
            decreases pairs@.len() - at,
        {
            let version: Option<u128> = outside::parse_uuid(pairs[at].child.as_str());
            let primary: Option<u128> = outside::parse_uuid(pairs[at].primary.as_str());
            match (version, primary) {
                (Some(version), Some(primary)) => {
                    block.push(Request::ReadDirectories { version, primary });
                    let ghost going = VersionsStage::going(pairs@, from as int, written as int);
                    assert(block@ =~= before@ + going.1);
                    return (BackfillVersions { stage: Stage::Linking { pairs, at, written } }, block);
                },
                _ => {
                    at = at + 1;
                },
            }
        }
        transaction::close(RepairKey::AlternateVersionLinks, written, &mut block);
        (BackfillVersions { stage: Stage::Over }, block)
    }
}

/// Links are written within one transaction only, and the report counts them.
pub proof fn law_backfill_reports_what_it_links(
    stage: VersionsStage,
    reply: Reply,
    next: VersionsStage,
    block: Seq<Request>,
)
    requires
        stage.well_formed(),
        stage.follows(reply, next, block),
        block != seq![Request::Reject],
    ensures
        transaction::open_after_all(stage.is_open(), block) == Some(next.is_open()),
        ({
            let written = transaction::capped(
                stage.written() + transaction::appended_links(block),
            );
            match block.last() {
                Request::Finish(n) => n == written,
                _ => next.written() == written,
            }
        }),
{
    match (stage, reply) {
        (VersionsStage::Pairs, Reply::Versions(pairs)) => {
            let going = VersionsStage::going(pairs@, 0, 0);
            transaction::lemma_single(false, Request::Begin);
            lemma_going(pairs@, 0, 0);
            transaction::lemma_runs_join(false, seq![Request::Begin], going.1);
        },
        (
            VersionsStage::Linking { pairs, at, written },
            Reply::Directories { version, primary },
        ) => {
            let link = Request::AppendLink {
                parent: pairs[at].primary,
                child: ItemId::Stored(pairs[at].child),
                child_type: link_type(version, primary),
            };
            let then = transaction::capped(written + 1);
            transaction::lemma_single(true, link);
            lemma_going(pairs, at + 1, then);
            transaction::lemma_runs_join(
                true,
                seq![link],
                VersionsStage::going(pairs, at + 1, then).1,
            );
        },
        _ => {
            transaction::lemma_single(false, block[0]);
            assert(block =~= seq![block[0]]);
        },
    }
}

proof fn lemma_going(pairs: Seq<VersionPair>, at: int, written: int)
    requires
        0 <= written <= usize::MAX,
    ensures
        ({
            let going = VersionsStage::going(pairs, at, written);
            &&& going.1.len() > 0
            &&& transaction::open_after_all(true, going.1) == Some(going.0.is_open())
            &&& transaction::appended_links(going.1) == 0
            &&& going.1.last() matches Request::Finish(n) ==> n == written
            &&& !(going.1.last() is Finish) ==> going.0.written() == written
        }),
{
    let going = VersionsStage::going(pairs, at, written);
    transaction::lemma_closing(RepairKey::AlternateVersionLinks, written);
    transaction::lemma_single(true, going.1[0]);
    if next_pair(pairs, at) < pairs.len() {
        assert(going.1 =~= seq![going.1[0]]);
    }
}

/// Whether both ids of a pair are UUIDs, so that it can be linked.
pub open spec fn can_be_linked(pair: VersionPair) -> bool {
    outside::uuid_value(pair.child@) is Some && outside::uuid_value(pair.primary@) is Some
}

/// How many of the pairs from `at` on can be linked.
pub open spec fn pairs_to_link(pairs: Seq<VersionPair>, at: int) -> int
    decreases pairs.len() - at,
{
    if at >= pairs.len() {
        0
    } else {
        (if can_be_linked(pairs[at]) { 1int } else { 0 }) + pairs_to_link(pairs, at + 1)
    }
}

/// Whether each of the first `upto` pairs that can be linked is: its primary
/// version has a link to its child.
pub open spec fn are_linked(tables: Tables, pairs: Seq<VersionPair>, upto: int) -> bool {
    forall|i: int|
        0 <= i < upto && can_be_linked(#[trigger] pairs[i]) ==> tables::is_linked(
            tables.links,
            pairs[i].primary@,
            pairs[i].child@,
        )
}

/// The pairs that are passed over cannot be linked, and the one that is next
/// can.
proof fn lemma_next_pair(pairs: Seq<VersionPair>, at: int)
    requires
        0 <= at <= pairs.len(),
    ensures
        at <= next_pair(pairs, at) <= pairs.len(),
        forall|i: int| at <= i < next_pair(pairs, at) ==> !can_be_linked(#[trigger] pairs[i]),
        next_pair(pairs, at) < pairs.len() ==> can_be_linked(pairs[next_pair(pairs, at)]),
        pairs_to_link(pairs, at) == pairs_to_link(pairs, next_pair(pairs, at)),
    decreases pairs.len() - at,
{
    if at < pairs.len() && pair_ids(pairs[at]) is None {
        lemma_next_pair(pairs, at + 1);
    }
}

/// What follows the pairs before `at` changes no row.
proof fn lemma_going_changes_nothing(tables: Tables, pairs: Seq<VersionPair>, at: int, written: int)
    ensures
        tables.after_all(VersionsStage::going(pairs, at, written).1) == tables,
{
    let run = VersionsStage::going(pairs, at, written).1;
    reveal_with_fuel(Tables::after_all, 4);
    if run.len() == 1 {
        assert(run.drop_last() =~= Seq::<Request>::empty());
    } else {
        assert(run.drop_last().drop_last().drop_last() =~= Seq::<Request>::empty());
    }
}

/// Once the directories of a pair are known, its primary version gets a link to
/// its child, so that the pair is no unlinked one any more. It is the only link
/// that is made: a local one where both directories are known and the same,
/// else a linked one. No other row changes.
pub proof fn law_primary_version_links_to_the_child(
    pairs: Seq<VersionPair>,
    at: int,
    written: int,
    version: Option<String>,
    primary: Option<String>,
    next: VersionsStage,
    block: Seq<Request>,
    tables: Tables,
)
    requires
        (VersionsStage::Linking { pairs, at, written }).well_formed(),
        (VersionsStage::Linking { pairs, at, written }).follows(
            Reply::Directories { version, primary },
            next,
            block,
        ),
        exists|k: int| !#[trigger] tables.links.contains_key(k),
    ensures
        ({
            let after = tables.after_all(block);
            let shared = match (version, primary) {
                (Some(a), Some(b)) => a@ == b@,
                _ => false,
            };
            &&& tables::is_linked(after.links, pairs[at].primary@, pairs[at].child@)
            &&& forall|r: int| #[trigger]
                after.links.contains_key(r) ==> if tables.links.contains_key(r) {
                    after.links[r] == tables.links[r]
                } else {
                    after.links[r] == tables::LinkRow {
                        parent: pairs[at].primary@,
                        child: pairs[at].child@,
                        child_type: if shared { 2 } else { 3 },
                    }
                }
            &&& forall|r: int| #[trigger]
                tables.links.contains_key(r) ==> after.links.contains_key(r)
            &&& transaction::appended_links(block) == 1
            &&& after.items == tables.items
            &&& after.ancestors == tables.ancestors
            &&& after.user_data == tables.user_data
            &&& after.people == tables.people
            &&& after.credits == tables.credits
        }),
{
    let link = block[0];
    let then = transaction::capped(written + 1);
    let going = VersionsStage::going(pairs, at + 1, then);
    let linked = tables.after(link);
    lemma_going(pairs, at + 1, then);
    transaction::lemma_single(true, link);
    transaction::lemma_runs_join(true, seq![link], going.1);
    tables::lemma_after_joined(tables, seq![link], going.1);
    tables::lemma_after_push(tables, Seq::empty(), link);
    assert(Seq::<Request>::empty().push(link) =~= seq![link]);
    lemma_going_changes_nothing(linked, pairs, at + 1, then);
    let k = tables::free_row(tables.links);
    assert(linked.links.contains_key(k));
}

/// No pair is left out and none is linked twice: the links that a step makes,
/// and the pairs that are left to be linked behind it, are together the pairs
/// that were left.
pub proof fn law_no_pair_is_left_out(
    stage: VersionsStage,
    reply: Reply,
    next: VersionsStage,
    block: Seq<Request>,
)
    requires
        stage.well_formed(),
        stage.follows(reply, next, block),
        block != seq![Request::Reject],
    ensures
        ({
            let left = match (stage, reply) {
                (VersionsStage::Linking { pairs, at, .. }, _) => pairs_to_link(pairs, at),
                (_, Reply::Versions(pairs)) => pairs_to_link(pairs@, 0),
                _ => 0,
            };
            let left_behind = match next {
                VersionsStage::Linking { pairs, at, .. } => pairs_to_link(pairs, at),
                _ => 0,
            };
            transaction::appended_links(block) + left_behind == left
        }),
{
    match (stage, reply) {
        (VersionsStage::Pairs, Reply::Versions(pairs)) => {
            lemma_next_pair(pairs@, 0);
            lemma_going(pairs@, 0, 0);
            transaction::lemma_single(false, Request::Begin);
            transaction::lemma_runs_join(
                false,
                seq![Request::Begin],
                VersionsStage::going(pairs@, 0, 0).1,
            );
        },
        (VersionsStage::Linking { pairs, at, written }, Reply::Directories { .. }) => {
            let then = transaction::capped(written + 1);
            lemma_next_pair(pairs, at + 1);
            lemma_going(pairs, at + 1, then);
            transaction::lemma_single(true, block[0]);
            transaction::lemma_runs_join(
                true,
                seq![block[0]],
                VersionsStage::going(pairs, at + 1, then).1,
            );
        },
        _ => {
            transaction::lemma_single(false, block[0]);
            assert(block =~= seq![block[0]]);
        },
    }
}

/// Whatever the directories are, the pairs that the repair has come past are
/// linked; once it is over, every pair is that can be.
pub proof fn law_pairs_come_past_are_linked(
    pairs: Seq<VersionPair>,
    at: int,
    written: int,
    version: Option<String>,
    primary: Option<String>,
    next: VersionsStage,
    block: Seq<Request>,
    tables: Tables,
)
    requires
        (VersionsStage::Linking { pairs, at, written }).well_formed(),
        (VersionsStage::Linking { pairs, at, written }).follows(
            Reply::Directories { version, primary },
            next,
            block,
        ),
        exists|k: int| !#[trigger] tables.links.contains_key(k),
        are_linked(tables, pairs, at),
    ensures
        match next {
            VersionsStage::Linking { pairs: left, at: then, .. } => left == pairs && then > at
                && are_linked(tables.after_all(block), pairs, then),
            _ => are_linked(tables.after_all(block), pairs, pairs.len() as int),
        },
{
    law_primary_version_links_to_the_child(pairs, at, written, version, primary, next, block, tables);
    lemma_next_pair(pairs, at + 1);
    let after = tables.after_all(block);
    assert forall|i: int|
        0 <= i < next_pair(pairs, at + 1) && can_be_linked(#[trigger] pairs[i]) implies tables::is_linked(
        after.links,
        pairs[i].primary@,
        pairs[i].child@,
    ) by {
        if i < at {
            assert(tables::is_linked(tables.links, pairs[i].primary@, pairs[i].child@));
            let k = choose|k: int| #[trigger]
                tables.links.contains_key(k) && tables.links[k].parent == pairs[i].primary@
                    && tables.links[k].child == pairs[i].child@;
            assert(after.links.contains_key(k));
        }
    }
}

/// The directories that are asked for are those of the pair that is next: of
/// its child as the version and of its primary version as the primary.
pub proof fn law_directories_are_those_of_the_pair(
    stage: VersionsStage,
    reply: Reply,
    pairs: Seq<VersionPair>,
    at: int,
    written: int,
    block: Seq<Request>,
)
    requires
        stage.well_formed(),
        stage.follows(reply, VersionsStage::Linking { pairs, at, written }, block),
    ensures
        match block.last() {
            Request::ReadDirectories { version, primary } => {
                &&& outside::uuid_value(pairs[at].child@) == Some(version)
                &&& outside::uuid_value(pairs[at].primary@) == Some(primary)
            },
            _ => false,
        },
{
    match (stage, reply) {
        (VersionsStage::Pairs, Reply::Versions(all)) => {
            lemma_next_pair(all@, 0);
        },
        (VersionsStage::Linking { pairs: all, at: before, .. }, _) => {
            lemma_next_pair(all, before + 1);
        },
        _ => {},
    }
}

} // verus!
