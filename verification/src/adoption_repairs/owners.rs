//! Repairing who owns what: items that share a path, videos with an owner they
//! should not have, extras whose owner is gone, and versions that do not point
//! at the item that links to them.

use vstd::prelude::*;

use crate::adoption_repairs::fold;
use crate::adoption_repairs::fold::{Fold, FoldKind, FoldRow, FoldState};
use crate::adoption_repairs::request::{OrphanedExtra, PathItem, RepairKey, Reply, Request};
use crate::adoption_repairs::tables;
use crate::adoption_repairs::tables::Tables;
use crate::adoption_repairs::transaction;
use crate::adoption_repairs::transaction::capped_sum;
use crate::outside;
use crate::text;

verus! {

/// The first `n` rows in groups: a row joins the group before it where their
/// paths are the same.
pub open spec fn path_groups(rows: Seq<PathItem>, n: int) -> Seq<Seq<usize>>
    decreases n,
{
    if n <= 0 {
        Seq::empty()
    } else {
        let before = path_groups(rows, n - 1);
        if n >= 2 && rows[n - 1].path@ == rows[n - 2].path@ {
            before.drop_last().push(before.last().push((n - 1) as usize))
        } else {
            before.push(seq![(n - 1) as usize])
        }
    }
}

/// The groups as sequences.
pub open spec fn group_views(groups: Seq<Vec<usize>>) -> Seq<Seq<usize>> {
    groups.map_values(|group: Vec<usize>| group@)
}

/// The items that share a path as rows to be folded; `folder` is the type of a
/// plain folder.
pub open spec fn path_rows(rows: Seq<PathItem>, folder: Seq<char>) -> Seq<FoldRow> {
    rows.map_values(
        |row: PathItem|
            FoldRow {
                id: row.id,
                created: None,
                is_folder: row.stored_type@ == folder,
                credits: 0,
            },
    )
}

/// The positions of `rows` in the groups of adjacent rows with the same path.
fn group_by_path(rows: &Vec<PathItem>) -> (groups: Vec<Vec<usize>>)
    ensures
        group_views(groups@) == path_groups(rows@, rows@.len() as int),
        forall|g: int, m: int|
            0 <= g < groups@.len() && 0 <= m < groups@[g]@.len() ==> #[trigger] groups@[g]@[m]
                < rows@.len(),
{
    let mut groups: Vec<Vec<usize>> = Vec::new();
    for i in 0..rows.len()
        invariant
            group_views(groups@) == path_groups(rows@, i as int),
            i > 0 ==> groups@.len() > 0,
            forall|g: int, m: int|
                0 <= g < groups@.len() && 0 <= m < groups@[g]@.len() ==> #[trigger] groups@[g]@[m]
                    < i,
    {
        let ghost before = groups@;
        let mut group: Vec<usize> = Vec::new();
        if i > 0 && text::same_text(rows[i].path.as_str(), rows[i - 1].path.as_str()) {
            match groups.pop() {
                Some(last) => {
                    group = last;
                },
                None => {},
            }
            assert(groups@ =~= before.drop_last());
            assert(group == before.last());
            assert(group@ == before[before.len() - 1]@);
        }
        group.push(i);
        groups.push(group);
        assert(group_views(groups@) =~= path_groups(rows@, i + 1));
    }
    groups
}

/// The folding of the items that share a path.
fn path_fold(rows: &Vec<PathItem>, folder: &str) -> (fold: Fold)
    ensures
        group_views(fold@.groups) == path_groups(rows@, rows@.len() as int),
        fold@ == fold::fold_start(FoldKind::Paths, path_rows(rows@, folder@), fold@.groups),
        fold@.well_formed(),
{
    let mut folded: Vec<FoldRow> = Vec::new();
    for i in 0..rows.len()
        invariant
            folded@ == path_rows(rows@, folder@).take(i as int),
    {
        folded.push(
            FoldRow {
                id: rows[i].id.clone(),
                created: None,
                is_folder: text::same_text(rows[i].stored_type.as_str(), folder),
                credits: 0,
            },
        );
        assert(path_rows(rows@, folder@).take(i + 1) =~= path_rows(rows@, folder@).take(
            i as int,
        ).push(path_rows(rows@, folder@)[i as int]));
    }
    assert(path_rows(rows@, folder@).take(rows@.len() as int) =~= path_rows(rows@, folder@));
    Fold::new(FoldKind::Paths, folded, group_by_path(rows))
}

/// An extra whose owner is gone, with the directory that it lies in.
#[derive(Debug)]
pub struct Orphan {
    pub id: String,
    pub directory: Option<String>,
}

/// Whether `orphans` are the extras, each with what its path gives for a
/// directory.
pub open spec fn are_orphans(orphans: Seq<Orphan>, rows: Seq<OrphanedExtra>) -> bool {
    &&& orphans.len() == rows.len()
    &&& forall|i: int|
        0 <= i < rows.len() ==> {
            &&& (#[trigger] orphans[i]).id == rows[i].id
            &&& match rows[i].path {
                Some(path) => outside::may_be_directory(path@, orphans[i].directory),
                None => orphans[i].directory is None,
            }
        }
}

/// The extras with their directories.
fn find_directories(rows: &Vec<OrphanedExtra>) -> (orphans: Vec<Orphan>)
    ensures
        are_orphans(orphans@, rows@),
{
    let mut orphans: Vec<Orphan> = Vec::new();
    for i in 0..rows.len()
        invariant
            orphans@.len() == i,
            are_orphans(orphans@, rows@.take(i as int)),
    {
        let directory: Option<String> = match &rows[i].path {
            Some(path) => outside::directory_of(path.as_str()),
            None => None,
        };
        orphans.push(Orphan { id: rows[i].id.clone(), directory });
        proof {
            let before = rows@.take(i as int);
            let after = rows@.take(i + 1);
            assert forall|k: int| 0 <= k < i implies #[trigger] after[k] == before[k] by {}
            assert forall|k: int| 0 <= k < after.len() implies {
                &&& (#[trigger] orphans@[k]).id == after[k].id
                &&& match after[k].path {
                    Some(path) => outside::may_be_directory(path@, orphans@[k].directory),
                    None => orphans@[k].directory is None,
                }
            } by {
                if k < i {
                    assert(after[k] == before[k]);
                }
            }
        }
    }
    assert(rows@.take(rows@.len() as int) =~= rows@);
    orphans
}

/// What the repair waits for.
pub enum OwnersStage {
    Marker,
    Paths,
    Folding(FoldState),
    /// The release of videos; with the items taken away.
    Release { folded: int },
    /// The orphaned extras; with the items taken away and the videos released.
    Orphans { folded: int, released: int },
    /// The video to attach orphan `at` to.
    Attaching { folded: int, released: int, orphans: Seq<Orphan>, at: int },
    /// The pointing of versions; with the orphans that were given an owner or none.
    Pointing { folded: int, released: int, attached: int },
    Over,
}

/// The repair as far as it has come.
pub struct OwnersState {
    /// The type of a plain folder.
    pub folder: Seq<char>,
    pub stage: OwnersStage,
}

/// The requests for the orphans from `at` on until a question is open: an
/// orphan without a directory loses its owner, and for one with a directory
/// the video to attach it to is asked for. With them, which orphan that is.
pub open spec fn attach_from(orphans: Seq<Orphan>, at: int) -> (int, Seq<Request>)
    decreases orphans.len() - at,
{
    if at >= orphans.len() {
        (at, seq![Request::PointVersionsAtParents])
    } else {
        match orphans[at].directory {
            Some(directory) => (at, seq![Request::FindVideoUnder(directory)]),
            None => {
                let rest = attach_from(orphans, at + 1);
                (rest.0, seq![Request::SetOwner { item: orphans[at].id, owner: None }] + rest.1)
            },
        }
    }
}

impl OwnersState {
    pub open spec fn well_formed(self) -> bool {
        &&& 0 <= self.folded() <= usize::MAX
        &&& match self.stage {
            OwnersStage::Folding(fold) => {
                &&& fold.well_formed()
                &&& !fold.is_over()
                &&& fold.kind == FoldKind::Paths
                &&& fold.counts.len() < fold.kind.spec_width()
            },
            OwnersStage::Attaching { orphans, at, .. } => {
                &&& 0 <= at < orphans.len()
                &&& orphans[at].directory is Some
            },
            _ => true,
        }
    }

    /// How many rows it has taken away.
    pub open spec fn folded(self) -> int {
        match self.stage {
            OwnersStage::Folding(fold) => fold.folded,
            OwnersStage::Release { folded } => folded,
            OwnersStage::Orphans { folded, .. } => folded,
            OwnersStage::Attaching { folded, .. } => folded,
            OwnersStage::Pointing { folded, .. } => folded,
            _ => 0,
        }
    }

    /// Whether a transaction is open while it waits.
    pub open spec fn is_open(self) -> bool {
        !(self.stage is Marker || self.stage is Over)
    }

    pub open spec fn at(self, stage: OwnersStage) -> OwnersState {
        OwnersState { folder: self.folder, stage }
    }

    /// What follows once the folding has gone on as far as it could.
    pub open spec fn after_fold(self, resumed: (FoldState, Seq<Request>)) -> (
        OwnersState,
        Seq<Request>,
    ) {
        if resumed.0.is_over() {
            (
                self.at(OwnersStage::Release { folded: resumed.0.folded }),
                resumed.1 + seq![Request::ReleaseMisownedVideos],
            )
        } else {
            (self.at(OwnersStage::Folding(resumed.0)), resumed.1)
        }
    }

    /// What follows once the orphans before `at` have been dealt with.
    pub open spec fn attaching(
        self,
        folded: int,
        released: int,
        orphans: Seq<Orphan>,
        at: int,
    ) -> (OwnersState, Seq<Request>) {
        let going = attach_from(orphans, at);
        (
            self.at(
                if going.0 < orphans.len() {
                    OwnersStage::Attaching { folded, released, orphans, at: going.0 }
                } else {
                    OwnersStage::Pointing { folded, released, attached: orphans.len() as int }
                },
            ),
            going.1,
        )
    }

    /// Whether `next` and `block` are what follows the reply.
    pub open spec fn follows(self, reply: Reply, next: OwnersState, block: Seq<Request>) -> bool {
        match (self.stage, reply) {
            (OwnersStage::Marker, Reply::Marker(found)) => if found is Some {
                next == self.at(OwnersStage::Over) && block == seq![Request::Finish(0)]
            } else {
                &&& next == self.at(OwnersStage::Paths)
                &&& block == seq![Request::Begin, Request::SelectSharedPaths]
            },
            (OwnersStage::Paths, Reply::SharedPaths(rows)) => exists|groups: Seq<Vec<usize>>|
                {
                    &&& #[trigger] group_views(groups) == path_groups(rows@, rows@.len() as int)
                    &&& (next, block) == self.after_fold(
                        fold::fold_start(
                            FoldKind::Paths,
                            path_rows(rows@, self.folder),
                            groups,
                        ).resumed(),
                    )
                },
            (OwnersStage::Folding(fold), Reply::Count(count)) => (next, block) == self.after_fold(
                FoldState { counts: fold.counts.push(count), ..fold }.resumed(),
            ),
            (OwnersStage::Release { folded }, Reply::Affected(released)) => {
                &&& next == self.at(OwnersStage::Orphans { folded, released: released as int })
                &&& block == seq![Request::SelectOrphanedExtras]
            },
            (
                OwnersStage::Orphans { folded, released },
                Reply::OrphanedExtras(rows),
            ) => exists|orphans: Seq<Orphan>| #[trigger]
                are_orphans(orphans, rows@) && (next, block) == self.attaching(
                    folded,
                    released,
                    orphans,
                    0,
                ),
            (
                OwnersStage::Attaching { folded, released, orphans, at },
                Reply::Item(owner),
            ) => {
                let going = self.attaching(folded, released, orphans, at + 1);
                &&& next == going.0
                &&& block == seq![Request::SetOwner { item: orphans[at].id, owner }] + going.1
            },
            (OwnersStage::Pointing { folded, released, attached }, Reply::Affected(pointed)) => {
                &&& next == self.at(OwnersStage::Over)
                &&& block == transaction::closing(
                    RepairKey::OwnerIdRelationships,
                    transaction::capped(released + pointed + attached + folded),
                )
            },
            _ => next == self.at(OwnersStage::Over) && block == seq![Request::Reject],
        }
    }
}

/// The stage that [`FixOwners`] has reached.
#[derive(Debug)]
pub enum Stage {
    Marker,
    Paths,
    Folding(Fold),
    Release { folded: usize },
    Orphans { folded: usize, released: u64 },
    Attaching { folded: usize, released: u64, orphans: Vec<Orphan>, at: usize },
    Pointing { folded: usize, released: u64, attached: usize },
    Over,
}

/// The repair of owners: items that share a path are folded onto the one with
/// children, else with extras, else that is no plain folder, else the newest;
/// a video that is no extra loses an owner that is a video or gone; an extra
/// whose owner is gone goes to the first video in its directory or loses its
/// owner; and a linked version points at the item that links to it.
#[derive(Debug)]
pub struct FixOwners {
    pub folder: String,
    pub stage: Stage,
}

impl View for FixOwners {
    type V = OwnersState;

    open spec fn view(&self) -> OwnersState {
        OwnersState {
            folder: self.folder@,
            stage: match self.stage {
                Stage::Marker => OwnersStage::Marker,
                Stage::Paths => OwnersStage::Paths,
                Stage::Folding(fold) => OwnersStage::Folding(fold@),
                Stage::Release { folded } => OwnersStage::Release { folded: folded as int },
                Stage::Orphans { folded, released } => OwnersStage::Orphans {
                    folded: folded as int,
                    released: released as int,
                },
                Stage::Attaching { folded, released, orphans, at } => OwnersStage::Attaching {
                    folded: folded as int,
                    released: released as int,
                    orphans: orphans@,
                    at: at as int,
                },
                Stage::Pointing { folded, released, attached } => OwnersStage::Pointing {
                    folded: folded as int,
                    released: released as int,
                    attached: attached as int,
                },
                Stage::Over => OwnersStage::Over,
            },
        }
    }
}

/// `n` as a `usize`, or the largest one.
fn capped_size(n: u64) -> (size: usize)
    ensures
        size == transaction::capped(n as int),
{
    if n > usize::MAX as u64 {
        usize::MAX
    } else {
        n as usize
    }
}

impl FixOwners {
    /// The repair, waiting for the answer to its first request,
    /// [`Request::ReadMarker`]; `folder` is the type of a plain folder.
    pub fn new(folder: &str) -> (repair: FixOwners)
        ensures
            repair@ == (OwnersState { folder: folder@, stage: OwnersStage::Marker }),
            repair@.well_formed(),
    {
        FixOwners { folder: folder.to_owned(), stage: Stage::Marker }
    }

    /// Takes the reply to the last request of the block before, and gives the
    /// next block.
    pub fn answer(self, reply: Reply) -> (step: (FixOwners, Vec<Request>))
        requires
            self@.well_formed(),
        ensures
            self@.follows(reply, step.0@, step.1@),
            step.0@.well_formed(),
            step.1@.len() > 0,
            step.0@.folder == self@.folder,
    {
        let ghost before = self@;
        let folder: String = self.folder;
        let mut block: Vec<Request> = Vec::new();
        match (self.stage, reply) {
            (Stage::Marker, Reply::Marker(found)) => {
                if found.is_some() {
                    block.push(Request::Finish(0));
                    (FixOwners { folder, stage: Stage::Over }, block)
                } else {
                    block.push(Request::Begin);
                    block.push(Request::SelectSharedPaths);
                    assert(block@ =~= seq![Request::Begin, Request::SelectSharedPaths]);
                    (FixOwners { folder, stage: Stage::Paths }, block)
                }
            },
            (Stage::Paths, Reply::SharedPaths(rows)) => {
                let fold: Fold = path_fold(&rows, folder.as_str());
                assert(group_views(fold@.groups) == path_groups(rows@, rows@.len() as int));
                let ghost resumed = fold@.resumed();
                let step = FixOwners::go_on_folding(folder, fold);
                assert((step.0@, step.1@) == before.after_fold(resumed));
                step
            },
            (Stage::Folding(fold), Reply::Count(count)) => {
                let mut fold: Fold = fold;
                fold.take_count(count);
                FixOwners::go_on_folding(folder, fold)
            },
            (Stage::Release { folded }, Reply::Affected(released)) => {
                block.push(Request::SelectOrphanedExtras);
                (FixOwners { folder, stage: Stage::Orphans { folded, released } }, block)
            },
            (Stage::Orphans { folded, released }, Reply::OrphanedExtras(rows)) => {
                let orphans: Vec<Orphan> = find_directories(&rows);
                assert(are_orphans(orphans@, rows@));
                let ghost going = self@.attaching(folded as int, released as int, orphans@, 0);
                let step = FixOwners::go_on_attaching(folder, folded, released, orphans, 0, block);
                assert(step.1@ =~= going.1);
                step
            },
            (Stage::Attaching { folded, released, orphans, at }, Reply::Item(owner)) => {
                assert(at < orphans.len());
                block.push(Request::SetOwner { item: orphans[at].id.clone(), owner });
                assert(block@ =~= seq![Request::SetOwner { item: orphans@[at as int].id, owner }]);
                FixOwners::go_on_attaching(folder, folded, released, orphans, at + 1, block)
            },
            (Stage::Pointing { folded, released, attached }, Reply::Affected(pointed)) => {
                let moved: usize = capped_sum(capped_size(released), capped_size(pointed));
                let changed: usize = capped_sum(capped_sum(moved, attached), folded);
                transaction::close(RepairKey::OwnerIdRelationships, changed, &mut block);
                assert(block@ =~= transaction::closing(
                    RepairKey::OwnerIdRelationships,
                    changed as int,
                ));
                (FixOwners { folder, stage: Stage::Over }, block)
            },
            _ => {
                block.push(Request::Reject);
                (FixOwners { folder, stage: Stage::Over }, block)
            },
        }
    }

    fn go_on_folding(folder: String, fold: Fold) -> (step: (FixOwners, Vec<Request>))
        requires
            fold@.well_formed(),
            fold@.kind == FoldKind::Paths,
        ensures
            (step.0@, step.1@) == (OwnersState {
                folder: folder@,
                stage: OwnersStage::Over,
            }).after_fold(fold@.resumed()),
            step.0@.well_formed(),
            step.1@.len() > 0,
            step.0@.folder == folder@,
    {
        let mut going: Fold = fold;
        let ghost start = going@;
        let mut block: Vec<Request> = Vec::new();
        let is_over: bool = going.resume(&mut block);
        proof {
            fold::law_resuming_counts_deletions(start);
            assert(block@ =~= start.resumed().1);
        }
        if is_over {
            block.push(Request::ReleaseMisownedVideos);
            assert(block@ =~= start.resumed().1 + seq![Request::ReleaseMisownedVideos]);
            (FixOwners { folder, stage: Stage::Release { folded: going.folded } }, block)
        } else {
            (FixOwners { folder, stage: Stage::Folding(going) }, block)
        }
    }

    fn go_on_attaching(
        folder: String,
        folded: usize,
        released: u64,
        orphans: Vec<Orphan>,
        from: usize,
        before: Vec<Request>,
    ) -> (step: (FixOwners, Vec<Request>))
        requires
            from <= orphans@.len(),
        ensures
            ({
                let going = (OwnersState { folder: folder@, stage: OwnersStage::Over }).attaching(
                    folded as int,
                    released as int,
                    orphans@,
                    from as int,
                );
                step.0@ == going.0 && step.1@ == before@ + going.1
            }),
            step.0@.well_formed(),
            step.1@.len() > 0,
            step.0@.folder == folder@,
    {
        let mut block: Vec<Request> = before;
        let mut at: usize = from;
        while at < orphans.len()
            invariant
                at <= orphans@.len(),
                attach_from(orphans@, at as int).0 == attach_from(orphans@, from as int).0,
                block@ + attach_from(orphans@, at as int).1 == before@ + attach_from(
                    orphans@,
                    from as int,
                ).1,
            decreases orphans@.len() - at,
        {
            let ghost block_before = block@;
            match &orphans[at].directory {
                Some(directory) => {
                    block.push(Request::FindVideoUnder(directory.clone()));
                    assert(block@ =~= block_before + attach_from(orphans@, at as int).1);
                    return (
                        FixOwners { folder, stage: Stage::Attaching { folded, released, orphans, at } },
                        block,
                    );
                },
                None => {
                    block.push(Request::SetOwner { item: orphans[at].id.clone(), owner: None });
                    assert(block@ + attach_from(orphans@, at + 1).1 =~= block_before + attach_from(
                        orphans@,
                        at as int,
                    ).1);
                    at = at + 1;
                },
            }
        }
        let ghost block_before = block@;
        block.push(Request::PointVersionsAtParents);
        assert(block@ =~= block_before + attach_from(orphans@, at as int).1);
        let attached: usize = orphans.len();
        (FixOwners { folder, stage: Stage::Pointing { folded, released, attached } }, block)
    }
}

proof fn lemma_attach_from(orphans: Seq<Orphan>, at: int)
    requires
        0 <= at <= orphans.len(),
    ensures
        at <= attach_from(orphans, at).0 <= orphans.len(),
        transaction::open_after_all(true, attach_from(orphans, at).1) == Some(true),
        transaction::deletions(attach_from(orphans, at).1) == 0,
    decreases orphans.len() - at,
{
    if at < orphans.len() && orphans[at].directory is None {
        let release = Request::SetOwner { item: orphans[at].id, owner: None };
        lemma_attach_from(orphans, at + 1);
        transaction::lemma_single(true, release);
        transaction::lemma_runs_join(true, seq![release], attach_from(orphans, at + 1).1);
    } else {
        let request = attach_from(orphans, at).1[0];
        transaction::lemma_single(true, request);
        assert(attach_from(orphans, at).1 =~= seq![request]);
    }
}

proof fn lemma_after_fold(state: OwnersState, resumed: (FoldState, Seq<Request>))
    requires
        transaction::open_after_all(true, resumed.1) == Some(true),
    ensures
        transaction::open_after_all(true, state.after_fold(resumed).1) == Some(true),
        transaction::deletions(state.after_fold(resumed).1) == transaction::deletions(resumed.1),
{
    let release = Request::ReleaseMisownedVideos;
    transaction::lemma_single(true, release);
    transaction::lemma_runs_join(true, resumed.1, seq![release]);
}

/// All of the repair lies in one transaction, the marker is written behind it,
/// and every row that was taken away is counted until the report.
pub proof fn law_owners_keep_one_transaction(
    state: OwnersState,
    reply: Reply,
    next: OwnersState,
    block: Seq<Request>,
)
    requires
        state.well_formed(),
        state.follows(reply, next, block),
        block != seq![Request::Reject],
    ensures
        transaction::open_after_all(state.is_open(), block) == Some(next.is_open()),
        !(block.last() is Finish) ==> next.folded() == transaction::capped(
            state.folded() + transaction::deletions(block),
        ),
{
    match (state.stage, reply) {
        (OwnersStage::Marker, Reply::Marker(found)) => {
            if found is Some {
                transaction::lemma_single(false, Request::Finish(0));
            } else {
                let begin = Request::Begin;
                let select = Request::SelectSharedPaths;
                transaction::lemma_single(false, begin);
                transaction::lemma_single(true, select);
                transaction::lemma_runs_join(false, seq![begin], seq![select]);
                assert(block =~= seq![begin] + seq![select]);
            }
        },
        (OwnersStage::Paths, Reply::SharedPaths(rows)) => {
            let groups = choose|groups: Seq<Vec<usize>>|
                {
                    &&& #[trigger] group_views(groups) == path_groups(rows@, rows@.len() as int)
                    &&& (next, block) == state.after_fold(
                        fold::fold_start(
                            FoldKind::Paths,
                            path_rows(rows@, state.folder),
                            groups,
                        ).resumed(),
                    )
                };
            let start = fold::fold_start(FoldKind::Paths, path_rows(rows@, state.folder), groups);
            assert(rows@.len() == rows.len());
            lemma_path_groups(rows@, rows@.len() as int);
            assert forall|g: int, m: int|
                0 <= g < groups.len() && 0 <= m < groups[g]@.len() implies #[trigger] groups[g]@[m]
                < rows@.len() by {
                assert(group_views(groups)[g] == groups[g]@);
                assert(path_groups(rows@, rows@.len() as int)[g][m] < rows@.len());
            }
            fold::law_resuming_counts_deletions(start);
            lemma_after_fold(state, start.resumed());
        },
        (OwnersStage::Folding(fold), Reply::Count(count)) => {
            let start = FoldState { counts: fold.counts.push(count), ..fold };
            fold::law_resuming_counts_deletions(start);
            lemma_after_fold(state, start.resumed());
        },
        (OwnersStage::Orphans { folded, released }, Reply::OrphanedExtras(rows)) => {
            let orphans = choose|orphans: Seq<Orphan>| #[trigger]
                are_orphans(orphans, rows@) && (next, block) == state.attaching(
                    folded,
                    released,
                    orphans,
                    0,
                );
            lemma_attach_from(orphans, 0);
        },
        (OwnersStage::Attaching { folded, released, orphans, at }, Reply::Item(owner)) => {
            let attach = Request::SetOwner { item: orphans[at].id, owner };
            lemma_attach_from(orphans, at + 1);
            transaction::lemma_single(true, attach);
            transaction::lemma_runs_join(true, seq![attach], attach_from(orphans, at + 1).1);
        },
        (OwnersStage::Pointing { folded, released, attached }, Reply::Affected(pointed)) => {
            transaction::lemma_closing(
                RepairKey::OwnerIdRelationships,
                transaction::capped(released + pointed + attached + folded),
            );
        },
        _ => {
            transaction::lemma_single(true, block[0]);
            assert(block =~= seq![block[0]]);
        },
    }
}

/// Groups by path list the rows before `n` only.
proof fn lemma_path_groups(rows: Seq<PathItem>, n: int)
    requires
        n <= rows.len(),
        rows.len() <= usize::MAX,
    ensures
        forall|g: int, m: int|
            0 <= g < path_groups(rows, n).len() && 0 <= m < path_groups(rows, n)[g].len()
                ==> #[trigger] path_groups(rows, n)[g][m] < n,
        n > 0 ==> path_groups(rows, n).len() > 0,
    decreases n,
{
    if n > 0 {
        lemma_path_groups(rows, n - 1);
        let before = path_groups(rows, n - 1);
        assert forall|g: int, m: int|
            0 <= g < path_groups(rows, n).len() && 0 <= m < path_groups(rows, n)[g].len() implies
            #[trigger] path_groups(rows, n)[g][m] < n by {
            if g < before.len() && m < before[g].len() {
                assert(before[g][m] < n - 1);
            }
        }
    }
}

/// A repair of owners that comes to its end has written its marker.
pub proof fn law_owners_write_the_marker(
    state: OwnersState,
    reply: Reply,
    next: OwnersState,
    block: Seq<Request>,
)
    requires
        state.well_formed(),
        !(state.stage is Marker),
        state.follows(reply, next, block),
        block.len() > 0,
        block.last() is Finish,
    ensures
        block.len() >= 2,
        block[block.len() - 2] == Request::WriteMarker(RepairKey::OwnerIdRelationships),
{
    match (state.stage, reply) {
        (OwnersStage::Pointing { folded, released, attached }, Reply::Affected(pointed)) => {},
        _ => {
            assert(block != seq![Request::Reject]);
            law_owners_keep_one_transaction(state, reply, next, block);
            transaction::lemma_last_closes(state.is_open(), block);
        },
    }
}

/// An orphaned extra whose path a slash parts plainly is looked for in its own
/// directory: the first video is asked for whose path begins with all that
/// stands before that slash.
pub proof fn law_orphan_is_searched_in_its_directory(
    orphans: Seq<Orphan>,
    rows: Seq<OrphanedExtra>,
    i: int,
    at: int,
)
    requires
        are_orphans(orphans, rows),
        0 <= i < rows.len(),
        rows[i].path matches Some(path) && outside::parts_plainly(path@, at),
    ensures
        attach_from(orphans, i).0 == i,
        attach_from(orphans, i).1.len() == 1,
        attach_from(orphans, i).1[0] matches Request::FindVideoUnder(directory) && directory@
            == rows[i].path->0@.take(at),
{
    assert(orphans[i].id == rows[i].id);
    assert(outside::may_be_directory(rows[i].path->0@, orphans[i].directory));
}

/// An orphaned extra that is given a video gets that one as its owner, and one
/// that is given none loses its owner; nothing else is done to it.
pub proof fn law_orphan_gets_the_video_that_was_found(
    state: OwnersState,
    found: Option<String>,
    next: OwnersState,
    block: Seq<Request>,
)
    requires
        state.well_formed(),
        state.stage is Attaching,
        state.follows(Reply::Item(found), next, block),
    ensures
        state.stage matches OwnersStage::Attaching { orphans, at, .. } && block[0] == (
        Request::SetOwner { item: orphans[at].id, owner: found }),
{
}

/// The groups list every row once and in order. Rows that follow one another
/// are in one group where their paths are the same, and in two where they are
/// not.
pub proof fn law_groups_are_runs_of_one_path(rows: Seq<PathItem>, n: int)
    requires
        0 <= n <= rows.len() <= usize::MAX,
    ensures
        ({
            let groups = path_groups(rows, n);
            &&& n > 0 <==> groups.len() > 0
            &&& forall|g: int| 0 <= g < groups.len() ==> (#[trigger] groups[g]).len() > 0
            &&& n > 0 ==> groups[0][0] == 0
            &&& n > 0 ==> groups.last().last() == n - 1
            &&& forall|g: int, m: int|
                0 <= g < groups.len() && 0 <= m < groups[g].len() ==> {
                    &&& #[trigger] groups[g][m] == groups[g][0] + m
                    &&& rows[groups[g][m] as int].path@ == rows[groups[g][0] as int].path@
                }
            &&& forall|g: int, h: int|
                #![trigger groups[g], groups[h]]
                0 <= g && h == g + 1 && h < groups.len() ==> {
                    &&& groups[h][0] == groups[g].last() + 1
                    &&& rows[groups[h][0] as int].path@ != rows[groups[g].last() as int].path@
                }
        }),
    decreases n,
{
    if n > 0 {
        law_groups_are_runs_of_one_path(rows, n - 1);
        let before = path_groups(rows, n - 1);
        let groups = path_groups(rows, n);
        if n >= 2 {
            assert(before.len() > 0);
            assert(before[before.len() - 1].len() > 0);
            let last = before.last();
            assert(before[before.len() - 1][last.len() - 1] == last[0] + (last.len() - 1));
        }
        assert forall|g: int, m: int| 0 <= g < groups.len() && 0 <= m < groups[g].len() implies {
            &&& #[trigger] groups[g][m] == groups[g][0] + m
            &&& rows[groups[g][m] as int].path@ == rows[groups[g][0] as int].path@
        } by {
            if g < before.len() && m < before[g].len() {
                assert(before[g][m] == before[g][0] + m);
                assert(groups[g][m] == before[g][m] && groups[g][0] == before[g][0]);
            } else if g < before.len() {
                let last = before.last();
                assert(before[g][last.len() - 1] == last[0] + (last.len() - 1));
                assert(groups[g][0] == last[0]);
            }
        }
        assert forall|g: int, h: int|
            #![trigger groups[g], groups[h]]
            0 <= g && h == g + 1 && h < groups.len() implies {
            &&& groups[h][0] == groups[g].last() + 1
            &&& rows[groups[h][0] as int].path@ != rows[groups[g].last() as int].path@
        } by {
            assert(groups[g] == before[g]);
            if h < before.len() {
                assert(before[h].len() > 0);
                assert(groups[h][0] == before[h][0]);
            }
        }
    }
}

/// Of each item that shares its path the id is kept, and whether it is a plain
/// folder.
pub proof fn law_path_rows_keep_id_and_type(rows: Seq<PathItem>, folder: Seq<char>)
    ensures
        path_rows(rows, folder).len() == rows.len(),
        forall|i: int|
            0 <= i < rows.len() ==> {
                &&& (#[trigger] path_rows(rows, folder)[i]).id == rows[i].id
                &&& path_rows(rows, folder)[i].is_folder <==> rows[i].stored_type@ == folder
            },
{
}

/// How many of the requests give an item an owner or none.
pub open spec fn owners_set(requests: Seq<Request>) -> int
    decreases requests.len(),
{
    if requests.len() == 0 {
        0
    } else {
        owners_set(requests.drop_last()) + if requests.last() is SetOwner { 1int } else { 0 }
    }
}

proof fn lemma_owners_set_joined(a: Seq<Request>, b: Seq<Request>)
    ensures
        owners_set(a + b) == owners_set(a) + owners_set(b),
    decreases b.len(),
{
    if b.len() == 0 {
        assert(a + b =~= a);
    } else {
        assert((a + b).drop_last() =~= a + b.drop_last());
        lemma_owners_set_joined(a, b.drop_last());
    }
}

/// The orphans that are passed over each lose their owner, in order, and none
/// of them has a directory to be looked in; the request behind them is for the
/// directory of the next orphan, or there is none left.
pub proof fn law_no_orphan_is_passed_over(orphans: Seq<Orphan>, at: int)
    requires
        0 <= at <= orphans.len(),
    ensures
        ({
            let going = attach_from(orphans, at);
            &&& at <= going.0 <= orphans.len()
            &&& going.1.len() == going.0 - at + 1
            &&& forall|k: int|
                at <= k < going.0 ==> (#[trigger] orphans[k]).directory is None && going.1[k - at] == (
                Request::SetOwner { item: orphans[k].id, owner: None })
            &&& going.0 < orphans.len() ==> (orphans[going.0].directory matches Some(directory)
                && going.1.last() == Request::FindVideoUnder(directory))
            &&& going.0 == orphans.len() ==> going.1.last() == Request::PointVersionsAtParents
            &&& owners_set(going.1) == going.0 - at
        }),
    decreases orphans.len() - at,
{
    reveal_with_fuel(owners_set, 2);
    let going = attach_from(orphans, at);
    if at < orphans.len() && orphans[at].directory is None {
        let release = seq![Request::SetOwner { item: orphans[at].id, owner: None }];
        let rest = attach_from(orphans, at + 1);
        law_no_orphan_is_passed_over(orphans, at + 1);
        lemma_owners_set_joined(release, rest.1);
        assert(release.drop_last() =~= Seq::<Request>::empty());
        assert forall|k: int| at <= k < going.0 implies (#[trigger] orphans[k]).directory is None
            && going.1[k - at] == (Request::SetOwner { item: orphans[k].id, owner: None }) by {
            if k > at {
                assert(going.1[k - at] == rest.1[k - (at + 1)]);
            }
        }
    } else {
        assert(going.1.drop_last() =~= Seq::<Request>::empty());
    }
}

impl OwnersState {
    /// How many changes it has made: rows taken away, videos released, and
    /// orphans given an owner or none.
    pub open spec fn changes(self) -> int {
        match self.stage {
            OwnersStage::Folding(fold) => fold.folded,
            OwnersStage::Release { folded } => folded,
            OwnersStage::Orphans { folded, released } => folded + released,
            OwnersStage::Attaching { folded, released, at, .. } => folded + released + at,
            OwnersStage::Pointing { folded, released, attached } => folded + released + attached,
            _ => 0,
        }
    }
}

/// From the orphans on every change is counted once: each step counts the
/// owners that it sets and the rows that the database reports, and the report
/// at the end is the sum.
pub proof fn law_owners_report_every_change(
    state: OwnersState,
    reply: Reply,
    next: OwnersState,
    block: Seq<Request>,
)
    requires
        state.well_formed(),
        state.stage is Release || state.stage is Orphans || state.stage is Attaching
            || state.stage is Pointing,
        state.changes() >= 0,
        state.follows(reply, next, block),
        block != seq![Request::Reject],
    ensures
        ({
            let affected = match reply {
                Reply::Affected(rows) => rows as int,
                _ => 0,
            };
            let changes = state.changes() + affected + owners_set(block);
            match block.last() {
                Request::Finish(n) => n == transaction::capped(changes),
                _ => next.changes() == changes,
            }
        }),
{
    reveal_with_fuel(owners_set, 4);
    match (state.stage, reply) {
        (OwnersStage::Release { .. }, Reply::Affected(_)) => {
            assert(block.drop_last() =~= Seq::<Request>::empty());
        },
        (OwnersStage::Orphans { folded, released }, Reply::OrphanedExtras(rows)) => {
            let orphans = choose|orphans: Seq<Orphan>| #[trigger]
                are_orphans(orphans, rows@) && (next, block) == state.attaching(
                    folded,
                    released,
                    orphans,
                    0,
                );
            law_no_orphan_is_passed_over(orphans, 0);
        },
        (OwnersStage::Attaching { orphans, at, .. }, Reply::Item(owner)) => {
            let attach = seq![Request::SetOwner { item: orphans[at].id, owner }];
            law_no_orphan_is_passed_over(orphans, at + 1);
            lemma_owners_set_joined(attach, attach_from(orphans, at + 1).1);
            assert(attach.drop_last() =~= Seq::<Request>::empty());
        },
        (OwnersStage::Pointing { folded, released, attached }, Reply::Affected(pointed)) => {
            assert(block.drop_last().drop_last().drop_last() =~= Seq::<Request>::empty());
        },
        _ => {},
    }
}

/// Whatever videos are found, each orphan that the repair comes past has the
/// owner that was found for it, or none; no other item changes its owner, and no
/// item comes or goes.
pub proof fn law_orphans_come_past_are_given_an_owner(
    state: OwnersState,
    found: Option<String>,
    next: OwnersState,
    block: Seq<Request>,
    tables: Tables,
)
    requires
        state.well_formed(),
        state.stage is Attaching,
        state.follows(Reply::Item(found), next, block),
        state.stage matches OwnersStage::Attaching { orphans, .. } && forall|i: int, j: int|
            0 <= i < j < orphans.len() ==> (#[trigger] orphans[i]).id@ != (#[trigger] orphans[j]).id@,
    ensures
        ({
            let orphans = state.stage->Attaching_orphans;
            let at = state.stage->Attaching_at;
            let upto = match next.stage {
                OwnersStage::Attaching { at: then, .. } => then,
                _ => orphans.len() as int,
            };
            let after = tables.after_all(block);
            &&& at < upto
            &&& next.stage is Attaching ==> next.stage->Attaching_orphans == orphans
            &&& forall|r: int| #[trigger]
                after.items.contains_key(r) <==> tables.items.contains_key(r)
            &&& forall|r: int| #[trigger]
                after.items.contains_key(r) ==> {
                    &&& after.items[r].id == tables.items[r].id
                    &&& after.items[r].parent == tables.items[r].parent
                    &&& after.items[r].owner == if tables.items[r].id == orphans[at].id@ {
                        match found {
                            Some(video) => Some(video@),
                            None => None,
                        }
                    } else if exists|k: int|
                        at < k < upto && (#[trigger] orphans[k]).id@ == tables.items[r].id {
                        None
                    } else {
                        tables.items[r].owner
                    }
                }
        }),
{
    let orphans = state.stage->Attaching_orphans;
    let at = state.stage->Attaching_at;
    let attach = Request::SetOwner { item: orphans[at].id, owner: found };
    let rest = attach_from(orphans, at + 1).1;
    law_no_orphan_is_passed_over(orphans, at + 1);
    tables::lemma_after_joined(tables, seq![attach], rest);
    tables::lemma_after_push(tables, Seq::empty(), attach);
    assert(Seq::<Request>::empty().push(attach) =~= seq![attach]);
    let mid = tables.after(attach);
    lemma_owners_taken(mid, orphans, at + 1);
    let after = tables.after_all(block);
    let upto = attach_from(orphans, at + 1).0;
    assert forall|r: int| #[trigger] after.items.contains_key(r) implies mid.items.contains_key(r) by {}
    if exists|k: int| at < k < upto && (#[trigger] orphans[k]).id@ == orphans[at].id@ {
        let k = choose|k: int| at < k < upto && (#[trigger] orphans[k]).id@ == orphans[at].id@;
        assert(orphans[at].id@ != orphans[k].id@);
    }
}

proof fn lemma_owners_taken(tables: Tables, orphans: Seq<Orphan>, at: int)
    requires
        0 <= at <= orphans.len(),
    ensures
        ({
            let going = attach_from(orphans, at);
            let after = tables.after_all(going.1);
            &&& forall|r: int| #[trigger]
                after.items.contains_key(r) <==> tables.items.contains_key(r)
            &&& forall|r: int| #[trigger]
                after.items.contains_key(r) ==> {
                    &&& after.items[r].id == tables.items[r].id
                    &&& after.items[r].parent == tables.items[r].parent
                    &&& after.items[r].owner == if exists|k: int|
                        at <= k < going.0 && (#[trigger] orphans[k]).id@ == tables.items[r].id {
                        None
                    } else {
                        tables.items[r].owner
                    }
                }
        }),
    decreases orphans.len() - at,
{
    let going = attach_from(orphans, at);
    let after = tables.after_all(going.1);
    law_no_orphan_is_passed_over(orphans, at);
    if at < orphans.len() && orphans[at].directory is None {
        let release = Request::SetOwner { item: orphans[at].id, owner: None };
        let rest = attach_from(orphans, at + 1);
        tables::lemma_after_joined(tables, seq![release], rest.1);
        tables::lemma_after_push(tables, Seq::empty(), release);
        assert(Seq::<Request>::empty().push(release) =~= seq![release]);
        let mid = tables.after(release);
        lemma_owners_taken(mid, orphans, at + 1);
        assert forall|r: int| #[trigger] after.items.contains_key(r) implies {
            &&& after.items[r].id == tables.items[r].id
            &&& after.items[r].parent == tables.items[r].parent
            &&& after.items[r].owner == if exists|k: int|
                at <= k < going.0 && (#[trigger] orphans[k]).id@ == tables.items[r].id {
                None
            } else {
                tables.items[r].owner
            }
        } by {
            assert(mid.items.contains_key(r));
            if exists|k: int| at + 1 <= k < going.0 && (#[trigger] orphans[k]).id@ == tables.items[r].id {
                let k = choose|k: int|
                    at + 1 <= k < going.0 && (#[trigger] orphans[k]).id@ == tables.items[r].id;
                assert(at <= k < going.0 && orphans[k].id@ == tables.items[r].id);
            } else if orphans[at].id@ == tables.items[r].id {
                assert(at <= at < going.0 && orphans[at].id@ == tables.items[r].id);
            }
        }
    } else {
        tables::lemma_after_push(tables, Seq::empty(), going.1[0]);
        assert(Seq::<Request>::empty().push(going.1[0]) =~= going.1);
    }
}

/// The orphans are the extras that were found, in order and none left out; one
/// without a path has no directory to be looked in.
pub proof fn law_orphans_are_the_extras(
    state: OwnersState,
    rows: Vec<OrphanedExtra>,
    next: OwnersState,
    block: Seq<Request>,
    i: int,
)
    requires
        state.stage is Orphans,
        state.follows(Reply::OrphanedExtras(rows), next, block),
        next.stage is Attaching,
        0 <= i < rows@.len(),
    ensures
        next.stage matches OwnersStage::Attaching { orphans, .. } && {
            &&& orphans.len() == rows@.len()
            &&& orphans[i].id == rows@[i].id
            &&& rows@[i].path is None ==> orphans[i].directory is None
        },
{
    let folded = state.stage->Orphans_folded;
    let released = state.stage->Orphans_released;
    let orphans = choose|orphans: Seq<Orphan>| #[trigger]
        are_orphans(orphans, rows@) && (next, block) == state.attaching(
            folded,
            released,
            orphans,
            0,
        );
    assert(orphans[i].id == rows@[i].id);
}

/// The repair takes every step, in order: the items that share a path are
/// folded, videos are released, orphans are given owners, and versions are
/// pointed at their parents. It waits at each step for the answer to the request
/// of that step, and leaves none out.
pub proof fn law_owners_take_every_step(
    state: OwnersState,
    reply: Reply,
    next: OwnersState,
    block: Seq<Request>,
)
    requires
        state.well_formed(),
        !(state.stage is Marker),
        state.follows(reply, next, block),
        block != seq![Request::Reject],
    ensures
        block.len() > 0,
        match next.stage {
            OwnersStage::Folding(_) => state.stage is Paths || state.stage is Folding,
            OwnersStage::Release { .. } => (state.stage is Paths || state.stage is Folding)
                && block.last() == Request::ReleaseMisownedVideos,
            OwnersStage::Orphans { .. } => state.stage is Release && block.last()
                == Request::SelectOrphanedExtras,
            OwnersStage::Attaching { orphans, at, .. } => (state.stage is Orphans
                || state.stage is Attaching) && Some(block.last()) == match orphans[at].directory {
                Some(directory) => Some(Request::FindVideoUnder(directory)),
                None => None,
            },
            OwnersStage::Pointing { .. } => (state.stage is Orphans || state.stage is Attaching)
                && block.last() == Request::PointVersionsAtParents,
            OwnersStage::Over => state.stage is Pointing && block.last() is Finish,
            _ => false,
        },
{
    match (state.stage, reply) {
        (OwnersStage::Paths, Reply::SharedPaths(rows)) => {
            let groups = choose|groups: Seq<Vec<usize>>|
                {
                    &&& #[trigger] group_views(groups) == path_groups(rows@, rows@.len() as int)
                    &&& (next, block) == state.after_fold(
                        fold::fold_start(
                            FoldKind::Paths,
                            path_rows(rows@, state.folder),
                            groups,
                        ).resumed(),
                    )
                };
            let start = fold::fold_start(FoldKind::Paths, path_rows(rows@, state.folder), groups);
            assert(rows@.len() == rows.len());
            lemma_path_groups(rows@, rows@.len() as int);
            assert forall|g: int, m: int|
                0 <= g < groups.len() && 0 <= m < groups[g]@.len() implies #[trigger] groups[g]@[m]
                < rows@.len() by {
                assert(group_views(groups)[g] == groups[g]@);
                assert(path_groups(rows@, rows@.len() as int)[g][m] < rows@.len());
            }
            fold::law_resuming_counts_deletions(start);
        },
        (OwnersStage::Folding(fold), Reply::Count(count)) => {
            let start = FoldState { counts: fold.counts.push(count), ..fold };
            fold::law_resuming_counts_deletions(start);
        },
        (OwnersStage::Orphans { folded, released }, Reply::OrphanedExtras(rows)) => {
            let orphans = choose|orphans: Seq<Orphan>| #[trigger]
                are_orphans(orphans, rows@) && (next, block) == state.attaching(
                    folded,
                    released,
                    orphans,
                    0,
                );
            law_no_orphan_is_passed_over(orphans, 0);
        },
        (OwnersStage::Attaching { orphans, at, .. }, Reply::Item(owner)) => {
            law_no_orphan_is_passed_over(orphans, at + 1);
        },
        _ => {},
    }
}

} // verus!
